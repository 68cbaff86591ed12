use vstd::prelude::*;
use vstd::string::StringExecFns;

use crate::schema::{ref_below, refs_below, ResolutionError, SchemaNode, SchemaTable, SchemaType};
use crate::settings::{Formatting, SpecBodySettings};
use crate::value::{
    elements_view, example_model, example_to_json, values_view, ElementModel, ExampleValue,
    ListSpacing, ObjectElement, ValueModel,
};

verus! {

/// The value a scalar type stands for; `None` for arrays and objects.
pub open spec fn scalar_default(t: SchemaType) -> Option<ValueModel> {
    match t {
        SchemaType::Boolean => Some(ValueModel::Boolean(true)),
        SchemaType::Integer => Some(ValueModel::Number("3"@)),
        SchemaType::Number => Some(ValueModel::Number("3.3"@)),
        SchemaType::String => Some(ValueModel::Str("string"@)),
        SchemaType::Array => None,
        SchemaType::Object => None,
    }
}

/// What a schema node converts to, read against the nodes `t`, when every
/// reference it holds is dangling or below `k`.
pub open spec fn convert_spec(
    t: Seq<SchemaNode>,
    n: SchemaNode,
    k: nat,
    depth: nat,
    f: Formatting,
) -> Result<Option<ValueModel>, ResolutionError>
    decreases k, 1nat, 0nat,
{
    if n.read_only {
        Ok(None)
    } else if n.example is Some {
        Ok(Some(example_model(n.example->0, depth, f)))
    } else if n.schema_type is Some {
        let ty = n.schema_type->0;
        if scalar_default(ty) is Some {
            Ok(scalar_default(ty))
        } else if ty == SchemaType::Array {
            match n.items {
                None => Ok(Some(ValueModel::List { spacing: ListSpacing::Newline, elements: seq![] })),
                Some(j) => if j >= t.len() {
                    Err(ResolutionError { reference: j })
                } else if j >= k {
                    Ok(None)
                } else {
                    match convert_spec(t, t[j as int], j as nat, depth, f) {
                        Err(e) => Err(e),
                        Ok(None) => Ok(
                            Some(ValueModel::List { spacing: ListSpacing::Styled(f), elements: seq![] }),
                        ),
                        Ok(Some(v)) => Ok(
                            Some(ValueModel::List { spacing: ListSpacing::Styled(f), elements: seq![v] }),
                        ),
                    }
                },
            }
        } else {
            match props_spec(t, n.properties@, k, depth, f) {
                Err(e) => Err(e),
                Ok(es) => Ok(Some(ValueModel::Object { members: es })),
            }
        }
    } else if n.all_of.len() > 0 {
        match merge_spec(t, n.all_of@, k, depth, f) {
            Err(e) => Err(e),
            Ok(es) => Ok(Some(ValueModel::Object { members: es })),
        }
    } else if n.one_of.len() > 0 {
        first_of_spec(t, n.one_of@, k, depth, f)
    } else if n.any_of.len() > 0 {
        first_of_spec(t, n.any_of@, k, depth, f)
    } else {
        Ok(Some(ValueModel::Null))
    }
}

/// The members that the properties `s` give, each converted one level deeper
/// and laid out at `depth`; a property that gives no value is left out.
pub open spec fn props_spec(
    t: Seq<SchemaNode>,
    s: Seq<(String, usize)>,
    k: nat,
    depth: nat,
    f: Formatting,
) -> Result<Seq<ElementModel>, ResolutionError>
    decreases k, 0nat, s.len(),
{
    if s.len() == 0 {
        Ok(seq![])
    } else {
        match props_spec(t, s.drop_last(), k, depth, f) {
            Err(e) => Err(e),
            Ok(acc) => {
                let j = s.last().1;
                if j >= t.len() {
                    Err(ResolutionError { reference: j })
                } else if j >= k {
                    Ok(acc)
                } else {
                    match convert_spec(t, t[j as int], j as nat, depth + 1, f) {
                        Err(e) => Err(e),
                        Ok(None) => Ok(acc),
                        Ok(Some(v)) => Ok(
                            acc.push(
                                ElementModel { key: s.last().0@, value: v, depth, formatting: f },
                            ),
                        ),
                    }
                }
            },
        }
    }
}

/// The members of all the schemas `s` refers to, one after the other.
pub open spec fn merge_spec(
    t: Seq<SchemaNode>,
    s: Seq<usize>,
    k: nat,
    depth: nat,
    f: Formatting,
) -> Result<Seq<ElementModel>, ResolutionError>
    decreases k, 0nat, s.len(),
{
    if s.len() == 0 {
        Ok(seq![])
    } else {
        match merge_spec(t, s.drop_last(), k, depth, f) {
            Err(e) => Err(e),
            Ok(acc) => {
                let j = s.last();
                if j >= t.len() {
                    Err(ResolutionError { reference: j })
                } else if j >= k {
                    Ok(acc)
                } else {
                    match props_spec(t, t[j as int].properties@, j as nat, depth, f) {
                        Err(e) => Err(e),
                        Ok(es) => Ok(acc + es),
                    }
                }
            },
        }
    }
}

/// What the first alternative of `s` converts to, at the same depth.
pub open spec fn first_of_spec(
    t: Seq<SchemaNode>,
    s: Seq<usize>,
    k: nat,
    depth: nat,
    f: Formatting,
) -> Result<Option<ValueModel>, ResolutionError>
    decreases k, 0nat, 0nat,
{
    if s.len() == 0 {
        Ok(Some(ValueModel::Object { members: seq![] }))
    } else {
        let j = s[0];
        if j >= t.len() {
            Err(ResolutionError { reference: j })
        } else if j >= k {
            Ok(None)
        } else {
            convert_spec(t, t[j as int], j as nat, depth, f)
        }
    }
}

pub open spec fn result_view(r: Result<Option<ExampleValue>, ResolutionError>) -> Result<
    Option<ValueModel>,
    ResolutionError,
> {
    match r {
        Ok(Some(v)) => Ok(Some(v@)),
        Ok(None) => Ok(None),
        Err(e) => Err(e),
    }
}

/// Once the properties up to `i` fail, all of them fail with the same error.
proof fn lemma_props_err_extends(
    t: Seq<SchemaNode>,
    s: Seq<(String, usize)>,
    k: nat,
    depth: nat,
    f: Formatting,
    i: int,
)
    requires
        0 <= i <= s.len(),
        props_spec(t, s.take(i), k, depth, f) is Err,
    ensures
        props_spec(t, s, k, depth, f) == props_spec(t, s.take(i), k, depth, f),
    decreases s.len(),
{
    if i == s.len() {
        assert(s.take(i) =~= s);
    } else {
        assert(s.drop_last().take(i) =~= s.take(i));
        lemma_props_err_extends(t, s.drop_last(), k, depth, f, i);
    }
}

/// Once the schemas up to `i` fail, all of them fail with the same error.
proof fn lemma_merge_err_extends(
    t: Seq<SchemaNode>,
    s: Seq<usize>,
    k: nat,
    depth: nat,
    f: Formatting,
    i: int,
)
    requires
        0 <= i <= s.len(),
        merge_spec(t, s.take(i), k, depth, f) is Err,
    ensures
        merge_spec(t, s, k, depth, f) == merge_spec(t, s.take(i), k, depth, f),
    decreases s.len(),
{
    if i == s.len() {
        assert(s.take(i) =~= s);
    } else {
        assert(s.drop_last().take(i) =~= s.take(i));
        lemma_merge_err_extends(t, s.drop_last(), k, depth, f, i);
    }
}

enum SimpleJsonValue {
    Scalar(ExampleValue),
    Array,
    Object,
}

/// The default value of a declared type: a literal for a scalar type, and for
/// arrays and objects only which of the two it is.
fn default_json_value_from_schema_type(ty: SchemaType) -> (r: SimpleJsonValue)
    ensures
        match r {
            SimpleJsonValue::Scalar(v) => scalar_default(ty) == Some(v@),
            SimpleJsonValue::Array => ty == SchemaType::Array,
            SimpleJsonValue::Object => ty == SchemaType::Object,
        },
{
    match ty {
        SchemaType::Boolean => SimpleJsonValue::Scalar(ExampleValue::Boolean(true)),
        SchemaType::Integer => SimpleJsonValue::Scalar(
            ExampleValue::Number(<String as StringExecFns>::from_str("3")),
        ),
        SchemaType::Number => SimpleJsonValue::Scalar(
            ExampleValue::Number(<String as StringExecFns>::from_str("3.3")),
        ),
        SchemaType::String => SimpleJsonValue::Scalar(
            ExampleValue::String(<String as StringExecFns>::from_str("string")),
        ),
        SchemaType::Array => SimpleJsonValue::Array,
        SchemaType::Object => SimpleJsonValue::Object,
    }
}


/// Converts the properties `props` one level deeper and appends the members
/// they give to `out`.
fn append_properties(
    table: &SchemaTable,
    props: &Vec<(String, usize)>,
    Ghost(k): Ghost<nat>,
    depth: usize,
    settings: &SpecBodySettings,
    out: &mut Vec<ObjectElement>,
) -> (r: Result<(), ResolutionError>)
    requires
        table.wf(),
        forall|i: int| 0 <= i < props.len() ==> ref_below(#[trigger] props@[i].1, k, table.len()),
        depth + k <= usize::MAX,
    ensures
        match props_spec(table.nodes@, props@, k, depth as nat, settings.formatting) {
            Ok(es) => r is Ok && elements_view(final(out)@) == elements_view(old(out)@) + es,
            Err(e) => r == Err::<(), ResolutionError>(e),
        },
    decreases k, 0nat,
{
    let ghost t = table.nodes@;
    let ghost f = settings.formatting;
    let ghost start = elements_view(out@);
    let mut i: usize = 0;
    assert(props@.take(0) =~= seq![]);
    assert(start + seq![] =~= start);
    while i < props.len()
        invariant
            0 <= i <= props.len(),
            t == table.nodes@,
            f == settings.formatting,
            start == elements_view(old(out)@),
            table.wf(),
            forall|i: int| 0 <= i < props.len() ==> ref_below(#[trigger] props@[i].1, k, table.len()),
            depth + k <= usize::MAX,
            match props_spec(t, props@.take(i as int), k, depth as nat, f) {
                Ok(es) => elements_view(out@) == start + es,
                Err(_) => false,
            },
        decreases props.len() - i,
    {
        let ghost pre = props@.take(i as int);
        let ghost cur = props@.take(i + 1);
        assert(cur.drop_last() =~= pre);
        assert(cur.last() == props@[i as int]);
        let j = props[i].1;
        match table.resolve(j) {
            Err(e) => {
                proof {
                    lemma_props_err_extends(t, props@, k, depth as nat, f, i + 1);
                }
                return Err(e);
            },
            Ok(child) => {
                assert(ref_below(props@[i as int].1, k, table.len()));
                assert(refs_below(t[j as int], j as nat, table.len()));
                let v = walk(table, child, Ghost(j as nat), depth + 1, settings);
                match v {
                    Err(e) => {
                        proof {
                            lemma_props_err_extends(t, props@, k, depth as nat, f, i + 1);
                        }
                        return Err(e);
                    },
                    Ok(None) => {},
                    Ok(Some(value)) => {
                        let el = ObjectElement {
                            key: props[i].0.clone(),
                            value,
                            depth,
                            formatting: settings.formatting,
                        };
                        let ghost before = out@;
                        out.push(el);
                        proof {
                            assert(out@.drop_last() =~= before);
                            assert(elements_view(out@) == elements_view(before).push(el@));
                            let es = props_spec(t, pre, k, depth as nat, f)->Ok_0;
                            assert(start + es.push(el@) =~= (start + es).push(el@));
                        }
                    },
                }
            },
        }
        i += 1;
    }
    assert(props@.take(props.len() as int) =~= props@);
    Ok(())
}

/// Merges the properties of every schema that `all_of` refers to into one
/// object.
pub(crate) fn json_obj_from_allof(
    table: &SchemaTable,
    all_of: &Vec<usize>,
    Ghost(k): Ghost<nat>,
    depth: usize,
    settings: &SpecBodySettings,
) -> (r: Result<ExampleValue, ResolutionError>)
    requires
        table.wf(),
        forall|i: int| 0 <= i < all_of.len() ==> ref_below(#[trigger] all_of@[i], k, table.len()),
        depth + k <= usize::MAX,
    ensures
        match merge_spec(table.nodes@, all_of@, k, depth as nat, settings.formatting) {
            Ok(es) => r is Ok && r->Ok_0@ == ValueModel::Object { members: es },
            Err(e) => r == Err::<ExampleValue, ResolutionError>(e),
        },
    decreases k, 0nat,
{
    let ghost t = table.nodes@;
    let ghost f = settings.formatting;
    let mut out: Vec<ObjectElement> = Vec::new();
    let mut i: usize = 0;
    assert(all_of@.take(0) =~= seq![]);
    assert(elements_view(out@) =~= seq![]);
    while i < all_of.len()
        invariant
            0 <= i <= all_of.len(),
            t == table.nodes@,
            f == settings.formatting,
            table.wf(),
            forall|i: int| 0 <= i < all_of.len() ==> ref_below(#[trigger] all_of@[i], k, table.len()),
            depth + k <= usize::MAX,
            match merge_spec(t, all_of@.take(i as int), k, depth as nat, f) {
                Ok(es) => elements_view(out@) == es,
                Err(_) => false,
            },
        decreases all_of.len() - i,
    {
        let ghost pre = all_of@.take(i as int);
        let ghost cur = all_of@.take(i + 1);
        assert(cur.drop_last() =~= pre);
        assert(cur.last() == all_of@[i as int]);
        let j = all_of[i];
        match table.resolve(j) {
            Err(e) => {
                proof {
                    lemma_merge_err_extends(t, all_of@, k, depth as nat, f, i + 1);
                }
                return Err(e);
            },
            Ok(member) => {
                assert(ref_below(all_of@[i as int], k, table.len()));
                assert(refs_below(t[j as int], j as nat, table.len()));
                let res = append_properties(
                    table,
                    &member.properties,
                    Ghost(j as nat),
                    depth,
                    settings,
                    &mut out,
                );
                if let Err(e) = res {
                    proof {
                        lemma_merge_err_extends(t, all_of@, k, depth as nat, f, i + 1);
                    }
                    return Err(e);
                }
            },
        }
        i += 1;
    }
    assert(all_of@.take(all_of.len() as int) =~= all_of@);
    Ok(ExampleValue::Object { members: out })
}

/// Converts the first alternative that `alternatives` refers to; the others
/// are not looked at.
pub(crate) fn json_obj_from_anyof(
    table: &SchemaTable,
    alternatives: &Vec<usize>,
    Ghost(k): Ghost<nat>,
    depth: usize,
    settings: &SpecBodySettings,
) -> (r: Result<Option<ExampleValue>, ResolutionError>)
    requires
        table.wf(),
        forall|i: int| 0 <= i < alternatives.len() ==> ref_below(#[trigger] alternatives@[i], k, table.len()),
        depth + k <= usize::MAX,
    ensures
        result_view(r) == first_of_spec(table.nodes@, alternatives@, k, depth as nat, settings.formatting),
    decreases k, 0nat,
{
    if alternatives.len() == 0 {
        let members: Vec<ObjectElement> = Vec::new();
        assert(elements_view(members@) =~= seq![]);
        return Ok(Some(ExampleValue::Object { members }));
    }
    let j = alternatives[0];
    match table.resolve(j) {
        Err(e) => Err(e),
        Ok(first) => {
            assert(ref_below(alternatives@[0], k, table.len()));
            walk(table, first, Ghost(j as nat), depth, settings)
        },
    }
}

fn walk(
    table: &SchemaTable,
    node: &SchemaNode,
    Ghost(k): Ghost<nat>,
    depth: usize,
    settings: &SpecBodySettings,
) -> (r: Result<Option<ExampleValue>, ResolutionError>)
    requires
        table.wf(),
        refs_below(*node, k, table.len()),
        depth + k <= usize::MAX,
    ensures
        result_view(r) == convert_spec(table.nodes@, *node, k, depth as nat, settings.formatting),
    decreases k, 1nat,
{
    if node.read_only {
        return Ok(None);
    }
    if let Some(ex) = &node.example {
        return Ok(Some(example_to_json(ex, depth, settings)));
    }
    if let Some(ty) = node.schema_type {
        return match default_json_value_from_schema_type(ty) {
            SimpleJsonValue::Scalar(v) => Ok(Some(v)),
            SimpleJsonValue::Array => match node.items {
                None => {
                    let elements: Vec<ExampleValue> = Vec::new();
                    assert(values_view(elements@) =~= seq![]);
                    Ok(Some(ExampleValue::List { spacing: ListSpacing::Newline, elements }))
                },
                Some(j) => match table.resolve(j) {
                    Err(e) => Err(e),
                    Ok(item) => {
                        let mut elements: Vec<ExampleValue> = Vec::new();
                        match walk(table, item, Ghost(j as nat), depth, settings) {
                            Err(e) => {
                                return Err(e);
                            },
                            Ok(None) => {},
                            Ok(Some(v)) => {
                                elements.push(v);
                                assert(elements@.drop_last() =~= seq![]);
                            },
                        }
                        assert(values_view(seq![]) =~= seq![]);
                        Ok(
                            Some(
                                ExampleValue::List {
                                    spacing: ListSpacing::Styled(settings.formatting),
                                    elements,
                                },
                            ),
                        )
                    },
                },
            },
            SimpleJsonValue::Object => {
                let mut members: Vec<ObjectElement> = Vec::new();
                assert(elements_view(members@) =~= seq![]);
                match append_properties(
                    table,
                    &node.properties,
                    Ghost(k),
                    depth,
                    settings,
                    &mut members,
                ) {
                    Err(e) => Err(e),
                    Ok(()) => {
                        proof {
                            let es = props_spec(
                                table.nodes@,
                                node.properties@,
                                k,
                                depth as nat,
                                settings.formatting,
                            )->Ok_0;
                            assert(seq![] + es =~= es);
                        }
                        Ok(Some(ExampleValue::Object { members }))
                    },
                }
            },
        };
    }
    if node.all_of.len() > 0 {
        return match json_obj_from_allof(table, &node.all_of, Ghost(k), depth, settings) {
            Err(e) => Err(e),
            Ok(v) => Ok(Some(v)),
        };
    }
    if node.one_of.len() > 0 {
        return json_obj_from_anyof(table, &node.one_of, Ghost(k), depth, settings);
    }
    // oneOf and anyOf are treated alike: only the first alternative is used.
    if node.any_of.len() > 0 {
        return json_obj_from_anyof(table, &node.any_of, Ghost(k), depth, settings);
    }
    Ok(Some(ExampleValue::Null))
}

/// Converts a schema node into an example value, with members laid out from
/// `depth` on.
pub fn parse_json_from_schema(
    node: &SchemaNode,
    table: &SchemaTable,
    depth: usize,
    settings: &SpecBodySettings,
) -> (r: Result<Option<ExampleValue>, ResolutionError>)
    requires
        table.wf(),
        depth + table.len() <= usize::MAX,
    ensures
        result_view(r) == convert_spec(
            table.nodes@,
            *node,
            table.len(),
            depth as nat,
            settings.formatting,
        ),
{
    walk(table, node, Ghost(table.len()), depth, settings)
}

} // verus!
