use vstd::prelude::*;

use crate::body::{body_from, has_json, lower_of, MediaContent};
use crate::schema::{ResolutionError, SchemaNode, SchemaType};
use crate::settings::Formatting;
use crate::value::{
    example_items, example_members, example_model, ElementModel, JsonLiteral, ListSpacing, ValueModel,
};
use crate::walker::{convert_spec, first_of_spec, props_spec};

verus! {

broadcast use vstd::std_specs::vec::group_vec_axioms;

/// A read-only schema gives no value, whatever else it declares.
pub proof fn lemma_read_only_gives_nothing(
    t: Seq<SchemaNode>,
    n: SchemaNode,
    k: nat,
    depth: nat,
    f: Formatting,
)
    requires
        n.read_only,
    ensures
        convert_spec(t, n, k, depth, f) == Ok::<Option<ValueModel>, ResolutionError>(None),
{
}

/// A schema with an example gives that example's value, and two such schemas
/// with the same example agree whatever types and compositions they declare.
pub proof fn lemma_example_wins(
    t: Seq<SchemaNode>,
    n: SchemaNode,
    m: SchemaNode,
    k: nat,
    depth: nat,
    f: Formatting,
)
    requires
        !n.read_only,
        !m.read_only,
        n.example is Some,
        m.example == n.example,
    ensures
        convert_spec(t, n, k, depth, f) == Ok::<Option<ValueModel>, ResolutionError>(
            Some(example_model(n.example->0, depth, f)),
        ),
        convert_spec(t, m, k, depth, f) == convert_spec(t, n, k, depth, f),
{
}

/// The value `lit` has the same shape as `v`: the same kind at every place,
/// the same scalars, the same keys in the same order, and every member at
/// every level laid out at the same `depth`.
pub open spec fn mirrors(lit: JsonLiteral, v: ValueModel, depth: nat) -> bool
    decreases lit,
{
    match lit {
        JsonLiteral::Null => v == ValueModel::Null,
        JsonLiteral::Bool(b) => v == ValueModel::Boolean(b),
        JsonLiteral::Number(n) => v == ValueModel::Number(n@),
        JsonLiteral::String(s) => v == ValueModel::Str(s@),
        JsonLiteral::Array(items) => match v {
            ValueModel::List { spacing: _, elements } => mirrors_items(items@, elements, depth),
            _ => false,
        },
        JsonLiteral::Object(members) => match v {
            ValueModel::Object { members: es } => mirrors_members(members@, es, depth),
            _ => false,
        },
    }
}

pub open spec fn mirrors_items(s: Seq<JsonLiteral>, vs: Seq<ValueModel>, depth: nat) -> bool
    decreases s,
{
    s.len() == vs.len() && (s.len() == 0 || (mirrors_items(s.drop_last(), vs.drop_last(), depth)
        && mirrors(s.last(), vs.last(), depth)))
}

pub open spec fn mirrors_members(
    s: Seq<(String, JsonLiteral)>,
    es: Seq<ElementModel>,
    depth: nat,
) -> bool
    decreases s,
{
    s.len() == es.len() && (s.len() == 0 || (mirrors_members(s.drop_last(), es.drop_last(), depth)
        && es.last().key == s.last().0@ && es.last().depth == depth && mirrors(
        s.last().1,
        es.last().value,
        depth,
    )))
}

/// Materializing an example and reading it back gives the example again:
/// every kind, scalar and key is kept, in order, and nested members keep the
/// caller's depth.
pub proof fn lemma_example_round_trip(lit: JsonLiteral, depth: nat, f: Formatting)
    ensures
        mirrors(lit, example_model(lit, depth, f), depth),
    decreases lit,
{
    match lit {
        JsonLiteral::Array(items) => {
            assert(decreases_to!(lit => lit->Array_0));
            lemma_items_round_trip(items@, depth, f);
        },
        JsonLiteral::Object(members) => {
            assert(decreases_to!(lit => lit->Object_0));
            lemma_members_round_trip(members@, depth, f);
        },
        _ => {},
    }
}

proof fn lemma_items_round_trip(s: Seq<JsonLiteral>, depth: nat, f: Formatting)
    ensures
        mirrors_items(s, example_items(s, depth, f), depth),
    decreases s,
{
    if s.len() > 0 {
        lemma_items_round_trip(s.drop_last(), depth, f);
        lemma_example_round_trip(s.last(), depth, f);
        let prev = example_items(s.drop_last(), depth, f);
        assert(prev.push(example_model(s.last(), depth, f)).drop_last() =~= prev);
    }
}

proof fn lemma_members_round_trip(s: Seq<(String, JsonLiteral)>, depth: nat, f: Formatting)
    ensures
        mirrors_members(s, example_members(s, depth, f), depth),
    decreases s,
{
    if s.len() > 0 {
        lemma_members_round_trip(s.drop_last(), depth, f);
        assert(decreases_to!(s => s.last()));
        lemma_example_round_trip(s.last().1, depth, f);
        let prev = example_members(s.drop_last(), depth, f);
        let el = ElementModel {
            key: s.last().0@,
            value: example_model(s.last().1, depth, f),
            depth,
            formatting: f,
        };
        assert(prev.push(el).drop_last() =~= prev);
    }
}

/// What the schema that reference `j` names converts to at `depth`.
pub open spec fn referenced_result(
    t: Seq<SchemaNode>,
    j: usize,
    k: nat,
    depth: nat,
    f: Formatting,
) -> Result<Option<ValueModel>, ResolutionError> {
    if j >= t.len() {
        Err(ResolutionError { reference: j })
    } else if j >= k {
        Ok(None)
    } else {
        convert_spec(t, t[j as int], j as nat, depth, f)
    }
}

/// The members of an object are some of its declared properties, in
/// declaration order: `idx` gives the property each member comes from, and a
/// property is left out only when its schema gives no value.
pub proof fn lemma_members_follow_properties(
    t: Seq<SchemaNode>,
    s: Seq<(String, usize)>,
    k: nat,
    depth: nat,
    f: Formatting,
) -> (idx: Seq<int>)
    requires
        props_spec(t, s, k, depth, f) is Ok,
    ensures
        ({
            let es = props_spec(t, s, k, depth, f)->Ok_0;
            &&& es.len() <= s.len()
            &&& idx.len() == es.len()
            &&& forall|m: int| 0 <= m < idx.len() ==> 0 <= #[trigger] idx[m] < s.len()
            &&& forall|a: int, b: int| 0 <= a < b < idx.len() ==> #[trigger] idx[a] < #[trigger] idx[b]
            &&& forall|m: int|
                0 <= m < idx.len() ==> {
                    &&& (#[trigger] es[m]).key == s[idx[m]].0@
                    &&& es[m].depth == depth
                    &&& referenced_result(t, s[idx[m]].1, k, depth + 1, f) == Ok::<
                        Option<ValueModel>,
                        ResolutionError,
                    >(Some(es[m].value))
                }
            &&& forall|i: int|
                0 <= i < s.len() && !idx.contains(i) ==> referenced_result(
                    t,
                    #[trigger] s[i].1,
                    k,
                    depth + 1,
                    f,
                ) == Ok::<Option<ValueModel>, ResolutionError>(None)
        }),
    decreases s.len(),
{
    if s.len() == 0 {
        Seq::empty()
    } else {
        let pre = s.drop_last();
        let prev = lemma_members_follow_properties(t, pre, k, depth, f);
        let acc = props_spec(t, pre, k, depth, f)->Ok_0;
        let last = s.len() - 1;
        assert(s.last() == s[last]);
        assert forall|i: int| 0 <= i < pre.len() implies #[trigger] s[i] == pre[i] by {}
        match referenced_result(t, s.last().1, k, depth + 1, f) {
            Ok(Some(v)) => {
                let idx = prev.push(last);
                let es = props_spec(t, s, k, depth, f)->Ok_0;
                assert(es == acc.push(ElementModel { key: s.last().0@, value: v, depth, formatting: f }));
                assert forall|i: int| 0 <= i < s.len() && !idx.contains(i) implies referenced_result(
                    t,
                    #[trigger] s[i].1,
                    k,
                    depth + 1,
                    f,
                ) == Ok::<Option<ValueModel>, ResolutionError>(None) by {
                    if i == last {
                        assert(idx[idx.len() - 1] == last);
                    } else {
                        assert(!prev.contains(i)) by {
                            if prev.contains(i) {
                                let m = choose|m: int| 0 <= m < prev.len() && prev[m] == i;
                                assert(idx[m] == i);
                            }
                        }
                    }
                }
                assert forall|m: int| 0 <= m < idx.len() implies {
                    &&& (#[trigger] es[m]).key == s[idx[m]].0@
                    &&& es[m].depth == depth
                    &&& referenced_result(t, s[idx[m]].1, k, depth + 1, f) == Ok::<
                        Option<ValueModel>,
                        ResolutionError,
                    >(Some(es[m].value))
                } by {
                    if m < prev.len() {
                        assert(es[m] == acc[m]);
                        assert(idx[m] == prev[m]);
                    }
                }
                idx
            },
            _ => {
                assert forall|i: int| 0 <= i < s.len() && !prev.contains(i) implies referenced_result(
                    t,
                    #[trigger] s[i].1,
                    k,
                    depth + 1,
                    f,
                ) == Ok::<Option<ValueModel>, ResolutionError>(None) by {
                    if i == last {
                    }
                }
                prev
            },
        }
    }
}

/// An object schema gives an object whose members follow its properties as
/// [`lemma_members_follow_properties`] states.
pub proof fn lemma_object_members(
    t: Seq<SchemaNode>,
    n: SchemaNode,
    k: nat,
    depth: nat,
    f: Formatting,
)
    requires
        !n.read_only,
        n.example is None,
        n.schema_type == Some(SchemaType::Object),
        convert_spec(t, n, k, depth, f) is Ok,
    ensures
        convert_spec(t, n, k, depth, f) == Ok::<Option<ValueModel>, ResolutionError>(
            Some(ValueModel::Object { members: props_spec(t, n.properties@, k, depth, f)->Ok_0 }),
        ),
        props_spec(t, n.properties@, k, depth, f)->Ok_0.len() <= n.properties.len(),
{
    let _idx = lemma_members_follow_properties(t, n.properties@, k, depth, f);
}

/// A schema without example or type whose first composition is `oneOf` or
/// `anyOf` gives what its first alternative gives; the other alternatives are
/// never looked at.
pub proof fn lemma_first_alternative_only(
    t: Seq<SchemaNode>,
    n: SchemaNode,
    k: nat,
    depth: nat,
    f: Formatting,
)
    requires
        !n.read_only,
        n.example is None,
        n.schema_type is None,
        n.all_of.len() == 0,
        n.one_of.len() > 0 || n.any_of.len() > 0,
    ensures
        convert_spec(t, n, k, depth, f) == referenced_result(
            t,
            if n.one_of.len() > 0 { n.one_of@[0] } else { n.any_of@[0] },
            k,
            depth,
            f,
        ),
{
    if n.one_of.len() > 0 {
        assert(convert_spec(t, n, k, depth, f) == first_of_spec(t, n.one_of@, k, depth, f));
    } else {
        assert(convert_spec(t, n, k, depth, f) == first_of_spec(t, n.any_of@, k, depth, f));
    }
}

/// An array schema without items gives an empty list spaced by a single
/// newline; one whose items give no value gives an empty list spaced by the
/// formatting. The two spacings differ.
pub proof fn lemma_empty_array_spacing(
    t: Seq<SchemaNode>,
    n: SchemaNode,
    k: nat,
    depth: nat,
    f: Formatting,
)
    requires
        !n.read_only,
        n.example is None,
        n.schema_type == Some(SchemaType::Array),
    ensures
        n.items is None ==> convert_spec(t, n, k, depth, f) == Ok::<Option<ValueModel>, ResolutionError>(
            Some(ValueModel::List { spacing: ListSpacing::Newline, elements: seq![] }),
        ),
        n.items matches Some(j) && j < k && referenced_result(t, j, k, depth, f) == Ok::<
            Option<ValueModel>,
            ResolutionError,
        >(None) ==> convert_spec(t, n, k, depth, f) == Ok::<Option<ValueModel>, ResolutionError>(
            Some(ValueModel::List { spacing: ListSpacing::Styled(f), elements: seq![] }),
        ),
        ListSpacing::Newline != ListSpacing::Styled(f),
{
}

/// A schema with no example, no type and no composition gives null.
pub proof fn lemma_untyped_gives_null(
    t: Seq<SchemaNode>,
    n: SchemaNode,
    k: nat,
    depth: nat,
    f: Formatting,
)
    requires
        !n.read_only,
        n.example is None,
        n.schema_type is None,
        n.all_of.len() == 0,
        n.one_of.len() == 0,
        n.any_of.len() == 0,
    ensures
        convert_spec(t, n, k, depth, f) == Ok::<Option<ValueModel>, ResolutionError>(Some(ValueModel::Null)),
{
}

/// An object has as many members as declared properties exactly when no
/// property's schema gives "no value".
pub proof fn lemma_all_properties_kept(
    t: Seq<SchemaNode>,
    s: Seq<(String, usize)>,
    k: nat,
    depth: nat,
    f: Formatting,
)
    requires
        props_spec(t, s, k, depth, f) is Ok,
    ensures
        props_spec(t, s, k, depth, f)->Ok_0.len() <= s.len(),
        props_spec(t, s, k, depth, f)->Ok_0.len() == s.len() <==> forall|i: int|
            0 <= i < s.len() ==> referenced_result(t, #[trigger] s[i].1, k, depth + 1, f)
                != Ok::<Option<ValueModel>, ResolutionError>(None),
    decreases s.len(),
{
    if s.len() > 0 {
        let pre = s.drop_last();
        lemma_all_properties_kept(t, pre, k, depth, f);
        let last = s.len() - 1;
        assert(s.last() == s[last]);
        assert forall|i: int| 0 <= i < pre.len() implies #[trigger] s[i] == pre[i] by {}
        if referenced_result(t, s.last().1, k, depth + 1, f) == Ok::<Option<ValueModel>, ResolutionError>(None) {
        } else {
            if forall|i: int|
                0 <= i < pre.len() ==> referenced_result(t, #[trigger] pre[i].1, k, depth + 1, f)
                    != Ok::<Option<ValueModel>, ResolutionError>(None) {
                assert forall|i: int|
                    0 <= i < s.len() implies referenced_result(t, #[trigger] s[i].1, k, depth + 1, f)
                    != Ok::<Option<ValueModel>, ResolutionError>(None) by {
                    if i < last {
                        assert(s[i] == pre[i]);
                    }
                }
            } else {
                let i = choose|i: int|
                    0 <= i < pre.len() && referenced_result(t, #[trigger] pre[i].1, k, depth + 1, f)
                        == Ok::<Option<ValueModel>, ResolutionError>(None);
                assert(s[i] == pre[i]);
            }
        }
    }
}

/// A request body with no JSON-like content type gives no body, whatever
/// schemas its entries name.
pub proof fn lemma_no_json_content(t: Seq<SchemaNode>, s: Seq<MediaContent>, f: Formatting)
    requires
        forall|x: int| 0 <= x < s.len() ==> !has_json(lower_of(#[trigger] s[x].media_type@)),
    ensures
        body_from(t, s, 0, f) == Ok::<Option<ValueModel>, ResolutionError>(None),
{
    lemma_skip_entries(t, s, 0, s.len() as int, f);
}

/// The first JSON-like entry that names a schema decides the body: that
/// schema converted at depth one, or the error of its dangling reference.
/// Entries before it are not read, whatever their schemas hold.
pub proof fn lemma_first_json_content(
    t: Seq<SchemaNode>,
    s: Seq<MediaContent>,
    m: int,
    j: usize,
    f: Formatting,
)
    requires
        0 <= m < s.len(),
        has_json(lower_of(s[m].media_type@)),
        s[m].schema == Some(j),
        forall|x: int|
            0 <= x < m ==> !has_json(lower_of(#[trigger] s[x].media_type@)) || s[x].schema is None,
    ensures
        body_from(t, s, 0, f) == (if j >= t.len() {
            Err(ResolutionError { reference: j })
        } else {
            convert_spec(t, t[j as int], t.len(), 1, f)
        }),
{
    lemma_skip_entries(t, s, 0, m, f);
}

/// Entries from `i` up to `m` that are not JSON-like or name no schema are
/// passed over.
proof fn lemma_skip_entries(t: Seq<SchemaNode>, s: Seq<MediaContent>, i: int, m: int, f: Formatting)
    requires
        0 <= i <= m <= s.len(),
        forall|x: int|
            i <= x < m ==> !has_json(lower_of(#[trigger] s[x].media_type@)) || s[x].schema is None,
    ensures
        body_from(t, s, i, f) == body_from(t, s, m, f),
    decreases m - i,
{
    if i < m {
        lemma_skip_entries(t, s, i + 1, m, f);
    }
}

} // verus!
