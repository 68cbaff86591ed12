use vstd::prelude::*;

use crate::settings::{Formatting, SpecBodySettings};

verus! {

broadcast use vstd::std_specs::vec::group_vec_axioms;

/// The spacing placed before the elements of a list.
#[derive(Clone, Copy, PartialEq, Eq, Debug, Structural)]
pub enum ListSpacing {
    /// A single newline, used for an array schema that declares no items.
    Newline,
    /// The list spacing that the given formatting asks for.
    Styled(Formatting),
}

/// An example JSON value, with the layout hints that the renderer needs.
#[derive(PartialEq, Eq, Debug)]
pub enum ExampleValue {
    Null,
    Boolean(bool),
    /// A number in its textual form.
    Number(String),
    /// A string literal, rendered as a template without placeholders.
    String(String),
    List { spacing: ListSpacing, elements: Vec<ExampleValue> },
    Object { members: Vec<ObjectElement> },
}

/// One member of an object, laid out for the nesting depth it stands at.
#[derive(PartialEq, Eq, Debug)]
pub struct ObjectElement {
    pub key: String,
    pub value: ExampleValue,
    pub depth: usize,
    pub formatting: Formatting,
}

/// A literal JSON value as carried by a schema's `example`.
#[derive(PartialEq, Eq, Debug)]
pub enum JsonLiteral {
    Null,
    Bool(bool),
    /// A number in its textual form.
    Number(String),
    String(String),
    Array(Vec<JsonLiteral>),
    /// Members in the order the source value holds them.
    Object(Vec<(String, JsonLiteral)>),
}

/// The mathematical form of an [`ExampleValue`].
pub enum ValueModel {
    Null,
    Boolean(bool),
    Number(Seq<char>),
    Str(Seq<char>),
    List { spacing: ListSpacing, elements: Seq<ValueModel> },
    Object { members: Seq<ElementModel> },
}

/// The mathematical form of an [`ObjectElement`].
pub struct ElementModel {
    pub key: Seq<char>,
    pub value: ValueModel,
    pub depth: nat,
    pub formatting: Formatting,
}

pub open spec fn values_view(s: Seq<ExampleValue>) -> Seq<ValueModel>
    decreases s,
{
    if s.len() == 0 {
        Seq::empty()
    } else {
        values_view(s.drop_last()).push(s.last().view())
    }
}

pub open spec fn elements_view(s: Seq<ObjectElement>) -> Seq<ElementModel>
    decreases s,
{
    if s.len() == 0 {
        Seq::empty()
    } else {
        elements_view(s.drop_last()).push(s.last().view())
    }
}

impl ObjectElement {
    pub open spec fn view(self) -> ElementModel
        decreases self,
    {
        ElementModel {
            key: self.key@,
            value: self.value.view(),
            depth: self.depth as nat,
            formatting: self.formatting,
        }
    }
}

impl ExampleValue {
    pub open spec fn view(self) -> ValueModel
        decreases self,
    {
        match self {
            ExampleValue::Null => ValueModel::Null,
            ExampleValue::Boolean(b) => ValueModel::Boolean(b),
            ExampleValue::Number(n) => ValueModel::Number(n@),
            ExampleValue::String(s) => ValueModel::Str(s@),
            ExampleValue::List { spacing, elements } => ValueModel::List {
                spacing,
                elements: values_view(elements@),
            },
            ExampleValue::Object { members } => ValueModel::Object {
                members: elements_view(members@),
            },
        }
    }
}

/// The value that an explicit example becomes: the same shape, with lists
/// spaced by the formatting and members laid out at `depth`.
pub open spec fn example_model(lit: JsonLiteral, depth: nat, f: Formatting) -> ValueModel
    decreases lit,
{
    match lit {
        JsonLiteral::Null => ValueModel::Null,
        JsonLiteral::Bool(b) => ValueModel::Boolean(b),
        JsonLiteral::Number(n) => ValueModel::Number(n@),
        JsonLiteral::String(s) => ValueModel::Str(s@),
        JsonLiteral::Array(items) => ValueModel::List {
            spacing: ListSpacing::Styled(f),
            elements: example_items(items@, depth, f),
        },
        JsonLiteral::Object(members) => ValueModel::Object {
            members: example_members(members@, depth, f),
        },
    }
}

pub open spec fn example_items(s: Seq<JsonLiteral>, depth: nat, f: Formatting) -> Seq<ValueModel>
    decreases s,
{
    if s.len() == 0 {
        Seq::empty()
    } else {
        example_items(s.drop_last(), depth, f).push(example_model(s.last(), depth, f))
    }
}

pub open spec fn example_members(
    s: Seq<(String, JsonLiteral)>,
    depth: nat,
    f: Formatting,
) -> Seq<ElementModel>
    decreases s,
{
    if s.len() == 0 {
        Seq::empty()
    } else {
        example_members(s.drop_last(), depth, f).push(
            ElementModel {
                key: s.last().0@,
                value: example_model(s.last().1, depth, f),
                depth,
                formatting: f,
            },
        )
    }
}

/// Turns an explicit example into an example value of the same shape.
pub fn example_to_json(lit: &JsonLiteral, depth: usize, settings: &SpecBodySettings) -> (r:
    ExampleValue)
    ensures
        r@ == example_model(*lit, depth as nat, settings.formatting),
    decreases lit,
{
    let f = settings.formatting;
    match lit {
        JsonLiteral::Null => ExampleValue::Null,
        JsonLiteral::Bool(b) => ExampleValue::Boolean(*b),
        JsonLiteral::Number(n) => ExampleValue::Number(n.clone()),
        JsonLiteral::String(s) => ExampleValue::String(s.clone()),
        JsonLiteral::Array(items) => {
            let mut elements: Vec<ExampleValue> = Vec::new();
            let mut i: usize = 0;
            while i < items.len()
                invariant
                    0 <= i <= items.len(),
                    f == settings.formatting,
                    *lit == JsonLiteral::Array(*items),
                    values_view(elements@) == example_items(
                        items@.take(i as int),
                        depth as nat,
                        f,
                    ),
                decreases items.len() - i,
            {
                assert(decreases_to!(*lit => lit->Array_0));
                assert(decreases_to!(*items => items@[i as int]));
                let v = example_to_json(&items[i], depth, settings);
                let ghost before = elements@;
                elements.push(v);
                proof {
                    assert(items@.take(i + 1).drop_last() =~= items@.take(i as int));
                    assert(elements@.drop_last() =~= before);
                    assert(values_view(elements@) == values_view(before).push(v@));
                    assert(items@.take(i + 1).last() == items@[i as int]);
                    assert(example_items(items@.take(i + 1), depth as nat, f) == example_items(
                        items@.take(i as int),
                        depth as nat,
                        f,
                    ).push(example_model(items@[i as int], depth as nat, f)));
                }
                i += 1;
            }
            assert(items@.take(items.len() as int) =~= items@);
            ExampleValue::List { spacing: ListSpacing::Styled(f), elements }
        },
        JsonLiteral::Object(members) => {
            let mut elements: Vec<ObjectElement> = Vec::new();
            let mut i: usize = 0;
            while i < members.len()
                invariant
                    0 <= i <= members.len(),
                    f == settings.formatting,
                    *lit == JsonLiteral::Object(*members),
                    elements_view(elements@) == example_members(
                        members@.take(i as int),
                        depth as nat,
                        f,
                    ),
                decreases members.len() - i,
            {
                let member = &members[i];
                assert(decreases_to!(*lit => lit->Object_0));
                assert(decreases_to!(*members => members@[i as int]));
                assert(decreases_to!(members@[i as int] => members@[i as int].1));
                let value = example_to_json(&member.1, depth, settings);
                let el = ObjectElement { key: member.0.clone(), value, depth, formatting: f };
                let ghost before = elements@;
                elements.push(el);
                proof {
                    assert(members@.take(i + 1).drop_last() =~= members@.take(i as int));
                    assert(elements@.drop_last() =~= before);
                    assert(elements_view(elements@) == elements_view(before).push(el@));
                    assert(members@.take(i + 1).last() == members@[i as int]);
                }
                i += 1;
            }
            assert(members@.take(members.len() as int) =~= members@);
            ExampleValue::Object { members: elements }
        },
    }
}

} // verus!
