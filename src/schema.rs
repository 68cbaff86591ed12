use vstd::prelude::*;

use crate::value::JsonLiteral;

verus! {

/// The declared type of a schema node.
#[derive(Clone, Copy, PartialEq, Eq, Debug, Structural)]
pub enum SchemaType {
    Boolean,
    Integer,
    Number,
    String,
    Array,
    Object,
}

/// A schema node. Every child schema is a reference: an index into the
/// [`SchemaTable`] that the node is read against.
#[derive(PartialEq, Eq, Debug)]
pub struct SchemaNode {
    pub schema_type: Option<SchemaType>,
    pub read_only: bool,
    pub example: Option<JsonLiteral>,
    pub items: Option<usize>,
    /// Property names with their schemas, in declaration order.
    pub properties: Vec<(String, usize)>,
    pub all_of: Vec<usize>,
    pub one_of: Vec<usize>,
    pub any_of: Vec<usize>,
}

/// A reference that names no schema of the table.
#[derive(Clone, Copy, PartialEq, Eq, Debug, Structural)]
pub struct ResolutionError {
    pub reference: usize,
}

/// The schemas of a specification document, indexed by reference.
#[derive(PartialEq, Eq, Debug)]
pub struct SchemaTable {
    pub nodes: Vec<SchemaNode>,
}

/// A reference `r` is either dangling (`r >= len`) or points below `k`.
pub open spec fn ref_below(r: usize, k: nat, len: nat) -> bool {
    r < k || r >= len
}

/// Every reference held by `n` is dangling or points below `k`.
pub open spec fn refs_below(n: SchemaNode, k: nat, len: nat) -> bool {
    &&& (n.items matches Some(j) ==> ref_below(j, k, len))
    &&& forall|i: int| 0 <= i < n.properties.len() ==> ref_below(#[trigger] n.properties@[i].1, k, len)
    &&& forall|i: int| 0 <= i < n.all_of.len() ==> ref_below(#[trigger] n.all_of@[i], k, len)
    &&& forall|i: int| 0 <= i < n.one_of.len() ==> ref_below(#[trigger] n.one_of@[i], k, len)
    &&& forall|i: int| 0 <= i < n.any_of.len() ==> ref_below(#[trigger] n.any_of@[i], k, len)
}

impl SchemaTable {
    /// Each schema refers only to schemas listed before it (or to none at all),
    /// so that following references always ends.
    pub open spec fn wf(&self) -> bool {
        forall|i: int| 0 <= i < self.nodes.len() ==> refs_below(
            #[trigger] self.nodes@[i],
            i as nat,
            self.nodes.len() as nat,
        )
    }

    pub open spec fn len(&self) -> nat {
        self.nodes.len() as nat
    }

    /// Looks a reference up.
    pub fn resolve(&self, r: usize) -> (res: Result<&SchemaNode, ResolutionError>)
        ensures
            r < self.nodes.len() ==> res == Ok::<&SchemaNode, ResolutionError>(&self.nodes@[r as int]),
            r >= self.nodes.len() ==> res == Err::<&SchemaNode, ResolutionError>(ResolutionError { reference: r }),
    {
        if r < self.nodes.len() {
            Ok(&self.nodes[r])
        } else {
            Err(ResolutionError { reference: r })
        }
    }
}

} // verus!
