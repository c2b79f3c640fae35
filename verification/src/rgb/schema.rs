//! Schemas: which types of nodes a contract may hold, which rights each may
//! assign and close, and what kind of state each type of right carries.

use vstd::prelude::*;

verus! {

/// What nodes of one type may do.
#[derive(Clone, Debug, PartialEq, Eq)]
pub struct NodeSchema {
    /// The types of owned rights that the node may assign.
    pub owned_rights: Vec<u16>,
    /// The types of owned rights of its parents that the node may close.
    pub closes: Vec<u16>,
}

#[derive(Clone, Debug, PartialEq, Eq)]
pub struct Schema {
    /// For each type of owned right, the kind of state that its
    /// assignments carry.
    pub owned_right_types: Vec<(u16, u8)>,
    /// What the genesis may do.
    pub genesis: NodeSchema,
    /// For each type of transition, what transitions of it may do.
    pub transitions: Vec<(u16, NodeSchema)>,
    /// For each type of extension, what extensions of it may do.
    pub extensions: Vec<(u16, NodeSchema)>,
}

/// The kind of state that the first entry for the type declares.
pub open spec fn state_kind_for(types: Seq<(u16, u8)>, t: u16) -> Option<u8>
    decreases types.len(),
{
    if types.len() == 0 {
        None
    } else if types[0].0 == t {
        Some(types[0].1)
    } else {
        state_kind_for(types.skip(1), t)
    }
}

/// The place of the first entry for the type of node.
pub open spec fn node_schema_index(list: Seq<(u16, NodeSchema)>, t: u16, from: int) -> Option<int>
    decreases list.len() - from,
{
    if from < 0 || from >= list.len() {
        None
    } else if list[from].0 == t {
        Some(from)
    } else {
        node_schema_index(list, t, from + 1)
    }
}

/// Whether the list names the type.
pub fn permits(list: &Vec<u16>, t: u16) -> (found: bool)
    ensures
        found == list@.contains(t),
{
    let n = list.len();
    let mut i: usize = 0;
    while i < n
        invariant
            i <= n,
            n == list@.len(),
            forall|j: int| 0 <= j < i ==> list@[j] != t,
        decreases n - i,
    {
        if list[i] == t {
            return true;
        }
        i += 1;
    }
    false
}

impl Schema {
    /// The kind of state that the schema declares for a type of owned
    /// right.
    pub fn state_kind(&self, t: u16) -> (kind: Option<u8>)
        ensures
            kind == state_kind_for(self.owned_right_types@, t),
    {
        let n = self.owned_right_types.len();
        let mut i: usize = 0;
        assert(self.owned_right_types@.skip(0) =~= self.owned_right_types@);
        while i < n
            invariant
                i <= n,
                n == self.owned_right_types@.len(),
                state_kind_for(self.owned_right_types@, t) == state_kind_for(
                    self.owned_right_types@.skip(i as int),
                    t,
                ),
            decreases n - i,
        {
            proof {
                let rest = self.owned_right_types@.skip(i as int);
                assert(rest[0] == self.owned_right_types@[i as int]);
                assert(rest.skip(1) =~= self.owned_right_types@.skip(i + 1));
            }
            if self.owned_right_types[i].0 == t {
                return Some(self.owned_right_types[i].1);
            }
            i += 1;
        }
        None
    }
}

/// The place of the first entry for the type of node.
pub fn find_node_schema(list: &Vec<(u16, NodeSchema)>, t: u16) -> (r: Option<usize>)
    ensures
        match r {
            Some(i) => node_schema_index(list@, t, 0) == Some(i as int) && i < list@.len(),
            None => node_schema_index(list@, t, 0) is None,
        },
{
    let n = list.len();
    let mut i: usize = 0;
    while i < n
        invariant
            i <= n,
            n == list@.len(),
            node_schema_index(list@, t, 0) == node_schema_index(list@, t, i as int),
        decreases n - i,
    {
        if list[i].0 == t {
            return Some(i);
        }
        i += 1;
    }
    None
}

} // verus!
