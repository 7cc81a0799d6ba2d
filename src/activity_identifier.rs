//! Globally unique names of activities.
use vstd::prelude::*;
use crate::text::{decimal, push_decimal, push_signed, signed_decimal};

verus! {

/// The triple that identifies an activity: constellation, node, sequence.
pub type IdKey = (i32, usize, u64);

/// Whether two identifier triples are equal.
pub fn same_key(a: &IdKey, b: &IdKey) -> (r: bool)
    ensures
        r == (*a == *b),
{
    a.0 == b.0 && a.1 == b.1 && a.2 == b.2
}

/// Where a process runs: the node's name and its number in the cluster.
#[derive(Debug)]
pub struct NodeHandler {
    pub node_name: String,
    pub node_id: usize,
}

impl Clone for NodeHandler {
    fn clone(&self) -> (r: Self)
        ensures
            r == *self,
    {
        NodeHandler { node_name: self.node_name.clone(), node_id: self.node_id }
    }
}

/// The name of one activity. Two identifiers are equal when their
/// constellation, node number and sequence number are; the node's name is
/// carried along for display only.
#[derive(Debug)]
pub struct ActivityIdentifier {
    pub constellation_id: i32,
    pub node_info: NodeHandler,
    pub activity_id: u64,
}

impl ActivityIdentifier {
    /// The triple by which identifiers are compared.
    pub open spec fn id_key(self) -> IdKey {
        (self.constellation_id, self.node_info.node_id, self.activity_id)
    }

    /// The triple by which identifiers are compared.
    pub fn key(&self) -> (r: IdKey)
        ensures
            r == self.id_key(),
    {
        (self.constellation_id, self.node_info.node_id, self.activity_id)
    }
}

/// `c:n:a`: constellation, node number and sequence number in decimal.
pub open spec fn id_text(id: ActivityIdentifier) -> Seq<char> {
    signed_decimal(id.constellation_id as int) + seq![':'] + decimal(id.node_info.node_id as nat) + seq![':']
        + decimal(id.activity_id as nat)
}

/// `CID:c:NID:n:AID:a`, the form in which identifiers are shown in logs.
pub open spec fn id_label(id: ActivityIdentifier) -> Seq<char> {
    "CID:"@ + signed_decimal(id.constellation_id as int) + ":NID:"@ + decimal(id.node_info.node_id as nat)
        + ":AID:"@ + decimal(id.activity_id as nat)
}

/// Identifiers that have a compact text form.
pub trait ActivityIdentifierTrait {
    fn to_string(&self) -> String;
}

impl ActivityIdentifierTrait for ActivityIdentifier {
    /// The compact form `c:n:a`.
    fn to_string(&self) -> (r: String) {
        self.text()
    }
}

impl ActivityIdentifier {
    /// The compact form `c:n:a`.
    pub fn text(&self) -> (r: String)
        ensures
            r@ == id_text(*self),
    {
        let mut s = String::new();
        push_signed(&mut s, self.constellation_id as i64);
        s.append(":");
        push_decimal(&mut s, self.node_info.node_id as u64);
        s.append(":");
        push_decimal(&mut s, self.activity_id);
        proof {
            reveal_strlit(":");
        }
        assert(s@ =~= id_text(*self));
        s
    }

    /// The form `CID:c:NID:n:AID:a`.
    pub fn label(&self) -> (r: String)
        ensures
            r@ == id_label(*self),
    {
        let mut s = String::new();
        s.append("CID:");
        push_signed(&mut s, self.constellation_id as i64);
        s.append(":NID:");
        push_decimal(&mut s, self.node_info.node_id as u64);
        s.append(":AID:");
        push_decimal(&mut s, self.activity_id);
        assert(s@ =~= id_label(*self));
        s
    }
}

impl Clone for ActivityIdentifier {
    fn clone(&self) -> (r: Self)
        ensures
            r == *self,
    {
        ActivityIdentifier {
            constellation_id: self.constellation_id,
            node_info: self.node_info.clone(),
            activity_id: self.activity_id,
        }
    }
}

impl PartialEq for ActivityIdentifier {
    fn eq(&self, other: &ActivityIdentifier) -> (r: bool) {
        self.activity_id == other.activity_id && self.node_info.node_id == other.node_info.node_id
            && self.constellation_id == other.constellation_id
    }
}

impl vstd::std_specs::cmp::PartialEqSpecImpl for ActivityIdentifier {
    open spec fn obeys_eq_spec() -> bool {
        true
    }

    open spec fn eq_spec(&self, other: &ActivityIdentifier) -> bool {
        self.id_key() == other.id_key()
    }
}

impl Eq for ActivityIdentifier {}

} // verus!
