//! The identity of one constellation on one node, and the counter from which
//! activity sequence numbers are drawn.
use vstd::prelude::*;
use crate::activity_identifier::{ActivityIdentifier, NodeHandler};
use crate::text::{decimal, push_decimal, push_signed, signed_decimal};

verus! {

/// Identifies a constellation instance on a node and hands out activity
/// sequence numbers. All workers of a constellation draw from one counter.
#[derive(Debug)]
pub struct ConstellationIdentifier {
    pub constellation_id: i32,
    pub node_info: NodeHandler,
    pub thread_id: i32,
    pub activity_counter: u64,
}

impl Clone for ConstellationIdentifier {
    fn clone(&self) -> (r: Self)
        ensures
            r == *self,
    {
        ConstellationIdentifier {
            constellation_id: self.constellation_id,
            node_info: self.node_info.clone(),
            thread_id: self.thread_id,
            activity_counter: self.activity_counter,
        }
    }
}

impl ConstellationIdentifier {
    /// The next sequence number that will be handed out.
    pub open spec fn counter(self) -> u64 {
        self.activity_counter
    }

    /// A fresh identifier whose counter starts at zero.
    pub fn new(constellation_id: i32, node_info: NodeHandler, thread_id: i32) -> (r: Self)
        ensures
            r.constellation_id == constellation_id,
            r.node_info == node_info,
            r.thread_id == thread_id,
            r.counter() == 0,
    {
        ConstellationIdentifier { constellation_id, node_info, thread_id, activity_counter: 0 }
    }

    /// An identifier for constellation 0 on an unnamed node 0.
    pub fn new_empty() -> (r: Self)
        ensures
            r.constellation_id == 0,
            r.node_info.node_name@ == "EMPTY"@,
            r.node_info.node_id == 0,
            r.thread_id == 0,
            r.counter() == 0,
    {
        ConstellationIdentifier {
            constellation_id: 0,
            node_info: NodeHandler { node_name: String::from_str("EMPTY"), node_id: 0 },
            thread_id: 0,
            activity_counter: 0,
        }
    }

    /// The next sequence number is a function of the number already handed
    /// out. The counter is 64 bits wide; running out is a fatal error, so a
    /// caller must not ask once it is at its maximum.
    pub fn generate_activity_id(&mut self) -> (r: u64)
        requires
            old(self).counter() < u64::MAX,
        ensures
            r == old(self).counter(),
            final(self).counter() == old(self).counter() + 1,
            final(self).constellation_id == old(self).constellation_id,
            final(self).node_info == old(self).node_info,
            final(self).thread_id == old(self).thread_id,
    {
        let r = self.activity_counter;
        self.activity_counter = self.activity_counter + 1;
        r
    }

    /// The form `CID:c:n`: constellation and node number in decimal.
    pub fn to_string(&self) -> (r: String)
        ensures
            r@ == "CID:"@ + signed_decimal(self.constellation_id as int) + ":"@ + decimal(
                self.node_info.node_id as nat,
            ),
    {
        let mut s = String::new();
        s.append("CID:");
        push_signed(&mut s, self.constellation_id as i64);
        s.append(":");
        push_decimal(&mut s, self.node_info.node_id as u64);
        s
    }

    /// The form `CID:c:NID:n:TID:t`, naming the thread as well.
    pub fn label(&self) -> (r: String)
        ensures
            r@ == "CID:"@ + signed_decimal(self.constellation_id as int) + ":NID:"@ + decimal(
                self.node_info.node_id as nat,
            ) + ":TID:"@ + signed_decimal(self.thread_id as int),
    {
        let mut s = String::new();
        s.append("CID:");
        push_signed(&mut s, self.constellation_id as i64);
        s.append(":NID:");
        push_decimal(&mut s, self.node_info.node_id as u64);
        s.append(":TID:");
        push_signed(&mut s, self.thread_id as i64);
        s
    }

    /// Whether another sequence number can be handed out.
    pub fn can_generate(&self) -> (r: bool)
        ensures
            r == (self.counter() < u64::MAX),
    {
        self.activity_counter < u64::MAX
    }
}

impl ActivityIdentifier {
    /// A new identifier stamped with this constellation and node, and with
    /// the next sequence number of `const_id`.
    pub fn new(const_id: &mut ConstellationIdentifier) -> (r: ActivityIdentifier)
        requires
            old(const_id).counter() < u64::MAX,
        ensures
            r.constellation_id == old(const_id).constellation_id,
            r.node_info == old(const_id).node_info,
            r.activity_id == old(const_id).counter(),
            final(const_id).counter() == old(const_id).counter() + 1,
            final(const_id).constellation_id == old(const_id).constellation_id,
            final(const_id).node_info == old(const_id).node_info,
            final(const_id).thread_id == old(const_id).thread_id,
    {
        let node_info = const_id.node_info.clone();
        let activity_id = const_id.generate_activity_id();
        ActivityIdentifier { constellation_id: const_id.constellation_id, node_info, activity_id }
    }
}

} // verus!
