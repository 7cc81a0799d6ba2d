//! Events carry a payload from one activity to another.
use vstd::prelude::*;
use crate::activity_identifier::ActivityIdentifier;

verus! {

/// A message from `src` to `dst`. The payload is opaque to the scheduler:
/// it is carried as bytes and never inspected.
#[derive(Debug)]
pub struct Event {
    src: ActivityIdentifier,
    dst: ActivityIdentifier,
    payload: Vec<u8>,
}

impl Clone for Event {
    fn clone(&self) -> (r: Self)
        ensures
            r.src_spec() == self.src_spec(),
            r.dst_spec() == self.dst_spec(),
            r.payload_spec() == self.payload_spec(),
    {
        Event { src: self.src.clone(), dst: self.dst.clone(), payload: self.payload.clone() }
    }
}

impl Event {
    /// The identifier of the sending activity.
    pub closed spec fn src_spec(self) -> ActivityIdentifier {
        self.src
    }

    /// The identifier of the destination activity.
    pub closed spec fn dst_spec(self) -> ActivityIdentifier {
        self.dst
    }

    /// The payload bytes.
    pub closed spec fn payload_spec(self) -> Seq<u8> {
        self.payload@
    }

    /// An event from `src` to `dst` carrying `payload`.
    pub fn new(payload: Vec<u8>, src: ActivityIdentifier, dst: ActivityIdentifier) -> (r: Box<Event>)
        ensures
            r.src_spec() == src,
            r.dst_spec() == dst,
            r.payload_spec() == payload@,
    {
        Box::new(Event { src, dst, payload })
    }

    pub fn get_payload(&self) -> (r: &Vec<u8>)
        ensures
            r@ == self.payload_spec(),
    {
        &self.payload
    }

    pub fn get_src(&self) -> (r: ActivityIdentifier)
        ensures
            r == self.src_spec(),
    {
        self.src.clone()
    }

    pub fn get_dst(&self) -> (r: ActivityIdentifier)
        ensures
            r == self.dst_spec(),
    {
        self.dst.clone()
    }

    /// The comparison triple of the destination.
    pub fn dst_key(&self) -> (r: (i32, usize, u64))
        ensures
            r == self.dst_spec().id_key(),
    {
        self.dst.key()
    }
}

} // verus!
