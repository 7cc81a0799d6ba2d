//! Contexts label where an activity may run; a node holds the set of
//! contexts it is willing to execute.
use vstd::prelude::*;

verus! {

/// A label associating an activity with the workers willing to run it.
#[derive(Debug)]
pub struct Context {
    pub label: String,
}

impl Clone for Context {
    fn clone(&self) -> (r: Self)
        ensures
            r == *self,
    {
        Context { label: self.label.clone() }
    }
}

impl PartialEq for Context {
    fn eq(&self, other: &Context) -> (r: bool) {
        self.label == other.label
    }
}

impl vstd::std_specs::cmp::PartialEqSpecImpl for Context {
    open spec fn obeys_eq_spec() -> bool {
        true
    }

    open spec fn eq_spec(&self, other: &Context) -> bool {
        self.label@ == other.label@
    }
}

impl Eq for Context {}

impl Context {
    /// Builds a context from its label.
    pub fn new(label: String) -> (r: Context)
        ensures
            r.label@ == label@,
    {
        Context { label }
    }
}

/// The labels of `s`, in order, leaving out every one equal to `label`.
pub open spec fn without_label(s: Seq<Seq<char>>, label: Seq<char>) -> Seq<Seq<char>>
    decreases s.len(),
{
    if s.len() == 0 {
        s
    } else if s.last() == label {
        without_label(s.drop_last(), label)
    } else {
        without_label(s.drop_last(), label).push(s.last())
    }
}

/// Any number of contexts, in the order they were appended.
#[derive(Debug)]
pub struct ContextVec {
    pub context_vec: Vec<Context>,
}

impl View for ContextVec {
    type V = Seq<Seq<char>>;

    open spec fn view(&self) -> Seq<Seq<char>> {
        self.context_vec@.map_values(|c: Context| c.label@)
    }
}

impl Clone for ContextVec {
    fn clone(&self) -> (r: Self)
        ensures
            r@ == self@,
    {
        let mut out: Vec<Context> = Vec::new();
        let mut i: usize = 0;
        while i < self.context_vec.len()
            invariant
                i <= self.context_vec.len(),
                out@.len() == i,
                forall|j: int| 0 <= j < i ==> out@[j].label@ == self.context_vec@[j].label@,
            decreases self.context_vec.len() - i,
        {
            out.push(self.context_vec[i].clone());
            i = i + 1;
        }
        let r = ContextVec { context_vec: out };
        assert(r@ =~= self@);
        r
    }
}

impl ContextVec {
    /// An empty set of contexts.
    pub fn new() -> (r: ContextVec)
        ensures
            r@ == Seq::<Seq<char>>::empty(),
    {
        let r = ContextVec { context_vec: Vec::new() };
        assert(r@ =~= Seq::<Seq<char>>::empty());
        r
    }

    /// Appends a copy of `context` at the end.
    pub fn append(&mut self, context: &Context)
        ensures
            final(self)@ == old(self)@.push(context.label@),
    {
        self.context_vec.push(context.clone());
        assert(final(self)@ =~= old(self)@.push(context.label@));
    }

    /// Removes every context whose label equals that of `context`, keeping
    /// the order of the others.
    pub fn remove(&mut self, context: &Context)
        ensures
            final(self)@ == without_label(old(self)@, context.label@),
    {
        let ghost orig = self@;
        let mut kept: Vec<Context> = Vec::new();
        let mut i: usize = 0;
        while i < self.context_vec.len()
            invariant
                i <= self.context_vec.len(),
                orig == self@,
                kept@.map_values(|c: Context| c.label@) == without_label(
                    orig.take(i as int),
                    context.label@,
                ),
            decreases self.context_vec.len() - i,
        {
            let c = self.context_vec[i].clone();
            assert(orig.take(i + 1).drop_last() =~= orig.take(i as int));
            if c.label != context.label {
                kept.push(c);
                assert(kept@.map_values(|c: Context| c.label@) =~= without_label(
                    orig.take(i as int),
                    context.label@,
                ).push(orig[i as int]));
            }
            i = i + 1;
        }
        assert(orig.take(self.context_vec.len() as int) =~= orig);
        self.context_vec = kept;
    }

    /// Whether a context with the same label is present.
    pub fn contains(&self, context: &Context) -> (r: bool)
        ensures
            r == self@.contains(context.label@),
    {
        let mut i: usize = 0;
        while i < self.context_vec.len()
            invariant
                i <= self.context_vec.len(),
                forall|j: int| 0 <= j < i ==> self@[j] != context.label@,
            decreases self.context_vec.len() - i,
        {
            if self.context_vec[i].label == context.label {
                assert(self@[i as int] == context.label@);
                return true;
            }
            i = i + 1;
        }
        assert(!self@.contains(context.label@));
        false
    }
}

} // verus!
