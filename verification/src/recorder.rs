//! A sink that keeps what would have been injected, in order, for desktops
//! without a native injection backend and for end-to-end checks of the whole
//! wire-to-injection path.

use vstd::prelude::*;
use crate::input::Injection;

verus! {

pub struct Recorder {
    recorded: Vec<Injection>,
}

impl Recorder {
    /// Everything recorded and not yet taken, oldest first.
    pub closed spec fn contents(&self) -> Seq<Injection> {
        self.recorded@
    }

    pub fn new() -> (r: Self)
        ensures
            r.contents() == Seq::<Injection>::empty(),
    {
        Recorder { recorded: Vec::new() }
    }

    /// Append a batch.
    pub fn record(&mut self, injections: &[Injection])
        ensures
            final(self).contents() == old(self).contents() + injections@,
    {
        let mut i: usize = 0;
        while i < injections.len()
            invariant
                0 <= i <= injections@.len(),
                self.contents() == old(self).contents() + injections@.take(i as int),
            decreases injections@.len() - i,
        {
            self.recorded.push(injections[i]);
            assert(old(self).contents() + injections@.take(i + 1) =~= (old(self).contents()
                + injections@.take(i as int)).push(injections@[i as int]));
            i = i + 1;
        }
        assert(injections@.take(i as int) =~= injections@);
    }

    /// Hand out everything recorded and start afresh.
    pub fn take(&mut self) -> (taken: Vec<Injection>)
        ensures
            taken@ == old(self).contents(),
            final(self).contents() == Seq::<Injection>::empty(),
    {
        let mut taken: Vec<Injection> = Vec::new();
        std::mem::swap(&mut taken, &mut self.recorded);
        taken
    }

    /// A copy of everything recorded, leaving it in place.
    pub fn peek(&self) -> (copy: Vec<Injection>)
        ensures
            copy@ == self.contents(),
    {
        let mut copy: Vec<Injection> = Vec::new();
        let mut i: usize = 0;
        while i < self.recorded.len()
            invariant
                0 <= i <= self.recorded@.len(),
                copy@ == self.recorded@.take(i as int),
            decreases self.recorded@.len() - i,
        {
            copy.push(self.recorded[i]);
            assert(self.recorded@.take(i + 1) =~= self.recorded@.take(i as int).push(self.recorded@[i as int]));
            i = i + 1;
        }
        assert(self.recorded@.take(i as int) =~= self.recorded@);
        copy
    }
}

} // verus!
