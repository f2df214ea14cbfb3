use vstd::prelude::*;

verus! {

/// A progress observer: a callback and the number of events it was given.
pub struct Progress<F: FnMut()> {
    callback: F,
    count: Ghost<nat>,
}

impl<F: FnMut()> Progress<F> {
    /// The number of events reported so far.
    pub closed spec fn count(&self) -> nat {
        self.count@
    }

    /// An observer that has seen no event.
    pub fn new(callback: F) -> (r: Self)
        ensures
            r.count() == 0,
    {
        Progress { callback, count: Ghost(0) }
    }

    /// Reports one event to the callback.
    pub fn step(&mut self)
        requires
            forall|f: F| call_requires(f, ()),
        ensures
            final(self).count() == old(self).count() + 1,
    {
        (self.callback)();
        self.count = Ghost(self.count@ + 1);
    }

    /// Gives the callback back.
    pub fn into_callback(self) -> (r: F) {
        self.callback
    }
}

} // verus!
