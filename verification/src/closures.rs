//! Running a closure through a named entry point.

use vstd::prelude::*;

verus! {

/// Something that can run a closure that may be called again and again.
pub trait MutClosure {
    fn call<F: FnMut() -> () + Send + 'static>(f: F)
        requires
            f.requires(()),
        ensures
            f.ensures((), ()),
    ;
}

/// Something that can run a closure that may be called only once.
pub trait OnceClosure {
    fn call<F: FnOnce() -> () + Send + 'static>(f: F)
        requires
            f.requires(()),
        ensures
            f.ensures((), ()),
    ;
}

/// Runs closures on the spot, on the caller's thread.
pub struct Closure;

impl Closure {
    /// Runs `f` once.
    pub fn call<F: FnOnce() -> () + Send + 'static>(f: F)
        requires
            f.requires(()),
        ensures
            f.ensures((), ()),
    {
        f();
    }
}

impl MutClosure for Closure {
    fn call<F: FnMut() -> () + Send + 'static>(f: F) {
        let mut f = f;
        f();
    }
}

impl OnceClosure for Closure {
    fn call<F: FnOnce() -> () + Send + 'static>(f: F) {
        f();
    }
}

} // verus!
