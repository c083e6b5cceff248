use vstd::prelude::*;

verus! {

/// Overflow-checked addition whose exact result is available to contracts
/// through `add_spec`.
pub trait SafeAdd: Sized {
    /// What `safe_add` returns: `Some` of the exact sum when it fits the
    /// type, `None` on overflow.
    spec fn add_spec(&self, n: &Self) -> Option<Self>;

    fn safe_add(&self, n: &Self) -> (r: Option<Self>)
        ensures
            r == self.add_spec(n),
    ;
}

impl SafeAdd for usize {
    open spec fn add_spec(&self, n: &usize) -> Option<usize> {
        if *self + *n <= usize::MAX {
            Some((*self + *n) as usize)
        } else {
            None
        }
    }

    fn safe_add(&self, n: &usize) -> (r: Option<usize>) {
        if *self <= usize::MAX - *n {
            Some(*self + *n)
        } else {
            None
        }
    }
}

/// Adds `src` into `dst`. On success `dst` holds the sum; on overflow `dst`
/// is unchanged and the error produced by `f` is returned.
pub fn safe_add<T: SafeAdd, E, F: Fn() -> E>(dst: &mut T, src: &T, f: F) -> (r: Result<(), E>)
    requires
        call_requires(f, ()),
    ensures
        match r {
            Ok(_) => old(dst).add_spec(src) == Some(*final(dst)),
            Err(e) => ({
                &&& old(dst).add_spec(src) is None
                &&& *final(dst) == *old(dst)
                &&& call_ensures(f, (), e)
            }),
        },
{
    if let Some(n) = dst.safe_add(src) {
        *dst = n;
        Ok(())
    } else {
        Err(f())
    }
}

} // verus!
