//! Memoized results of a fallible computation: the computation runs until it
//! first succeeds, and its output is kept from then on.

use vstd::prelude::*;

verus! {

/// A fallible computation and its output, once it has succeeded.
#[verifier::reject_recursive_types(O)]
#[verifier::reject_recursive_types(E)]
pub struct Memoized<O, E, F> where F: Fn() -> Result<O, E> {
    f: F,
    output: Option<O>,
}

impl<O, E, F> Memoized<O, E, F> where F: Fn() -> Result<O, E> {
    /// The computation.
    pub closed spec fn function(&self) -> F {
        self.f
    }

    /// The kept output, if any.
    pub closed spec fn output_spec(&self) -> Option<O> {
        self.output
    }

    /// A memoized computation that has not run.
    pub fn from(f: F) -> (r: Self)
        ensures
            r.function() == f,
            r.output_spec() is None,
    {
        Memoized { f, output: None }
    }

    /// The output: the kept one where there is one; otherwise the
    /// computation runs, and its output, when it succeeds, is kept and
    /// returned, and its error, when it fails, is returned with nothing kept.
    pub fn get(&mut self) -> (r: Result<&O, E>)
        requires
            old(self).output_spec() is None ==> call_requires(old(self).function(), ()),
        ensures
            final(self).function() == old(self).function(),
            old(self).output_spec() matches Some(o) ==> r == Ok::<&O, E>(&o) && final(self).output_spec() == old(self).output_spec(),
            old(self).output_spec() is None ==> match r {
                Ok(o) => call_ensures(old(self).function(), (), Ok::<O, E>(*o)) && final(self).output_spec() == Some(*o),
                Err(e) => call_ensures(old(self).function(), (), Err::<O, E>(e)) && final(self).output_spec() is None,
            },
    {
        if self.output.is_none() {
            match (self.f)() {
                Ok(o) => {
                    self.output = Some(o);
                },
                Err(e) => {
                    return Err(e);
                },
            }
        }
        Ok(self.output.as_ref().unwrap())
    }

    /// The kept output, if any, without running the computation.
    pub fn peek(&self) -> (r: Option<&O>)
        ensures
            match self.output_spec() {
                Some(o) => r == Some(&o),
                None => r is None,
            },
    {
        match &self.output {
            Some(o) => Some(o),
            None => None,
        }
    }

    /// The output, taking it: the kept one, or else the result of running
    /// the computation.
    pub fn take(self) -> (r: Result<O, E>)
        requires
            self.output_spec() is None ==> call_requires(self.function(), ()),
        ensures
            self.output_spec() matches Some(o) ==> r == Ok::<O, E>(o),
            self.output_spec() is None ==> call_ensures(self.function(), (), r),
    {
        let Memoized { f, output } = self;
        match output {
            Some(o) => Ok(o),
            None => f(),
        }
    }

    /// Takes the kept output, if any, leaving none.
    pub fn drain(&mut self) -> (r: Option<O>)
        ensures
            r == old(self).output_spec(),
            final(self).output_spec() is None,
            final(self).function() == old(self).function(),
    {
        let mut out = None;
        std::mem::swap(&mut out, &mut self.output);
        out
    }
}

} // verus!
