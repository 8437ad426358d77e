//! Invocation parameters: the target directory path and the verbosity flag,
//! constructed once by the caller and handed to the core by value.

use vstd::prelude::*;

verus! {

/// The pair of inputs a run needs: where to look and how much to say.
pub struct Params {
    verbose: bool,
    path: String,
}

impl Params {
    /// The verbosity flag as the contracts see it.
    pub closed spec fn spec_verbose(self) -> bool {
        self.verbose
    }

    /// The path as the contracts see it.
    pub closed spec fn spec_path(self) -> Seq<char> {
        self.path@
    }

    pub fn new(verbose: bool, path: String) -> (r: Params)
        ensures
            r.spec_verbose() == verbose,
            r.spec_path() == path@,
    {
        Params { verbose, path }
    }

    pub fn set_verbose(&mut self, v: bool)
        ensures
            final(self).spec_verbose() == v,
            final(self).spec_path() == old(self).spec_path(),
    {
        self.verbose = v;
    }

    pub fn set_path(&mut self, path: String)
        ensures
            final(self).spec_path() == path@,
            final(self).spec_verbose() == old(self).spec_verbose(),
    {
        self.path = path;
    }

    pub fn get_verbose(&self) -> (r: bool)
        ensures
            r == self.spec_verbose(),
    {
        self.verbose
    }

    pub fn get_path(&self) -> (r: &str)
        ensures
            r@ == self.spec_path(),
    {
        self.path.as_str()
    }
}

} // verus!
