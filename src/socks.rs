//! The path of the listening socket, and whether it is removed when the
//! listener goes away.
use vstd::prelude::*;

verus! {

/// A socket path that may be removed when it is no longer used.
pub struct AutoRemoveFile<'a> {
    path: &'a str,
    auto_remove: bool,
}

impl<'a> AutoRemoveFile<'a> {
    /// A path that is not removed until removal is switched on.
    pub fn new(path: &'a str) -> (r: AutoRemoveFile<'a>)
        ensures
            r.path()@ == path@,
            !r.auto_remove(),
    {
        AutoRemoveFile { path, auto_remove: false }
    }

    /// Switches removal on or off.
    pub fn set_auto_remove(&mut self, enable: bool)
        ensures
            final(self).path() == old(self).path(),
            final(self).auto_remove() == enable,
    {
        self.auto_remove = enable;
    }

    /// The path.
    #[verifier::when_used_as_spec(spec_path)]
    pub fn path(&self) -> (r: &'a str)
        ensures
            r == self.spec_path(),
    {
        self.path
    }

    /// The path.
    pub closed spec fn spec_path(&self) -> &'a str {
        self.path
    }

    /// Whether the path is removed when it is no longer used.
    #[verifier::when_used_as_spec(spec_auto_remove)]
    pub fn auto_remove(&self) -> (r: bool)
        ensures
            r == self.spec_auto_remove(),
    {
        self.auto_remove
    }

    /// Whether the path is removed when it is no longer used.
    pub closed spec fn spec_auto_remove(&self) -> bool {
        self.auto_remove
    }
}

} // verus!
