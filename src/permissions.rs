use vstd::prelude::*;

verus! {

/// What is known of the accessibility permission.
#[derive(Debug, Clone, Copy, PartialEq, Eq, Structural)]
pub struct PermissionCache {
    /// The permission was granted when last checked.
    pub granted: bool,
    /// The permission has been checked.
    pub checked: bool,
}

impl PermissionCache {
    /// Nothing checked yet.
    pub fn new() -> (r: Self)
        ensures
            !r.granted,
            !r.checked,
    {
        PermissionCache { granted: false, checked: false }
    }

    /// Whether the permission is known to be granted, so that asking the
    /// system again can be skipped.
    pub fn known_granted(&self) -> (r: bool)
        ensures
            r == (self.checked && self.granted),
    {
        self.checked && self.granted
    }

    /// Record the answer of a check.
    pub fn record(&mut self, authorized: bool)
        ensures
            final(self).granted == authorized,
            final(self).checked,
    {
        self.granted = authorized;
        self.checked = true;
    }
}

/// Forget what is known of the permission, so that the next use checks again.
pub fn reset_permission_cache(cache: &mut PermissionCache)
    ensures
        !final(cache).granted,
        !final(cache).checked,
{
    cache.granted = false;
    cache.checked = false;
}

} // verus!
