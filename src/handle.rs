use vstd::prelude::*;

verus! {

/// The index half of a `Handle`. Keeping it 32 bits wide packs a whole
/// handle into a single 64-bit word.
pub type HandleIndex = u32;

/// A generational index: `index` addresses a slot that is recycled once the
/// handle is freed, and `version` tells apart the successive occupants of the
/// same slot.
#[derive(Debug, Default, Clone, Copy, PartialEq, Eq, PartialOrd, Ord, Hash, Structural)]
pub struct Handle {
    pub index: HandleIndex,
    pub version: HandleIndex,
}

impl Handle {
    /// Constructs a new `Handle`.
    pub fn new(index: HandleIndex, version: HandleIndex) -> (r: Self)
        ensures
            r.index == index,
            r.version == version,
    {
        Handle { index, version }
    }

    /// Constructs the nil handle, which names no object.
    pub fn nil() -> (r: Self)
        ensures
            r.index == 0,
            r.version == 0,
    {
        Handle { index: 0, version: 0 }
    }

    /// Whether this handle differs from the nil handle.
    pub open spec fn spec_is_valid(self) -> bool {
        self.index > 0 || self.version > 0
    }

    /// Returns true if this `Handle` has been initialized.
    pub fn is_valid(&self) -> (r: bool)
        ensures
            r == self.spec_is_valid(),
    {
        self.index > 0 || self.version > 0
    }

    /// Resets this `Handle` to the nil handle.
    pub fn invalidate(&mut self)
        ensures
            final(self).index == 0,
            final(self).version == 0,
    {
        self.index = 0;
        self.version = 0;
    }

    /// Returns the index value.
    pub fn index(&self) -> (r: HandleIndex)
        ensures
            r == self.index,
    {
        self.index
    }

    /// Returns the version value.
    pub fn version(&self) -> (r: HandleIndex)
        ensures
            r == self.version,
    {
        self.version
    }
}

} // verus!
