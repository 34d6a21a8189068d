//! The identities that constants, statics and symbols go by.

use vstd::prelude::*;

verus! {

/// The identity that the evaluator gave to one byte buffer.
#[derive(Clone, Copy, Debug, PartialEq, Eq, Hash, Structural)]
pub struct AllocId(pub u64);

/// The identity of a static's definition: its crate and its index in that crate.
#[derive(Clone, Copy, Debug, PartialEq, Eq, Hash, Structural)]
pub struct DefId {
    pub krate: u32,
    pub index: u32,
}

/// The handle of a data object in the object module.
#[derive(Clone, Copy, Debug, PartialEq, Eq, Hash, Structural)]
pub struct DataId(pub u32);

/// The handle of a function in the object module.
#[derive(Clone, Copy, Debug, PartialEq, Eq, Hash, Structural)]
pub struct FuncId(pub u32);

/// Where a symbol is defined and who can see it.
#[derive(Clone, Copy, Debug, PartialEq, Eq, Hash, Structural)]
pub enum Linkage {
    /// Defined outside of the module.
    Import,
    /// Defined in the module and not visible outside of it.
    Local,
    /// Defined in the module, visible outside of it, and open to being overridden.
    Preemptible,
    /// Defined in the module and visible in the linkage unit only.
    Hidden,
    /// Defined in the module and visible outside of it.
    Export,
}

impl DefId {
    /// The definition as one number: the crate in the high half, the index in the low half.
    pub open spec fn spec_key(self) -> u64 {
        (self.krate as u64 * 0x1_0000_0000 + self.index as u64) as u64
    }

    /// The definition as one number: the crate in the high half, the index in the low half.
    #[verifier::when_used_as_spec(spec_key)]
    pub fn key(self) -> (k: u64)
        ensures
            k == self.spec_key(),
    {
        self.krate as u64 * 0x1_0000_0000 + self.index as u64
    }

    /// Two definitions with the same key are the same definition.
    pub proof fn lemma_key_injective(a: DefId, b: DefId)
        requires
            a.spec_key() == b.spec_key(),
        ensures
            a == b,
    {
    }
}

} // verus!
