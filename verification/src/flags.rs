//! `SQLite` compile-time compatibility flags.

use vstd::prelude::*;

verus! {

/// Full set of `SQLite` compile-time compatibility flags: a 64-bit set
/// indexed by flag number.
#[derive(Debug, Clone, Copy, Default, PartialEq, Eq, Structural)]
pub struct SqliteFlags(pub u64);

/// Bit `idx` of `bits` is set (no bit at or above 64 is).
pub open spec fn bit_set(bits: u64, idx: u32) -> bool {
    idx < 64 && (bits >> idx) & 1 != 0
}

impl SqliteFlags {
    /// Returns `true` if compatibility flag number `flag` is enabled.
    pub fn has(&self, flag: u32) -> (r: bool)
        requires
            flag < 64,
        ensures
            r == bit_set(self.0, flag),
    {
        (self.0 >> flag) & 1 != 0
    }

    /// Return a copy of these flags with flag number `flag` enabled.
    pub fn with(self, flag: u32) -> (r: Self)
        requires
            flag < 64,
        ensures
            r.0 == self.0 | (1u64 << flag),
    {
        SqliteFlags(self.0 | (1u64 << flag))
    }

    /// Return a copy of these flags with flag number `flag` disabled.
    pub fn without(self, flag: u32) -> (r: Self)
        requires
            flag < 64,
        ensures
            r.0 == self.0 & !(1u64 << flag),
    {
        SqliteFlags(self.0 & !(1u64 << flag))
    }

    /// Returns `true` if the flag at raw bit-index `idx` is enabled.
    pub fn has_index(&self, idx: u32) -> (r: bool)
        ensures
            r == bit_set(self.0, idx),
    {
        idx < 64 && (self.0 >> idx) & 1 != 0
    }
}


/// Enabling a flag turns that flag on and leaves every other flag as it was.
pub proof fn law_with_sets_only_its_flag(bits: u64, flag: u32, j: u32)
    requires
        flag < 64,
    ensures
        bit_set(bits | (1u64 << flag), j) == (j == flag || bit_set(bits, j)),
{
    if j < 64 {
        assert(((bits | (1u64 << flag)) >> j) & 1 != 0 <==> (j == flag || (bits >> j) & 1 != 0)) by (bit_vector)
            requires
                flag < 64,
                j < 64,
        ;
    }
}

/// Disabling a flag turns that flag off and leaves every other flag as it was.
pub proof fn law_without_clears_only_its_flag(bits: u64, flag: u32, j: u32)
    requires
        flag < 64,
    ensures
        bit_set(bits & !(1u64 << flag), j) == (j != flag && bit_set(bits, j)),
{
    if j < 64 {
        assert(((bits & !(1u64 << flag)) >> j) & 1 != 0 <==> (j != flag && (bits >> j) & 1 != 0)) by (bit_vector)
            requires
                flag < 64,
                j < 64,
        ;
    }
}

/// Disabling a flag undoes enabling it when it was off before.
pub proof fn law_without_undoes_with(bits: u64, flag: u32)
    requires
        flag < 64,
        !bit_set(bits, flag),
    ensures
        (bits | (1u64 << flag)) & !(1u64 << flag) == bits,
{
    assert((bits >> flag) & 1 == 0 ==> (bits | (1u64 << flag)) & !(1u64 << flag) == bits) by (bit_vector)
        requires
            flag < 64,
    ;
}

/// A set holding one flag reports that flag and no other.
pub proof fn law_single_flag(idx: u32, j: u32)
    requires
        idx < 64,
    ensures
        bit_set(1u64 << idx, j) <==> j == idx,
{
    if j < 64 {
        assert(((1u64 << idx) >> j) & 1 != 0 <==> j == idx) by (bit_vector)
            requires
                idx < 64,
                j < 64,
        ;
    }
}

} // verus!
