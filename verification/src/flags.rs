//! Bit flags.
use std::ops::{BitAnd, BitOr};
use vstd::prelude::*;
use vstd::std_specs::cmp::PartialEqSpec;
use vstd::std_specs::ops::{BitAndSpec, BitOrSpec};

verus! {

/// Whether every bit of `flag` is set in `value`.
#[inline]
pub fn has<T>(value: T, flag: T) -> (r: bool) where T: BitAnd<Output = T> + Copy + PartialEq + Eq
    requires
        value.bitand_req(flag),
    ensures
        T::obeys_bitand_spec() && T::obeys_eq_spec() ==> r == value.bitand_spec(flag).eq_spec(
            &flag,
        ),
{
    value & flag == flag
}

/// Sets the bits of `flag` in `value`.
#[inline]
pub fn add<T>(value: &mut T, flag: T) where T: BitOr<Output = T> + Copy
    requires
        old(value).bitor_req(flag),
    ensures
        T::obeys_bitor_spec() ==> *final(value) == old(value).bitor_spec(flag),
{
    *value = *value | flag;
}

} // verus!
