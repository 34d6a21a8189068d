//! Which platform intrinsics are lowered, and how their immediates are read.

use vstd::prelude::*;
use vstd::string::StringExecFns;

verus! {

/// How an intrinsic that is called by the name that the platform gives it is lowered.
#[derive(Clone, Copy, Debug, PartialEq, Eq, Structural)]
pub enum LlvmIntrinsic {
    /// The sign bits of all lanes, gathered into one integer.
    MoveMask,
    /// A lane-wise comparison of floats, with the comparison as an immediate.
    CompareFloat,
    /// Not lowered: the call is replaced with a trap.
    Unsupported,
}

/// What an intrinsic that does not return does.
#[derive(Clone, Copy, Debug, PartialEq, Eq, Structural)]
pub enum Diverging {
    Abort,
    Unreachable,
}

/// A comparison of two floats.
#[derive(Clone, Copy, Debug, PartialEq, Eq, Structural)]
pub enum FloatCC {
    Equal,
    LessThan,
    LessThanOrEqual,
    NotEqual,
}

/// How the intrinsic with the given name is lowered.
pub open spec fn classified(name: Seq<char>) -> LlvmIntrinsic {
    if name == "llvm.x86.sse2.pmovmskb.128"@ || name == "llvm.x86.avx2.pmovmskb"@ || name
        == "llvm.x86.sse2.movmsk.pd"@ {
        LlvmIntrinsic::MoveMask
    } else if name == "llvm.x86.sse2.cmp.ps"@ || name == "llvm.x86.sse2.cmp.pd"@ {
        LlvmIntrinsic::CompareFloat
    } else {
        LlvmIntrinsic::Unsupported
    }
}

/// The comparison that the immediate of a float comparison asks for, for
/// those that are lowered.
pub open spec fn float_cc_of(kind: u128) -> Option<FloatCC> {
    if kind == 0 {
        Some(FloatCC::Equal)
    } else if kind == 1 {
        Some(FloatCC::LessThan)
    } else if kind == 2 {
        Some(FloatCC::LessThanOrEqual)
    } else if kind == 4 {
        Some(FloatCC::NotEqual)
    } else {
        None
    }
}

/// Whether two strings are the same.
fn same(a: &str, b: &str) -> (equal: bool)
    ensures
        equal == (a@ == b@),
{
    String::from_str(a) == String::from_str(b)
}

/// How the intrinsic with the given name is lowered.
pub fn classify(intrinsic: &str) -> (kind: LlvmIntrinsic)
    ensures
        kind == classified(intrinsic@),
{
    if same(intrinsic, "llvm.x86.sse2.pmovmskb.128") || same(intrinsic, "llvm.x86.avx2.pmovmskb")
        || same(intrinsic, "llvm.x86.sse2.movmsk.pd") {
        LlvmIntrinsic::MoveMask
    } else if same(intrinsic, "llvm.x86.sse2.cmp.ps") || same(intrinsic, "llvm.x86.sse2.cmp.pd") {
        LlvmIntrinsic::CompareFloat
    } else {
        LlvmIntrinsic::Unsupported
    }
}

/// What an intrinsic that is called without a destination does, if it is one
/// of those that do not return.
pub fn diverging(intrinsic: &str) -> (kind: Option<Diverging>)
    ensures
        kind == if intrinsic@ == "abort"@ {
            Some(Diverging::Abort)
        } else if intrinsic@ == "unreachable"@ {
            Some(Diverging::Unreachable)
        } else {
            None
        },
{
    if same(intrinsic, "abort") {
        Some(Diverging::Abort)
    } else if same(intrinsic, "unreachable") {
        Some(Diverging::Unreachable)
    } else {
        None
    }
}

/// The comparison that the immediate of a float comparison asks for. The
/// immediates 3, 5, 6 and 7 ask for comparisons that are not lowered, and
/// nothing above 7 is an immediate of this instruction.
pub fn float_cc_for_kind(kind: u128) -> (cc: Option<FloatCC>)
    ensures
        cc == float_cc_of(kind),
{
    if kind == 0 {
        Some(FloatCC::Equal)
    } else if kind == 1 {
        Some(FloatCC::LessThan)
    } else if kind == 2 {
        Some(FloatCC::LessThanOrEqual)
    } else if kind == 4 {
        Some(FloatCC::NotEqual)
    } else {
        None
    }
}

} // verus!
