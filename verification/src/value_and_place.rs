//! Types, constants, and the values and places that code generation gets for them.

use crate::ident::{DataId, DefId};
use crate::memory::ConstValue;
use vstd::prelude::*;

verus! {

/// The width of a floating-point type.
#[derive(Clone, Copy, Debug, PartialEq, Eq, Structural)]
pub enum FloatTy {
    F32,
    F64,
}

/// The kind of a type, as far as constants depend on it.
#[derive(Clone, Copy, Debug, PartialEq, Eq, Structural)]
pub enum TyKind {
    Bool,
    /// An unsigned integer of fixed width.
    Uint,
    /// A signed integer of fixed width.
    Int,
    Float(FloatTy),
    /// The type of a function item, which has no data.
    FnDef,
    RawPtr,
    /// Aggregates, references, enums and everything else.
    Other,
}

/// A monomorphic type with its layout.
#[derive(Clone, Copy, Debug, PartialEq, Eq, Structural)]
pub struct Ty {
    pub kind: TyKind,
    /// The size in bytes.
    pub size: u64,
    /// Whether the size is known at compile time.
    pub sized: bool,
}

/// A constant: its type and what is known of its value.
#[derive(Clone, Copy, Debug, PartialEq, Eq, Structural)]
pub struct Const {
    pub ty: Ty,
    pub val: ConstValue,
}

/// A constant operand of the program.
#[derive(Clone, Copy, Debug, PartialEq, Eq, Structural)]
pub struct Constant {
    pub literal: Const,
}

/// An instance of a function, by the number that identifies it.
#[derive(Clone, Copy, Debug, PartialEq, Eq, Structural)]
pub struct Instance(pub u64);

/// A constant that was lifted out of a function body: the function and the
/// index of the constant in it.
#[derive(Clone, Copy, Debug, PartialEq, Eq, Structural)]
pub struct GlobalId {
    pub instance: Instance,
    pub promoted: u32,
}

/// How a static place came to be.
#[derive(Clone, Copy, Debug, PartialEq, Eq, Structural)]
pub enum StaticKind {
    /// A static item.
    Static,
    /// A constant that was lifted out of a function body.
    Promoted(GlobalId),
}

/// A static place.
#[derive(Clone, Copy, Debug, PartialEq, Eq, Structural)]
pub struct Static {
    pub def_id: DefId,
    pub kind: StaticKind,
}

/// Where a place starts.
#[derive(Clone, Copy, Debug, PartialEq, Eq, Structural)]
pub enum PlaceBase {
    Local(u32),
    Static(Static),
}

/// A place of the program.
#[derive(Clone, Copy, Debug, PartialEq, Eq, Structural)]
pub struct Place {
    pub base: PlaceBase,
    /// The number of projections applied to the base.
    pub projections: usize,
}

/// An operand of the program.
#[derive(Clone, Copy, Debug, PartialEq, Eq, Structural)]
pub enum Operand {
    Copy(Place),
    Move(Place),
    Constant(Constant),
}

/// A place that code generation can take the address of.
#[derive(Clone, Copy, Debug, PartialEq, Eq, Structural)]
pub enum CPlace {
    /// The data object with the given handle.
    Addr(DataId, Ty),
    /// No place: the code that would use it is never reached, and traps.
    Unreachable(Ty),
}

/// A value that code generation can use as an operand.
#[derive(Clone, Copy, Debug, PartialEq, Eq, Structural)]
pub enum CValue {
    /// An immediate boolean or integer with the given bit pattern.
    Const(Ty, u128),
    /// An immediate 32-bit float with the given bit pattern.
    F32(u32),
    /// An immediate 64-bit float with the given bit pattern.
    F64(u64),
    /// A function item: a placeholder address that is not null and is never read.
    Sentinel(Ty, u8),
    /// The value that is stored at a place.
    ByRef(CPlace),
}

impl GlobalId {
    /// The identity as one number: the instance above the index.
    pub open spec fn spec_key(self) -> u128 {
        (self.instance.0 as u128 * 0x1_0000_0000 + self.promoted as u128) as u128
    }

    /// The identity as one number: the instance above the index.
    #[verifier::when_used_as_spec(spec_key)]
    pub fn key(self) -> (k: u128)
        ensures
            k == self.spec_key(),
    {
        self.instance.0 as u128 * 0x1_0000_0000 + self.promoted as u128
    }
}

impl TyKind {
    /// Booleans, integers and floats: values that are immediates.
    pub open spec fn is_scalar(self) -> bool {
        self is Bool || self is Uint || self is Int || self is Float
    }
}

impl CPlace {
    /// The type of what is stored at the place.
    pub open spec fn spec_ty(self) -> Ty {
        match self {
            CPlace::Addr(_, ty) => ty,
            CPlace::Unreachable(ty) => ty,
        }
    }

    /// The type of what is stored at the place.
    #[verifier::when_used_as_spec(spec_ty)]
    pub fn ty(self) -> (ty: Ty)
        ensures
            ty == self.spec_ty(),
    {
        match self {
            CPlace::Addr(_, ty) => ty,
            CPlace::Unreachable(ty) => ty,
        }
    }

    /// The value that is stored at the place.
    pub fn to_cvalue(self) -> (value: CValue)
        ensures
            value == CValue::ByRef(self),
    {
        CValue::ByRef(self)
    }
}

} // verus!
