//! Materializing evaluated constants and statics as data objects of a
//! Cranelift object module, with proofs.
//!
//! Code generation asks for constants and statics as it meets them
//! ([`constant::trans_const_value`], [`constant::codegen_static`],
//! [`constant::codegen_static_ref`]). Scalars are immediates; everything else
//! lives in an allocation, which becomes pending work of a
//! [`constant::ConstantCx`]. At the end of a compilation unit
//! [`constant::ConstantCx::finalize`] gives every pending item, and every
//! allocation that one of them reaches through pointers, a data object of its
//! own: the bytes, padded to a multiple of 16, and an address for each pointer.
//!
//! What the evaluator produced is held in a [`memory::ConstStore`], which a
//! [`loader::Loader`] fills item by item. The object module and its data
//! descriptions are those of `cranelift-object` and `cranelift-module`; what
//! is taken on trust of them is stated in [`module`].

pub mod bits;
pub mod common;
pub mod constant;
pub mod ident;
pub mod llvm_intrinsics;
pub mod loader;
pub mod memory;
pub mod module;
pub mod pretty_clif;
pub mod session;
pub mod symbol;
pub mod value_and_place;
