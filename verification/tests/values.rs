use cg_clif::bits::Endian;
use cg_clif::common::FunctionCx;
use cg_clif::constant::{
    cplace_for_dataid, force_eval_const, mir_operand_get_const_val, trans_const_value,
    trans_constant, trans_promoted, ConstantCx, ConstantError,
};
use cg_clif::ident::{AllocId, DataId, DefId};
use cg_clif::memory::{ConstStore, ConstValue, TargetDataLayout, TodoItem};
use cg_clif::module::ModuleFault;
use cg_clif::pretty_clif::CommentWriter;
use cg_clif::value_and_place::{
    CPlace, CValue, Const, Constant, FloatTy, GlobalId, Instance, Operand, Place, PlaceBase,
    Static, StaticKind, Ty, TyKind,
};
use cranelift::codegen::ir::Signature;
use cranelift::codegen::isa::CallConv;
use cranelift::codegen::{isa, settings};
use cranelift_module::Module;
use cranelift_object::{ObjectBuilder, ObjectModule};
use std::collections::HashMap;

fn new_module() -> ObjectModule {
    let isa = isa::lookup_by_name("x86_64-unknown-linux-gnu")
        .unwrap()
        .finish(settings::Flags::new(settings::builder()))
        .unwrap();
    ObjectModule::new(
        ObjectBuilder::new(isa, "values", cranelift_module::default_libcall_names()).unwrap(),
    )
}

fn new_store() -> ConstStore {
    ConstStore {
        layout: TargetDataLayout { endian: Endian::Little, pointer_size: 8 },
        allocs: HashMap::new(),
        statics: HashMap::new(),
        consts: HashMap::new(),
        promoted: HashMap::new(),
    }
}

fn function_cx() -> FunctionCx {
    FunctionCx {
        pointer_size: 8,
        constants_cx: ConstantCx::new(),
        clif_comments: CommentWriter::new("f", "f", "fn()"),
    }
}

fn ty(kind: TyKind, size: u64) -> Ty {
    Ty { kind, size, sized: true }
}

fn scalar(kind: TyKind, size: u8, bits: u128) -> Const {
    Const { ty: ty(kind, size as u64), val: ConstValue::Scalar { bits, size } }
}

fn in_memory(alloc: u64) -> Const {
    Const { ty: ty(TyKind::Other, 24), val: ConstValue::ByRef { alloc: AllocId(alloc), offset: 0 } }
}

/// Lowers a constant and checks that neither the module nor the pending
/// work was touched.
fn immediate(const_: Const) -> CValue {
    let mut fx = function_cx();
    let mut module = new_module();
    let value = trans_const_value(&mut fx, &mut module, &const_).unwrap();
    assert_eq!(module.declarations().get_data_objects().count(), 0);
    assert_eq!(module.declarations().get_functions().count(), 0);
    assert_eq!(fx.constants_cx.pending_len(), 0);
    value
}

#[test]
fn boolean_is_an_immediate() {
    let t = scalar(TyKind::Bool, 1, 1);
    assert_eq!(immediate(t), CValue::Const(t.ty, 1));
    let f = scalar(TyKind::Bool, 1, 0);
    assert_eq!(immediate(f), CValue::Const(f.ty, 0));
}

#[test]
fn unsigned_integer_is_an_immediate_with_its_bits() {
    let byte = scalar(TyKind::Uint, 1, 1);
    assert_eq!(immediate(byte), CValue::Const(byte.ty, 1));
    let high = scalar(TyKind::Uint, 1, 0xff);
    assert_eq!(immediate(high), CValue::Const(high.ty, 0xff));
    let wide = scalar(TyKind::Uint, 16, u128::MAX);
    assert_eq!(immediate(wide), CValue::Const(wide.ty, u128::MAX));
}

#[test]
fn signed_integer_is_sign_extended() {
    let minus_one = scalar(TyKind::Int, 1, 0xff);
    assert_eq!(immediate(minus_one), CValue::Const(minus_one.ty, u128::MAX));
    let minus_one = scalar(TyKind::Int, 4, 0xffff_ffff);
    assert_eq!(immediate(minus_one), CValue::Const(minus_one.ty, u128::MAX));
    let minus_two = scalar(TyKind::Int, 8, 0xffff_ffff_ffff_fffe);
    assert_eq!(immediate(minus_two), CValue::Const(minus_two.ty, (-2i128) as u128));
    let plus = scalar(TyKind::Int, 2, 0x7fff);
    assert_eq!(immediate(plus), CValue::Const(plus.ty, 0x7fff));
}

#[test]
fn float_is_an_immediate_with_its_bits() {
    let one = scalar(TyKind::Float(FloatTy::F32), 4, 1.0f32.to_bits() as u128);
    assert_eq!(immediate(one), CValue::F32(0x3f80_0000));
    let half = scalar(TyKind::Float(FloatTy::F64), 8, 0.5f64.to_bits() as u128);
    assert_eq!(immediate(half), CValue::F64(0x3fe0_0000_0000_0000));
    let nan = scalar(TyKind::Float(FloatTy::F32), 4, u32::MAX as u128);
    assert_eq!(immediate(nan), CValue::F32(u32::MAX));
}

#[test]
fn function_item_is_a_placeholder_that_is_not_null() {
    let item = Const { ty: ty(TyKind::FnDef, 0), val: ConstValue::Scalar { bits: 0, size: 0 } };
    assert_eq!(immediate(item), CValue::Sentinel(item.ty, 8));
    let mut fx = function_cx();
    fx.pointer_size = 4;
    let mut module = new_module();
    assert_eq!(
        trans_const_value(&mut fx, &mut module, &item),
        Ok(CValue::Sentinel(item.ty, 4))
    );
}

#[test]
fn aggregate_is_a_place_and_becomes_pending() {
    let mut fx = function_cx();
    let mut module = new_module();
    let const_ = in_memory(17);
    let value = trans_const_value(&mut fx, &mut module, &const_).unwrap();
    assert_eq!(value, CValue::ByRef(CPlace::Addr(DataId(0), const_.ty)));
    assert!(fx.constants_cx.is_pending(TodoItem::Alloc(AllocId(17))));
    assert_eq!(fx.constants_cx.pending_len(), 1);
    assert!(module.get_name("__alloc_17").is_some());
    // Nothing is defined before the session is finalized.
    let id = cranelift_module::DataId::from_u32(0);
    assert_eq!(module.declarations().get_data_decl(id).name.as_deref(), Some("__alloc_17"));
}

#[test]
fn raw_pointer_constant_is_a_place() {
    let mut fx = function_cx();
    let mut module = new_module();
    let const_ = Const {
        ty: ty(TyKind::RawPtr, 8),
        val: ConstValue::ByRef { alloc: AllocId(3), offset: 0 },
    };
    assert_eq!(
        trans_const_value(&mut fx, &mut module, &const_),
        Ok(CValue::ByRef(CPlace::Addr(DataId(0), const_.ty)))
    );
    assert!(fx.constants_cx.is_pending(TodoItem::Alloc(AllocId(3))));
}

#[test]
fn same_allocation_gets_the_same_place() {
    let mut fx = function_cx();
    let mut module = new_module();
    let first = trans_const_value(&mut fx, &mut module, &in_memory(1)).unwrap();
    let other = trans_const_value(&mut fx, &mut module, &in_memory(2)).unwrap();
    let again = trans_const_value(&mut fx, &mut module, &in_memory(1)).unwrap();
    assert_eq!(first, again);
    assert_ne!(first, other);
    assert_eq!(fx.constants_cx.pending_len(), 2);
    assert_eq!(module.declarations().get_data_objects().count(), 2);
}

#[test]
fn place_of_a_refused_symbol_is_an_error() {
    let mut fx = function_cx();
    let mut module = new_module();
    module
        .declare_function("__alloc_1", cranelift_module::Linkage::Import, &Signature::new(CallConv::SystemV))
        .unwrap();
    assert_eq!(
        trans_const_value(&mut fx, &mut module, &in_memory(1)),
        Err(ConstantError::Module(ModuleFault::IncompatibleDeclaration))
    );
}

#[test]
fn cplace_for_dataid_is_the_data_object() {
    let t = ty(TyKind::Other, 3);
    let place = cplace_for_dataid(t, DataId(4));
    assert_eq!(place, CPlace::Addr(DataId(4), t));
    assert_eq!(place.ty(), t);
    assert_eq!(place.to_cvalue(), CValue::ByRef(place));
    assert_eq!(CPlace::Unreachable(t).ty(), t);
}

#[test]
fn force_eval_const_looks_named_constants_up() {
    let mut store = new_store();
    let def = DefId { krate: 0, index: 3 };
    let evaluated = scalar(TyKind::Uint, 4, 99);
    store.consts.insert(def.key(), evaluated);
    let named = Const { ty: evaluated.ty, val: ConstValue::Unevaluated(def) };
    assert_eq!(force_eval_const(&store, &named), evaluated);
    assert_eq!(force_eval_const(&store, &evaluated), evaluated);
    assert_eq!(force_eval_const(&store, &in_memory(1)), in_memory(1));
}

#[test]
fn trans_constant_evaluates_and_lowers() {
    let mut store = new_store();
    let def = DefId { krate: 0, index: 3 };
    let evaluated = scalar(TyKind::Int, 2, 0xffff);
    store.consts.insert(def.key(), evaluated);
    let mut fx = function_cx();
    let mut module = new_module();
    let constant = Constant { literal: Const { ty: evaluated.ty, val: ConstValue::Unevaluated(def) } };
    assert_eq!(
        trans_constant(&mut fx, &store, &mut module, &constant),
        Ok(CValue::Const(evaluated.ty, u128::MAX))
    );
    let literal = Constant { literal: scalar(TyKind::Uint, 1, 1) };
    assert_eq!(
        trans_constant(&mut fx, &store, &mut module, &literal),
        Ok(CValue::Const(literal.literal.ty, 1))
    );
    assert_eq!(module.declarations().get_data_objects().count(), 0);
}

#[test]
fn promoted_constant_is_a_place() {
    let mut store = new_store();
    let id = GlobalId { instance: Instance(5), promoted: 2 };
    store.promoted.insert(id.key(), in_memory(8));
    let mut fx = function_cx();
    let mut module = new_module();
    assert_eq!(
        trans_promoted(&mut fx, &store, &mut module, id, in_memory(8).ty),
        Ok(CPlace::Addr(DataId(0), in_memory(8).ty))
    );
    assert!(fx.constants_cx.is_pending(TodoItem::Alloc(AllocId(8))));
}

#[test]
fn promoted_constant_that_failed_has_no_place() {
    let store = new_store();
    let id = GlobalId { instance: Instance(5), promoted: 2 };
    let mut fx = function_cx();
    let mut module = new_module();
    let dest = ty(TyKind::Other, 4);
    assert_eq!(
        trans_promoted(&mut fx, &store, &mut module, id, dest),
        Ok(CPlace::Unreachable(dest))
    );
    assert_eq!(fx.constants_cx.pending_len(), 0);
    assert_eq!(module.declarations().get_data_objects().count(), 0);
}

#[test]
fn operand_constant_gives_its_constant() {
    let mut store = new_store();
    let def = DefId { krate: 1, index: 1 };
    let evaluated = scalar(TyKind::Uint, 1, 4);
    store.consts.insert(def.key(), evaluated);
    let literal = Operand::Constant(Constant { literal: evaluated });
    assert_eq!(mir_operand_get_const_val(&store, &literal), Some(evaluated));
    let named = Operand::Constant(Constant {
        literal: Const { ty: evaluated.ty, val: ConstValue::Unevaluated(def) },
    });
    assert_eq!(mir_operand_get_const_val(&store, &named), Some(evaluated));
}

#[test]
fn operand_local_gives_no_constant() {
    let store = new_store();
    let place = Place { base: PlaceBase::Local(3), projections: 0 };
    assert_eq!(mir_operand_get_const_val(&store, &Operand::Copy(place)), None);
    assert_eq!(mir_operand_get_const_val(&store, &Operand::Move(place)), None);
}

#[test]
fn operand_promoted_gives_the_lifted_constant() {
    let mut store = new_store();
    let id = GlobalId { instance: Instance(1), promoted: 0 };
    let lifted = scalar(TyKind::Uint, 1, 7);
    store.promoted.insert(id.key(), lifted);
    let place = Place {
        base: PlaceBase::Static(Static {
            def_id: DefId { krate: 0, index: 1 },
            kind: StaticKind::Promoted(id),
        }),
        projections: 0,
    };
    assert_eq!(mir_operand_get_const_val(&store, &Operand::Copy(place)), Some(lifted));
    assert_eq!(mir_operand_get_const_val(&store, &Operand::Move(place)), Some(lifted));
}
