use cg_clif::bits::Endian;
use cg_clif::constant::{can_align, codegen_static, power_of_two, ConstantCx, ConstantError};
use cg_clif::ident::{AllocId, DefId, FuncId};
use cg_clif::llvm_intrinsics::{
    classify, diverging, float_cc_for_kind, Diverging, FloatCC, LlvmIntrinsic,
};
use cg_clif::loader::Loader;
use cg_clif::memory::{
    Allocation, ConstValue, RelocTarget, Relocation, StaticInfo, TargetDataLayout, TodoItem,
};
use cg_clif::module::ModuleFault;
use cranelift::codegen::{isa, settings};
use cranelift_module::Module;
use cranelift_object::{ObjectBuilder, ObjectModule};
use std::collections::HashMap;

const LAYOUT: TargetDataLayout = TargetDataLayout { endian: Endian::Little, pointer_size: 8 };

fn new_module() -> ObjectModule {
    let isa = isa::lookup_by_name("x86_64-unknown-linux-gnu")
        .unwrap()
        .finish(settings::Flags::new(settings::builder()))
        .unwrap();
    ObjectModule::new(
        ObjectBuilder::new(isa, "loader", cranelift_module::default_libcall_names()).unwrap(),
    )
}

fn pointing(targets: &[RelocTarget]) -> Allocation {
    Allocation {
        bytes: vec![0; 8 * targets.len().max(1)],
        align: 8,
        relocations: targets
            .iter()
            .enumerate()
            .map(|(i, target)| Relocation { offset: 8 * i as u32, target: *target })
            .collect(),
    }
}

fn static_info(name: &str, alloc: u64, foreign: bool) -> StaticInfo {
    StaticInfo {
        symbol_name: name.to_string(),
        foreign,
        mutable: false,
        freeze: true,
        align: 8,
        raw_pointer: false,
        reachable: false,
        value: ConstValue::ByRef { alloc: AllocId(alloc), offset: 0 },
    }
}

#[test]
fn loader_without_roots_wants_nothing() {
    let mut loader = Loader::new(LAYOUT, Vec::new());
    assert_eq!(loader.next_wanted(), None);
    let store = loader.finish();
    assert!(store.allocs.is_empty());
    assert!(store.statics.is_empty());
    assert_eq!(store.layout, LAYOUT);
}

#[test]
fn loader_wants_a_root_until_it_is_provided() {
    let mut loader = Loader::new(LAYOUT, vec![TodoItem::Alloc(AllocId(4))]);
    assert_eq!(loader.next_wanted(), Some(TodoItem::Alloc(AllocId(4))));
    assert_eq!(loader.next_wanted(), Some(TodoItem::Alloc(AllocId(4))));
    loader.provide_alloc(AllocId(4), pointing(&[]));
    assert_eq!(loader.next_wanted(), None);
    let store = loader.finish();
    assert_eq!(store.allocs.len(), 1);
    assert_eq!(store.allocs[&4].bytes, vec![0; 8]);
}

#[test]
fn loader_wants_what_an_allocation_points_at() {
    let def = DefId { krate: 1, index: 2 };
    let mut loader = Loader::new(LAYOUT, vec![TodoItem::Alloc(AllocId(1))]);
    loader.provide_alloc(
        AllocId(1),
        pointing(&[
            RelocTarget::Memory(AllocId(2)),
            RelocTarget::Function(FuncId(0)),
            RelocTarget::Static(def),
            RelocTarget::Memory(AllocId(1)),
        ]),
    );
    let mut asked = Vec::new();
    while let Some(item) = loader.next_wanted() {
        asked.push(item);
        match item {
            TodoItem::Alloc(id) => loader.provide_alloc(id, pointing(&[])),
            TodoItem::Static(d) => assert!(loader.provide_static(d, static_info("S", 0, true))),
        }
    }
    asked.sort_by_key(|item| match item {
        TodoItem::Alloc(id) => (0, id.0),
        TodoItem::Static(d) => (1, d.key()),
    });
    assert_eq!(asked, vec![TodoItem::Alloc(AllocId(2)), TodoItem::Static(def)]);
    let store = loader.finish();
    assert_eq!(store.allocs.len(), 2);
    assert_eq!(store.statics.len(), 1);
}

#[test]
fn loader_wants_the_allocation_of_a_static_that_is_defined_here() {
    let def = DefId { krate: 0, index: 1 };
    let mut loader = Loader::new(LAYOUT, vec![TodoItem::Static(def)]);
    assert_eq!(loader.next_wanted(), Some(TodoItem::Static(def)));
    assert!(loader.provide_static(def, static_info("HERE", 9, false)));
    assert_eq!(loader.next_wanted(), Some(TodoItem::Alloc(AllocId(9))));
    loader.provide_alloc(AllocId(9), pointing(&[]));
    assert_eq!(loader.next_wanted(), None);
    let store = loader.finish();
    assert_eq!(store.statics[&def.key()].symbol_name, "HERE");
    assert!(store.allocs.contains_key(&9));
}

#[test]
fn loader_does_not_want_the_allocation_of_a_static_that_is_only_pointed_at() {
    let def = DefId { krate: 5, index: 1 };
    let mut loader = Loader::new(LAYOUT, vec![TodoItem::Alloc(AllocId(1))]);
    assert!(loader.is_root(TodoItem::Alloc(AllocId(1))));
    assert!(!loader.is_root(TodoItem::Static(def)));
    assert!(!loader.is_root(TodoItem::Alloc(AllocId(2))));
    loader.provide_alloc(AllocId(1), pointing(&[RelocTarget::Static(def)]));
    assert_eq!(loader.next_wanted(), Some(TodoItem::Static(def)));
    let mut info = static_info("UPSTREAM", 0, false);
    info.value = ConstValue::Unevaluated(def);
    assert!(loader.provide_static(def, info));
    assert_eq!(loader.next_wanted(), None);
    let store = loader.finish();
    assert_eq!(store.allocs.len(), 1);
    let mut module = new_module();
    let mut cx = ConstantCx::new();
    let mut items = vec![TodoItem::Alloc(AllocId(1))];
    while let Some(item) = items.pop() {
        match item {
            TodoItem::Static(d) => codegen_static(&mut cx, d),
            TodoItem::Alloc(_) => {}
        }
    }
    // Nothing was asked for, so nothing is defined.
    assert_eq!(cx.finalize(&store, &mut module), Ok(()));
    assert_eq!(module.declarations().get_data_objects().count(), 0);
}

#[test]
fn loader_does_not_want_the_allocation_of_a_foreign_static() {
    let def = DefId { krate: 0, index: 1 };
    let mut loader = Loader::new(LAYOUT, vec![TodoItem::Static(def)]);
    assert!(loader.provide_static(def, static_info("ELSEWHERE", 9, true)));
    assert_eq!(loader.next_wanted(), None);
    assert!(loader.finish().allocs.is_empty());
}

#[test]
fn loader_refuses_a_symbol_that_is_taken() {
    let first = DefId { krate: 0, index: 1 };
    let second = DefId { krate: 0, index: 2 };
    let mut loader = Loader::new(LAYOUT, vec![TodoItem::Static(first), TodoItem::Static(second)]);
    assert!(loader.provide_static(first, static_info("SAME", 0, true)));
    assert!(!loader.provide_static(second, static_info("SAME", 0, true)));
    assert_eq!(loader.next_wanted(), Some(TodoItem::Static(second)));
    assert!(loader.provide_static(second, static_info("OTHER", 0, true)));
    assert_eq!(loader.next_wanted(), None);
    assert_eq!(loader.finish().statics.len(), 2);
}

#[test]
fn loader_refuses_a_static_that_is_named_like_an_allocation() {
    let def = DefId { krate: 0, index: 1 };
    let mut loader = Loader::new(LAYOUT, vec![TodoItem::Static(def)]);
    assert!(!loader.provide_static(def, static_info("__alloc_7", 0, true)));
    assert!(!loader.provide_static(def, static_info("__alloc_", 0, true)));
    assert!(!loader.provide_static(def, static_info("__alloc_x", 0, true)));
    assert_eq!(loader.next_wanted(), Some(TodoItem::Static(def)));
    assert!(loader.provide_static(def, static_info("__alloc", 0, true)));
    assert_eq!(loader.next_wanted(), None);
}

#[test]
fn loaded_store_can_be_finalized() {
    // A ring of allocations, a static that points into it, and a static that
    // the ring points at.
    let mut all: HashMap<u64, Allocation> = HashMap::new();
    let outside = DefId { krate: 3, index: 3 };
    let entry = DefId { krate: 0, index: 1 };
    for id in 0..6u64 {
        let mut targets = vec![RelocTarget::Memory(AllocId((id + 1) % 6))];
        if id == 3 {
            targets.push(RelocTarget::Static(outside));
        }
        all.insert(id, pointing(&targets));
    }
    all.insert(100, pointing(&[RelocTarget::Memory(AllocId(2))]));

    let mut cx = ConstantCx::new();
    codegen_static(&mut cx, entry);
    let mut loader = Loader::new(LAYOUT, cx.pending_items());
    let mut fetched = 0;
    while let Some(item) = loader.next_wanted() {
        fetched += 1;
        match item {
            TodoItem::Alloc(id) => loader.provide_alloc(id, all[&id.0].clone()),
            TodoItem::Static(def) if def == entry => {
                assert!(loader.provide_static(def, static_info("ENTRY", 100, false)))
            }
            TodoItem::Static(def) => {
                assert!(loader.provide_static(def, static_info("OUTSIDE", 0, true)))
            }
        }
    }
    assert_eq!(fetched, 9);
    let store = loader.finish();
    let mut module = new_module();
    assert_eq!(cx.finalize(&store, &mut module), Ok(()));
    // Six allocations of the ring and the two statics; the allocation of the
    // static is defined under the static's name.
    assert_eq!(module.declarations().get_data_objects().count(), 8);
    assert!(module.get_name("__alloc_100").is_none());
    assert!(module.get_name("ENTRY").is_some());
    assert!(module.get_name("OUTSIDE").is_some());
    for id in 0..6u64 {
        assert!(module.get_name(&format!("__alloc_{}", id)).is_some());
    }
    module.finish();
}

#[test]
fn pending_items_are_the_requests() {
    let mut cx = ConstantCx::new();
    assert!(cx.pending_items().is_empty());
    let a = DefId { krate: 0, index: 1 };
    let b = DefId { krate: 0, index: 2 };
    codegen_static(&mut cx, a);
    codegen_static(&mut cx, b);
    codegen_static(&mut cx, a);
    let mut items = cx.pending_items();
    items.sort_by_key(|item| match item {
        TodoItem::Alloc(id) => id.0,
        TodoItem::Static(d) => d.key(),
    });
    assert_eq!(items, vec![TodoItem::Static(a), TodoItem::Static(b)]);
}

#[test]
fn power_of_two_is_recognized() {
    assert!(!power_of_two(0));
    assert!(power_of_two(1));
    assert!(power_of_two(2));
    assert!(!power_of_two(3));
    assert!(power_of_two(64));
    assert!(!power_of_two(96));
    assert!(power_of_two(1 << 63));
    assert!(!power_of_two(u64::MAX));
}

#[test]
fn alignments_are_powers_of_two_that_fit_an_address() {
    assert!(!can_align(0));
    assert!(can_align(1));
    assert!(can_align(2));
    assert!(!can_align(3));
    assert!(can_align(16));
    assert!(can_align(4096));
    assert!(!can_align(4097));
    assert!(!can_align(u64::MAX));
    assert_eq!(can_align(1 << 40), (1u64 << 40) <= usize::MAX as u64);
}

#[test]
fn error_messages() {
    let def = DefId { krate: 0, index: 1 };
    assert_eq!(
        ConstantError::WeakStaticNotPointer(def).message(),
        "must have type `*const T` or `*mut T` due to `#[linkage]` attribute"
    );
    assert_eq!(
        ConstantError::Module(ModuleFault::IncompatibleDeclaration).message(),
        "symbol is declared as a function"
    );
    assert_eq!(
        ConstantError::Module(ModuleFault::DuplicateDefinition).message(),
        "data object is defined already"
    );
    assert_eq!(
        ConstantError::Module(ModuleFault::InvalidImportDefinition).message(),
        "data object is declared as an import"
    );
    assert_eq!(
        ConstantError::Module(ModuleFault::IncompatibleTls).message(),
        "symbol is declared as thread-local data"
    );
    assert_eq!(
        ConstantError::Module(ModuleFault::Backend).message(),
        "symbol is refused by the backend"
    );
}

#[test]
fn intrinsics_are_classified_by_name() {
    assert_eq!(classify("llvm.x86.sse2.pmovmskb.128"), LlvmIntrinsic::MoveMask);
    assert_eq!(classify("llvm.x86.avx2.pmovmskb"), LlvmIntrinsic::MoveMask);
    assert_eq!(classify("llvm.x86.sse2.movmsk.pd"), LlvmIntrinsic::MoveMask);
    assert_eq!(classify("llvm.x86.sse2.cmp.ps"), LlvmIntrinsic::CompareFloat);
    assert_eq!(classify("llvm.x86.sse2.cmp.pd"), LlvmIntrinsic::CompareFloat);
    assert_eq!(classify("llvm.x86.avx2.vperm2i128"), LlvmIntrinsic::Unsupported);
    assert_eq!(classify("llvm.x86.sse2.cmp.p"), LlvmIntrinsic::Unsupported);
    assert_eq!(classify(""), LlvmIntrinsic::Unsupported);
}

#[test]
fn diverging_intrinsics() {
    assert_eq!(diverging("abort"), Some(Diverging::Abort));
    assert_eq!(diverging("unreachable"), Some(Diverging::Unreachable));
    assert_eq!(diverging("llvm.x86.sse2.cmp.ps"), None);
    assert_eq!(diverging("Abort"), None);
}

#[test]
fn float_comparison_kinds() {
    assert_eq!(float_cc_for_kind(0), Some(FloatCC::Equal));
    assert_eq!(float_cc_for_kind(1), Some(FloatCC::LessThan));
    assert_eq!(float_cc_for_kind(2), Some(FloatCC::LessThanOrEqual));
    assert_eq!(float_cc_for_kind(3), None);
    assert_eq!(float_cc_for_kind(4), Some(FloatCC::NotEqual));
    assert_eq!(float_cc_for_kind(5), None);
    assert_eq!(float_cc_for_kind(6), None);
    assert_eq!(float_cc_for_kind(7), None);
    assert_eq!(float_cc_for_kind(8), None);
    assert_eq!(float_cc_for_kind(u128::MAX), None);
}
