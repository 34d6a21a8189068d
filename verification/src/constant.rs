//! Materializing constants and statics as data objects of the object module.

use crate::bits::{addend_from_uint, read_target_uint, sign_extend, sign_extended};
use crate::ident::{AllocId, DataId, DefId, Linkage};
use crate::memory::{
    padded, padding_len, Allocation, ConstStore, ConstValue, RelocTarget, Relocation, TodoItem,
    FILLER,
};
use crate::module::{
    declare_data, declare_data_in_data, declare_func_in_data, define_contents, define_data,
    description_view, get_data_name, is_thread_local, module_view, new_description, set_align,
    write_data_addr, write_function_addr, ModuleFault, ModuleView,
};
use crate::common::FunctionCx;
use crate::session::{data_ids, items_of};
use crate::symbol::{alloc_symbol, alloc_symbol_name};
use crate::value_and_place::{
    CPlace, CValue, Const, Constant, FloatTy, GlobalId, Operand, PlaceBase, StaticKind, Ty,
    TyKind,
};
use cranelift_module::DataDescription;
use cranelift_object::ObjectModule;
use std::collections::HashSet;
use vstd::prelude::*;
use vstd::slice::slice_subrange;
use vstd::string::StringExecFns;

verus! {

broadcast use vstd::std_specs::hash::group_hash_axioms;

/// Why a constant or a static could not be materialized.
#[derive(Clone, Copy, Debug, PartialEq, Eq, Structural)]
pub enum ConstantError {
    /// A static was given a linkage that can be overridden, and its type is
    /// not a raw pointer.
    WeakStaticNotPointer(DefId),
    /// The object module refused a declaration or a definition.
    Module(ModuleFault),
}

impl ConstantError {
    /// What the error is reported as.
    pub open spec fn message_text(self) -> Seq<char> {
        match self {
            ConstantError::WeakStaticNotPointer(_) =>
                "must have type `*const T` or `*mut T` due to `#[linkage]` attribute"@,
            ConstantError::Module(ModuleFault::IncompatibleDeclaration) =>
                "symbol is declared as a function"@,
            ConstantError::Module(ModuleFault::DuplicateDefinition) =>
                "data object is defined already"@,
            ConstantError::Module(ModuleFault::InvalidImportDefinition) =>
                "data object is declared as an import"@,
            ConstantError::Module(ModuleFault::IncompatibleTls) =>
                "symbol is declared as thread-local data"@,
            ConstantError::Module(ModuleFault::Backend) => "symbol is refused by the backend"@,
        }
    }

    /// What the error is reported as.
    pub fn message(&self) -> (text: String)
        ensures
            text@ == self.message_text(),
    {
        let text = match self {
            ConstantError::WeakStaticNotPointer(_) =>
                "must have type `*const T` or `*mut T` due to `#[linkage]` attribute",
            ConstantError::Module(ModuleFault::IncompatibleDeclaration) =>
                "symbol is declared as a function",
            ConstantError::Module(ModuleFault::DuplicateDefinition) =>
                "data object is defined already",
            ConstantError::Module(ModuleFault::InvalidImportDefinition) =>
                "data object is declared as an import",
            ConstantError::Module(ModuleFault::IncompatibleTls) =>
                "symbol is declared as thread-local data",
            ConstantError::Module(ModuleFault::Backend) => "symbol is refused by the backend",
        };
        String::from_str(text)
    }
}

/// The session of one compilation unit: the pending work, and the data objects
/// that the session defined. A session starts empty, is asked for statics and
/// constants while code is generated, and is finalized once.
///
/// The pending work is a set. It is kept in a vector in which nothing occurs
/// twice: the model that `vstd` has of a hash set holds for keys that obey its
/// key model, which is known of integers and not of an enum with a derived
/// `Hash`, so that nothing could be proved of a hash set of items. The data
/// objects that are done are kept in a hash set of their numbers.
pub struct ConstantCx {
    todo: Vec<TodoItem>,
    done: HashSet<u32>,
}

/// Takes some element out of the set, if it has one. Which one it takes is
/// left open: callers must not depend on the order.
pub fn pop_set<T: Copy>(set: &mut Vec<T>) -> (popped: Option<T>)
    requires
        old(set)@.no_duplicates(),
    ensures
        final(set)@.no_duplicates(),
        match popped {
            Some(element) => {
                &&& old(set)@.to_set().contains(element)
                &&& final(set)@.to_set() == old(set)@.to_set().remove(element)
                &&& final(set)@.len() == old(set)@.len() - 1
            },
            None => old(set)@.len() == 0 && final(set)@ == old(set)@,
        },
{
    let popped = set.pop();
    proof {
        if let Some(element) = popped {
            let before = old(set)@;
            let after = set@;
            assert(before[before.len() - 1] == element);
            assert(before.to_set().contains(element));
            assert(after =~= before.drop_last());
            assert forall|x: T| after.to_set().contains(x) <==> before.to_set().remove(
                element,
            ).contains(x) by {
                if after.to_set().contains(x) {
                    let i = choose|i: int| 0 <= i < after.len() && after[i] == x;
                    assert(before[i] == x);
                }
                if before.to_set().remove(element).contains(x) {
                    let i = choose|i: int| 0 <= i < before.len() && before[i] == x;
                    assert(after[i] == x);
                }
            }
            assert(after.to_set() =~= before.to_set().remove(element));
        }
    }
    popped
}

/// Puts an item into the set of pending work, unless it is there already.
fn insert_todo(todo: &mut Vec<TodoItem>, item: TodoItem)
    requires
        old(todo)@.no_duplicates(),
    ensures
        final(todo)@.no_duplicates(),
        final(todo)@.to_set() == old(todo)@.to_set().insert(item),
{
    let mut i: usize = 0;
    while i < todo.len()
        invariant
            i <= todo@.len(),
            todo@ == old(todo)@,
            todo@.no_duplicates(),
            forall|j: int| 0 <= j < i ==> todo@[j] != item,
        decreases todo@.len() - i,
    {
        if todo[i] == item {
            assert(todo@.to_set().contains(item));
            assert(todo@.to_set() =~= todo@.to_set().insert(item));
            return ;
        }
        i = i + 1;
    }
    todo.push(item);
    proof {
        let before = old(todo)@;
        let after = todo@;
        assert forall|x: TodoItem| after.to_set().contains(x) <==> before.to_set().insert(
            item,
        ).contains(x) by {
            if after.to_set().contains(x) {
                let k = choose|k: int| 0 <= k < after.len() && after[k] == x;
                if k < before.len() {
                    assert(before[k] == x);
                }
            }
            if before.to_set().contains(x) {
                let k = choose|k: int| 0 <= k < before.len() && before[k] == x;
                assert(after[k] == x);
            }
            if x == item {
                assert(after[before.len() as int] == x);
            }
        }
        assert(after.to_set() =~= before.to_set().insert(item));
    }
}

/// Whether `align` is a power of two.
pub fn power_of_two(align: u64) -> (result: bool)
    ensures
        result == crate::module::is_power_of_two(align),
{
    align != 0 && align & (align - 1) == 0
}

/// Whether data can be placed at multiples of `align`: it is a power of two
/// and no wider than the machine's addresses.
pub fn can_align(align: u64) -> (result: bool)
    ensures
        result == crate::module::is_alignment(align),
{
    power_of_two(align) && align <= usize::MAX as u64
}

/// A buffer of `len` zero bytes.
fn zero_bytes(len: u8) -> (bytes: Vec<u8>)
    ensures
        bytes@ == Seq::new(len as nat, |i: int| 0u8),
{
    let mut bytes: Vec<u8> = Vec::new();
    let mut i: u8 = 0;
    while i < len
        invariant
            i <= len,
            bytes@ == Seq::new(i as nat, |i: int| 0u8),
        decreases len - i,
    {
        bytes.push(0u8);
        i = i + 1;
        assert(bytes@ =~= Seq::new(i as nat, |i: int| 0u8));
    }
    bytes
}

/// Declares the data object of a static under its mangled name, writable if
/// the static is `mut` or its type is not provably immutable.
///
/// With `Linkage::Preemptible` the static must be a raw pointer, and it is
/// given a null pointer as its definition on the spot. That the module has
/// such a definition already, from an earlier declaration of the same static,
/// is expected and no error.
pub fn data_id_for_static(
    store: &ConstStore,
    module: &mut ObjectModule,
    def_id: DefId,
    linkage: Linkage,
) -> (result: Result<DataId, ConstantError>)
    requires
        store.has_static(def_id),
    ensures
        store.static_declared(
            def_id,
            linkage,
            module_view(*old(module)),
            result,
            module_view(*final(module)),
        ),
{
    let info = store.get_static(def_id);
    let is_mutable = if info.mutable {
        true
    } else {
        !info.freeze
    };
    let ghost before = module_view(*module);
    let ghost name = store.static_symbol(def_id);
    let data_id = match declare_data_object(
        module,
        info.symbol_name.as_str(),
        linkage,
        is_mutable,
    ) {
        Ok(data_id) => data_id,
        Err(fault) => {
            return Err(ConstantError::Module(fault));
        },
    };
    let ghost declared = module_view(*module);
    proof {
        before.lemma_declared(name, linkage, is_mutable, data_id, declared);
        assert(declared.functions == before.functions);
        assert(declared.definitions == before.definitions);
        assert(declared.data =~= before.data.insert(
            name,
            before.declaration(name, data_id, linkage, is_mutable),
        ));
    }
    match linkage {
        Linkage::Preemptible => {
            if !info.raw_pointer {
                return Err(ConstantError::WeakStaticNotPointer(def_id));
            }
            let mut data_ctx = new_description();
            define_contents(&mut data_ctx, zero_bytes(store.layout.pointer_size));
            if can_align(info.align) {
                set_align(&mut data_ctx, info.align);
            }
            proof {
                let view = description_view(data_ctx);
                assert(view.relocs_in_range());
                assert(view.resolved_function_relocs() =~= Seq::empty());
                assert(view.resolved_data_relocs() =~= Seq::empty());
            }
            match define_data(module, data_id, &data_ctx) {
                Ok(()) => {},
                Err(fault) => {
                    // Every reference to a weak static comes with a null
                    // pointer definition, so a duplicate is expected.
                    assert(fault == ModuleFault::DuplicateDefinition);
                },
            }
        },
        _ => {},
    }
    Ok(data_id)
}

/// Padding brings a length up to the next multiple of 16.
pub proof fn lemma_padding_len(len: nat)
    ensures
        padding_len(len) < 16,
        (len + padding_len(len)) % 16 == 0,
{
}

/// The bytes of a data object: the raw bytes, padded to a multiple of 16.
pub fn padded_bytes(raw: &Vec<u8>) -> (bytes: Vec<u8>)
    ensures
        bytes@ == padded(raw@),
        bytes@.len() % 16 == 0,
{
    let mut bytes: Vec<u8> = Vec::new();
    let mut i: usize = 0;
    while i < raw.len()
        invariant
            i <= raw@.len(),
            bytes@ == raw@.take(i as int),
        decreases raw@.len() - i,
    {
        bytes.push(raw[i]);
        i = i + 1;
        assert(bytes@ =~= raw@.take(i as int));
    }
    assert(raw@.take(raw@.len() as int) =~= raw@);
    let padding: usize = (16 - raw.len() % 16) % 16;
    let mut count: usize = 0;
    assert(bytes@ =~= raw@ + Seq::new(count as nat, |i: int| FILLER));
    while count < padding
        invariant
            count <= padding,
            bytes@ == raw@ + Seq::new(count as nat, |i: int| FILLER),
        decreases padding - count,
    {
        bytes.push(FILLER);
        count = count + 1;
        assert(bytes@ =~= raw@ + Seq::new(count as nat, |i: int| FILLER));
    }
    proof {
        lemma_padding_len(raw@.len());
    }
    bytes
}

/// Declares the data object of an allocation: local, read-only, under the
/// allocation's symbol.
pub fn data_id_for_alloc_id(module: &mut ObjectModule, alloc_id: AllocId) -> (result: Result<
    DataId,
    ModuleFault,
>)
    ensures
        module_view(*old(module)).data_declared(
            alloc_symbol(alloc_id),
            Linkage::Local,
            false,
            result,
            module_view(*final(module)),
        ),
{
    let name = alloc_symbol_name(alloc_id);
    declare_data_object(module, name.as_str(), Linkage::Local, false)
}

/// Declares `name` as data that is not thread-local. A name that the module
/// has as thread-local data is refused here, before the module sees it.
fn declare_data_object(module: &mut ObjectModule, name: &str, linkage: Linkage, writable: bool) -> (result:
    Result<DataId, ModuleFault>)
    ensures
        module_view(*old(module)).data_declared(
            name@,
            linkage,
            writable,
            result,
            module_view(*final(module)),
        ),
{
    match get_data_name(module, name) {
        Some(id) => {
            assert(module_view(*module).declares(id)) by {
                assert(module_view(*module).data.contains_key(name@));
            }
            if is_thread_local(module, id) {
                return Err(ModuleFault::IncompatibleTls);
            }
        },
        None => {},
    }
    declare_data(module, name, linkage, writable)
}


/// Asks for the address of every function and data object that `alloc`
/// points at to be written into `data`, declares the data objects, and puts
/// the allocations among them into the pending work.
#[verifier::rlimit(50)]
fn write_relocations(
    store: &ConstStore,
    module: &mut ObjectModule,
    todo: &mut Vec<TodoItem>,
    alloc: &Allocation,
    data: &mut DataDescription,
) -> (result: Result<(), ConstantError>)
    requires
        store.wf(),
        alloc.wf(store.layout),
        store.alloc_closed(*alloc),
        old(todo)@.no_duplicates(),
        description_view(*old(data)).function_decls.len() == 0,
        description_view(*old(data)).data_decls.len() == 0,
        description_view(*old(data)).function_relocs.len() == 0,
        description_view(*old(data)).data_relocs.len() == 0,
    ensures
        final(todo)@.no_duplicates(),
        module_view(*old(module)).extends_to(module_view(*final(module))),
        store.raised_within(
            module_view(*old(module)),
            module_view(*final(module)),
            Set::<TodoItem>::empty(),
        ),
        module_view(*final(module)).definitions == module_view(*old(module)).definitions,
        description_view(*final(data)).init == description_view(*old(data)).init,
        description_view(*final(data)).align == description_view(*old(data)).align,
        description_view(*final(data)).custom_section == description_view(
            *old(data),
        ).custom_section,
        result is Ok <==> store.targets_accepted(*alloc, module_view(*old(module))),
        result matches Err(error) ==> error matches ConstantError::Module(fault)
            && store.target_refused(*alloc, module_view(*old(module)), fault),
        result is Ok ==> {
            &&& store.targets_declared(
                *alloc,
                alloc.relocations@.len() as int,
                module_view(*final(module)),
            )
            &&& final(todo)@.to_set() == old(todo)@.to_set().union(
                ConstStore::memory_targets(*alloc, alloc.relocations@.len() as int),
            )
            &&& description_view(*final(data)).relocs_in_range()
            &&& description_view(*final(data)).resolved_function_relocs()
                == crate::memory::function_relocs(alloc.relocations@)
            &&& description_view(*final(data)).resolved_data_relocs() == store.data_relocs(
                *alloc,
                alloc.relocations@,
                module_view(*final(module)).data,
            )
        },
{
    let ghost before = module_view(*module);
    let ghost relocs = alloc.relocations@;
    let count = alloc.relocations.len();
    let mut i: usize = 0;
    proof {
        assert(old(todo)@.to_set().union(ConstStore::memory_targets(*alloc, 0)) =~= old(
            todo,
        )@.to_set());
        assert(relocs.take(0) =~= Seq::<Relocation>::empty());
        assert(description_view(*data).resolved_function_relocs() =~= Seq::empty());
        assert(description_view(*data).resolved_data_relocs() =~= Seq::empty());
    }
    while i < count
        invariant
            i <= count,
            count == alloc.relocations@.len(),
            relocs == alloc.relocations@,
            store.wf(),
            alloc.wf(store.layout),
            store.alloc_closed(*alloc),
            todo@.no_duplicates(),
            todo@.to_set() == old(todo)@.to_set().union(
                ConstStore::memory_targets(*alloc, i as int),
            ),
            before == module_view(*old(module)),
            before.extends_to(module_view(*module)),
            store.raised_within(before, module_view(*module), Set::<TodoItem>::empty()),
            module_view(*module).definitions == before.definitions,
            forall|j: int|
                0 <= j < i && (#[trigger] relocs[j]).target.is_data() ==> before.takes_data(
                    store.target_symbol(relocs[j].target),
                ),
            store.targets_declared(*alloc, i as int, module_view(*module)),
            description_view(*data).init == description_view(*old(data)).init,
            description_view(*data).align == description_view(*old(data)).align,
            description_view(*data).custom_section == description_view(*old(data)).custom_section,
            description_view(*data).function_decls.len() <= i,
            description_view(*data).data_decls.len() <= i,
            description_view(*data).relocs_in_range(),
            description_view(*data).resolved_function_relocs() == crate::memory::function_relocs(
                relocs.take(i as int),
            ),
            description_view(*data).resolved_data_relocs() == store.data_relocs(
                *alloc,
                relocs.take(i as int),
                module_view(*module).data,
            ),
        decreases count - i,
    {
        let reloc = alloc.relocations[i];
        let ghost now = module_view(*module);
        let ghost view = description_view(*data);
        let ghost prefix = relocs.take(i as int);
        let ghost longer = relocs.take(i + 1);
        proof {
            assert(reloc == relocs[i as int]);
            assert(alloc.reloc_wf(store.layout, relocs[i as int]));
            assert(reloc.offset + store.layout.pointer_size <= alloc.bytes@.len());
            assert(store.has_target(relocs[i as int].target));
            assert(longer.drop_last() =~= prefix);
            assert(longer.last() == reloc);
            ConstStore::lemma_memory_targets_step(*alloc, i as int);
        }
        let len = alloc.bytes.len();
        let start = reloc.offset as usize;
        assert(start + store.layout.pointer_size <= len);
        let end = start + store.layout.pointer_size as usize;
        let value = read_target_uint(
            store.layout.endian,
            slice_subrange(alloc.bytes.as_slice(), start, end),
        );
        proof {
            crate::bits::lemma_uint_value_bound(
                store.layout.endian,
                alloc.pointer_bytes(store.layout, reloc.offset),
            );
        }
        let target_id = match reloc.target {
            RelocTarget::Function(func) => {
                let func_ref = declare_func_in_data(module, func, data);
                write_function_addr(data, reloc.offset, func_ref);
                proof {
                    let written = description_view(*data);
                    assert(written.resolved_function_relocs() =~= view.resolved_function_relocs().push(
                        (reloc.offset, func),
                    ));
                    assert(written.resolved_data_relocs() =~= view.resolved_data_relocs());
                }
                i = i + 1;
                continue ;
            },
            RelocTarget::Memory(id) => {
                insert_todo(todo, TodoItem::Alloc(id));
                proof {
                    assert(store.contains(TodoItem::Alloc(id)));
                    assert(todo@.to_set() =~= old(todo)@.to_set().union(
                        ConstStore::memory_targets(*alloc, i + 1),
                    ));
                }
                match data_id_for_alloc_id(module, id) {
                    Ok(data_id) => {
                        proof {
                            now.lemma_declared(
                                alloc_symbol(id),
                                Linkage::Local,
                                false,
                                data_id,
                                module_view(*module),
                            );
                            store.lemma_declared_within(
                                TodoItem::Alloc(id),
                                Linkage::Local,
                                now,
                                data_id,
                                module_view(*module),
                                Set::<TodoItem>::empty(),
                            );
                        }
                        data_id
                    },
                    Err(fault) => {
                        proof {
                            before.lemma_takes_data_kept(
                                now,
                                store.target_symbol(relocs[i as int].target),
                            );
                            before.lemma_refusal_kept(
                                now,
                                store.target_symbol(relocs[i as int].target),
                            );
                            assert(!before.takes_data(store.target_symbol(relocs[i as int].target)));
                            before.lemma_extends_transitive(now, module_view(*module));
                            assert(store.raised_within(
                                now,
                                module_view(*module),
                                Set::<TodoItem>::empty(),
                            ));
                            store.lemma_raised_within_transitive(
                                before,
                                now,
                                module_view(*module),
                                Set::<TodoItem>::empty(),
                                Set::<TodoItem>::empty(),
                                Set::<TodoItem>::empty(),
                            );
                        }
                        return Err(ConstantError::Module(fault));
                    },
                }
            },
            RelocTarget::Static(def) => {
                proof {
                    assert(store.contains(TodoItem::Static(def)));
                    assert(todo@.to_set() =~= old(todo)@.to_set().union(
                        ConstStore::memory_targets(*alloc, i + 1),
                    ));
                }
                match data_id_for_static(store, module, def, Linkage::Import) {
                    Ok(data_id) => {
                        proof {
                            store.lemma_static_declared(
                                def,
                                Linkage::Import,
                                now,
                                data_id,
                                module_view(*module),
                            );
                            store.lemma_declared_within(
                                TodoItem::Static(def),
                                Linkage::Import,
                                now,
                                data_id,
                                module_view(*module),
                                Set::<TodoItem>::empty(),
                            );
                        }
                        data_id
                    },
                    Err(error) => {
                        proof {
                            before.lemma_takes_data_kept(
                                now,
                                store.target_symbol(relocs[i as int].target),
                            );
                            before.lemma_refusal_kept(
                                now,
                                store.target_symbol(relocs[i as int].target),
                            );
                            assert(!before.takes_data(store.target_symbol(relocs[i as int].target)));
                            before.lemma_extends_transitive(now, module_view(*module));
                            assert(store.raised_within(
                                now,
                                module_view(*module),
                                Set::<TodoItem>::empty(),
                            ));
                            store.lemma_raised_within_transitive(
                                before,
                                now,
                                module_view(*module),
                                Set::<TodoItem>::empty(),
                                Set::<TodoItem>::empty(),
                                Set::<TodoItem>::empty(),
                            );
                        }
                        return Err(error);
                    },
                }
            },
        };
        let ghost declared = module_view(*module);
        let ghost symbol = store.target_symbol(reloc.target);
        let global_value = declare_data_in_data(module, target_id, data);
        let addend = addend_from_uint(value);
        write_data_addr(data, reloc.offset, global_value, addend);
        proof {
            let written = description_view(*data);
            before.lemma_extends_transitive(now, declared);
            store.lemma_raised_within_transitive(
                before,
                now,
                declared,
                Set::<TodoItem>::empty(),
                Set::<TodoItem>::empty(),
                Set::<TodoItem>::empty(),
            );
            assert(store.targets_declared(*alloc, i + 1, declared)) by {
                assert forall|j: int|
                    0 <= j < i + 1 && (#[trigger] alloc.relocations@[j]).target.is_data()
                        implies declared.has_unique(
                    store.target_symbol(alloc.relocations@[j].target),
                ) by {
                    if j < i {
                        now.lemma_unique_kept(
                            declared,
                            store.target_symbol(alloc.relocations@[j].target),
                        );
                    }
                }
            }
            assert forall|j: int|
                0 <= j < prefix.len() && (#[trigger] prefix[j]).target.is_data()
                    implies now.data.contains_key(store.target_symbol(prefix[j].target)) by {
                assert(prefix[j] == alloc.relocations@[j]);
                assert(now.has_unique(store.target_symbol(alloc.relocations@[j].target)));
            }
            store.lemma_data_relocs_stable(*alloc, prefix, now, declared);
            assert(written.resolved_function_relocs() =~= view.resolved_function_relocs());
            assert(written.resolved_data_relocs() =~= view.resolved_data_relocs().push(
                (reloc.offset, target_id, addend),
            ));
            assert(addend == alloc.addend_at(store.layout, reloc.offset) as i64);
        }
        i = i + 1;
    }
    proof {
        assert(relocs.take(count as int) =~= relocs);
    }
    Ok(())
}



impl ConstantCx {
    /// The pending work.
    pub closed spec fn todo(&self) -> Set<TodoItem> {
        self.todo@.to_set()
    }

    /// The data objects that this session defined.
    pub closed spec fn done(&self) -> Set<DataId> {
        data_ids(self.done@)
    }

    /// No item is pending twice, and nothing is done yet: data objects are
    /// defined when the session is finalized, and only then.
    pub closed spec fn wf(&self) -> bool {
        &&& self.todo@.no_duplicates()
        &&& self.done@ =~= Set::<u32>::empty()
    }

    /// A well-formed session has defined nothing yet.
    pub proof fn lemma_nothing_done(&self)
        requires
            self.wf(),
        ensures
            self.done() == Set::<DataId>::empty(),
    {
        assert(data_ids(self.done@) =~= Set::<DataId>::empty());
    }

    /// A session without pending work.
    pub fn new() -> (cx: ConstantCx)
        ensures
            cx.wf(),
            cx.todo() == Set::<TodoItem>::empty(),
            cx.done() == Set::<DataId>::empty(),
    {
        let cx = ConstantCx { todo: Vec::new(), done: HashSet::new() };
        assert(cx.todo@.to_set() =~= Set::<TodoItem>::empty());
        assert(data_ids(cx.done@) =~= Set::<DataId>::empty());
        cx
    }

    /// Whether the item is pending.
    pub fn is_pending(&self, item: TodoItem) -> (pending: bool)
        ensures
            pending == self.todo().contains(item),
    {
        let mut i: usize = 0;
        while i < self.todo.len()
            invariant
                i <= self.todo@.len(),
                forall|j: int| 0 <= j < i ==> self.todo@[j] != item,
            decreases self.todo@.len() - i,
        {
            if self.todo[i] == item {
                assert(self.todo@.to_set().contains(item));
                return true;
            }
            i = i + 1;
        }
        false
    }

    /// Whether the session defined the data object.
    pub fn is_done(&self, id: DataId) -> (done: bool)
        ensures
            done == self.done().contains(id),
    {
        self.done.contains(&id.0)
    }

    /// The pending items.
    pub fn pending_items(&self) -> (items: Vec<TodoItem>)
        ensures
            items@.to_set() == self.todo(),
    {
        let mut items: Vec<TodoItem> = Vec::new();
        let mut i: usize = 0;
        while i < self.todo.len()
            invariant
                i <= self.todo@.len(),
                items@ == self.todo@.take(i as int),
            decreases self.todo@.len() - i,
        {
            items.push(self.todo[i]);
            i = i + 1;
            assert(items@ =~= self.todo@.take(i as int));
        }
        assert(self.todo@.take(self.todo@.len() as int) =~= self.todo@);
        items
    }

    /// The number of pending items.
    pub fn pending_len(&self) -> (len: usize)
        requires
            self.wf(),
        ensures
            len == self.todo().len(),
    {
        proof {
            self.todo@.unique_seq_to_set();
        }
        self.todo.len()
    }

    /// Materializes everything that is pending, and all that it leads to.
    pub fn finalize(self, store: &ConstStore, module: &mut ObjectModule) -> (result: Result<
        (),
        ConstantError,
    >)
        requires
            store.wf(),
            self.wf(),
            forall|item: TodoItem| self.todo().contains(item) ==> store.ready(item),
        ensures
            result is Ok <==> store.accepted_by(self.todo(), module_view(*old(module))),
            result matches Err(error) ==> error matches ConstantError::Module(fault)
                && store.refused_by(self.todo(), module_view(*old(module)), fault),
            module_view(*old(module)).extends_to(module_view(*final(module))),
            result is Ok ==> exists|done: Set<DataId>|
                store.finalized(
                    self.todo(),
                    module_view(*old(module)),
                    module_view(*final(module)),
                    done,
                ),
    {
        let mut session = self;
        let result = define_all_allocs(store, module, &mut session);
        session.done.clear();
        result
    }
}

impl Default for ConstantCx {
    fn default() -> (cx: ConstantCx)
        ensures
            cx.wf(),
            cx.todo() == Set::<TodoItem>::empty(),
            cx.done() == Set::<DataId>::empty(),
    {
        ConstantCx::new()
    }
}

/// Asks for a static to be materialized when the session is finalized.
pub fn codegen_static(constants_cx: &mut ConstantCx, def_id: DefId)
    requires
        old(constants_cx).wf(),
    ensures
        final(constants_cx).wf(),
        final(constants_cx).todo() == old(constants_cx).todo().insert(TodoItem::Static(def_id)),
        final(constants_cx).done() == old(constants_cx).done(),
{
    insert_todo(&mut constants_cx.todo, TodoItem::Static(def_id));
}

/// Gives one pending item its data object, unless it is a foreign static or
/// has its data object already.
#[verifier::rlimit(50)]
fn define_item(
    store: &ConstStore,
    module: &mut ObjectModule,
    cx: &mut ConstantCx,
    item: TodoItem,
) -> (result: Result<(), ConstantError>)
    requires
        store.wf(),
        store.ready(item),
        old(cx).todo@.no_duplicates(),
    ensures
        final(cx).todo@.no_duplicates(),
        store.item_step(
            item,
            module_view(*old(module)),
            old(cx).todo@.to_set(),
            data_ids(old(cx).done@),
            result,
            module_view(*final(module)),
            final(cx).todo@.to_set(),
            data_ids(final(cx).done@),
        ),
{
    let ghost before = module_view(*module);
    let ghost name = store.symbol(item);
    let (data_id, alloc, align) = match item {
        TodoItem::Alloc(alloc_id) => {
            let alloc = store.get_alloc(alloc_id);
            let data_id = match data_id_for_alloc_id(module, alloc_id) {
                Ok(data_id) => data_id,
                Err(fault) => {
                    return Err(ConstantError::Module(fault));
                },
            };
            proof {
                before.lemma_declared(
                    name,
                    Linkage::Local,
                    false,
                    data_id,
                    module_view(*module),
                );
            }
            (data_id, alloc, alloc.align)
        },
        TodoItem::Static(def_id) => {
            let info = store.get_static(def_id);
            if info.foreign {
                return Ok(());
            }
            proof {
                assert(store.static_wf(def_id));
            }
            let alloc = match info.value {
                ConstValue::ByRef { alloc, offset } => store.get_alloc(alloc),
                _ => {
                    proof {
                        assert(false);
                    }
                    vstd::pervasive::unreached()
                },
            };
            let linkage = if info.reachable {
                Linkage::Export
            } else {
                Linkage::Local
            };
            let data_id = match data_id_for_static(store, module, def_id, linkage) {
                Ok(data_id) => data_id,
                Err(error) => {
                    return Err(error);
                },
            };
            proof {
                store.lemma_static_declared(def_id, linkage, before, data_id, module_view(*module));
            }
            (data_id, alloc, info.align)
        },
    };
    let ghost declared = module_view(*module);
    proof {
        store.lemma_allocation_wf(item);
        assert(*alloc == store.allocation(item));
        assert(declared.is_definable(data_id));
    }
    if cx.done.contains(&data_id.0) {
        return Ok(());
    }
    let mut data_ctx = new_description();
    define_contents(&mut data_ctx, padded_bytes(&alloc.bytes));
    set_align(&mut data_ctx, align);
    match write_relocations(store, module, &mut cx.todo, alloc, &mut data_ctx) {
        Ok(()) => {},
        Err(error) => {
            proof {
                before.lemma_extends_transitive(declared, module_view(*module));
                declared.lemma_unique_kept(module_view(*module), name);
            }
            return Err(error);
        },
    }
    let ghost related = module_view(*module);
    proof {
        before.lemma_extends_transitive(declared, related);
        declared.lemma_unique_kept(related, name);
        assert(related.declares(data_id)) by {
            assert(related.data.contains_key(name) && related.data[name].id == data_id);
        }
        assert(related.is_definable(data_id)) by {
            assert forall|other: Seq<char>| #[trigger]
                related.data.contains_key(other) && related.data[other].id
                    == data_id implies related.data[other].linkage != Linkage::Import by {
                assert(other == name);
                assert(declared.data[name].linkage != Linkage::Import);
            }
        }
    }
    match define_data(module, data_id, &data_ctx) {
        Ok(()) => {},
        Err(fault) => {
            proof {
                before.lemma_extends_transitive(related, module_view(*module));
            }
            return Err(ConstantError::Module(fault));
        },
    }
    cx.done.insert(data_id.0);
    proof {
        let after = module_view(*module);
        related.lemma_defined(data_id, description_view(data_ctx), after);
        before.lemma_extends_transitive(related, after);
        related.lemma_unique_kept(after, name);
        assert(data_ids(cx.done@) =~= data_ids(old(cx).done@).insert(data_id));
        assert(store.is_image(*alloc, align, after.data, after.definitions[data_id]));
        assert(store.targets_declared(*alloc, alloc.relocations@.len() as int, after));
    }
    Ok(())
}

/// Works through the pending items until none is left: each gets its data
/// object, and what it points at becomes pending in turn.
#[verifier::rlimit(50)]
pub fn define_all_allocs(store: &ConstStore, module: &mut ObjectModule, cx: &mut ConstantCx) -> (result:
    Result<(), ConstantError>)
    requires
        store.wf(),
        old(cx).wf(),
        forall|item: TodoItem| old(cx).todo().contains(item) ==> store.ready(item),
    ensures
        result is Ok <==> store.accepted_by(old(cx).todo(), module_view(*old(module))),
        result matches Err(error) ==> error matches ConstantError::Module(fault)
            && store.refused_by(old(cx).todo(), module_view(*old(module)), fault),
        module_view(*old(module)).extends_to(module_view(*final(module))),
        result is Ok ==> {
            &&& final(cx).todo() == Set::<TodoItem>::empty()
            &&& store.finalized(
                old(cx).todo(),
                module_view(*old(module)),
                module_view(*final(module)),
                final(cx).done(),
            )
        },
{
    let ghost roots = cx.todo@.to_set();
    let ghost start = module_view(*module);
    let ghost mut allocs: Set<u64> = Set::empty();
    let ghost mut statics: Set<u64> = Set::empty();
    proof {
        assert(data_ids(cx.done@) =~= Set::<DataId>::empty());
        assert(items_of(allocs, statics) =~= Set::<TodoItem>::empty());
        assert forall|x: TodoItem| #[trigger] roots.contains(x) implies store.reaches(roots, x) by {
            store.lemma_root_reaches(roots, x);
        }
        assert(store.progress(
            roots,
            start,
            start,
            roots,
            data_ids(cx.done@),
            items_of(allocs, statics),
        ));
    }
    while cx.todo.len() > 0
        invariant
            store.wf(),
            cx.todo@.no_duplicates(),
            roots == old(cx).todo(),
            start == module_view(*old(module)),
            allocs.subset_of(store.allocs@.dom()),
            statics.subset_of(store.statics@.dom()),
            store.progress(
                roots,
                start,
                module_view(*module),
                cx.todo@.to_set(),
                data_ids(cx.done@),
                items_of(allocs, statics),
            ),
        decreases store.pending(allocs, statics), cx.todo@.len(),
    {
        let ghost before = module_view(*module);
        let ghost todo = cx.todo@.to_set();
        let ghost done = data_ids(cx.done@);
        let ghost processed = items_of(allocs, statics);
        let ghost todo_seq = cx.todo@;
        let ghost allocs_before = allocs;
        let ghost statics_before = statics;
        let item = pop_set(&mut cx.todo).unwrap();
        let ghost popped_len = cx.todo@.len();
        proof {
            assert(todo.contains(item));
            vstd::set_lib::lemma_set_subset_finite(store.allocs@.dom(), allocs);
            vstd::set_lib::lemma_set_subset_finite(store.statics@.dom(), statics);
            vstd::set_lib::lemma_len_subset(allocs, store.allocs@.dom());
            vstd::set_lib::lemma_len_subset(statics, store.statics@.dom());
        }
        match define_item(store, module, cx, item) {
            Ok(()) => {},
            Err(error) => {
                proof {
                    store.lemma_step_refused(
                        roots,
                        start,
                        before,
                        todo,
                        done,
                        processed,
                        item,
                        error,
                        module_view(*module),
                        cx.todo@.to_set(),
                        data_ids(cx.done@),
                    );
                }
                return Err(error);
            },
        }
        proof {
            store.lemma_step(
                roots,
                start,
                before,
                todo,
                done,
                processed,
                item,
                module_view(*module),
                cx.todo@.to_set(),
                data_ids(cx.done@),
            );
            if processed.contains(item) {
                assert(processed.insert(item) =~= processed);
                assert(popped_len == todo_seq.len() - 1);
                assert(cx.todo@.len() == popped_len) by {
                    todo_seq.unique_seq_to_set();
                    vstd::seq_lib::seq_to_set_is_finite(todo_seq);
                    cx.todo@.unique_seq_to_set();
                    assert(cx.todo@.to_set() == todo.remove(item));
                }
            } else {
                match item {
                    TodoItem::Alloc(id) => {
                        assert(store.has_alloc(id));
                        assert(!allocs.contains(id.0));
                        allocs = allocs.insert(id.0);
                    },
                    TodoItem::Static(def) => {
                        assert(store.has_static(def));
                        assert(!statics.contains(def.spec_key()));
                        statics = statics.insert(def.spec_key());
                    },
                }
                assert(items_of(allocs, statics) =~= processed.insert(item)) by {
                    assert forall|x: TodoItem| items_of(allocs, statics).contains(x)
                        <==> processed.insert(item).contains(x) by {
                        match (x, item) {
                            (TodoItem::Static(a), TodoItem::Static(b)) => {
                                if a.spec_key() == b.spec_key() {
                                    DefId::lemma_key_injective(a, b);
                                }
                            },
                            _ => {},
                        }
                    }
                }
                assert(store.pending(allocs, statics) == store.pending(
                    allocs_before,
                    statics_before,
                ) - 1);
                vstd::set_lib::lemma_set_subset_finite(store.allocs@.dom(), allocs);
                vstd::set_lib::lemma_set_subset_finite(store.statics@.dom(), statics);
                vstd::set_lib::lemma_len_subset(allocs, store.allocs@.dom());
                vstd::set_lib::lemma_len_subset(statics, store.statics@.dom());
                assert(store.pending(allocs, statics) >= 0);
            }
        }
    }
    proof {
        assert(cx.todo@.to_set() =~= Set::<TodoItem>::empty());
        store.lemma_finished(
            roots,
            start,
            module_view(*module),
            data_ids(cx.done@),
            items_of(allocs, statics),
        );
    }
    Ok(())
}


/// The place of a data object of the given type, which must have a size.
pub fn cplace_for_dataid(ty: Ty, data_id: DataId) -> (place: CPlace)
    requires
        ty.sized,
    ensures
        place == CPlace::Addr(data_id, ty),
{
    CPlace::Addr(data_id, ty)
}

/// The place of a static that code refers to. The static is declared with the
/// linkage that the reference asks for, which is `Import` unless the static
/// has a linkage of its own.
pub fn codegen_static_ref(
    store: &ConstStore,
    module: &mut ObjectModule,
    def_id: DefId,
    linkage: Linkage,
    ty: Ty,
) -> (result: Result<CPlace, ConstantError>)
    requires
        store.has_static(def_id),
        ty.sized,
    ensures
        match result {
            Ok(place) => {
                &&& place matches CPlace::Addr(data_id, place_ty)
                &&& place_ty == ty
                &&& store.static_declared(
                    def_id,
                    linkage,
                    module_view(*old(module)),
                    Ok(data_id),
                    module_view(*final(module)),
                )
            },
            Err(error) => store.static_declared(
                def_id,
                linkage,
                module_view(*old(module)),
                Err(error),
                module_view(*final(module)),
            ),
        },
{
    match data_id_for_static(store, module, def_id, linkage) {
        Ok(data_id) => Ok(cplace_for_dataid(ty, data_id)),
        Err(error) => Err(error),
    }
}

/// The constant, evaluated: a named constant is looked up in the store, any
/// other is evaluated already.
pub fn force_eval_const(store: &ConstStore, const_: &Const) -> (evaluated: Const)
    requires
        const_.val matches ConstValue::Unevaluated(def) ==> store.has_const(def),
    ensures
        evaluated == match const_.val {
            ConstValue::Unevaluated(def) => store.const_value(def),
            _ => *const_,
        },
{
    match const_.val {
        ConstValue::Unevaluated(def_id) => store.get_const(def_id).unwrap(),
        _ => *const_,
    }
}

/// The place of a constant that lives in an allocation. The allocation becomes
/// pending work, and its data object is declared.
fn trans_const_place(fx: &mut FunctionCx, module: &mut ObjectModule, const_: &Const) -> (result:
    Result<CPlace, ConstantError>)
    requires
        old(fx).constants_cx.wf(),
        const_.in_memory(),
    ensures
        place_lowered(
            *old(fx),
            module_view(*old(module)),
            *const_,
            result,
            *final(fx),
            module_view(*final(module)),
        ),
{
    let alloc_id = match const_.val {
        ConstValue::ByRef { alloc, offset } => alloc,
        _ => {
            proof {
                assert(false);
            }
            vstd::pervasive::unreached()
        },
    };
    insert_todo(&mut fx.constants_cx.todo, TodoItem::Alloc(alloc_id));
    match data_id_for_alloc_id(module, alloc_id) {
        Ok(data_id) => Ok(cplace_for_dataid(const_.ty, data_id)),
        Err(fault) => Err(ConstantError::Module(fault)),
    }
}

impl Const {
    /// The constant was evaluated into an allocation of its own, and its type
    /// has a size.
    pub open spec fn in_memory(self) -> bool {
        &&& self.val matches ConstValue::ByRef { alloc, offset }
        &&& offset == 0
        &&& self.ty.sized
    }

    /// The constant is a scalar of the size of its type.
    pub open spec fn is_scalar_of(self, max: nat) -> bool {
        &&& self.val matches ConstValue::Scalar { bits, size }
        &&& size == self.ty.size
        &&& size <= 16
        &&& bits <= max
    }

    /// The constant has the shape that its type calls for: a scalar of the
    /// type's size for booleans, integers and floats, anything for function
    /// items, and an allocation of its own for every other type.
    pub open spec fn has_value_shape(self) -> bool {
        match self.ty.kind {
            TyKind::Bool | TyKind::Uint | TyKind::Int => self.is_scalar_of(u128::MAX as nat),
            TyKind::Float(FloatTy::F32) => self.is_scalar_of(u32::MAX as nat),
            TyKind::Float(FloatTy::F64) => self.is_scalar_of(u64::MAX as nat),
            TyKind::FnDef => true,
            _ => self.in_memory(),
        }
    }
}

/// How the lowering of a constant that lives in an allocation ends: the
/// allocation is pending, its data object is declared, and the place is that
/// data object, unless the module refused the declaration.
pub open spec fn place_lowered(
    fx: FunctionCx,
    before: ModuleView,
    const_: Const,
    result: Result<CPlace, ConstantError>,
    fx_after: FunctionCx,
    after: ModuleView,
) -> bool {
    let id = const_.val->alloc;
    &&& fx_after.constants_cx.wf()
    &&& fx_after.constants_cx.todo() == fx.constants_cx.todo().insert(TodoItem::Alloc(id))
    &&& fx_after.constants_cx.done() == fx.constants_cx.done()
    &&& fx_after.pointer_size == fx.pointer_size
    &&& fx_after.clif_comments == fx.clif_comments
    &&& match result {
        Ok(place) => {
            &&& place matches CPlace::Addr(data_id, ty)
            &&& ty == const_.ty
            &&& before.data_declared(alloc_symbol(id), Linkage::Local, false, Ok(data_id), after)
        },
        Err(error) => {
            &&& error matches ConstantError::Module(fault)
            &&& before.data_declared(alloc_symbol(id), Linkage::Local, false, Err(fault), after)
        },
    }
}

/// How the lowering of a constant to a value ends.
///
/// Booleans and unsigned integers give their bits, signed integers their bits
/// with the sign bit repeated, floats their bits, and a function item a
/// placeholder that is the width of a pointer, which is not null where a
/// pointer has a width. None of these touches the
/// module or the pending work. Every other constant gives the place of its
/// allocation.
pub open spec fn value_lowered(
    fx: FunctionCx,
    before: ModuleView,
    const_: Const,
    result: Result<CValue, ConstantError>,
    fx_after: FunctionCx,
    after: ModuleView,
) -> bool {
    match const_.ty.kind {
        TyKind::Bool | TyKind::Uint => {
            &&& result == Ok::<CValue, ConstantError>(CValue::Const(const_.ty, const_.val->bits))
            &&& fx_after == fx
            &&& after == before
        },
        TyKind::Int => {
            &&& result == Ok::<CValue, ConstantError>(
                CValue::Const(
                    const_.ty,
                    sign_extended(const_.val->bits as nat, const_.val->size as nat) as u128,
                ),
            )
            &&& fx_after == fx
            &&& after == before
        },
        TyKind::Float(FloatTy::F32) => {
            &&& result == Ok::<CValue, ConstantError>(CValue::F32(const_.val->bits as u32))
            &&& fx_after == fx
            &&& after == before
        },
        TyKind::Float(FloatTy::F64) => {
            &&& result == Ok::<CValue, ConstantError>(CValue::F64(const_.val->bits as u64))
            &&& fx_after == fx
            &&& after == before
        },
        TyKind::FnDef => {
            &&& result == Ok::<CValue, ConstantError>(CValue::Sentinel(const_.ty, fx.pointer_size))
            &&& fx_after == fx
            &&& after == before
        },
        _ => match result {
            Ok(value) => {
                &&& value matches CValue::ByRef(place)
                &&& place_lowered(fx, before, const_, Ok(place), fx_after, after)
            },
            Err(error) => place_lowered(fx, before, const_, Err(error), fx_after, after),
        },
    }
}

/// Lowering a boolean, an integer or a float gives an immediate, and leaves
/// the module and the pending work as they are: no data object is declared or
/// defined for it.
pub proof fn lemma_scalars_are_immediates(
    fx: FunctionCx,
    before: ModuleView,
    const_: Const,
    result: Result<CValue, ConstantError>,
    fx_after: FunctionCx,
    after: ModuleView,
)
    requires
        const_.ty.kind.is_scalar(),
        value_lowered(fx, before, const_, result, fx_after, after),
    ensures
        result is Ok,
        !(result->Ok_0 is ByRef),
        fx_after == fx,
        after == before,
{
}

/// The value of an evaluated constant.
pub fn trans_const_value(fx: &mut FunctionCx, module: &mut ObjectModule, const_: &Const) -> (result:
    Result<CValue, ConstantError>)
    requires
        old(fx).constants_cx.wf(),
        old(fx).pointer_size >= 1,
        const_.has_value_shape(),
    ensures
        value_lowered(
            *old(fx),
            module_view(*old(module)),
            *const_,
            result,
            *final(fx),
            module_view(*final(module)),
        ),
        result matches Ok(CValue::Sentinel(_, placeholder)) ==> placeholder != 0,
{
    match const_.ty.kind {
        TyKind::Bool | TyKind::Uint => {
            let bits = scalar_bits(const_);
            Ok(CValue::Const(const_.ty, bits))
        },
        TyKind::Int => {
            let bits = scalar_bits(const_);
            let size = scalar_size(const_);
            Ok(CValue::Const(const_.ty, sign_extend(bits, size)))
        },
        TyKind::Float(fty) => {
            let bits = scalar_bits(const_);
            match fty {
                FloatTy::F32 => Ok(CValue::F32(bits as u32)),
                FloatTy::F64 => Ok(CValue::F64(bits as u64)),
            }
        },
        TyKind::FnDef => Ok(CValue::Sentinel(const_.ty, fx.pointer_size)),
        _ => {
            match trans_const_place(fx, module, const_) {
                Ok(place) => Ok(place.to_cvalue()),
                Err(error) => Err(error),
            }
        },
    }
}

/// The bit pattern of a scalar constant.
fn scalar_bits(const_: &Const) -> (bits: u128)
    requires
        const_.val is Scalar,
    ensures
        bits == const_.val->bits,
{
    match const_.val {
        ConstValue::Scalar { bits, size } => bits,
        _ => {
            proof {
                assert(false);
            }
            vstd::pervasive::unreached()
        },
    }
}

/// The size of a scalar constant in bytes.
fn scalar_size(const_: &Const) -> (size: u8)
    requires
        const_.val is Scalar,
    ensures
        size == const_.val->size,
{
    match const_.val {
        ConstValue::Scalar { bits, size } => size,
        _ => {
            proof {
                assert(false);
            }
            vstd::pervasive::unreached()
        },
    }
}

/// The value of a constant operand: the constant is evaluated, if it is not
/// yet, and lowered.
pub fn trans_constant(
    fx: &mut FunctionCx,
    store: &ConstStore,
    module: &mut ObjectModule,
    constant: &Constant,
) -> (result: Result<CValue, ConstantError>)
    requires
        old(fx).constants_cx.wf(),
        old(fx).pointer_size >= 1,
        constant.literal.val matches ConstValue::Unevaluated(def) ==> store.has_const(def),
        (match constant.literal.val {
            ConstValue::Unevaluated(def) => store.const_value(def),
            _ => constant.literal,
        }).has_value_shape(),
    ensures
        value_lowered(
            *old(fx),
            module_view(*old(module)),
            match constant.literal.val {
                ConstValue::Unevaluated(def) => store.const_value(def),
                _ => constant.literal,
            },
            result,
            *final(fx),
            module_view(*final(module)),
        ),
        result matches Ok(CValue::Sentinel(_, placeholder)) ==> placeholder != 0,
{
    let const_ = force_eval_const(store, &constant.literal);
    trans_const_value(fx, module, &const_)
}

/// The place of a constant that was lifted out of a function body. Where its
/// evaluation failed there is no place: the code that would use it is never
/// reached.
pub fn trans_promoted(
    fx: &mut FunctionCx,
    store: &ConstStore,
    module: &mut ObjectModule,
    id: GlobalId,
    dest_ty: Ty,
) -> (result: Result<CPlace, ConstantError>)
    requires
        old(fx).constants_cx.wf(),
        store.has_promoted(id) ==> store.promoted_value(id).in_memory() && store.promoted_value(
            id,
        ).ty == dest_ty,
    ensures
        if store.has_promoted(id) {
            place_lowered(
                *old(fx),
                module_view(*old(module)),
                store.promoted_value(id),
                result,
                *final(fx),
                module_view(*final(module)),
            )
        } else {
            &&& result == Ok::<CPlace, ConstantError>(CPlace::Unreachable(dest_ty))
            &&& *final(fx) == *old(fx)
            &&& module_view(*final(module)) == module_view(*old(module))
        },
{
    match store.get_promoted(id) {
        Some(const_) => trans_const_place(fx, module, &const_),
        None => Ok(CPlace::Unreachable(dest_ty)),
    }
}

/// The constant that an operand stands for, if it stands for one: a constant
/// operand gives its constant, evaluated, a promoted place gives the constant
/// that was lifted, and a local gives none.
pub open spec fn operand_const(store: ConstStore, operand: Operand) -> Option<Const> {
    match operand {
        Operand::Constant(constant) => Some(
            match constant.literal.val {
                ConstValue::Unevaluated(def) => store.const_value(def),
                _ => constant.literal,
            },
        ),
        Operand::Copy(place) | Operand::Move(place) => match place.base {
            PlaceBase::Local(_) => None,
            PlaceBase::Static(static_) => match static_.kind {
                StaticKind::Promoted(id) => Some(store.promoted_value(id)),
                StaticKind::Static => None,
            },
        },
    }
}

/// The operand can be asked for its constant: a named constant was evaluated,
/// a place has no projection, and a static place is a promoted constant whose
/// evaluation succeeded.
pub open spec fn operand_wf(store: ConstStore, operand: Operand) -> bool {
    match operand {
        Operand::Constant(constant) => constant.literal.val matches ConstValue::Unevaluated(def)
            ==> store.has_const(def),
        Operand::Copy(place) | Operand::Move(place) => {
            &&& place.projections == 0
            &&& place.base matches PlaceBase::Static(static_) ==> {
                &&& static_.kind matches StaticKind::Promoted(id)
                &&& store.has_promoted(id)
            }
        },
    }
}

/// The constant that an operand stands for, if it stands for one.
pub fn mir_operand_get_const_val(store: &ConstStore, operand: &Operand) -> (value: Option<Const>)
    requires
        operand_wf(*store, *operand),
    ensures
        value == operand_const(*store, *operand),
{
    let place = match operand {
        Operand::Copy(place) => place,
        Operand::Move(place) => place,
        Operand::Constant(constant) => {
            return Some(force_eval_const(store, &constant.literal));
        },
    };
    let static_ = match place.base {
        PlaceBase::Static(static_) => static_,
        PlaceBase::Local(_) => {
            return None;
        },
    };
    match static_.kind {
        StaticKind::Promoted(id) => Some(store.get_promoted(id).unwrap()),
        StaticKind::Static => {
            proof {
                assert(false);
            }
            vstd::pervasive::unreached()
        },
    }
}


/// Padding keeps the raw bytes in front, fills up with the filler byte, and
/// gives a length that is a multiple of 16.
pub proof fn lemma_padded(raw: Seq<u8>)
    ensures
        padded(raw).len() % 16 == 0,
        raw.len() <= padded(raw).len() < raw.len() + 16,
        padded(raw).take(raw.len() as int) == raw,
        forall|i: int| raw.len() <= i < padded(raw).len() ==> padded(raw)[i] == FILLER,
{
    lemma_padding_len(raw.len());
    assert(padded(raw).take(raw.len() as int) =~= raw);
}

} // verus!
