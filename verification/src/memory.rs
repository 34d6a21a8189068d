//! Evaluated constants: allocations with their relocations, statics, and the
//! store that holds what the evaluator produced.

use crate::bits::{addend_of, uint_value, Endian};
use crate::ident::{AllocId, DataId, DefId, FuncId, Linkage};
use crate::module::{is_alignment, DataDecl, DataImage};
use crate::symbol::alloc_symbol;
use crate::value_and_place::{Const, GlobalId};
use std::collections::HashMap;
use vstd::prelude::*;

verus! {

broadcast use vstd::std_specs::hash::group_hash_axioms;

/// The byte that pads a data object to a multiple of 16 bytes.
pub const FILLER: u8 = 0xde;

/// What the target needs to read a pointer out of raw bytes.
#[derive(Clone, Copy, Debug, PartialEq, Eq, Structural)]
pub struct TargetDataLayout {
    pub endian: Endian,
    /// The width of a pointer in bytes.
    pub pointer_size: u8,
}

/// What a pointer inside an allocation points at.
#[derive(Clone, Copy, Debug, PartialEq, Eq, Structural)]
pub enum RelocTarget {
    /// A function, by the handle under which the module has it declared.
    Function(FuncId),
    /// Another allocation.
    Memory(AllocId),
    /// A static.
    Static(DefId),
}

/// A pointer inside an allocation. The bytes at `offset` hold the addend.
#[derive(Clone, Copy, Debug, PartialEq, Eq, Structural)]
pub struct Relocation {
    pub offset: u32,
    pub target: RelocTarget,
}

/// The raw bytes of an evaluated constant and the pointers among them.
#[derive(Clone, Debug)]
pub struct Allocation {
    pub bytes: Vec<u8>,
    /// The alignment in bytes.
    pub align: u64,
    pub relocations: Vec<Relocation>,
}

/// A constant after evaluation.
#[derive(Clone, Copy, Debug, PartialEq, Eq, Structural)]
pub enum ConstValue {
    /// A scalar of `size` bytes, by its bit pattern.
    Scalar { bits: u128, size: u8 },
    /// A place `offset` bytes into an allocation.
    ByRef { alloc: AllocId, offset: u64 },
    /// The constant of the given definition, which is yet to be evaluated.
    Unevaluated(DefId),
}

/// What is known of a static.
#[derive(Clone, Debug)]
pub struct StaticInfo {
    /// The mangled name.
    pub symbol_name: String,
    /// Declared here, defined elsewhere.
    pub foreign: bool,
    /// Declared `mut`.
    pub mutable: bool,
    /// No part of the type can change behind a shared reference.
    pub freeze: bool,
    /// The preferred alignment of the type in bytes.
    pub align: u64,
    /// The type is a raw pointer.
    pub raw_pointer: bool,
    /// Visible outside of the compilation unit.
    pub reachable: bool,
    /// The evaluated initializer. A foreign static has none, and a static that
    /// is only pointed at need not be evaluated: the field is then not read.
    pub value: ConstValue,
}

/// A unit of pending work.
#[derive(Clone, Copy, Debug, PartialEq, Eq, Structural)]
pub enum TodoItem {
    Alloc(AllocId),
    Static(DefId),
}

/// What the evaluator produced: allocations by identity, statics by definition.
pub struct ConstStore {
    pub layout: TargetDataLayout,
    /// The allocations, by the number of their `AllocId`.
    pub allocs: HashMap<u64, Allocation>,
    /// The statics, by the key of their `DefId`.
    pub statics: HashMap<u64, StaticInfo>,
    /// The named constants that were evaluated, by the key of their `DefId`.
    pub consts: HashMap<u64, Const>,
    /// The promoted constants whose evaluation succeeded, by the key of their
    /// `GlobalId`. One that is missing failed to evaluate.
    pub promoted: HashMap<u128, Const>,
}

/// The number of filler bytes that follow `len` bytes.
pub open spec fn padding_len(len: nat) -> nat {
    ((16 - len % 16) % 16) as nat
}

/// `raw`, followed by filler bytes up to the next multiple of 16.
pub open spec fn padded(raw: Seq<u8>) -> Seq<u8> {
    raw + Seq::new(padding_len(raw.len()), |i: int| FILLER)
}

/// The function addresses among `relocs`, in their order.
pub open spec fn function_relocs(relocs: Seq<Relocation>) -> Seq<(u32, FuncId)>
    decreases relocs.len(),
{
    if relocs.len() == 0 {
        Seq::empty()
    } else {
        let earlier = function_relocs(relocs.drop_last());
        match relocs.last().target {
            RelocTarget::Function(func) => earlier.push((relocs.last().offset, func)),
            _ => earlier,
        }
    }
}

impl TargetDataLayout {
    pub open spec fn wf(self) -> bool {
        1 <= self.pointer_size <= 8
    }
}

impl RelocTarget {
    /// The target is a data object, not a function.
    pub open spec fn is_data(self) -> bool {
        !(self is Function)
    }
}

impl Allocation {
    /// The pointer-sized bytes at `offset`.
    pub open spec fn pointer_bytes(self, layout: TargetDataLayout, offset: u32) -> Seq<u8> {
        self.bytes@.subrange(offset as int, offset + layout.pointer_size)
    }

    /// The unsigned integer that the bytes at `offset` hold.
    pub open spec fn pointer_value(self, layout: TargetDataLayout, offset: u32) -> nat {
        uint_value(layout.endian, self.pointer_bytes(layout, offset))
    }

    /// The addend that the bytes at `offset` hold.
    pub open spec fn addend_at(self, layout: TargetDataLayout, offset: u32) -> int {
        addend_of(self.pointer_value(layout, offset))
    }

    /// The pointer lies inside the bytes, and a pointer to a function has no addend.
    pub open spec fn reloc_wf(self, layout: TargetDataLayout, reloc: Relocation) -> bool {
        &&& reloc.offset + layout.pointer_size <= self.bytes@.len()
        &&& reloc.target matches RelocTarget::Function(func) ==> {
            &&& func.0 < u32::MAX
            &&& self.pointer_value(layout, reloc.offset) == 0
        }
    }

    pub open spec fn wf(self, layout: TargetDataLayout) -> bool {
        &&& is_alignment(self.align)
        &&& self.relocations@.len() < u32::MAX
        &&& forall|i: int|
            0 <= i < self.relocations@.len() ==> self.reloc_wf(
                layout,
                #[trigger] self.relocations@[i],
            )
    }

    /// The allocation holds a pointer to `target`.
    pub open spec fn points_at(self, target: RelocTarget) -> bool {
        exists|i: int|
            0 <= i < self.relocations@.len() && (#[trigger] self.relocations@[i]).target == target
    }
}

impl ConstStore {
    pub open spec fn has_alloc(&self, id: AllocId) -> bool {
        self.allocs@.contains_key(id.0)
    }

    pub open spec fn memory(&self, id: AllocId) -> Allocation {
        self.allocs@[id.0]
    }

    pub open spec fn has_static(&self, def: DefId) -> bool {
        self.statics@.contains_key(def.spec_key())
    }

    pub open spec fn static_info(&self, def: DefId) -> StaticInfo {
        self.statics@[def.spec_key()]
    }

    pub open spec fn has_const(&self, def: DefId) -> bool {
        self.consts@.contains_key(def.spec_key())
    }

    /// The value that the named constant of `def` was evaluated to.
    pub open spec fn const_value(&self, def: DefId) -> Const {
        self.consts@[def.spec_key()]
    }

    /// The promoted constant was evaluated without failure.
    pub open spec fn has_promoted(&self, id: GlobalId) -> bool {
        self.promoted@.contains_key(id.spec_key())
    }

    /// The value that the promoted constant was evaluated to.
    pub open spec fn promoted_value(&self, id: GlobalId) -> Const {
        self.promoted@[id.spec_key()]
    }

    /// The store knows the item.
    pub open spec fn contains(&self, item: TodoItem) -> bool {
        match item {
            TodoItem::Alloc(id) => self.has_alloc(id),
            TodoItem::Static(def) => self.has_static(def),
        }
    }

    /// The item is a static that is defined elsewhere.
    pub open spec fn is_foreign(&self, item: TodoItem) -> bool {
        item matches TodoItem::Static(def) && self.static_info(def).foreign
    }

    /// The item is known and gets a data object from this compilation unit.
    pub open spec fn defines(&self, item: TodoItem) -> bool {
        self.contains(item) && !self.is_foreign(item)
    }

    /// The symbol of a static.
    pub open spec fn static_symbol(&self, def: DefId) -> Seq<char> {
        self.static_info(def).symbol_name@
    }

    /// A static can be written to: it is declared `mut`, or its type is not
    /// provably immutable.
    pub open spec fn static_writable(&self, def: DefId) -> bool {
        self.static_info(def).mutable || !self.static_info(def).freeze
    }

    /// The symbol under which the item is declared.
    pub open spec fn symbol(&self, item: TodoItem) -> Seq<char> {
        match item {
            TodoItem::Alloc(id) => alloc_symbol(id),
            TodoItem::Static(def) => self.static_symbol(def),
        }
    }

    /// The linkage with which the item is declared when it is defined.
    pub open spec fn linkage(&self, item: TodoItem) -> Linkage {
        match item {
            TodoItem::Alloc(_) => Linkage::Local,
            TodoItem::Static(def) => if self.static_info(def).reachable {
                Linkage::Export
            } else {
                Linkage::Local
            },
        }
    }

    /// Whether the item's data object can be written to.
    pub open spec fn writable(&self, item: TodoItem) -> bool {
        match item {
            TodoItem::Alloc(_) => false,
            TodoItem::Static(def) => self.static_writable(def),
        }
    }

    /// The alignment with which the item is defined.
    pub open spec fn align(&self, item: TodoItem) -> u64 {
        match item {
            TodoItem::Alloc(id) => self.memory(id).align,
            TodoItem::Static(def) => self.static_info(def).align,
        }
    }

    /// The identity of the allocation that holds the item's bytes.
    pub open spec fn allocation_id(&self, item: TodoItem) -> AllocId {
        match item {
            TodoItem::Alloc(id) => id,
            TodoItem::Static(def) => self.static_info(def).value->alloc,
        }
    }

    /// The allocation that holds the item's bytes.
    pub open spec fn allocation(&self, item: TodoItem) -> Allocation {
        self.memory(self.allocation_id(item))
    }

    /// The item that a pointer to data leads to.
    pub open spec fn target_item(target: RelocTarget) -> TodoItem {
        match target {
            RelocTarget::Memory(id) => TodoItem::Alloc(id),
            RelocTarget::Static(def) => TodoItem::Static(def),
            RelocTarget::Function(_) => arbitrary(),
        }
    }

    /// The symbol of the data object that a pointer leads to.
    pub open spec fn target_symbol(&self, target: RelocTarget) -> Seq<char> {
        self.symbol(Self::target_item(target))
    }

    /// The store knows what the pointer leads to.
    pub open spec fn has_target(&self, target: RelocTarget) -> bool {
        match target {
            RelocTarget::Function(_) => true,
            RelocTarget::Memory(id) => self.has_alloc(id),
            RelocTarget::Static(def) => self.has_static(def),
        }
    }

    /// The data addresses among `relocs` of `alloc`, in their order, with the
    /// data objects as `ids` has them declared.
    pub open spec fn data_relocs(
        &self,
        alloc: Allocation,
        relocs: Seq<Relocation>,
        ids: Map<Seq<char>, DataDecl>,
    ) -> Seq<(u32, DataId, i64)>
        decreases relocs.len(),
    {
        if relocs.len() == 0 {
            Seq::empty()
        } else {
            let earlier = self.data_relocs(alloc, relocs.drop_last(), ids);
            let reloc = relocs.last();
            if reloc.target.is_data() {
                earlier.push(
                    (
                        reloc.offset,
                        ids[self.target_symbol(reloc.target)].id,
                        alloc.addend_at(self.layout, reloc.offset) as i64,
                    ),
                )
            } else {
                earlier
            }
        }
    }

    /// `image` is the definition that `alloc` gives to a data object: an
    /// address for each of its pointers, its bytes, padded, unless it has
    /// none, and a start at a multiple of `align`.
    pub open spec fn is_image(
        &self,
        alloc: Allocation,
        align: u64,
        ids: Map<Seq<char>, DataDecl>,
        image: DataImage,
    ) -> bool {
        &&& image.function_relocs == function_relocs(alloc.relocations@)
        &&& image.data_relocs == self.data_relocs(alloc, alloc.relocations@, ids)
        &&& alloc.bytes@.len() > 0 ==> image.bytes == padded(alloc.bytes@)
        &&& image.offset % (align as nat) == 0
    }

    /// `from` gets a data object that holds a pointer to the allocation `to`.
    pub open spec fn refers_to(&self, from: TodoItem, to: TodoItem) -> bool {
        &&& self.defines(from)
        &&& to matches TodoItem::Alloc(id)
        &&& self.allocation(from).points_at(RelocTarget::Memory(id))
    }

    /// Every pointer of the allocation leads to something that the store knows.
    pub open spec fn alloc_closed(&self, alloc: Allocation) -> bool {
        forall|i: int|
            0 <= i < alloc.relocations@.len() ==> self.has_target(
                (#[trigger] alloc.relocations@[i]).target,
            )
    }

    /// The static has its value, as far as it has one: it is foreign, or it
    /// was evaluated to a place in an allocation.
    pub open spec fn evaluated(&self, def: DefId) -> bool {
        self.static_info(def).foreign || self.static_info(def).value is ByRef
    }

    /// The store knows the item, and has its value if it is a static.
    pub open spec fn ready(&self, item: TodoItem) -> bool {
        &&& self.contains(item)
        &&& item matches TodoItem::Static(def) ==> self.evaluated(def)
    }

    /// A static that is defined here and was evaluated was evaluated to the
    /// start of an allocation that the store knows.
    pub open spec fn static_wf(&self, def: DefId) -> bool {
        let info = self.static_info(def);
        !info.foreign && info.value is ByRef ==> {
            &&& info.value->offset == 0
            &&& self.has_alloc(info.value->alloc)
            &&& is_alignment(info.align)
        }
    }

    /// The store is complete: every allocation is well formed and points only
    /// at what the store knows, and every static that is defined here and was
    /// evaluated was evaluated to the start of an allocation that the store
    /// knows.
    pub open spec fn closed(&self) -> bool {
        &&& self.layout.wf()
        &&& forall|id: AllocId| #[trigger]
            self.has_alloc(id) ==> self.memory(id).wf(self.layout) && self.alloc_closed(
                self.memory(id),
            )
        &&& forall|def: DefId| #[trigger] self.has_static(def) ==> self.static_wf(def)
    }

    /// No two items share a symbol: statics have names of their own, and none
    /// has the name of an allocation.
    ///
    /// A store in which two statics share a symbol is outside of what this
    /// library handles. The object module would give both one data object, so
    /// that only one of them could be defined, and which one would depend on
    /// the order in which the pending work is taken.
    pub open spec fn distinct_symbols(&self) -> bool {
        &&& forall|a: DefId, b: DefId|
            self.has_static(a) && self.has_static(b) && #[trigger] self.static_symbol(a)
                == #[trigger] self.static_symbol(b) ==> a == b
        &&& forall|def: DefId, id: AllocId|
            self.has_static(def) && self.has_alloc(id) ==> #[trigger] self.static_symbol(def)
                != #[trigger] alloc_symbol(id)
    }

    /// The store is complete, and no two of its items share a symbol.
    pub open spec fn wf(&self) -> bool {
        self.closed() && self.distinct_symbols()
    }

    /// A path of pointers that starts at one of `roots`.
    pub open spec fn is_path(&self, roots: Set<TodoItem>, path: Seq<TodoItem>) -> bool {
        &&& path.len() > 0
        &&& roots.contains(path[0])
        &&& forall|i: int|
            0 <= i < path.len() - 1 ==> self.refers_to(#[trigger] path[i], path[i + 1])
    }

    /// The item is one of `roots`, or pointers lead from one of them to it.
    pub open spec fn reaches(&self, roots: Set<TodoItem>, item: TodoItem) -> bool {
        exists|path: Seq<TodoItem>| #[trigger] self.is_path(roots, path) && path.last() == item
    }

    pub proof fn lemma_root_reaches(&self, roots: Set<TodoItem>, item: TodoItem)
        requires
            roots.contains(item),
        ensures
            self.reaches(roots, item),
    {
        let path = seq![item];
        assert(self.is_path(roots, path) && path.last() == item);
    }

    pub proof fn lemma_reaches_step(&self, roots: Set<TodoItem>, from: TodoItem, to: TodoItem)
        requires
            self.reaches(roots, from),
            self.refers_to(from, to),
        ensures
            self.reaches(roots, to),
    {
        let path = choose|path: Seq<TodoItem>| #[trigger]
            self.is_path(roots, path) && path.last() == from;
        let longer = path.push(to);
        assert forall|i: int| 0 <= i < longer.len() - 1 implies self.refers_to(
            #[trigger] longer[i],
            longer[i + 1],
        ) by {
            if i < path.len() - 1 {
                assert(self.refers_to(path[i], path[i + 1]));
            }
        }
        assert(self.is_path(roots, longer) && longer.last() == to);
    }

    /// A set that holds the roots and everything that its members point at
    /// holds everything that the roots reach.
    pub proof fn lemma_closed_set_covers(
        &self,
        roots: Set<TodoItem>,
        closed: Set<TodoItem>,
        item: TodoItem,
    )
        requires
            forall|x: TodoItem| roots.contains(x) ==> closed.contains(x),
            forall|x: TodoItem, y: TodoItem|
                closed.contains(x) && #[trigger] self.refers_to(x, y) ==> closed.contains(y),
            self.reaches(roots, item),
        ensures
            closed.contains(item),
    {
        let path = choose|path: Seq<TodoItem>| #[trigger]
            self.is_path(roots, path) && path.last() == item;
        self.lemma_path_in_closed_set(roots, closed, path, path.len() - 1);
    }

    proof fn lemma_path_in_closed_set(
        &self,
        roots: Set<TodoItem>,
        closed: Set<TodoItem>,
        path: Seq<TodoItem>,
        upto: int,
    )
        requires
            forall|x: TodoItem| roots.contains(x) ==> closed.contains(x),
            forall|x: TodoItem, y: TodoItem|
                closed.contains(x) && #[trigger] self.refers_to(x, y) ==> closed.contains(y),
            self.is_path(roots, path),
            0 <= upto < path.len(),
        ensures
            closed.contains(path[upto]),
        decreases upto,
    {
        if upto > 0 {
            self.lemma_path_in_closed_set(roots, closed, path, upto - 1);
            assert(self.refers_to(path[upto - 1], path[upto - 1 + 1]));
        }
    }

    /// Two items of a well-formed store with the same symbol are the same item.
    pub proof fn lemma_symbol_injective(&self, a: TodoItem, b: TodoItem)
        requires
            self.wf(),
            self.contains(a),
            self.contains(b),
            self.symbol(a) == self.symbol(b),
        ensures
            a == b,
    {
        match (a, b) {
            (TodoItem::Alloc(x), TodoItem::Alloc(y)) => {
                crate::symbol::lemma_alloc_symbol_injective(x, y);
            },
            (TodoItem::Static(x), TodoItem::Static(y)) => {
                assert(self.static_symbol(x) == self.static_symbol(y));
            },
            (TodoItem::Alloc(x), TodoItem::Static(y)) => {
                assert(self.static_symbol(y) == alloc_symbol(x));
            },
            (TodoItem::Static(x), TodoItem::Alloc(y)) => {
                assert(self.static_symbol(x) == alloc_symbol(y));
            },
        }
    }

    /// The allocation with the given identity.
    pub fn get_alloc(&self, id: AllocId) -> (alloc: &Allocation)
        requires
            self.has_alloc(id),
        ensures
            *alloc == self.memory(id),
    {
        let found = self.allocs.get(&id.0);
        found.unwrap()
    }

    /// The value of a named constant, if it was evaluated.
    pub fn get_const(&self, def: DefId) -> (value: Option<Const>)
        ensures
            value == if self.has_const(def) {
                Some(self.const_value(def))
            } else {
                None
            },
    {
        let key = def.key();
        match self.consts.get(&key) {
            Some(value) => Some(*value),
            None => None,
        }
    }

    /// The value of a promoted constant, if its evaluation succeeded.
    pub fn get_promoted(&self, id: GlobalId) -> (value: Option<Const>)
        ensures
            value == if self.has_promoted(id) {
                Some(self.promoted_value(id))
            } else {
                None
            },
    {
        let key = id.key();
        match self.promoted.get(&key) {
            Some(value) => Some(*value),
            None => None,
        }
    }

    /// What is known of the static with the given definition.
    pub fn get_static(&self, def: DefId) -> (info: &StaticInfo)
        requires
            self.has_static(def),
        ensures
            *info == self.static_info(def),
    {
        let key = def.key();
        let found = self.statics.get(&key);
        found.unwrap()
    }
}

} // verus!
