//! What a session does to the object module, step by step, and what holds of
//! it when it is finished.

use crate::constant::{lemma_padded, ConstantError};
use crate::ident::{AllocId, DataId, DefId, Linkage};
use crate::memory::{
    function_relocs, padded, Allocation, ConstStore, RelocTarget, Relocation, TodoItem,
};
use crate::module::{DataDecl, DataImage, DescriptionView, ModuleFault, ModuleView};
use crate::symbol::alloc_symbol;
use vstd::prelude::*;

verus! {

/// How far a linkage reaches. A symbol that is declared again has the linkage
/// that reaches farther.
pub open spec fn linkage_rank(linkage: Linkage) -> nat {
    match linkage {
        Linkage::Import => 0,
        Linkage::Local => 1,
        Linkage::Hidden => 2,
        Linkage::Preemptible => 3,
        Linkage::Export => 4,
    }
}

/// The larger of two numbers.
pub open spec fn larger(a: nat, b: nat) -> nat {
    if a >= b {
        a
    } else {
        b
    }
}

/// Merging two linkages gives the one that reaches farther.
pub proof fn lemma_merged_linkage(earlier: Linkage, later: Linkage)
    ensures
        linkage_rank(crate::module::merged_linkage(earlier, later)) == larger(
            linkage_rank(earlier),
            linkage_rank(later),
        ),
{
}

/// Two linkages that reach equally far are the same.
pub proof fn lemma_linkage_rank_injective(a: Linkage, b: Linkage)
    requires
        linkage_rank(a) == linkage_rank(b),
    ensures
        a == b,
{
}

impl ModuleView {
    /// How far the linkage of `name` reaches; not at all if it is not declared.
    pub open spec fn rank_of(self, name: Seq<char>) -> nat {
        if self.data.contains_key(name) {
            linkage_rank(self.data[name].linkage)
        } else {
            0
        }
    }

    /// `name` is declared as data that can be written to.
    pub open spec fn writable_at(self, name: Seq<char>) -> bool {
        self.data.contains_key(name) && self.data[name].writable
    }

    /// `name` is not declared as thread-local data.
    pub open spec fn not_thread_local(self, name: Seq<char>) -> bool {
        self.data.contains_key(name) ==> !self.data[name].tls
    }

    /// The module takes a declaration of `name` as data that is not
    /// thread-local: the name holds no NUL, and is neither a function's nor
    /// that of thread-local data.
    pub open spec fn takes_data(self, name: Seq<char>) -> bool {
        self.accepts_name(name) && self.not_thread_local(name)
    }

    /// Why the module refuses a declaration of `name` as data that is not
    /// thread-local, if it does.
    pub open spec fn refusal(self, name: Seq<char>) -> Option<ModuleFault> {
        if !self.not_thread_local(name) {
            Some(ModuleFault::IncompatibleTls)
        } else if name.contains('\0') {
            Some(ModuleFault::Backend)
        } else if self.functions.contains(name) {
            Some(ModuleFault::IncompatibleDeclaration)
        } else {
            None
        }
    }

    /// A module that holds what another held refuses the names that the other
    /// refused, for the same reason.
    pub proof fn lemma_refusal_kept(self, later: ModuleView, name: Seq<char>)
        requires
            self.extends_to(later),
        ensures
            self.refusal(name) == later.refusal(name),
    {
        if self.data.contains_key(name) {
            assert(later.data.contains_key(name));
        }
    }

    /// How a declaration of `name` as data ends.
    pub open spec fn data_declared(
        self,
        name: Seq<char>,
        linkage: Linkage,
        writable: bool,
        result: Result<DataId, ModuleFault>,
        after: ModuleView,
    ) -> bool {
        if self.not_thread_local(name) {
            self.declared(name, linkage, writable, result, after)
        } else {
            &&& result == Err::<DataId, ModuleFault>(ModuleFault::IncompatibleTls)
            &&& after.functions == self.functions
            &&& after.data == self.data
            &&& after.definitions == self.definitions
        }
    }

    /// A module that holds what another held takes the names that the other took.
    pub proof fn lemma_takes_data_kept(self, later: ModuleView, name: Seq<char>)
        requires
            self.extends_to(later),
        ensures
            self.takes_data(name) <==> later.takes_data(name),
    {
        if self.data.contains_key(name) {
            assert(later.data.contains_key(name));
        }
    }

    /// `name` is declared as data, and no other name has its identifier.
    pub open spec fn has_unique(self, name: Seq<char>) -> bool {
        &&& self.data.contains_key(name)
        &&& forall|other: Seq<char>| #[trigger]
            self.data.contains_key(other) && self.data[other].id == self.data[name].id ==> other
                == name
    }

    /// `later` holds what `self` holds, and more: every name keeps its
    /// identifier, its linkage reaches no less far, what could be written to
    /// still can, new names have new identifiers, and every definition stays
    /// as it is.
    pub open spec fn extends_to(self, later: ModuleView) -> bool {
        &&& later.functions == self.functions
        &&& forall|name: Seq<char>| #[trigger]
            self.data.contains_key(name) ==> {
                &&& later.data.contains_key(name)
                &&& later.data[name].id == self.data[name].id
                &&& later.data[name].tls == self.data[name].tls
                &&& linkage_rank(later.data[name].linkage) >= linkage_rank(
                    self.data[name].linkage,
                )
                &&& self.data[name].writable ==> later.data[name].writable
            }
        &&& forall|name: Seq<char>| #[trigger]
            later.data.contains_key(name) && !self.data.contains_key(name) ==> {
                &&& !later.data[name].tls
                &&& self.is_fresh(later.data[name].id)
            }
        &&& forall|id: DataId| #[trigger]
            self.definitions.contains_key(id) ==> {
                &&& later.definitions.contains_key(id)
                &&& later.definitions[id] == self.definitions[id]
            }
    }

    pub proof fn lemma_extends_transitive(self, middle: ModuleView, later: ModuleView)
        requires
            self.extends_to(middle),
            middle.extends_to(later),
        ensures
            self.extends_to(later),
    {
        assert forall|name: Seq<char>| #[trigger]
            later.data.contains_key(name) && !self.data.contains_key(name) implies !later.data[name].tls
            && self.is_fresh(later.data[name].id) by {
            if middle.data.contains_key(name) {
            } else {
                let id = later.data[name].id;
                assert(middle.is_fresh(id));
                assert forall|other: Seq<char>| #[trigger]
                    self.data.contains_key(other) implies self.data[other].id != id by {
                    assert(middle.data.contains_key(other));
                }
            }
        }
    }

    /// A name that has its identifier to itself keeps it to itself.
    pub proof fn lemma_unique_kept(self, later: ModuleView, name: Seq<char>)
        requires
            self.has_unique(name),
            self.extends_to(later),
        ensures
            later.has_unique(name),
            later.data[name].id == self.data[name].id,
    {
        assert forall|other: Seq<char>| #[trigger]
            later.data.contains_key(other) && later.data[other].id
                == later.data[name].id implies other == name by {
            if self.data.contains_key(other) {
            } else {
                assert(self.is_fresh(later.data[other].id));
            }
        }
    }

    /// What an accepted declaration leaves behind.
    pub proof fn lemma_declared(
        self,
        name: Seq<char>,
        linkage: Linkage,
        writable: bool,
        id: DataId,
        after: ModuleView,
    )
        requires
            self.data_declared(name, linkage, writable, Ok(id), after),
        ensures
            self.takes_data(name),
            self.extends_to(after),
            after.functions == self.functions,
            after.data == self.data.insert(name, self.declaration(name, id, linkage, writable)),
            after.has_unique(name),
            after.data[name].id == id,
            after.declares(id),
            linkage != Linkage::Import ==> after.is_definable(id),
            self.data.contains_key(name) && self.data[name].linkage != Linkage::Import
                ==> after.is_definable(id),
    {
        assert(after.data.contains_key(name));
        assert forall|other: Seq<char>| #[trigger]
            after.data.contains_key(other) && !self.data.contains_key(other) implies !after.data[other].tls
            && self.is_fresh(after.data[other].id) by {
            assert(other == name);
        }
    }

    /// What an accepted definition leaves behind.
    pub proof fn lemma_defined(self, id: DataId, data: DescriptionView, after: ModuleView)
        requires
            self.defined(id, data, Ok(()), after),
        ensures
            self.extends_to(after),
    {
        assert forall|name: Seq<char>| #[trigger]
            after.data.contains_key(name) && !self.data.contains_key(name) implies !after.data[name].tls
            && self.is_fresh(after.data[name].id) by {
        }
    }
}

impl ConstStore {
    /// The linkage with which an item is declared where something points at it.
    pub open spec fn target_linkage(item: TodoItem) -> Linkage {
        match item {
            TodoItem::Alloc(_) => Linkage::Local,
            TodoItem::Static(_) => Linkage::Import,
        }
    }

    /// The linkage that a session may give to an item at most: the one that
    /// the item is defined with, if it is among `defined` and is defined here,
    /// and the one that a pointer to it asks for, if not.
    pub open spec fn linkage_bound(&self, item: TodoItem, defined: Set<TodoItem>) -> Linkage {
        if defined.contains(item) && !self.is_foreign(item) {
            self.linkage(item)
        } else {
            Self::target_linkage(item)
        }
    }

    /// Since `before`, no symbol of the store was given a linkage that reaches
    /// farther than its item calls for, and none was made writable whose item
    /// is not. An item among `defined` that is defined here calls for the
    /// linkage that it is defined with; any other item calls for the linkage
    /// that a pointer to it asks for, which for a static is `Import`.
    pub open spec fn raised_within(
        &self,
        before: ModuleView,
        after: ModuleView,
        defined: Set<TodoItem>,
    ) -> bool {
        forall|item: TodoItem|
            self.contains(item) && #[trigger] after.data.contains_key(self.symbol(item)) ==> {
                &&& linkage_rank(after.data[self.symbol(item)].linkage) <= larger(
                    before.rank_of(self.symbol(item)),
                    linkage_rank(self.linkage_bound(item, defined)),
                )
                &&& after.data[self.symbol(item)].writable ==> before.writable_at(
                    self.symbol(item),
                ) || self.writable(item)
            }
    }

    /// Two stretches of a session, one after the other, raise no linkage
    /// farther than the items of both call for.
    pub proof fn lemma_raised_within_transitive(
        &self,
        before: ModuleView,
        middle: ModuleView,
        after: ModuleView,
        first: Set<TodoItem>,
        second: Set<TodoItem>,
        both: Set<TodoItem>,
    )
        requires
            self.raised_within(before, middle, first),
            self.raised_within(middle, after, second),
            first.subset_of(both),
            second.subset_of(both),
        ensures
            self.raised_within(before, after, both),
    {
        assert forall|item: TodoItem|
            self.contains(item) && #[trigger] after.data.contains_key(self.symbol(item)) implies {
            &&& linkage_rank(after.data[self.symbol(item)].linkage) <= larger(
                before.rank_of(self.symbol(item)),
                linkage_rank(self.linkage_bound(item, both)),
            )
            &&& after.data[self.symbol(item)].writable ==> before.writable_at(self.symbol(item))
                || self.writable(item)
        } by {
            if middle.data.contains_key(self.symbol(item)) {
            }
        }
    }

    /// A stretch of a session raises no linkage farther than more items call for.
    pub proof fn lemma_raised_within_wider(
        &self,
        before: ModuleView,
        after: ModuleView,
        defined: Set<TodoItem>,
        wider: Set<TodoItem>,
    )
        requires
            self.raised_within(before, after, defined),
            defined.subset_of(wider),
        ensures
            self.raised_within(before, after, wider),
    {
        assert forall|item: TodoItem|
            self.contains(item) && #[trigger] after.data.contains_key(self.symbol(item)) implies {
            &&& linkage_rank(after.data[self.symbol(item)].linkage) <= larger(
                before.rank_of(self.symbol(item)),
                linkage_rank(self.linkage_bound(item, wider)),
            )
            &&& after.data[self.symbol(item)].writable ==> before.writable_at(self.symbol(item))
                || self.writable(item)
        } by {
        }
    }

    /// Declaring an item raises no linkage too far: with the linkage that a
    /// pointer to it asks for, or, for an item among `defined` that is defined
    /// here, with the linkage that it is defined with.
    pub proof fn lemma_declared_within(
        &self,
        item: TodoItem,
        linkage: Linkage,
        before: ModuleView,
        id: DataId,
        after: ModuleView,
        defined: Set<TodoItem>,
    )
        requires
            self.wf(),
            self.contains(item),
            linkage == Self::target_linkage(item) || (linkage == self.linkage(item)
                && defined.contains(item) && !self.is_foreign(item)),
            after.functions == before.functions,
            after.data == before.data.insert(
                self.symbol(item),
                before.declaration(self.symbol(item), id, linkage, self.writable(item)),
            ),
        ensures
            self.raised_within(before, after, defined),
            linkage_rank(after.data[self.symbol(item)].linkage) >= linkage_rank(linkage),
            self.writable(item) ==> after.data[self.symbol(item)].writable,
    {
        let name = self.symbol(item);
        assert(after.data.contains_key(name));
        assert forall|other: TodoItem|
            self.contains(other) && #[trigger] after.data.contains_key(self.symbol(other)) implies {
            &&& linkage_rank(after.data[self.symbol(other)].linkage) <= larger(
                before.rank_of(self.symbol(other)),
                linkage_rank(self.linkage_bound(other, defined)),
            )
            &&& after.data[self.symbol(other)].writable ==> before.writable_at(self.symbol(other))
                || self.writable(other)
        } by {
            if self.symbol(other) == name {
                self.lemma_symbol_injective(other, item);
                if before.data.contains_key(name) {
                    lemma_merged_linkage(before.data[name].linkage, linkage);
                }
            }
        }
        if before.data.contains_key(name) {
            lemma_merged_linkage(before.data[name].linkage, linkage);
        }
    }

    /// The module accepts the symbol of every data object that `alloc` points at.
    pub open spec fn targets_accepted(&self, alloc: Allocation, view: ModuleView) -> bool {
        forall|i: int|
            0 <= i < alloc.relocations@.len() && (#[trigger] alloc.relocations@[i]).target.is_data()
                ==> view.takes_data(self.target_symbol(alloc.relocations@[i].target))
    }

    /// The module has every data object that the first `upto` pointers of
    /// `alloc` lead to declared, each under an identifier of its own.
    pub open spec fn targets_declared(&self, alloc: Allocation, upto: int, view: ModuleView) -> bool {
        forall|i: int|
            0 <= i < upto && (#[trigger] alloc.relocations@[i]).target.is_data()
                ==> view.has_unique(self.target_symbol(alloc.relocations@[i].target))
    }

    /// The allocations that the first `upto` pointers of `alloc` lead to.
    pub open spec fn memory_targets(alloc: Allocation, upto: int) -> Set<TodoItem> {
        Set::new(
            |item: TodoItem|
                exists|i: int|
                    0 <= i < upto && #[trigger] alloc.relocations@[i].target == RelocTarget::Memory(
                        item->Alloc_0,
                    ) && item is Alloc,
        )
    }

    /// The data addresses do not depend on declarations that come later.
    pub proof fn lemma_data_relocs_stable(
        &self,
        alloc: Allocation,
        relocs: Seq<Relocation>,
        before: ModuleView,
        after: ModuleView,
    )
        requires
            before.extends_to(after),
            forall|i: int|
                0 <= i < relocs.len() && (#[trigger] relocs[i]).target.is_data()
                    ==> before.data.contains_key(self.target_symbol(relocs[i].target)),
        ensures
            self.data_relocs(alloc, relocs, after.data) == self.data_relocs(
                alloc,
                relocs,
                before.data,
            ),
        decreases relocs.len(),
    {
        if relocs.len() > 0 {
            let shorter = relocs.drop_last();
            assert forall|i: int|
                0 <= i < shorter.len() && (#[trigger] shorter[i]).target.is_data()
                    implies before.data.contains_key(self.target_symbol(shorter[i].target)) by {
                assert(shorter[i] == relocs[i]);
            }
            self.lemma_data_relocs_stable(alloc, shorter, before, after);
            let reloc = relocs.last();
            assert(reloc == relocs[relocs.len() - 1]);
        }
    }
}

impl ConstStore {
    /// `image` is the definition that a weak static gets where it is
    /// declared: a null pointer without addresses, at a multiple of the
    /// preferred alignment of the static's type if data can be placed so.
    pub open spec fn is_null_pointer_image(&self, def: DefId, image: DataImage) -> bool {
        &&& image.function_relocs == Seq::<(u32, crate::ident::FuncId)>::empty()
        &&& image.data_relocs == Seq::<(u32, DataId, i64)>::empty()
        &&& self.layout.pointer_size > 0 ==> image.bytes == Seq::new(
            self.layout.pointer_size as nat,
            |i: int| 0u8,
        )
        &&& crate::module::is_alignment(self.static_info(def).align) ==> image.offset % (self.static_info(
            def,
        ).align as nat) == 0
    }

    /// How a declaration of the static `def` with `linkage` ends.
    ///
    /// A symbol that the module does not accept gives the module's fault. With
    /// any linkage but `Preemptible` the static is then declared and nothing
    /// else happens. With `Preemptible`, a static whose type is no raw pointer
    /// is an error; one whose type is a raw pointer gets a null pointer as its
    /// definition, unless it has a definition already.
    pub open spec fn static_declared(
        &self,
        def: DefId,
        linkage: Linkage,
        before: ModuleView,
        result: Result<DataId, ConstantError>,
        after: ModuleView,
    ) -> bool {
        let name = self.static_symbol(def);
        let writable = self.static_writable(def);
        if !before.takes_data(name) {
            &&& result matches Err(ConstantError::Module(fault))
            &&& before.data_declared(name, linkage, writable, Err(fault), after)
        } else {
            let id = after.data[name].id;
            let declared = ModuleView {
                functions: before.functions,
                data: before.data.insert(name, before.declaration(name, id, linkage, writable)),
                definitions: before.definitions,
            };
            &&& before.data_declared(name, linkage, writable, Ok(id), declared)
            &&& after.functions == declared.functions
            &&& after.data == declared.data
            &&& if linkage != Linkage::Preemptible {
                result == Ok::<DataId, ConstantError>(id) && after.definitions
                    == before.definitions
            } else if !self.static_info(def).raw_pointer {
                result == Err::<DataId, ConstantError>(ConstantError::WeakStaticNotPointer(def))
                    && after.definitions == before.definitions
            } else {
                &&& result == Ok::<DataId, ConstantError>(id)
                &&& after.definitions == if before.definitions.contains_key(id) {
                    before.definitions
                } else {
                    before.definitions.insert(id, after.definitions[id])
                }
                &&& !before.definitions.contains_key(id) ==> self.is_null_pointer_image(
                    def,
                    after.definitions[id],
                )
            }
        }
    }

    /// A declaration of a static leaves a module that holds what it held.
    pub proof fn lemma_static_declared(
        &self,
        def: DefId,
        linkage: Linkage,
        before: ModuleView,
        id: DataId,
        after: ModuleView,
    )
        requires
            self.static_declared(def, linkage, before, Ok(id), after),
        ensures
            before.takes_data(self.static_symbol(def)),
            before.extends_to(after),
            after.functions == before.functions,
            after.data == before.data.insert(
                self.static_symbol(def),
                before.declaration(
                    self.static_symbol(def),
                    id,
                    linkage,
                    self.static_writable(def),
                ),
            ),
            after.has_unique(self.static_symbol(def)),
            after.data[self.static_symbol(def)].id == id,
            id.0 < u32::MAX,
            after.declares(id),
            linkage != Linkage::Import ==> after.is_definable(id),
            linkage != Linkage::Preemptible ==> after.definitions == before.definitions,
    {
        let name = self.static_symbol(def);
        let writable = self.static_writable(def);
        let declared = ModuleView {
            functions: before.functions,
            data: before.data.insert(name, before.declaration(name, id, linkage, writable)),
            definitions: before.definitions,
        };
        before.lemma_declared(name, linkage, writable, id, declared);
        assert(declared.data.contains_key(name));
        assert forall|other: Seq<char>| #[trigger]
            after.data.contains_key(other) && !before.data.contains_key(other) implies !after.data[other].tls
            && before.is_fresh(after.data[other].id) by {
            assert(declared.data.contains_key(other));
        }
        assert(before.extends_to(after));
        assert(after.has_unique(name)) by {
            assert forall|other: Seq<char>| #[trigger]
                after.data.contains_key(other) && after.data[other].id
                    == after.data[name].id implies other == name by {
                assert(declared.data.contains_key(other));
            }
        }
        assert(after.declares(id)) by {
            assert(after.data.contains_key(name) && after.data[name].id == id);
        }
        if linkage != Linkage::Import {
            assert(after.is_definable(id)) by {
                assert forall|other: Seq<char>| #[trigger]
                    after.data.contains_key(other) && after.data[other].id
                        == id implies after.data[other].linkage != Linkage::Import by {
                    assert(declared.data.contains_key(other));
                }
            }
        }
    }
}

impl ConstStore {
    pub proof fn lemma_memory_targets_step(alloc: Allocation, upto: int)
        requires
            0 <= upto < alloc.relocations@.len(),
        ensures
            Self::memory_targets(alloc, upto + 1) == match alloc.relocations@[upto].target {
                RelocTarget::Memory(id) => Self::memory_targets(alloc, upto).insert(
                    TodoItem::Alloc(id),
                ),
                _ => Self::memory_targets(alloc, upto),
            },
    {
        let next = Self::memory_targets(alloc, upto + 1);
        let now = Self::memory_targets(alloc, upto);
        let expected = match alloc.relocations@[upto].target {
            RelocTarget::Memory(id) => now.insert(TodoItem::Alloc(id)),
            _ => now,
        };
        assert forall|item: TodoItem| next.contains(item) <==> expected.contains(item) by {
            if next.contains(item) {
                let i = choose|i: int|
                    0 <= i < upto + 1 && #[trigger] alloc.relocations@[i].target
                        == RelocTarget::Memory(item->Alloc_0) && item is Alloc;
                if i < upto {
                    assert(now.contains(item));
                }
            }
            if now.contains(item) {
                let i = choose|i: int|
                    0 <= i < upto && #[trigger] alloc.relocations@[i].target == RelocTarget::Memory(
                        item->Alloc_0,
                    ) && item is Alloc;
                assert(0 <= i < upto + 1);
            }
            if expected.contains(item) && !now.contains(item) {
                assert(alloc.relocations@[upto].target == RelocTarget::Memory(item->Alloc_0));
            }
        }
        assert(next =~= expected);
    }
}

/// The data objects whose numbers are in `numbers`.
pub open spec fn data_ids(numbers: Set<u32>) -> Set<DataId> {
    Set::new(|id: DataId| numbers.contains(id.0))
}

/// The items whose keys are in `allocs` and `statics`.
pub open spec fn items_of(allocs: Set<u64>, statics: Set<u64>) -> Set<TodoItem> {
    Set::new(
        |item: TodoItem|
            match item {
                TodoItem::Alloc(id) => allocs.contains(id.0),
                TodoItem::Static(def) => statics.contains(def.spec_key()),
            },
    )
}

impl ConstStore {
    /// The item has its data object: declared under an identifier of its own,
    /// recorded as done, and defined, since `start`, by its allocation.
    pub open spec fn item_done(
        &self,
        item: TodoItem,
        start: ModuleView,
        now: ModuleView,
        done: Set<DataId>,
    ) -> bool {
        let name = self.symbol(item);
        let alloc = self.allocation(item);
        let id = now.data[name].id;
        &&& now.has_unique(name)
        &&& now.takes_data(name)
        &&& linkage_rank(now.data[name].linkage) >= linkage_rank(self.linkage(item))
        &&& self.writable(item) ==> now.data[name].writable
        &&& done.contains(id)
        &&& !start.definitions.contains_key(id)
        &&& now.definitions.contains_key(id)
        &&& self.is_image(alloc, self.align(item), now.data, now.definitions[id])
        &&& self.targets_declared(alloc, alloc.relocations@.len() as int, now)
        &&& self.targets_accepted(alloc, now)
    }

    /// The data object `id` belongs to one of `processed` that is defined here.
    pub open spec fn done_by(&self, processed: Set<TodoItem>, now: ModuleView, id: DataId) -> bool {
        exists|item: TodoItem| #[trigger]
            processed.contains(item) && !self.is_foreign(item) && now.data[self.symbol(item)].id
                == id
    }

    /// What one item of the pending work does to the module, to the pending
    /// work and to the set of data objects that are done.
    ///
    /// A foreign static changes nothing. Any other item is declared; if its
    /// data object is done, nothing else happens; if not, the data objects
    /// that its allocation points at are declared, the allocations among them
    /// become pending work, and the data object is defined and done. The step
    /// fails, with the module's fault, where the module refuses one of the
    /// symbols, and as a duplicate where the module has a definition for the
    /// data object that this session did not make.
    pub open spec fn item_step(
        &self,
        item: TodoItem,
        before: ModuleView,
        todo: Set<TodoItem>,
        done: Set<DataId>,
        result: Result<(), ConstantError>,
        after: ModuleView,
        todo_after: Set<TodoItem>,
        done_after: Set<DataId>,
    ) -> bool {
        let name = self.symbol(item);
        let alloc = self.allocation(item);
        &&& before.extends_to(after)
        &&& self.raised_within(before, after, Set::<TodoItem>::empty().insert(item))
        &&& result matches Err(error) ==> error is Module
        &&& if self.is_foreign(item) {
            &&& result is Ok
            &&& after.data == before.data
            &&& after.definitions == before.definitions
            &&& todo_after == todo
            &&& done_after == done
        } else if !before.takes_data(name) {
            &&& result matches Err(ConstantError::Module(fault))
            &&& before.refusal(name) == Some(fault)
        } else {
            let id = after.data[name].id;
            &&& after.has_unique(name)
            &&& before.data.contains_key(name) ==> before.data[name].id == id
            &&& linkage_rank(after.data[name].linkage) >= linkage_rank(self.linkage(item))
            &&& self.writable(item) ==> after.data[name].writable
            &&& if done.contains(id) {
                &&& result is Ok
                &&& after.definitions == before.definitions
                &&& todo_after == todo
                &&& done_after == done
            } else if !self.targets_accepted(alloc, before) {
                &&& result matches Err(ConstantError::Module(fault))
                &&& self.target_refused(alloc, before, fault)
            } else if before.definitions.contains_key(id) {
                result == Err::<(), ConstantError>(
                    ConstantError::Module(ModuleFault::DuplicateDefinition),
                )
            } else {
                &&& result is Ok
                &&& todo_after == todo.union(
                    Self::memory_targets(alloc, alloc.relocations@.len() as int),
                )
                &&& done_after == done.insert(id)
                &&& after.definitions == before.definitions.insert(id, after.definitions[id])
                &&& self.is_image(alloc, self.align(item), after.data, after.definitions[id])
                &&& self.targets_declared(alloc, alloc.relocations@.len() as int, after)
            }
        }
    }

    /// What holds of the session while it works through the pending items.
    pub open spec fn progress(
        &self,
        roots: Set<TodoItem>,
        start: ModuleView,
        now: ModuleView,
        todo: Set<TodoItem>,
        done: Set<DataId>,
        processed: Set<TodoItem>,
    ) -> bool {
        &&& start.extends_to(now)
        &&& self.raised_within(start, now, processed)
        &&& forall|x: TodoItem| #[trigger]
            todo.contains(x) ==> self.ready(x) && self.reaches(roots, x)
        &&& forall|x: TodoItem| #[trigger]
            processed.contains(x) ==> self.ready(x) && self.reaches(roots, x)
        &&& forall|x: TodoItem| #[trigger]
            roots.contains(x) ==> todo.contains(x) || processed.contains(x)
        &&& forall|x: TodoItem, y: TodoItem|
            processed.contains(x) && #[trigger] self.refers_to(x, y) ==> todo.contains(y)
                || processed.contains(y)
        &&& forall|x: TodoItem|
            processed.contains(x) && !self.is_foreign(x) ==> #[trigger] self.item_done(
                x,
                start,
                now,
                done,
            )
        &&& forall|id: DataId| #[trigger] done.contains(id) ==> self.done_by(processed, now, id)
        &&& forall|id: DataId| #[trigger]
            now.definitions.contains_key(id) ==> start.definitions.contains_key(id)
                || done.contains(id)
    }

    /// An item that is done stays done when the module takes more declarations
    /// and definitions of other data objects.
    pub proof fn lemma_item_stays_done(
        &self,
        item: TodoItem,
        start: ModuleView,
        before: ModuleView,
        done: Set<DataId>,
        after: ModuleView,
        done_after: Set<DataId>,
    )
        requires
            self.item_done(item, start, before, done),
            before.extends_to(after),
            forall|id: DataId| done.contains(id) ==> done_after.contains(id),
        ensures
            self.item_done(item, start, after, done_after),
    {
        let name = self.symbol(item);
        let alloc = self.allocation(item);
        before.lemma_unique_kept(after, name);
        let id = before.data[name].id;
        assert(before.definitions.contains_key(id));
        assert forall|i: int|
            0 <= i < alloc.relocations@.len() && (#[trigger] alloc.relocations@[i]).target.is_data()
                implies before.data.contains_key(self.target_symbol(alloc.relocations@[i].target))
            && after.has_unique(self.target_symbol(alloc.relocations@[i].target)) by {
            assert(before.has_unique(self.target_symbol(alloc.relocations@[i].target)));
            before.lemma_unique_kept(after, self.target_symbol(alloc.relocations@[i].target));
        }
        self.lemma_data_relocs_stable(alloc, alloc.relocations@, before, after);
    }

    /// A pointer to an allocation is among the allocation's memory targets.
    pub proof fn lemma_refers_to_target(&self, from: TodoItem, to: TodoItem)
        requires
            self.refers_to(from, to),
        ensures
            Self::memory_targets(
                self.allocation(from),
                self.allocation(from).relocations@.len() as int,
            ).contains(to),
    {
        let alloc = self.allocation(from);
        let id = to->Alloc_0;
        let i = choose|i: int|
            0 <= i < alloc.relocations@.len() && (#[trigger] alloc.relocations@[i]).target
                == RelocTarget::Memory(id);
        assert(alloc.relocations@[i].target == RelocTarget::Memory(to->Alloc_0) && to is Alloc);
    }

    /// The allocation that holds the bytes of an item that is defined here is
    /// well formed and points only at what the store knows.
    pub proof fn lemma_allocation_wf(&self, item: TodoItem)
        requires
            self.wf(),
            self.defines(item),
            self.ready(item),
        ensures
            self.has_alloc(self.allocation_id(item)),
            self.allocation(item).wf(self.layout),
            self.alloc_closed(self.allocation(item)),
            crate::module::is_alignment(self.align(item)),
    {
        match item {
            TodoItem::Alloc(id) => {
                assert(self.has_alloc(id));
            },
            TodoItem::Static(def) => {
                assert(self.has_static(def));
                assert(self.static_wf(def));
                assert(self.has_alloc(self.allocation_id(item)));
            },
        }
    }

    /// One step keeps what holds of the session, with the item among those
    /// that were processed.
    #[verifier::rlimit(50)]
    pub proof fn lemma_step(
        &self,
        roots: Set<TodoItem>,
        start: ModuleView,
        before: ModuleView,
        todo: Set<TodoItem>,
        done: Set<DataId>,
        processed: Set<TodoItem>,
        item: TodoItem,
        after: ModuleView,
        todo_after: Set<TodoItem>,
        done_after: Set<DataId>,
    )
        requires
            self.wf(),
            self.progress(roots, start, before, todo, done, processed),
            todo.contains(item),
            self.item_step(
                item,
                before,
                todo.remove(item),
                done,
                Ok(()),
                after,
                todo_after,
                done_after,
            ),
        ensures
            self.progress(roots, start, after, todo_after, done_after, processed.insert(item)),
            processed.contains(item) ==> todo_after == todo.remove(item),
    {
        let name = self.symbol(item);
        let alloc = self.allocation(item);
        let later = processed.insert(item);
        start.lemma_extends_transitive(before, after);
        self.lemma_raised_within_transitive(
            start,
            before,
            after,
            processed,
            Set::<TodoItem>::empty().insert(item),
            later,
        );
        if self.is_foreign(item) {
            assert forall|x: TodoItem|
                later.contains(x) && !self.is_foreign(x) implies #[trigger] self.item_done(
                x,
                start,
                after,
                done_after,
            ) by {
                self.lemma_item_stays_done(x, start, before, done, after, done_after);
            }
            assert forall|id: DataId| #[trigger] done_after.contains(id) implies self.done_by(
                later,
                after,
                id,
            ) by {
                let x = choose|x: TodoItem| #[trigger]
                    processed.contains(x) && !self.is_foreign(x) && before.data[self.symbol(x)].id
                        == id;
                assert(later.contains(x));
            }
        } else {
            let id = after.data[name].id;
            if done.contains(id) {
                // The data object is done: the item was processed before.
                let x = choose|x: TodoItem| #[trigger]
                    processed.contains(x) && !self.is_foreign(x) && before.data[self.symbol(x)].id
                        == id;
                assert(self.item_done(x, start, before, done));
                before.lemma_unique_kept(after, self.symbol(x));
                assert(after.data.contains_key(self.symbol(x)));
                assert(self.symbol(x) == name);
                self.lemma_symbol_injective(x, item);
                assert(later =~= processed);
                assert forall|y: TodoItem|
                    later.contains(y) && !self.is_foreign(y) implies #[trigger] self.item_done(
                    y,
                    start,
                    after,
                    done_after,
                ) by {
                    self.lemma_item_stays_done(y, start, before, done, after, done_after);
                }
                assert forall|other: DataId| #[trigger]
                    done_after.contains(other) implies self.done_by(later, after, other) by {
                    let y = choose|y: TodoItem| #[trigger]
                        processed.contains(y) && !self.is_foreign(y) && before.data[self.symbol(
                            y,
                        )].id == other;
                    assert(self.item_done(y, start, before, done));
                    before.lemma_unique_kept(after, self.symbol(y));
                    assert(later.contains(y));
                }
            } else {
                // The data object was defined by this step.
                assert(self.defines(item));
                self.lemma_allocation_wf(item);
                let targets = Self::memory_targets(alloc, alloc.relocations@.len() as int);
                if processed.contains(item) {
                    assert(self.item_done(item, start, before, done));
                    assert(false);
                }
                assert forall|x: TodoItem| #[trigger] todo_after.contains(x) implies self.ready(
                    x,
                ) && self.reaches(roots, x) by {
                    if targets.contains(x) {
                        let i = choose|i: int|
                            0 <= i < alloc.relocations@.len()
                                && #[trigger] alloc.relocations@[i].target == RelocTarget::Memory(
                                x->Alloc_0,
                            ) && x is Alloc;
                        assert(self.has_target(alloc.relocations@[i].target));
                        assert(alloc.points_at(RelocTarget::Memory(x->Alloc_0)));
                        assert(self.refers_to(item, x));
                        self.lemma_reaches_step(roots, item, x);
                    }
                }
                assert forall|x: TodoItem, y: TodoItem|
                    later.contains(x) && #[trigger] self.refers_to(x, y) implies todo_after.contains(
                    y,
                ) || later.contains(y) by {
                    if x == item {
                        self.lemma_refers_to_target(item, y);
                    }
                }
                assert(start.definitions.contains_key(id) ==> before.definitions.contains_key(id));
                assert forall|x: TodoItem|
                    later.contains(x) && !self.is_foreign(x) implies #[trigger] self.item_done(
                    x,
                    start,
                    after,
                    done_after,
                ) by {
                    if x == item && !processed.contains(item) {
                        assert(self.targets_accepted(alloc, after));
                    } else {
                        self.lemma_item_stays_done(x, start, before, done, after, done_after);
                    }
                }
                assert forall|other: DataId| #[trigger]
                    done_after.contains(other) implies self.done_by(later, after, other) by {
                    if other == id {
                        assert(later.contains(item));
                    } else {
                        let y = choose|y: TodoItem| #[trigger]
                            processed.contains(y) && !self.is_foreign(y)
                                && before.data[self.symbol(y)].id == other;
                        assert(self.item_done(y, start, before, done));
                        before.lemma_unique_kept(after, self.symbol(y));
                        assert(later.contains(y));
                    }
                }
            }
        }
    }
}

impl ConstStore {
    /// The module refuses, with `fault`, the symbol of a data object that
    /// `alloc` points at.
    pub open spec fn target_refused(
        &self,
        alloc: Allocation,
        view: ModuleView,
        fault: ModuleFault,
    ) -> bool {
        exists|i: int|
            0 <= i < alloc.relocations@.len() && (#[trigger] alloc.relocations@[i]).target.is_data()
                && view.refusal(self.target_symbol(alloc.relocations@[i].target)) == Some(fault)
    }

    /// The module refuses the item with `fault`: its symbol, the symbol of a
    /// data object that it points at, or, as a duplicate, its definition.
    pub open spec fn item_refused(
        &self,
        item: TodoItem,
        start: ModuleView,
        fault: ModuleFault,
    ) -> bool {
        let name = self.symbol(item);
        ||| start.refusal(name) == Some(fault)
        ||| self.target_refused(self.allocation(item), start, fault)
        ||| fault == ModuleFault::DuplicateDefinition && start.data.contains_key(name)
            && start.definitions.contains_key(start.data[name].id)
    }

    /// The module refuses, with `fault`, an item that `roots` reach and that
    /// is defined here.
    pub open spec fn refused_by(
        &self,
        roots: Set<TodoItem>,
        start: ModuleView,
        fault: ModuleFault,
    ) -> bool {
        exists|item: TodoItem|
            self.reaches(roots, item) && !self.is_foreign(item) && #[trigger] self.item_refused(
                item,
                start,
                fault,
            )
    }

    /// The module takes the item: it accepts the item's symbol and the symbols
    /// of the data objects that the item points at, and has no definition for
    /// the item yet.
    pub open spec fn item_accepted(&self, item: TodoItem, start: ModuleView) -> bool {
        let name = self.symbol(item);
        &&& start.takes_data(name)
        &&& self.targets_accepted(self.allocation(item), start)
        &&& !(start.data.contains_key(name) && start.definitions.contains_key(
            start.data[name].id,
        ))
    }

    /// The module takes every item that `roots` reach and that is defined here.
    pub open spec fn accepted_by(&self, roots: Set<TodoItem>, start: ModuleView) -> bool {
        forall|item: TodoItem|
            self.reaches(roots, item) && !self.is_foreign(item) ==> #[trigger] self.item_accepted(
                item,
                start,
            )
    }

    /// The items that `roots` reach.
    pub open spec fn reached(&self, roots: Set<TodoItem>) -> Set<TodoItem> {
        Set::new(|item: TodoItem| self.reaches(roots, item))
    }

    /// What a finished session leaves behind: every item that `roots` reach
    /// and that is defined here has its data object, these data objects and
    /// no others are done, the module has no definition besides theirs and
    /// those it had at the start, and no symbol of the store has a linkage
    /// that reaches farther, or is writable, without its item calling for it:
    /// what is only pointed at is declared as a pointer asks for, a static as
    /// an import.
    pub open spec fn finalized(
        &self,
        roots: Set<TodoItem>,
        start: ModuleView,
        after: ModuleView,
        done: Set<DataId>,
    ) -> bool {
        &&& start.extends_to(after)
        &&& self.raised_within(start, after, self.reached(roots))
        &&& forall|item: TodoItem|
            self.reaches(roots, item) && !self.is_foreign(item) ==> #[trigger] self.item_done(
                item,
                start,
                after,
                done,
            )
        &&& forall|id: DataId| #[trigger]
            done.contains(id) ==> self.done_by(self.reached(roots), after, id)
        &&& forall|id: DataId| #[trigger]
            after.definitions.contains_key(id) ==> start.definitions.contains_key(id)
                || done.contains(id)
    }

    /// How many items of the store are not among those with the given keys.
    pub open spec fn pending(&self, allocs: Set<u64>, statics: Set<u64>) -> int {
        self.allocs@.dom().len() - allocs.len() + self.statics@.dom().len() - statics.len()
    }

    /// A step that fails shows that the module does not take every item.
    pub proof fn lemma_step_refused(
        &self,
        roots: Set<TodoItem>,
        start: ModuleView,
        before: ModuleView,
        todo: Set<TodoItem>,
        done: Set<DataId>,
        processed: Set<TodoItem>,
        item: TodoItem,
        error: ConstantError,
        after: ModuleView,
        todo_after: Set<TodoItem>,
        done_after: Set<DataId>,
    )
        requires
            self.wf(),
            self.progress(roots, start, before, todo, done, processed),
            todo.contains(item),
            self.item_step(
                item,
                before,
                todo.remove(item),
                done,
                Err(error),
                after,
                todo_after,
                done_after,
            ),
        ensures
            !self.accepted_by(roots, start),
            start.extends_to(after),
            error matches ConstantError::Module(fault) && self.refused_by(roots, start, fault),
    {
        let name = self.symbol(item);
        let alloc = self.allocation(item);
        let fault = error->Module_0;
        start.lemma_extends_transitive(before, after);
        start.lemma_refusal_kept(before, name);
        assert(self.reaches(roots, item) && !self.is_foreign(item));
        if before.takes_data(name) {
            let id = after.data[name].id;
            if self.targets_accepted(alloc, before) {
                assert(before.definitions.contains_key(id));
                assert(start.definitions.contains_key(id));
                if !start.data.contains_key(name) {
                    assert(after.data.contains_key(name));
                    assert(start.is_fresh(id));
                }
                assert(self.item_refused(item, start, fault));
            } else {
                assert(!self.targets_accepted(alloc, start));
                let i = choose|i: int|
                    0 <= i < alloc.relocations@.len() && (
                    #[trigger] alloc.relocations@[i]).target.is_data() && before.refusal(
                        self.target_symbol(alloc.relocations@[i].target),
                    ) == Some(fault);
                start.lemma_refusal_kept(before, self.target_symbol(alloc.relocations@[i].target));
                assert(self.target_refused(alloc, start, fault));
                assert(self.item_refused(item, start, fault));
            }
        } else {
            assert(self.item_refused(item, start, fault));
        }
        assert(!self.item_accepted(item, start));
    }

    /// A session without pending work has given every item its data object.
    pub proof fn lemma_finished(
        &self,
        roots: Set<TodoItem>,
        start: ModuleView,
        now: ModuleView,
        done: Set<DataId>,
        processed: Set<TodoItem>,
    )
        requires
            self.wf(),
            self.progress(roots, start, now, Set::empty(), done, processed),
        ensures
            self.finalized(roots, start, now, done),
            self.accepted_by(roots, start),
    {
        self.lemma_raised_within_wider(start, now, processed, self.reached(roots));
        assert forall|item: TodoItem|
            self.reaches(roots, item) && !self.is_foreign(item) implies #[trigger] self.item_done(
            item,
            start,
            now,
            done,
        ) by {
            self.lemma_closed_set_covers(roots, processed, item);
        }
        assert forall|item: TodoItem|
            self.reaches(roots, item) && !self.is_foreign(item) implies #[trigger] self.item_accepted(
            item,
            start,
        ) by {
            assert(self.item_done(item, start, now, done));
            let name = self.symbol(item);
            if start.data.contains_key(name) {
                assert(now.data[name].id == start.data[name].id);
            }
            assert(self.targets_accepted(self.allocation(item), start));
        }
        assert forall|id: DataId| #[trigger] done.contains(id) implies self.done_by(
            self.reached(roots),
            now,
            id,
        ) by {
            let x = choose|x: TodoItem| #[trigger]
                processed.contains(x) && !self.is_foreign(x) && now.data[self.symbol(x)].id == id;
            assert(self.reached(roots).contains(x));
        }
    }
}

/// Asking for the same item again leaves the pending work as it is.
pub proof fn lemma_request_idempotent(todo: Set<TodoItem>, item: TodoItem)
    ensures
        todo.insert(item).insert(item) == todo.insert(item),
{
    assert(todo.insert(item).insert(item) =~= todo.insert(item));
}

impl ConstStore {
    /// What the roots reach is known to the store, with its value, if the
    /// roots are.
    pub proof fn lemma_reached_is_known(&self, roots: Set<TodoItem>, item: TodoItem)
        requires
            self.wf(),
            forall|root: TodoItem| roots.contains(root) ==> self.ready(root),
            self.reaches(roots, item),
        ensures
            self.ready(item),
    {
        let path = choose|path: Seq<TodoItem>| #[trigger]
            self.is_path(roots, path) && path.last() == item;
        self.lemma_path_is_known(roots, path, path.len() - 1);
    }

    proof fn lemma_path_is_known(&self, roots: Set<TodoItem>, path: Seq<TodoItem>, upto: int)
        requires
            self.wf(),
            forall|root: TodoItem| roots.contains(root) ==> self.ready(root),
            self.is_path(roots, path),
            0 <= upto < path.len(),
        ensures
            self.ready(path[upto]),
        decreases upto,
    {
        if upto > 0 {
            self.lemma_path_is_known(roots, path, upto - 1);
            let from = path[upto - 1];
            let to = path[upto];
            assert(self.refers_to(from, path[upto - 1 + 1]));
            self.lemma_allocation_wf(from);
            let alloc = self.allocation(from);
            let i = choose|i: int|
                0 <= i < alloc.relocations@.len() && (#[trigger] alloc.relocations@[i]).target
                    == RelocTarget::Memory(to->Alloc_0);
            assert(self.has_target(alloc.relocations@[i].target));
        }
    }

    /// Every pointer to a function is an address in the definition, with the
    /// pointer's offset and function.
    pub proof fn lemma_function_address(relocs: Seq<Relocation>, k: int)
        requires
            0 <= k < relocs.len(),
            relocs[k].target is Function,
        ensures
            exists|j: int|
                0 <= j < function_relocs(relocs).len()
                    && #[trigger] function_relocs(relocs)[j] == (
                    relocs[k].offset,
                    relocs[k].target->Function_0,
                ),
        decreases relocs.len(),
    {
        let all = function_relocs(relocs);
        let earlier = function_relocs(relocs.drop_last());
        if k == relocs.len() - 1 {
            assert(all[all.len() - 1] == (relocs[k].offset, relocs[k].target->Function_0));
        } else {
            assert(relocs.drop_last()[k] == relocs[k]);
            Self::lemma_function_address(relocs.drop_last(), k);
            let j = choose|j: int|
                0 <= j < earlier.len() && #[trigger] earlier[j] == (
                    relocs[k].offset,
                    relocs[k].target->Function_0,
                );
            assert(all[j] == earlier[j]);
        }
    }

    /// Every pointer to data is an address in the definition: at the pointer's
    /// offset, to the data object of what the pointer leads to, with the
    /// addend that the allocation's bytes hold at that offset.
    pub proof fn lemma_data_address(
        &self,
        alloc: Allocation,
        relocs: Seq<Relocation>,
        ids: Map<Seq<char>, DataDecl>,
        k: int,
    )
        requires
            0 <= k < relocs.len(),
            relocs[k].target.is_data(),
        ensures
            exists|j: int|
                0 <= j < self.data_relocs(alloc, relocs, ids).len() && #[trigger] self.data_relocs(
                    alloc,
                    relocs,
                    ids,
                )[j] == (
                    relocs[k].offset,
                    ids[self.target_symbol(relocs[k].target)].id,
                    alloc.addend_at(self.layout, relocs[k].offset) as i64,
                ),
        decreases relocs.len(),
    {
        let all = self.data_relocs(alloc, relocs, ids);
        let earlier = self.data_relocs(alloc, relocs.drop_last(), ids);
        let entry = (
            relocs[k].offset,
            ids[self.target_symbol(relocs[k].target)].id,
            alloc.addend_at(self.layout, relocs[k].offset) as i64,
        );
        if k == relocs.len() - 1 {
            assert(all[all.len() - 1] == entry);
        } else {
            assert(relocs.drop_last()[k] == relocs[k]);
            self.lemma_data_address(alloc, relocs.drop_last(), ids, k);
            let j = choose|j: int| 0 <= j < earlier.len() && #[trigger] earlier[j] == entry;
            assert(all[j] == earlier[j]);
        }
    }

    /// The addend of an address is the unsigned integer that the allocation
    /// holds at the pointer's offset, as long as that integer is below 2^63.
    pub proof fn lemma_addend_read_back(&self, alloc: Allocation, offset: u32)
        requires
            alloc.pointer_value(self.layout, offset) < 0x8000_0000_0000_0000,
        ensures
            alloc.addend_at(self.layout, offset) as i64 == alloc.pointer_value(self.layout, offset),
    {
        crate::bits::lemma_addend_of_small(alloc.pointer_value(self.layout, offset));
    }

    /// After a finished session, an allocation that was reached and that
    /// points at another allocation has, in its definition, the address of the
    /// other's data object, with the pointer's offset and addend. The other
    /// may be the allocation itself.
    pub proof fn lemma_relocation_roundtrip(
        &self,
        roots: Set<TodoItem>,
        start: ModuleView,
        after: ModuleView,
        done: Set<DataId>,
        from: AllocId,
        k: int,
        to: AllocId,
    )
        requires
            self.finalized(roots, start, after, done),
            self.reaches(roots, TodoItem::Alloc(from)),
            0 <= k < self.memory(from).relocations@.len(),
            self.memory(from).relocations@[k].target == RelocTarget::Memory(to),
        ensures
            after.data.contains_key(alloc_symbol(from)),
            after.data.contains_key(alloc_symbol(to)),
            after.definitions.contains_key(after.data[alloc_symbol(from)].id),
            exists|j: int|
                0 <= j < after.definitions[after.data[alloc_symbol(from)].id].data_relocs.len()
                    && #[trigger] after.definitions[after.data[alloc_symbol(
                    from,
                )].id].data_relocs[j] == (
                    self.memory(from).relocations@[k].offset,
                    after.data[alloc_symbol(to)].id,
                    self.memory(from).addend_at(
                        self.layout,
                        self.memory(from).relocations@[k].offset,
                    ) as i64,
                ),
    {
        let item = TodoItem::Alloc(from);
        let alloc = self.memory(from);
        assert(self.item_done(item, start, after, done));
        assert(alloc.relocations@[k].target.is_data());
        assert(after.has_unique(self.target_symbol(alloc.relocations@[k].target)));
        self.lemma_data_address(alloc, alloc.relocations@, after.data, k);
        let all = self.data_relocs(alloc, alloc.relocations@, after.data);
        let entry = (
            alloc.relocations@[k].offset,
            after.data[alloc_symbol(to)].id,
            alloc.addend_at(self.layout, alloc.relocations@[k].offset) as i64,
        );
        let j = choose|j: int| 0 <= j < all.len() && #[trigger] all[j] == entry;
        let image = after.definitions[after.data[alloc_symbol(from)].id];
        assert(image.data_relocs == all);
        assert(image.data_relocs[j] == entry);
    }

    /// After a finished session, the bytes of the data object of every item
    /// that was reached, is defined here and has bytes are a multiple of 16
    /// long: the item's bytes, and filler behind them. The bytes start at a
    /// multiple of the item's alignment.
    pub proof fn lemma_defined_objects_padded(
        &self,
        roots: Set<TodoItem>,
        start: ModuleView,
        after: ModuleView,
        done: Set<DataId>,
        item: TodoItem,
    )
        requires
            self.finalized(roots, start, after, done),
            self.reaches(roots, item),
            !self.is_foreign(item),
            self.allocation(item).bytes@.len() > 0,
        ensures
            after.definitions.contains_key(after.data[self.symbol(item)].id),
            after.definitions[after.data[self.symbol(item)].id].bytes == padded(
                self.allocation(item).bytes@,
            ),
            after.definitions[after.data[self.symbol(item)].id].bytes.len() % 16 == 0,
            after.definitions[after.data[self.symbol(item)].id].offset % (self.align(
                item,
            ) as nat) == 0,
    {
        assert(self.item_done(item, start, after, done));
        lemma_padded(self.allocation(item).bytes@);
    }

    /// After a finished session, no two items share a data object: each data
    /// object was defined once, for one item.
    pub proof fn lemma_one_item_per_data_object(
        &self,
        roots: Set<TodoItem>,
        start: ModuleView,
        after: ModuleView,
        done: Set<DataId>,
        a: TodoItem,
        b: TodoItem,
    )
        requires
            self.wf(),
            forall|root: TodoItem| roots.contains(root) ==> self.ready(root),
            self.finalized(roots, start, after, done),
            self.reaches(roots, a) && !self.is_foreign(a),
            self.reaches(roots, b) && !self.is_foreign(b),
            after.data[self.symbol(a)].id == after.data[self.symbol(b)].id,
        ensures
            a == b,
    {
        assert(self.item_done(a, start, after, done));
        assert(self.item_done(b, start, after, done));
        self.lemma_reached_is_known(roots, a);
        self.lemma_reached_is_known(roots, b);
        self.lemma_symbol_injective(a, b);
    }

    /// After a finished session, an item that was reached and that is defined
    /// here is declared with the linkage and the writability that it is defined
    /// with: local and read-only for an allocation; for a static, exported if it
    /// is reachable from outside and local if not, and writable if it is `mut`
    /// or not provably immutable. Where the module had the symbol declared at
    /// the start, the linkage is the one that reaches farther, and what could
    /// be written to still can.
    pub proof fn lemma_linkage_of_defined_item(
        &self,
        roots: Set<TodoItem>,
        start: ModuleView,
        after: ModuleView,
        done: Set<DataId>,
        item: TodoItem,
    )
        requires
            self.wf(),
            forall|root: TodoItem| roots.contains(root) ==> self.ready(root),
            self.finalized(roots, start, after, done),
            self.reaches(roots, item),
            !self.is_foreign(item),
        ensures
            after.data.contains_key(self.symbol(item)),
            after.data[self.symbol(item)].linkage == if start.data.contains_key(
                self.symbol(item),
            ) {
                crate::module::merged_linkage(
                    start.data[self.symbol(item)].linkage,
                    self.linkage(item),
                )
            } else {
                self.linkage(item)
            },
            after.data[self.symbol(item)].writable == (start.writable_at(self.symbol(item))
                || self.writable(item)),
    {
        let name = self.symbol(item);
        self.lemma_reached_is_known(roots, item);
        assert(self.item_done(item, start, after, done));
        assert(after.data.contains_key(name));
        if start.data.contains_key(name) {
            lemma_merged_linkage(start.data[name].linkage, self.linkage(item));
            lemma_linkage_rank_injective(
                after.data[name].linkage,
                crate::module::merged_linkage(start.data[name].linkage, self.linkage(item)),
            );
        } else {
            lemma_linkage_rank_injective(after.data[name].linkage, self.linkage(item));
        }
    }

    /// After a finished session, a static that the session did not define, be
    /// it foreign or only pointed at, is declared as an import, if it is
    /// declared: its linkage is the one that the module had for it at the
    /// start, merged with `Import`, which leaves it as it was.
    pub proof fn lemma_pointed_at_static_is_imported(
        &self,
        roots: Set<TodoItem>,
        start: ModuleView,
        after: ModuleView,
        done: Set<DataId>,
        def: DefId,
    )
        requires
            self.finalized(roots, start, after, done),
            self.has_static(def),
            !self.reaches(roots, TodoItem::Static(def)) || self.static_info(def).foreign,
            after.data.contains_key(self.static_symbol(def)),
        ensures
            after.data[self.static_symbol(def)].linkage == if start.data.contains_key(
                self.static_symbol(def),
            ) {
                crate::module::merged_linkage(
                    start.data[self.static_symbol(def)].linkage,
                    Linkage::Import,
                )
            } else {
                Linkage::Import
            },
            after.data[self.static_symbol(def)].writable ==> start.writable_at(
                self.static_symbol(def),
            ) || self.static_writable(def),
    {
        let item = TodoItem::Static(def);
        let name = self.static_symbol(def);
        assert(self.contains(item) && after.data.contains_key(self.symbol(item)));
        assert(self.linkage_bound(item, self.reached(roots)) == Linkage::Import);
        if start.data.contains_key(name) {
            lemma_merged_linkage(start.data[name].linkage, Linkage::Import);
            lemma_linkage_rank_injective(
                after.data[name].linkage,
                crate::module::merged_linkage(start.data[name].linkage, Linkage::Import),
            );
        } else {
            lemma_linkage_rank_injective(after.data[name].linkage, Linkage::Import);
        }
    }

    /// A finished session gives no definition to a foreign static: if the
    /// module has one for it, the module had it at the start.
    pub proof fn lemma_foreign_static_not_defined(
        &self,
        roots: Set<TodoItem>,
        start: ModuleView,
        after: ModuleView,
        done: Set<DataId>,
        def: DefId,
    )
        requires
            self.wf(),
            forall|root: TodoItem| roots.contains(root) ==> self.ready(root),
            self.finalized(roots, start, after, done),
            self.has_static(def),
            self.static_info(def).foreign,
            after.data.contains_key(self.static_symbol(def)),
        ensures
            !done.contains(after.data[self.static_symbol(def)].id),
            after.definitions.contains_key(after.data[self.static_symbol(def)].id)
                ==> start.definitions.contains_key(after.data[self.static_symbol(def)].id),
    {
        let id = after.data[self.static_symbol(def)].id;
        if done.contains(id) {
            let item = choose|item: TodoItem| #[trigger]
                self.reached(roots).contains(item) && !self.is_foreign(item)
                    && after.data[self.symbol(item)].id == id;
            assert(self.reaches(roots, item));
            assert(self.item_done(item, start, after, done));
            self.lemma_reached_is_known(roots, item);
            self.lemma_symbol_injective(item, TodoItem::Static(def));
        }
    }

    /// A static that can be overridden must be a raw pointer: declaring one
    /// that is not is refused, and declaring one that is leaves it defined.
    pub proof fn lemma_weak_static_guard(
        &self,
        def: DefId,
        before: ModuleView,
        result: Result<DataId, ConstantError>,
        after: ModuleView,
    )
        requires
            before.takes_data(self.static_symbol(def)),
            self.static_declared(def, Linkage::Preemptible, before, result, after),
        ensures
            result == Err::<DataId, ConstantError>(ConstantError::WeakStaticNotPointer(def))
                <==> !self.static_info(def).raw_pointer,
            self.static_info(def).raw_pointer ==> {
                &&& result is Ok
                &&& after.definitions.contains_key(result->Ok_0)
                &&& !before.definitions.contains_key(result->Ok_0)
                    ==> self.is_null_pointer_image(def, after.definitions[result->Ok_0])
            },
    {
    }

    /// Declaring the same raw-pointer static as overridable a second time
    /// gives the same data object and changes no definition: the duplicate of
    /// its null pointer definition is dropped.
    pub proof fn lemma_weak_static_declared_twice(
        &self,
        def: DefId,
        before: ModuleView,
        first: DataId,
        between: ModuleView,
        second: Result<DataId, ConstantError>,
        after: ModuleView,
    )
        requires
            self.static_info(def).raw_pointer,
            self.static_declared(def, Linkage::Preemptible, before, Ok(first), between),
            self.static_declared(def, Linkage::Preemptible, between, second, after),
        ensures
            second == Ok::<DataId, ConstantError>(first),
            after.definitions == between.definitions,
            after.definitions.contains_key(first),
    {
        self.lemma_static_declared(def, Linkage::Preemptible, before, first, between);
        let name = self.static_symbol(def);
        before.lemma_takes_data_kept(between, name);
        assert(between.takes_data(name));
        assert(between.data.contains_key(name));
        assert(after.data.contains_key(name));
        assert(after.definitions =~= between.definitions);
    }
}

} // verus!
