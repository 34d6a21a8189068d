//! Filling a store, one item at a time, with all that the pending work leads to.
//!
//! The loader names an item that it needs; its user provides it; and so on,
//! until the loader needs nothing more. The items that were asked for from
//! the start come with their values; a static that is only pointed at need
//! not be evaluated, since all that is read of it is its symbol and whether
//! it can be written to.

use crate::ident::{AllocId, DefId};
use crate::memory::{
    Allocation, ConstStore, ConstValue, RelocTarget, StaticInfo, TargetDataLayout, TodoItem,
};
use crate::module::is_alignment;
use crate::symbol::{alloc_prefix, alloc_symbol};
use std::collections::HashMap;
use vstd::prelude::*;
use vstd::string::StrSliceExecFns;

verus! {

broadcast use vstd::std_specs::hash::group_hash_axioms;

/// A store that is being filled, and the items that it is still to be given.
pub struct Loader {
    store: ConstStore,
    wanted: Vec<TodoItem>,
    /// The symbols of the statics in the store.
    names: Vec<String>,
    /// The items that the store is to hold from the start.
    root_items: Vec<TodoItem>,
}

/// The name starts like the symbol of an allocation.
pub open spec fn is_alloc_like(name: Seq<char>) -> bool {
    name.len() >= 8 && name.take(8) == alloc_prefix()
}

/// The symbol of an allocation starts like one.
pub proof fn lemma_alloc_symbol_is_alloc_like(id: AllocId)
    ensures
        is_alloc_like(alloc_symbol(id)),
{
    assert(alloc_symbol(id).take(8) =~= alloc_prefix());
}

/// Whether the name starts like the symbol of an allocation.
fn starts_like_alloc(name: &str) -> (result: bool)
    ensures
        result == is_alloc_like(name@),
{
    let prefix = "__alloc_";
    proof {
        reveal_strlit("__alloc_");
        assert(prefix@ =~= alloc_prefix());
    }
    if name.unicode_len() < 8 {
        return false;
    }
    let mut i: usize = 0;
    while i < 8
        invariant
            i <= 8,
            name@.len() >= 8,
            prefix@ == alloc_prefix(),
            forall|j: int| 0 <= j < i ==> name@[j] == alloc_prefix()[j],
        decreases 8 - i,
    {
        if name.get_char(i) != prefix.get_char(i) {
            assert(name@.take(8)[i as int] != alloc_prefix()[i as int]);
            return false;
        }
        i = i + 1;
    }
    assert(name@.take(8) =~= alloc_prefix());
    true
}

/// Whether the item is among `items`.
fn is_among(items: &Vec<TodoItem>, item: TodoItem) -> (found: bool)
    ensures
        found == items@.to_set().contains(item),
{
    let mut i: usize = 0;
    while i < items.len()
        invariant
            i <= items@.len(),
            forall|j: int| 0 <= j < i ==> items@[j] != item,
        decreases items@.len() - i,
    {
        if items[i] == item {
            assert(items@.to_set().contains(item));
            return true;
        }
        i = i + 1;
    }
    false
}

impl StaticInfo {
    /// The static has its value: it is foreign, or it was evaluated to a
    /// place in an allocation.
    pub open spec fn evaluated(self) -> bool {
        self.foreign || self.value is ByRef
    }

    /// A static that is defined here and was evaluated was evaluated to the
    /// start of an allocation, and its alignment is a power of two.
    pub open spec fn wf(self) -> bool {
        !self.foreign && self.value is ByRef ==> {
            &&& self.value->offset == 0
            &&& is_alignment(self.align)
        }
    }
}

impl Loader {
    /// The store as it is filled so far.
    pub closed spec fn store(&self) -> ConstStore {
        self.store
    }

    /// The items that the store was asked to hold from the start.
    pub closed spec fn roots(&self) -> Set<TodoItem> {
        self.root_items@.to_set()
    }

    /// The items that the loader may still ask for.
    pub closed spec fn wanted(&self) -> Set<TodoItem> {
        self.wanted@.to_set()
    }

    /// The name is the symbol of a static in the store.
    pub closed spec fn listed(&self, name: Seq<char>) -> bool {
        exists|i: int| 0 <= i < self.names@.len() && (#[trigger] self.names@[i])@ == name
    }

    /// The store knows the item, or the loader will ask for it.
    pub open spec fn known_or_wanted(&self, item: TodoItem) -> bool {
        self.store().contains(item) || self.wanted().contains(item)
    }

    /// The allocation is well formed, and what it points at is in the store
    /// or will be asked for.
    pub open spec fn alloc_covered(&self, alloc: Allocation) -> bool {
        &&& alloc.wf(self.store().layout)
        &&& forall|i: int|
            0 <= i < alloc.relocations@.len() && (#[trigger] alloc.relocations@[i]).target.is_data()
                ==> self.known_or_wanted(ConstStore::target_item(alloc.relocations@[i].target))
    }

    /// The static is well formed, its symbol is listed and is not like that of
    /// an allocation, its allocation is in the store or will be asked for, and
    /// it has its value if it was asked for from the start.
    pub open spec fn static_covered(&self, def: DefId, info: StaticInfo) -> bool {
        &&& info.wf()
        &&& self.listed(info.symbol_name@)
        &&& !is_alloc_like(info.symbol_name@)
        &&& !info.foreign && info.value is ByRef ==> self.known_or_wanted(
            TodoItem::Alloc(info.value->alloc),
        )
        &&& self.roots().contains(TodoItem::Static(def)) ==> info.evaluated()
    }

    /// Whatever the roots lead to, as far as the store is filled, is in the
    /// store or will be asked for, and no two items of the store share a symbol.
    pub open spec fn wf(&self) -> bool {
        let store = self.store();
        &&& store.layout.wf()
        &&& store.distinct_symbols()
        &&& forall|root: TodoItem| self.roots().contains(root) ==> self.known_or_wanted(root)
        &&& forall|id: AllocId| #[trigger]
            store.has_alloc(id) ==> self.alloc_covered(store.memory(id))
        &&& forall|def: DefId| #[trigger]
            store.has_static(def) ==> self.static_covered(def, store.static_info(def))
    }

    /// A loader that knows or asks for no less covers what was covered.
    proof fn lemma_still_covered(before: Loader, after: Loader)
        requires
            after.store().layout == before.store().layout,
            after.roots() == before.roots(),
            forall|x: TodoItem| before.known_or_wanted(x) ==> after.known_or_wanted(x),
            forall|name: Seq<char>| before.listed(name) ==> after.listed(name),
        ensures
            forall|alloc: Allocation| #[trigger]
                before.alloc_covered(alloc) ==> after.alloc_covered(alloc),
            forall|def: DefId, info: StaticInfo| #[trigger]
                before.static_covered(def, info) ==> after.static_covered(def, info),
    {
        assert forall|alloc: Allocation| #[trigger] before.alloc_covered(alloc) implies after.alloc_covered(
            alloc,
        ) by {
            assert forall|i: int|
                0 <= i < alloc.relocations@.len() && (#[trigger] alloc.relocations@[i]).target.is_data()
                    implies after.known_or_wanted(
                ConstStore::target_item(alloc.relocations@[i].target),
            ) by {
                assert(before.known_or_wanted(
                    ConstStore::target_item(alloc.relocations@[i].target),
                ));
            }
        }
    }

    /// A loader with the same store that asks for no less is well formed too.
    proof fn lemma_asks_for_more(before: Loader, after: Loader)
        requires
            before.wf(),
            after.store() == before.store(),
            after.roots() == before.roots(),
            after.names == before.names,
            forall|x: TodoItem| before.known_or_wanted(x) ==> after.known_or_wanted(x),
        ensures
            after.wf(),
    {
        assert forall|name: Seq<char>| before.listed(name) implies after.listed(name) by {
            let i = choose|i: int|
                0 <= i < before.names@.len() && (#[trigger] before.names@[i])@ == name;
            assert(after.names@[i]@ == name);
        }
        Self::lemma_still_covered(before, after);
        let store = after.store();
        assert forall|id: AllocId| #[trigger] store.has_alloc(id) implies after.alloc_covered(
            store.memory(id),
        ) by {
            assert(before.alloc_covered(store.memory(id)));
        }
        assert forall|def: DefId| #[trigger] store.has_static(def) implies after.static_covered(
            def,
            store.static_info(def),
        ) by {
            assert(before.static_covered(def, store.static_info(def)));
        }
        assert forall|root: TodoItem| after.roots().contains(root) implies after.known_or_wanted(
            root,
        ) by {
            assert(before.known_or_wanted(root));
        }
    }

    /// A loader for an empty store that is to hold `roots` and all that they lead to.
    pub fn new(layout: TargetDataLayout, roots: Vec<TodoItem>) -> (loader: Loader)
        requires
            layout.wf(),
        ensures
            loader.wf(),
            loader.roots() == roots@.to_set(),
            loader.wanted() == roots@.to_set(),
            loader.store().layout == layout,
            forall|item: TodoItem| !loader.store().contains(item),
    {
        let mut wanted: Vec<TodoItem> = Vec::new();
        let mut i: usize = 0;
        while i < roots.len()
            invariant
                i <= roots@.len(),
                wanted@ == roots@.take(i as int),
            decreases roots@.len() - i,
        {
            wanted.push(roots[i]);
            i = i + 1;
            assert(wanted@ =~= roots@.take(i as int));
        }
        assert(roots@.take(roots@.len() as int) =~= roots@);
        Loader {
            store: ConstStore {
                layout,
                allocs: HashMap::new(),
                statics: HashMap::new(),
                consts: HashMap::new(),
                promoted: HashMap::new(),
            },
            wanted,
            names: Vec::new(),
            root_items: roots,
        }
    }

    /// Whether the item was asked for from the start.
    pub fn is_root(&self, item: TodoItem) -> (root: bool)
        ensures
            root == self.roots().contains(item),
    {
        is_among(&self.root_items, item)
    }

    /// Whether the store knows the item.
    fn knows(&self, item: TodoItem) -> (known: bool)
        ensures
            known == self.store().contains(item),
    {
        match item {
            TodoItem::Alloc(id) => self.store.allocs.contains_key(&id.0),
            TodoItem::Static(def) => {
                let key = def.key();
                self.store.statics.contains_key(&key)
            },
        }
    }

    /// An item that the store needs and does not know, if there is one.
    pub fn next_wanted(&mut self) -> (next: Option<TodoItem>)
        requires
            old(self).wf(),
        ensures
            final(self).wf(),
            final(self).store() == old(self).store(),
            final(self).roots() == old(self).roots(),
            forall|name: Seq<char>| final(self).listed(name) == old(self).listed(name),
            match next {
                Some(item) => !final(self).store().contains(item) && final(self).wanted().contains(
                    item,
                ),
                None => final(self).wanted() == Set::<TodoItem>::empty(),
            },
    {
        while self.wanted.len() > 0
            invariant
                self.wf(),
                self.store == old(self).store,
                self.root_items == old(self).root_items,
                self.names == old(self).names,
            decreases self.wanted@.len(),
        {
            let item = self.wanted[self.wanted.len() - 1];
            if !self.knows(item) {
                assert(self.wanted@.to_set().contains(item));
                return Some(item);
            }
            let ghost before = *self;
            self.wanted.pop();
            proof {
                assert forall|x: TodoItem| before.known_or_wanted(x) implies self.known_or_wanted(
                    x,
                ) by {
                    if before.wanted().contains(x) && x != item {
                        let i = choose|i: int|
                            0 <= i < before.wanted@.len() && before.wanted@[i] == x;
                        assert(self.wanted@[i] == x);
                    }
                }
                Self::lemma_asks_for_more(before, *self);
            }
        }
        assert(self.wanted@.to_set() =~= Set::<TodoItem>::empty());
        None
    }

    /// Asks for an item, unless the store knows it.
    fn want(&mut self, item: TodoItem)
        requires
            old(self).wf(),
        ensures
            final(self).wf(),
            final(self).store == old(self).store,
            final(self).root_items == old(self).root_items,
            final(self).names == old(self).names,
            final(self).known_or_wanted(item),
            forall|x: TodoItem| old(self).known_or_wanted(x) ==> final(self).known_or_wanted(x),
    {
        if !self.knows(item) {
            let ghost before = *self;
            self.wanted.push(item);
            proof {
                assert(self.wanted@[before.wanted@.len() as int] == item);
                assert forall|x: TodoItem| before.known_or_wanted(x) implies self.known_or_wanted(
                    x,
                ) by {
                    if before.wanted().contains(x) {
                        let i = choose|i: int|
                            0 <= i < before.wanted@.len() && before.wanted@[i] == x;
                        assert(self.wanted@[i] == x);
                    }
                }
                Self::lemma_asks_for_more(before, *self);
            }
        }
    }

    /// Gives the store an allocation that it does not know. What the
    /// allocation points at will be asked for.
    #[verifier::rlimit(50)]
    pub fn provide_alloc(&mut self, id: AllocId, alloc: Allocation)
        requires
            old(self).wf(),
            !old(self).store().has_alloc(id),
            alloc.wf(old(self).store().layout),
        ensures
            final(self).wf(),
            final(self).roots() == old(self).roots(),
            final(self).store().has_alloc(id),
            final(self).store().memory(id) == alloc,
            final(self).store().layout == old(self).store().layout,
            final(self).store().statics == old(self).store().statics,
            forall|name: Seq<char>| final(self).listed(name) == old(self).listed(name),
            forall|other: AllocId|
                other != id ==> final(self).store().has_alloc(other) == old(self).store().has_alloc(
                    other,
                ) && final(self).store().memory(other) == old(self).store().memory(other),
    {
        let mut i: usize = 0;
        while i < alloc.relocations.len()
            invariant
                i <= alloc.relocations@.len(),
                self.wf(),
                self.store == old(self).store,
                self.root_items == old(self).root_items,
                self.names == old(self).names,
                forall|j: int|
                    0 <= j < i && (#[trigger] alloc.relocations@[j]).target.is_data()
                        ==> self.known_or_wanted(
                        ConstStore::target_item(alloc.relocations@[j].target),
                    ),
            decreases alloc.relocations@.len() - i,
        {
            match alloc.relocations[i].target {
                RelocTarget::Function(_) => {},
                RelocTarget::Memory(target) => {
                    self.want(TodoItem::Alloc(target));
                },
                RelocTarget::Static(def) => {
                    self.want(TodoItem::Static(def));
                },
            }
            i = i + 1;
        }
        let ghost before = *self;
        self.store.allocs.insert(id.0, alloc);
        proof {
            let store = self.store();
            let earlier = before.store();
            assert(before.alloc_covered(alloc));
            assert forall|name: Seq<char>| before.listed(name) implies self.listed(name) by {
                let i = choose|i: int|
                    0 <= i < before.names@.len() && (#[trigger] before.names@[i])@ == name;
                assert(self.names@[i]@ == name);
            }
            assert forall|name: Seq<char>| self.listed(name) implies before.listed(name) by {
                let i = choose|i: int|
                    0 <= i < self.names@.len() && (#[trigger] self.names@[i])@ == name;
                assert(before.names@[i]@ == name);
            }
            Self::lemma_still_covered(before, *self);
            assert forall|other: AllocId| #[trigger] store.has_alloc(other) implies self.alloc_covered(
                store.memory(other),
            ) by {
                if other != id {
                    assert(earlier.has_alloc(other));
                    assert(before.alloc_covered(earlier.memory(other)));
                }
            }
            assert forall|def: DefId| #[trigger] store.has_static(def) implies self.static_covered(
                def,
                store.static_info(def),
            ) by {
                assert(earlier.has_static(def));
                assert(before.static_covered(def, earlier.static_info(def)));
            }
            assert forall|root: TodoItem| self.roots().contains(root) implies self.known_or_wanted(
                root,
            ) by {
                assert(before.known_or_wanted(root));
            }
            assert(store.distinct_symbols()) by {
                assert forall|def: DefId, other: AllocId|
                    store.has_static(def) && store.has_alloc(other) implies #[trigger] store.static_symbol(
                    def,
                ) != #[trigger] alloc_symbol(other) by {
                    lemma_alloc_symbol_is_alloc_like(other);
                    assert(earlier.has_static(def));
                    assert(before.static_covered(def, earlier.static_info(def)));
                }
                assert forall|a: DefId, b: DefId|
                    store.has_static(a) && store.has_static(b) && #[trigger] store.static_symbol(a)
                        == #[trigger] store.static_symbol(b) implies a == b by {
                    assert(earlier.has_static(a) && earlier.has_static(b));
                    assert(earlier.static_symbol(a) == earlier.static_symbol(b));
                }
            }
        }
    }

    /// Gives the store a static that it does not know, unless its symbol is
    /// taken: by another static in the store, or by the allocations, whose
    /// symbols start with `__alloc_`. Two statics with one symbol would share
    /// one data object; a store with such statics is not one that a session
    /// can be finalized on, so the second is refused here. A static that was asked for from the
    /// start must come with its value. The allocation that holds the bytes of
    /// a static that is defined here and was evaluated will be asked for.
    #[verifier::rlimit(50)]
    pub fn provide_static(&mut self, def: DefId, info: StaticInfo) -> (accepted: bool)
        requires
            old(self).wf(),
            !old(self).store().has_static(def),
            info.wf(),
            old(self).roots().contains(TodoItem::Static(def)) ==> info.evaluated(),
        ensures
            final(self).wf(),
            final(self).roots() == old(self).roots(),
            accepted == (!old(self).listed(info.symbol_name@) && !is_alloc_like(
                info.symbol_name@,
            )),
            !accepted ==> final(self).store() == old(self).store(),
            accepted ==> {
                &&& final(self).store().has_static(def)
                &&& final(self).store().static_info(def) == info
                &&& final(self).store().layout == old(self).store().layout
                &&& final(self).store().allocs == old(self).store().allocs
                &&& forall|other: DefId|
                    other != def ==> final(self).store().has_static(other) == old(
                        self,
                    ).store().has_static(other) && final(self).store().static_info(other) == old(
                        self,
                    ).store().static_info(other)
            },
    {
        if starts_like_alloc(info.symbol_name.as_str()) {
            return false;
        }
        let mut i: usize = 0;
        while i < self.names.len()
            invariant
                i <= self.names@.len(),
                *self == *old(self),
                self.wf(),
                forall|j: int| 0 <= j < i ==> (#[trigger] self.names@[j])@ != info.symbol_name@,
            decreases self.names@.len() - i,
        {
            if self.names[i] == info.symbol_name {
                assert(self.listed(info.symbol_name@));
                return false;
            }
            i = i + 1;
        }
        assert(!self.listed(info.symbol_name@));
        if !info.foreign {
            match info.value {
                ConstValue::ByRef { alloc, offset } => {
                    self.want(TodoItem::Alloc(alloc));
                },
                _ => {},
            }
        }
        let ghost before = *self;
        self.names.push(info.symbol_name.clone());
        let key = def.key();
        self.store.statics.insert(key, info);
        proof {
            let store = self.store();
            let earlier = before.store();
            assert(self.names@.last()@ == info.symbol_name@);
            assert forall|name: Seq<char>| before.listed(name) implies self.listed(name) by {
                let i = choose|i: int|
                    0 <= i < before.names@.len() && (#[trigger] before.names@[i])@ == name;
                assert(self.names@[i] == before.names@[i]);
            }
            assert(self.listed(info.symbol_name@)) by {
                assert(self.names@[self.names@.len() - 1]@ == info.symbol_name@);
            }
            assert forall|other: DefId| other != def implies store.has_static(other)
                == earlier.has_static(other) && store.static_info(other) == earlier.static_info(
                other,
            ) by {
                if other.spec_key() == def.spec_key() {
                    DefId::lemma_key_injective(other, def);
                }
            }
            assert forall|x: TodoItem| before.known_or_wanted(x) implies self.known_or_wanted(
                x,
            ) by {
                if let TodoItem::Static(other) = x {
                    if other.spec_key() == def.spec_key() {
                        DefId::lemma_key_injective(other, def);
                    }
                }
            }
            Self::lemma_still_covered(before, *self);
            assert forall|other: DefId| #[trigger] store.has_static(other) implies self.static_covered(
                other,
                store.static_info(other),
            ) by {
                if other.spec_key() == def.spec_key() {
                    DefId::lemma_key_injective(other, def);
                    assert(store.static_info(other) == info);
                } else {
                    assert(earlier.has_static(other));
                    assert(before.static_covered(other, earlier.static_info(other)));
                }
            }
            assert forall|other: AllocId| #[trigger] store.has_alloc(other) implies self.alloc_covered(
                store.memory(other),
            ) by {
                assert(earlier.has_alloc(other));
                assert(before.alloc_covered(earlier.memory(other)));
            }
            assert forall|root: TodoItem| self.roots().contains(root) implies self.known_or_wanted(
                root,
            ) by {
                assert(before.known_or_wanted(root));
            }
            assert(store.distinct_symbols()) by {
                assert forall|a: DefId, b: DefId|
                    store.has_static(a) && store.has_static(b) && #[trigger] store.static_symbol(a)
                        == #[trigger] store.static_symbol(b) implies a == b by {
                    if a.spec_key() == def.spec_key() {
                        DefId::lemma_key_injective(a, def);
                    }
                    if b.spec_key() == def.spec_key() {
                        DefId::lemma_key_injective(b, def);
                    }
                    if a != def && b != def {
                        assert(earlier.has_static(a) && earlier.has_static(b));
                        assert(earlier.static_symbol(a) == earlier.static_symbol(b));
                    } else if a != def {
                        assert(earlier.has_static(a));
                        assert(before.static_covered(a, earlier.static_info(a)));
                    } else if b != def {
                        assert(earlier.has_static(b));
                        assert(before.static_covered(b, earlier.static_info(b)));
                    }
                }
                assert forall|d: DefId, other: AllocId|
                    store.has_static(d) && store.has_alloc(other) implies #[trigger] store.static_symbol(
                    d,
                ) != #[trigger] alloc_symbol(other) by {
                    lemma_alloc_symbol_is_alloc_like(other);
                    assert(self.static_covered(d, store.static_info(d)));
                }
            }
        }
        true
    }

    /// The store, once the loader asks for nothing more: it holds the roots,
    /// with their values, and all that they lead to.
    pub fn finish(self) -> (store: ConstStore)
        requires
            self.wf(),
            self.wanted() == Set::<TodoItem>::empty(),
        ensures
            store == self.store(),
            store.wf(),
            forall|root: TodoItem| self.roots().contains(root) ==> store.ready(root),
    {
        proof {
            let store = self.store;
            assert forall|id: AllocId| #[trigger] store.has_alloc(id) implies store.memory(id).wf(
                store.layout,
            ) && store.alloc_closed(store.memory(id)) by {
                assert(self.alloc_covered(store.memory(id)));
                assert forall|i: int| 0 <= i < store.memory(id).relocations@.len() implies store.has_target(
                    (#[trigger] store.memory(id).relocations@[i]).target,
                ) by {
                    let target = store.memory(id).relocations@[i].target;
                    if target.is_data() {
                        assert(self.known_or_wanted(ConstStore::target_item(target)));
                    }
                }
            }
            assert forall|def: DefId| #[trigger] store.has_static(def) implies store.static_wf(
                def,
            ) by {
                assert(self.static_covered(def, store.static_info(def)));
                let info = store.static_info(def);
                if !info.foreign && info.value is ByRef {
                    assert(self.known_or_wanted(TodoItem::Alloc(info.value->alloc)));
                }
            }
            assert forall|root: TodoItem| self.roots().contains(root) implies store.ready(
                root,
            ) by {
                assert(self.known_or_wanted(root));
                if let TodoItem::Static(def) = root {
                    assert(self.static_covered(def, store.static_info(def)));
                }
            }
        }
        self.store
    }
}

} // verus!
