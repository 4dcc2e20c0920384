//! Swapping the materials of a scene for others, by name.
//!
//! A main material is registered under a name. Every material that a gltf
//! file brings under that name is to be swapped for the main material.
//! Materials that arrive before their main material wait for it.

use crate::name_table::{
    handle_entries, handle_list_entries, handle_table_contains, handle_table_get,
    handle_table_insert, handle_table_new, list_table_get, list_table_get_mut, list_table_insert,
    list_table_keys, list_table_new, list_table_remove, names_of, HandleListTable, HandleTable,
};
use vstd::prelude::*;

verus! {

/// What the material registry holds.
pub struct OverridesModel {
    /// By name, the materials that are swapped for the main material of
    /// that name.
    pub swap_materials: Map<Seq<char>, Seq<u64>>,
    /// By name, the main material.
    pub main_materials: Map<Seq<char>, u64>,
    /// By name, the materials that wait for a main material.
    pub unprocessed_materials: Map<Seq<char>, Seq<u64>>,
}

/// The lists `lists` with `handle` added at the end of the list of `name`.
pub open spec fn appended(lists: Map<Seq<char>, Seq<u64>>, name: Seq<char>, handle: u64) -> Map<
    Seq<char>,
    Seq<u64>,
> {
    if lists.dom().contains(name) {
        lists.insert(name, lists[name].push(handle))
    } else {
        lists.insert(name, seq![handle])
    }
}

/// The lists `lists` with each of `handles` added at the end of the list
/// of `name`, one after the other.
pub open spec fn extended(lists: Map<Seq<char>, Seq<u64>>, name: Seq<char>, handles: Seq<u64>) -> Map<
    Seq<char>,
    Seq<u64>,
>
    decreases handles.len(),
{
    if handles.len() == 0 {
        lists
    } else {
        appended(extended(lists, name, handles.drop_last()), name, handles.last())
    }
}

impl OverridesModel {
    /// The registry that holds nothing.
    pub open spec fn empty() -> Self {
        OverridesModel {
            swap_materials: Map::empty(),
            main_materials: Map::empty(),
            unprocessed_materials: Map::empty(),
        }
    }

    /// The registry after `handle` was registered as the main material of
    /// `name`: the materials that waited under the name wait no longer and
    /// are swapped from now on.
    pub open spec fn with_main_mat(self, name: Seq<char>, handle: u64) -> Self {
        if self.unprocessed_materials.dom().contains(name) {
            OverridesModel {
                swap_materials: extended(
                    self.swap_materials,
                    name,
                    self.unprocessed_materials[name],
                ),
                main_materials: self.main_materials.insert(name, handle),
                unprocessed_materials: self.unprocessed_materials.remove(name),
            }
        } else {
            OverridesModel { main_materials: self.main_materials.insert(name, handle), ..self }
        }
    }

    /// The registry after `handle` was registered as a material to swap
    /// for the main material of `name`.
    pub open spec fn with_swap_mat(self, name: Seq<char>, handle: u64) -> Self {
        OverridesModel { swap_materials: appended(self.swap_materials, name, handle), ..self }
    }

    /// The registry after `handle` was put among the materials that wait
    /// for a main material of `name`.
    pub open spec fn with_waiting_mat(self, name: Seq<char>, handle: u64) -> Self {
        OverridesModel {
            unprocessed_materials: appended(self.unprocessed_materials, name, handle),
            ..self
        }
    }

    /// Whether `handle` is swapped under `name`.
    pub open spec fn swaps_under(self, name: Seq<char>, handle: u64) -> bool {
        self.swap_materials.dom().contains(name) && self.swap_materials[name].contains(handle)
    }

    /// The registry after a material that a gltf file brought under a name
    /// was seen: it is swapped if the name has a main material, and waits
    /// otherwise.
    pub open spec fn with_named(self, name: Seq<char>, handle: u64) -> Self {
        if self.main_materials.dom().contains(name) {
            self.with_swap_mat(name, handle)
        } else {
            self.with_waiting_mat(name, handle)
        }
    }

    /// The registry after the named materials of a gltf file were seen,
    /// one after the other.
    pub open spec fn with_all_named(self, named: Seq<(Seq<char>, u64)>) -> Self
        decreases named.len(),
    {
        if named.len() == 0 {
            self
        } else {
            self.with_all_named(named.drop_last()).with_named(named.last().0, named.last().1)
        }
    }

    /// How many of the named materials of a gltf file are swapped at once
    /// when they are seen one after the other.
    pub open spec fn swaps_among(self, named: Seq<(Seq<char>, u64)>) -> nat
        decreases named.len(),
    {
        if named.len() == 0 {
            0
        } else {
            let earlier = self.swaps_among(named.drop_last());
            if self.with_all_named(named.drop_last()).main_materials.dom().contains(
                named.last().0,
            ) {
                earlier + 1
            } else {
                earlier
            }
        }
    }
}

/// The names and handles of a list of named materials.
pub open spec fn named_of(list: Seq<(String, u64)>) -> Seq<(Seq<char>, u64)> {
    Seq::new(list.len(), |i: int| (list[i].0@, list[i].1))
}

/// Which material handles are swapped for which main material.
pub struct FabMaterialOverrides {
    pub(crate) swap_materials: HandleListTable,
    pub(crate) main_materials: HandleTable,
    pub(crate) unprocessed_materials: HandleListTable,
}

impl View for FabMaterialOverrides {
    type V = OverridesModel;

    closed spec fn view(&self) -> OverridesModel {
        OverridesModel {
            swap_materials: handle_list_entries(self.swap_materials),
            main_materials: handle_entries(self.main_materials),
            unprocessed_materials: handle_list_entries(self.unprocessed_materials),
        }
    }
}

/// Whether `handle` is in `list`.
fn holds_handle(list: &Vec<u64>, handle: u64) -> (held: bool)
    ensures
        held == list@.contains(handle),
{
    let mut i: usize = 0;
    while i < list.len()
        invariant
            i <= list.len(),
            forall|j: int| 0 <= j < i ==> list@[j] != handle,
        decreases list.len() - i,
    {
        if list[i] == handle {
            return true;
        }
        i += 1;
    }
    false
}

/// Adds `handle` at the end of the list of `name`.
fn append(table: &mut HandleListTable, name: &str, handle: u64)
    ensures
        handle_list_entries(*final(table)) == appended(
            handle_list_entries(*old(table)),
            name@,
            handle,
        ),
{
    match list_table_get_mut(table, name) {
        Some(list) => {
            list.push(handle);
        },
        None => {
            let mut list: Vec<u64> = Vec::new();
            list.push(handle);
            assert(list@ =~= seq![handle]);
            list_table_insert(table, name.to_owned(), list);
        },
    }
}

impl FabMaterialOverrides {
    /// A registry that holds nothing.
    pub fn new() -> (overrides: Self)
        ensures
            overrides@ == OverridesModel::empty(),
    {
        let overrides = FabMaterialOverrides {
            swap_materials: list_table_new(),
            main_materials: handle_table_new(),
            unprocessed_materials: list_table_new(),
        };
        proof {
            assert(overrides@.swap_materials =~= Map::empty());
            assert(overrides@.main_materials =~= Map::empty());
            assert(overrides@.unprocessed_materials =~= Map::empty());
        }
        overrides
    }

    /// Registers `mat` as the main material of `name`. Materials that
    /// waited under the name are swapped for it from now on.
    pub fn register_main_mat(&mut self, name: &str, mat: u64)
        ensures
            final(self)@ == old(self)@.with_main_mat(name@, mat),
    {
        handle_table_insert(&mut self.main_materials, name.to_owned(), mat);
        match list_table_remove(&mut self.unprocessed_materials, name) {
            Some(waiting) => {
                let ghost start = self@.swap_materials;
                let mut i: usize = 0;
                assert(waiting@.take(0) =~= Seq::<u64>::empty());
                while i < waiting.len()
                    invariant
                        i <= waiting.len(),
                        self@.main_materials == old(self)@.main_materials.insert(name@, mat),
                        self@.unprocessed_materials == old(self)@.unprocessed_materials.remove(
                            name@,
                        ),
                        self@.swap_materials == extended(start, name@, waiting@.take(i as int)),
                    decreases waiting.len() - i,
                {
                    proof {
                        let longer = waiting@.take(i + 1);
                        assert(longer.drop_last() =~= waiting@.take(i as int));
                        assert(longer.last() == waiting@[i as int]);
                    }
                    append(&mut self.swap_materials, name, waiting[i]);
                    i += 1;
                }
                assert(waiting@.take(waiting.len() as int) =~= waiting@);
            },
            None => {
                assert(self@.unprocessed_materials =~= old(self)@.unprocessed_materials);
            },
        }
    }

    /// Registers `mat` as a material to swap for the main material of
    /// `name`.
    pub fn register_swap_mat(&mut self, name: &str, mat: u64)
        ensures
            final(self)@ == old(self)@.with_swap_mat(name@, mat),
    {
        append(&mut self.swap_materials, name, mat);
    }

    /// Puts `mat` among the materials that wait for a main material of
    /// `name`.
    pub fn register_mat_for_processing(&mut self, name: &str, mat: u64)
        ensures
            final(self)@ == old(self)@.with_waiting_mat(name@, mat),
    {
        append(&mut self.unprocessed_materials, name, mat);
    }

    /// The main material that `mat` is to be swapped for.
    ///
    /// `mat` is looked for under the names in no particular order, and the
    /// first name that lists it decides: the result is the main material
    /// of that name, or `None` if that name has none. If no name lists
    /// `mat` the result is `None`.
    pub fn get_swap_mat(&self, mat: u64) -> (main: Option<u64>)
        ensures
            match main {
                Some(handle) => exists|name: Seq<char>|
                    #![trigger self@.swaps_under(name, mat)]
                    self@.swaps_under(name, mat) && self@.main_materials.dom().contains(name)
                        && self@.main_materials[name] == handle,
                None => (forall|name: Seq<char>| !#[trigger] self@.swaps_under(name, mat)) || (
                exists|name: Seq<char>|
                    #![trigger self@.swaps_under(name, mat)]
                    self@.swaps_under(name, mat) && !self@.main_materials.dom().contains(name)),
            },
    {
        let names = list_table_keys(&self.swap_materials);
        let mut i: usize = 0;
        while i < names.len()
            invariant
                i <= names.len(),
                names_of(names@).to_set() == self@.swap_materials.dom(),
                forall|j: int| 0 <= j < i ==> !self@.swaps_under(#[trigger] names_of(names@)[j], mat),
            decreases names.len() - i,
        {
            let name = names[i].as_str();
            assert(names_of(names@)[i as int] == name@);
            match list_table_get(&self.swap_materials, name) {
                Some(list) => {
                    if holds_handle(list, mat) {
                        assert(self@.swaps_under(name@, mat));
                        return handle_table_get(&self.main_materials, name);
                    }
                },
                None => {},
            }
            i += 1;
        }
        proof {
            assert forall|name: Seq<char>| !#[trigger] self@.swaps_under(name, mat) by {
                if self@.swap_materials.dom().contains(name) {
                    assert(names_of(names@).to_set().contains(name));
                    let j = choose|j: int|
                        0 <= j < names_of(names@).len() && names_of(names@)[j] == name;
                    assert(!self@.swaps_under(names_of(names@)[j], mat));
                }
            }
        }
        None
    }

    /// Whether `name` has a main material.
    pub fn contains_override(&self, name: &str) -> (held: bool)
        ensures
            held == self@.main_materials.dom().contains(name@),
    {
        handle_table_contains(&self.main_materials, name)
    }

    /// Takes in the named materials of a gltf file that has loaded, one
    /// after the other: a material whose name has a main material is
    /// swapped from now on, the others wait. The result says how many were
    /// of the first sort.
    pub fn take_named_materials(&mut self, named: &Vec<(String, u64)>) -> (swaps: usize)
        ensures
            final(self)@ == old(self)@.with_all_named(named_of(named@)),
            swaps == old(self)@.swaps_among(named_of(named@)),
    {
        let ghost start = self@;
        let ghost all = named_of(named@);
        let mut swaps: usize = 0;
        let mut i: usize = 0;
        while i < named.len()
            invariant
                i <= named.len(),
                all == named_of(named@),
                swaps <= i,
                self@ == start.with_all_named(all.take(i as int)),
                swaps == start.swaps_among(all.take(i as int)),
            decreases named.len() - i,
        {
            proof {
                let longer = all.take(i + 1);
                assert(longer.drop_last() =~= all.take(i as int));
                assert(longer.last() == (named@[i as int].0@, named@[i as int].1));
            }
            let name = named[i].0.as_str();
            let handle = named[i].1;
            if self.contains_override(name) {
                self.register_swap_mat(name, handle);
                swaps += 1;
            } else {
                self.register_mat_for_processing(name, handle);
            }
            i += 1;
        }
        assert(all.take(named.len() as int) =~= all);
        swaps
    }
}

} // verus!
