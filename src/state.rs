//! The touch state shared by the input side and the polling side: the cells
//! of each active pointer, the cells held by keys, and the touch settings
//! with the relative-mode tracker.

use vstd::prelude::*;
use crate::aggregate::active_snapshot;
use crate::config::TouccaTouchConfig;
use crate::geometry::{cells_for, expansion, CELLS, SECTIONS};
use crate::surface::{on_surface, physical_ring, twice_dist_sq, twice_radius, WindowRect};

verus! {

#[verifier::external_type_specification]
#[verifier::external_body]
#[verifier::reject_recursive_types(K)]
#[verifier::reject_recursive_types(V)]
#[verifier::reject_recursive_types(S)]
pub struct ExDashMap<K, V, S>(dashmap::DashMap<K, V, S>);

#[verifier::external_type_specification]
#[verifier::external_body]
#[verifier::reject_recursive_types(K)]
#[verifier::reject_recursive_types(S)]
pub struct ExDashSet<K, S>(dashmap::DashSet<K, S>);

#[verifier::external_type_specification]
#[verifier::external_body]
pub struct ExAHashState(ahash::RandomState);

/// Pointer id to the cells that the pointer activates.
pub type FingerMap = dashmap::DashMap<u32, Vec<usize>, ahash::RandomState>;

/// Key to the cells bound to it.
pub type KeyMap = dashmap::DashMap<i32, Vec<usize>, ahash::RandomState>;

/// Cells that held keys force active.
pub type KeyCellSet = dashmap::DashSet<usize, ahash::RandomState>;

/// What a finger map holds.
pub uninterp spec fn finger_entries(m: FingerMap) -> Map<u32, Seq<usize>>;

/// What a key map holds.
pub uninterp spec fn key_map_entries(m: KeyMap) -> Map<i32, Seq<usize>>;

/// What a key cell set holds.
pub uninterp spec fn key_cell_members(s: KeyCellSet) -> Set<usize>;

/// Relies on `DashMap::with_capacity_and_hasher`: a new map is empty.
#[verifier::external_body]
fn new_finger_map() -> (r: FingerMap)
    ensures
        finger_entries(r).dom().is_empty(),
{
    dashmap::DashMap::with_capacity_and_hasher(10, ahash::RandomState::new())
}

/// Relies on `DashMap::insert`: the key maps to the value afterwards, the
/// other entries stay.
#[verifier::external_body]
fn finger_insert(m: &mut FingerMap, id: u32, cells: Vec<usize>)
    ensures
        finger_entries(*final(m)) == finger_entries(*old(m)).insert(id, cells@),
{
    m.insert(id, cells);
}

/// Relies on `DashMap::remove`: the key has no entry afterwards, the other
/// entries stay.
#[verifier::external_body]
fn finger_remove(m: &mut FingerMap, id: u32)
    ensures
        finger_entries(*final(m)) == finger_entries(*old(m)).remove(id),
{
    m.remove(&id);
}

/// Relies on `DashMap::iter`: every entry is visited; each value is cloned.
#[verifier::external_body]
fn finger_values(m: &FingerMap) -> (r: Vec<Vec<usize>>)
    ensures
        forall|i: int|
            0 <= i < r@.len() ==> exists|id: u32|
                finger_entries(*m).contains_key(id) && finger_entries(*m)[id] == (#[trigger] r@[i])@,
        forall|id: u32|
            #[trigger] finger_entries(*m).contains_key(id) ==> exists|i: int|
                0 <= i < r@.len() && r@[i]@ == finger_entries(*m)[id],
{
    m.iter().map(|e| e.value().clone()).collect()
}

/// Relies on `DashMap::with_capacity_and_hasher`: a new map is empty.
#[verifier::external_body]
fn new_key_map() -> (r: KeyMap)
    ensures
        key_map_entries(r).dom().is_empty(),
{
    dashmap::DashMap::with_capacity_and_hasher(0, ahash::RandomState::new())
}

/// Relies on `DashMap::insert`: the key maps to the value afterwards, the
/// other entries stay.
#[verifier::external_body]
fn key_map_insert(m: &mut KeyMap, key: i32, cells: Vec<usize>)
    ensures
        key_map_entries(*final(m)) == key_map_entries(*old(m)).insert(key, cells@),
{
    m.insert(key, cells);
}

/// Relies on `DashMap::get`: the value of the key, cloned, if it has one.
#[verifier::external_body]
fn key_map_get(m: &KeyMap, key: i32) -> (r: Option<Vec<usize>>)
    ensures
        r is Some <==> key_map_entries(*m).contains_key(key),
        r is Some ==> r->Some_0@ == key_map_entries(*m)[key],
{
    m.get(&key).map(|e| e.value().clone())
}

/// Relies on `DashSet::with_capacity_and_hasher`: a new set is empty.
#[verifier::external_body]
fn new_key_cell_set() -> (r: KeyCellSet)
    ensures
        key_cell_members(r).is_empty(),
{
    dashmap::DashSet::with_capacity_and_hasher(0, ahash::RandomState::new())
}

/// Relies on `DashSet::insert`: the item is a member afterwards, the others
/// stay.
#[verifier::external_body]
fn key_cell_insert(s: &mut KeyCellSet, cell: usize)
    ensures
        key_cell_members(*final(s)) == key_cell_members(*old(s)).insert(cell),
{
    s.insert(cell);
}

/// Relies on `DashSet::remove`: the item is no member afterwards, the others
/// stay.
#[verifier::external_body]
fn key_cell_remove(s: &mut KeyCellSet, cell: usize)
    ensures
        key_cell_members(*final(s)) == key_cell_members(*old(s)).remove(cell),
{
    s.remove(&cell);
}

/// Relies on `DashSet::iter`: every member is visited once.
#[verifier::external_body]
fn key_cell_items(s: &KeyCellSet) -> (r: Vec<usize>)
    ensures
        forall|i: int| 0 <= i < r@.len() ==> key_cell_members(*s).contains(#[trigger] r@[i]),
        forall|c: usize| #[trigger] key_cell_members(*s).contains(c) ==> r@.contains(c),
{
    s.iter().map(|c| *c.key()).collect()
}

/// The cells bound to `key`.
pub open spec fn bound_cells(vk_cell: [i32; 240], key: i32) -> Set<usize> {
    Set::new(|c: usize| c < CELLS && vk_cell@[c as int] == key)
}

/// The cells among the first `n` that are bound to `key`, in increasing order.
pub open spec fn cells_with_key(vk_cell: [i32; 240], key: i32, n: nat) -> Seq<usize>
    decreases n,
{
    if n == 0 {
        Seq::empty()
    } else if vk_cell@[n - 1] == key {
        cells_with_key(vk_cell, key, (n - 1) as nat).push((n - 1) as usize)
    } else {
        cells_with_key(vk_cell, key, (n - 1) as nat)
    }
}

/// The cells that key bindings `b` bind to `key`.
pub open spec fn key_set(b: Map<i32, Seq<usize>>, key: i32) -> Set<usize> {
    if b.contains_key(key) {
        b[key].to_set()
    } else {
        Set::empty()
    }
}

proof fn lemma_cells_with_key(vk_cell: [i32; 240], key: i32, n: nat)
    requires
        n <= CELLS,
    ensures
        cells_with_key(vk_cell, key, n).to_set() == Set::new(
            |c: usize| c < n && vk_cell@[c as int] == key,
        ),
    decreases n,
{
    let s = cells_with_key(vk_cell, key, n);
    if n == 0 {
        assert(s.to_set() =~= Set::new(|c: usize| c < n && vk_cell@[c as int] == key));
    } else {
        lemma_cells_with_key(vk_cell, key, (n - 1) as nat);
        let prev = cells_with_key(vk_cell, key, (n - 1) as nat);
        if vk_cell@[n - 1] == key {
            prev.lemma_push_to_set_commute((n - 1) as usize);
        }
        assert(s.to_set() =~= Set::new(|c: usize| c < n && vk_cell@[c as int] == key));
    }
}

/// Binds each key to the cells that `vk_cell` gives it, in increasing order.
fn init_key_map(vk_cell: &[i32; 240]) -> (r: KeyMap)
    ensures
        forall|key: i32|
            #![trigger key_map_entries(r).contains_key(key)]
            (key_map_entries(r).contains_key(key) <==> cells_with_key(*vk_cell, key, 240).len() > 0)
                && (key_map_entries(r).contains_key(key) ==> key_map_entries(r)[key]
                == cells_with_key(*vk_cell, key, 240)),
{
    let mut map = new_key_map();
    let mut i: usize = 0;
    while i < CELLS
        invariant
            i <= CELLS,
            forall|key: i32|
                #![trigger key_map_entries(map).contains_key(key)]
                (key_map_entries(map).contains_key(key) <==> cells_with_key(*vk_cell, key, i as nat).len()
                    > 0) && (key_map_entries(map).contains_key(key) ==> key_map_entries(map)[key]
                    == cells_with_key(*vk_cell, key, i as nat)),
        decreases CELLS - i,
    {
        let key = vk_cell[i];
        let mut cells = match key_map_get(&map, key) {
            Some(cells) => cells,
            None => Vec::new(),
        };
        assert(cells@ == cells_with_key(*vk_cell, key, i as nat)) by {
            if !key_map_entries(map).contains_key(key) {
                assert(cells_with_key(*vk_cell, key, i as nat) =~= Seq::<usize>::empty());
            }
        }
        cells.push(i);
        key_map_insert(&mut map, key, cells);
        i += 1;
        assert forall|k: i32| #![trigger key_map_entries(map).contains_key(k)]
            (key_map_entries(map).contains_key(k) <==> cells_with_key(*vk_cell, k, i as nat).len() > 0)
                && (key_map_entries(map).contains_key(k) ==> key_map_entries(map)[k]
                == cells_with_key(*vk_cell, k, i as nat)) by {
            if k != key {
                assert(cells_with_key(*vk_cell, k, i as nat) == cells_with_key(
                    *vk_cell,
                    k,
                    (i - 1) as nat,
                ));
            }
        }
    }
    map
}

/// Touch settings with the relative-mode tracker, the cells of each active
/// pointer, and the cells that held keys force active.
pub struct TouchState {
    config: TouccaTouchConfig,
    fingers: FingerMap,
    key_map: KeyMap,
    key_cells: KeyCellSet,
}

impl TouchState {
    /// The touch settings and the relative-mode tracker.
    pub closed spec fn touch_config(&self) -> TouccaTouchConfig {
        self.config
    }

    /// Pointer id to the cells that the pointer activates.
    pub closed spec fn fingers(&self) -> Map<u32, Seq<usize>> {
        finger_entries(self.fingers)
    }

    /// Key to the cells bound to it.
    pub closed spec fn key_bindings(&self) -> Map<i32, Seq<usize>> {
        key_map_entries(self.key_map)
    }

    /// Cells that held keys force active.
    pub closed spec fn held(&self) -> Set<usize> {
        key_cell_members(self.key_cells)
    }

    /// The touch settings and the relative-mode tracker.
    pub fn config(&self) -> (r: &TouccaTouchConfig)
        ensures
            *r == self.touch_config(),
    {
        &self.config
    }

    /// No pointer and no key yet; each key is bound to the cells that
    /// `vk_cell` gives it.
    pub fn new(config: TouccaTouchConfig, vk_cell: &[i32; 240]) -> (r: TouchState)
        ensures
            r.touch_config() == config,
            r.fingers() == Map::<u32, Seq<usize>>::empty(),
            r.held() == Set::<usize>::empty(),
            forall|key: i32|
                #![trigger r.key_bindings().contains_key(key)]
                (r.key_bindings().contains_key(key) <==> cells_with_key(*vk_cell, key, 240).len()
                    > 0) && (r.key_bindings().contains_key(key) ==> r.key_bindings()[key]
                    == cells_with_key(*vk_cell, key, 240)),
            forall|key: i32| #[trigger] key_set(r.key_bindings(), key) == bound_cells(*vk_cell, key),
    {
        let key_map = init_key_map(vk_cell);
        let r = TouchState {
            config,
            fingers: new_finger_map(),
            key_map,
            key_cells: new_key_cell_set(),
        };
        assert(r.fingers() =~= Map::<u32, Seq<usize>>::empty());
        assert(r.held() =~= Set::<usize>::empty());
        assert forall|key: i32| #[trigger] key_set(r.key_bindings(), key) == bound_cells(
            *vk_cell,
            key,
        ) by {
            lemma_cells_with_key(*vk_cell, key, 240);
            assert(Set::new(|c: usize| c < 240 && vk_cell@[c as int] == key) =~= bound_cells(
                *vk_cell,
                key,
            ));
            if !r.key_bindings().contains_key(key) {
                assert(cells_with_key(*vk_cell, key, 240) =~= Seq::<usize>::empty());
                assert(cells_with_key(*vk_cell, key, 240).to_set() =~= Set::<usize>::empty());
                assert(key_set(r.key_bindings(), key) =~= bound_cells(*vk_cell, key));
            }
        }
        r
    }

    /// Pointer `id` is down at pixel `(x, y)` of window `rect`, in `section`:
    /// its cells are computed again and replace those it had.
    pub fn pointer_moved(&mut self, id: u32, section: usize, x: i32, y: i32, rect: &WindowRect)
        requires
            old(self).touch_config().wf(),
            section < SECTIONS,
        ensures
            final(self).touch_config().wf(),
            final(self).touch_config().divisions == old(self).touch_config().divisions,
            final(self).touch_config().radius_compensation == old(self).touch_config().radius_compensation,
            final(self).touch_config().pointer_radius == old(self).touch_config().pointer_radius,
            final(self).held() == old(self).held(),
            final(self).key_bindings() == old(self).key_bindings(),
            !on_surface(
                twice_dist_sq(*rect, x, y),
                twice_radius(*rect, old(self).touch_config().radius_compensation),
            ) ==> final(self).touch_config().mode == old(self).touch_config().mode && final(self).fingers()
                == old(self).fingers().insert(id, Seq::empty()),
            on_surface(
                twice_dist_sq(*rect, x, y),
                twice_radius(*rect, old(self).touch_config().radius_compensation),
            ) ==> {
                let ring = physical_ring(
                    old(self).touch_config().divisions as int,
                    twice_dist_sq(*rect, x, y),
                    twice_radius(*rect, old(self).touch_config().radius_compensation),
                ) as usize;
                &&& final(self).touch_config().mode.observed(old(self).touch_config().mode, id, ring)
                &&& final(self).fingers() == old(self).fingers().insert(
                    id,
                    cells_for(
                        expansion(old(self).touch_config().pointer_radius as nat, section as int),
                        old(self).touch_config().mode.rings_for(id, ring),
                    ),
                )
            },
    {
        let cells = self.config.point_cells(id, section, x, y, rect);
        if cells.len() == 0 {
            assert(cells@ =~= Seq::<usize>::empty());
        }
        finger_insert(&mut self.fingers, id, cells);
    }

    /// Pointer `id` was lifted: its cells and its tracker entry go in the same
    /// step, so that the id starts afresh when it comes back.
    pub fn pointer_released(&mut self, id: u32)
        requires
            old(self).touch_config().wf(),
        ensures
            final(self).touch_config().wf(),
            final(self).touch_config().divisions == old(self).touch_config().divisions,
            final(self).touch_config().radius_compensation == old(self).touch_config().radius_compensation,
            final(self).touch_config().pointer_radius == old(self).touch_config().pointer_radius,
            final(self).touch_config().mode.released(old(self).touch_config().mode, id),
            final(self).fingers() == old(self).fingers().remove(id),
            final(self).held() == old(self).held(),
            final(self).key_bindings() == old(self).key_bindings(),
    {
        finger_remove(&mut self.fingers, id);
        self.config.mode.release(id);
    }

    /// Key `key` went down (`down`) or up: the cells bound to it are forced
    /// active, or no longer.
    pub fn key_changed(&mut self, key: i32, down: bool)
        ensures
            final(self).touch_config() == old(self).touch_config(),
            final(self).fingers() == old(self).fingers(),
            final(self).key_bindings() == old(self).key_bindings(),
            final(self).held() == if down {
                old(self).held().union(key_set(old(self).key_bindings(), key))
            } else {
                old(self).held().difference(key_set(old(self).key_bindings(), key))
            },
    {
        let cells = match key_map_get(&self.key_map, key) {
            Some(cells) => cells,
            None => Vec::new(),
        };
        assert(cells@.to_set() =~= key_set(old(self).key_bindings(), key));
        let mut i: usize = 0;
        assert(cells@.take(0).to_set() =~= Set::<usize>::empty());
        assert(self.held() =~= if down {
            old(self).held().union(cells@.take(0).to_set())
        } else {
            old(self).held().difference(cells@.take(0).to_set())
        });
        while i < cells.len()
            invariant
                i <= cells@.len(),
                self.touch_config() == old(self).touch_config(),
                self.fingers() == old(self).fingers(),
                self.key_bindings() == old(self).key_bindings(),
                self.held() == if down {
                    old(self).held().union(cells@.take(i as int).to_set())
                } else {
                    old(self).held().difference(cells@.take(i as int).to_set())
                },
            decreases cells@.len() - i,
        {
            if down {
                key_cell_insert(&mut self.key_cells, cells[i]);
            } else {
                key_cell_remove(&mut self.key_cells, cells[i]);
            }
            proof {
                assert(cells@.take(i + 1) =~= cells@.take(i as int).push(cells@[i as int]));
                cells@.take(i as int).lemma_push_to_set_commute(cells@[i as int]);
            }
            i += 1;
            if down {
                assert(self.held() =~= old(self).held().union(cells@.take(i as int).to_set()));
            } else {
                assert(self.held() =~= old(self).held().difference(cells@.take(i as int).to_set()));
            }
        }
        assert(cells@.take(i as int) =~= cells@);
    }

    /// The activation snapshot: a cell is active exactly when a held key or
    /// an active pointer covers it.
    pub fn get_active_areas(&self) -> (r: Vec<bool>)
        ensures
            r@.len() == CELLS,
            forall|c: int|
                0 <= c < CELLS ==> #[trigger] r@[c] == (self.held().contains(c as usize) || exists|
                    id: u32,
                | self.fingers().contains_key(id) && self.fingers()[id].contains(c as usize)),
    {
        let pointer_cells = finger_values(&self.fingers);
        let overrides = key_cell_items(&self.key_cells);
        let r = active_snapshot(&pointer_cells, overrides.as_slice());
        assert forall|c: int| 0 <= c < CELLS implies #[trigger] r@[c] == (self.held().contains(
            c as usize,
        ) || exists|id: u32|
            self.fingers().contains_key(id) && self.fingers()[id].contains(c as usize)) by {
            let f = self.fingers();
            if exists|i: int|
                0 <= i < pointer_cells@.len() && #[trigger] pointer_cells@[i]@.contains(c as usize) {
                let i = choose|i: int|
                    0 <= i < pointer_cells@.len() && #[trigger] pointer_cells@[i]@.contains(
                        c as usize,
                    );
                let id = choose|id: u32| f.contains_key(id) && f[id] == pointer_cells@[i]@;
                assert(f.contains_key(id) && f[id].contains(c as usize));
            }
            if exists|id: u32| f.contains_key(id) && f[id].contains(c as usize) {
                let id = choose|id: u32| f.contains_key(id) && f[id].contains(c as usize);
                let i = choose|i: int| 0 <= i < pointer_cells@.len() && pointer_cells@[i]@ == f[id];
                assert(pointer_cells@[i]@.contains(c as usize));
            }
            if self.held().contains(c as usize) {
                assert(overrides@.contains(c as usize));
            }
            if overrides@.contains(c as usize) {
                let k = choose|k: int| 0 <= k < overrides@.len() && overrides@[k] == c as usize;
                assert(self.held().contains(overrides@[k]));
            }
        }
        r
    }
}

} // verus!
