//! From a pointer's section and physical ring to the cells it activates.

use vstd::prelude::*;
use crate::config::{TouccaMode, TouccaRelativeConfig, TOP_RING};

verus! {

broadcast use vstd::std_specs::hash::group_hash_axioms;

/// Sections around the playfield.
pub const SECTIONS: usize = 60;

/// Sections in each mirrored half.
pub const HALF_SECTIONS: usize = 30;

/// Cells in each half of the playfield.
pub const HALF_CELLS: usize = 120;

/// Cells of the playfield.
pub const CELLS: usize = 240;

/// The fold between the stored and the angular order of sections: the first
/// half stays, the second half is reversed. It is its own inverse.
pub open spec fn flip(s: int) -> int {
    if s >= 30 {
        89 - s
    } else {
        s
    }
}

/// Entry `j` of the expansion of `section`: the section itself, then for
/// `k = 1, 2, ...` the section `k` steps one way round, then the one `k` steps
/// the other way round, each folded back.
pub open spec fn expanded_at(section: int, j: int) -> int {
    let u = SECTIONS + flip(section);
    if j == 0 {
        section
    } else if j % 2 == 1 {
        flip((u + (j + 1) / 2) % 60)
    } else {
        flip((u - j / 2) % 60)
    }
}

/// Sections that a contact of radius `radius` covers: `2 * radius - 1`, or
/// the section alone for radius 0.
pub open spec fn expansion_len(radius: nat) -> nat {
    if radius == 0 {
        1
    } else {
        (2 * radius - 1) as nat
    }
}

/// The sections that a contact of radius `radius` at `section` covers.
pub open spec fn expansion(radius: nat, section: int) -> Seq<usize> {
    Seq::new(expansion_len(radius), |j: int| expanded_at(section, j) as usize)
}

/// The cell of a (folded) section on a logical ring: two blocks of 120, one
/// for each half, each four rings of 30 sections.
pub open spec fn cell_index(section: int, ring: int) -> int {
    ring * 30 + section % 30 + if section >= 30 {
        120int
    } else {
        0int
    }
}

/// The cells of one section on each of the logical rings `rings`, in order.
pub open spec fn section_cells(section: usize, rings: Seq<usize>) -> Seq<usize> {
    rings.map_values(|i: usize| cell_index(section as int, i as int) as usize)
}

/// The cells of each section of `sections` on each of the logical rings
/// `rings`, section by section.
pub open spec fn cells_for(sections: Seq<usize>, rings: Seq<usize>) -> Seq<usize>
    decreases sections.len(),
{
    if sections.len() == 0 {
        Seq::empty()
    } else {
        cells_for(sections.drop_last(), rings) + section_cells(sections.last(), rings)
    }
}

/// Logical rings, in order, among the first `n` of `ranges` whose range
/// holds physical ring `ring`.
pub open spec fn matching_rings_upto(ranges: [(usize, usize); 4], ring: usize, n: nat) -> Seq<
    usize,
>
    decreases n,
{
    if n == 0 {
        Seq::empty()
    } else {
        let prev = matching_rings_upto(ranges, ring, (n - 1) as nat);
        let r = ranges@[n - 1];
        if r.0 <= ring && ring <= r.1 {
            prev.push((n - 1) as usize)
        } else {
            prev
        }
    }
}

/// Logical rings, in order, whose range holds physical ring `ring`.
pub open spec fn matching_rings(ranges: [(usize, usize); 4], ring: usize) -> Seq<usize> {
    matching_rings_upto(ranges, ring, 4)
}

/// `x` brought into the logical rings 0 to 3.
pub open spec fn clamp_ring(x: int) -> int {
    if x < 0 {
        0
    } else if x > TOP_RING {
        TOP_RING as int
    } else {
        x
    }
}

/// The logical ring after a move from physical ring `prev` to `ring` from
/// logical ring `logical`: one logical ring per `threshold` physical rings,
/// the quotient rounded down (toward minus infinity), the result clamped to 0
/// to 3.
pub open spec fn moved_ring(prev: int, logical: int, ring: int, threshold: int) -> int {
    clamp_ring(logical + floor_div(ring - prev, threshold))
}

/// `floor(a / b)` for a positive `b`.
pub open spec fn floor_div(a: int, b: int) -> int {
    a / b
}

/// The logical ring of pointer `id` seen on physical ring `ring`: the start
/// for a pointer not tracked yet, else its move from its last observation.
pub open spec fn relative_ring(c: TouccaRelativeConfig, id: u32, ring: usize) -> usize {
    if c.map@.contains_key(id) {
        let (p, v) = c.map@[id];
        moved_ring(p as int, v as int, ring as int, c.threshold as int) as usize
    } else {
        c.start
    }
}

impl TouccaMode {
    /// The logical rings that pointer `id` on physical ring `ring` activates.
    pub open spec fn rings_for(self, id: u32, ring: usize) -> Seq<usize> {
        match self {
            TouccaMode::Absolute(ranges) => matching_rings(ranges, ring),
            TouccaMode::Relative(c) => seq![relative_ring(c, id, ring)],
        }
    }

    /// `self` is `before` after pointer `id` was seen on physical ring `ring`:
    /// an absolute mode is unchanged, a relative one records the ring and the
    /// logical ring that the pointer now has.
    pub open spec fn observed(self, before: TouccaMode, id: u32, ring: usize) -> bool {
        match (before, self) {
            (TouccaMode::Absolute(a), TouccaMode::Absolute(b)) => a == b,
            (TouccaMode::Relative(c), TouccaMode::Relative(d)) => {
                &&& d.start == c.start
                &&& d.threshold == c.threshold
                &&& d.map@ == c.map@.insert(id, (ring, relative_ring(c, id, ring)))
            },
            _ => false,
        }
    }

    /// `self` is `before` once pointer `id` was released: a relative mode
    /// forgets it.
    pub open spec fn released(self, before: TouccaMode, id: u32) -> bool {
        match (before, self) {
            (TouccaMode::Absolute(a), TouccaMode::Absolute(b)) => a == b,
            (TouccaMode::Relative(c), TouccaMode::Relative(d)) => {
                &&& d.start == c.start
                &&& d.threshold == c.threshold
                &&& d.map@ == c.map@.remove(id)
            },
            _ => false,
        }
    }

    /// The fold between stored and angular section order.
    pub fn flip_left_ring(section: usize) -> (r: usize)
        requires
            section < SECTIONS,
        ensures
            r == flip(section as int),
            r < SECTIONS,
    {
        if section >= 30 {
            30 + 59 - section
        } else {
            section
        }
    }

    /// The sections that a contact of radius `radius` at `section` covers:
    /// `section` first, then its neighbours in pairs, nearest first.
    pub fn expand_section_with_radius(radius: u32, section: usize) -> (r: Vec<usize>)
        requires
            section < SECTIONS,
        ensures
            r@ == expansion(radius as nat, section as int),
    {
        let mut res: Vec<usize> = Vec::new();
        res.push(section);
        let unfolded = SECTIONS + TouccaMode::flip_left_ring(section);
        let mut to_add: usize = 1;
        assert(res@ =~= expansion(1, section as int));
        while to_add < radius as usize
            invariant
                section < SECTIONS,
                unfolded == SECTIONS + flip(section as int),
                1 <= to_add,
                to_add <= radius || to_add == 1,
                res@ == expansion(to_add as nat, section as int),
            decreases radius - to_add,
        {
            let step = to_add % SECTIONS;
            let left = (unfolded + step) % SECTIONS;
            let right = (unfolded + SECTIONS - step) % SECTIONS;
            assert(left == (unfolded + to_add) % 60);
            assert(right == (unfolded - to_add) % 60);
            res.push(TouccaMode::flip_left_ring(left));
            res.push(TouccaMode::flip_left_ring(right));
            to_add += 1;
            assert(res@ =~= expansion(to_add as nat, section as int));
        }
        res
    }

    /// The cell of a (folded) section on a logical ring.
    pub fn map_section_and_ring(section: usize, ring: usize) -> (r: usize)
        requires
            section < SECTIONS,
            ring <= TOP_RING,
        ensures
            r == cell_index(section as int, ring as int),
            r < CELLS,
    {
        ring * 30 + section % 30 + if section >= 30 {
            120
        } else {
            0
        }
    }

    /// The cells that pointer `id` at `section` on physical ring `ring`
    /// activates, without contact radius; a relative mode records the
    /// observation.
    pub fn convert_single(&mut self, ptr_id: u32, section: usize, ring: usize) -> (r: Vec<usize>)
        requires
            old(self).wf(),
            section < SECTIONS,
        ensures
            final(self).wf(),
            final(self).observed(*old(self), ptr_id, ring),
            r@ == section_cells(section, old(self).rings_for(ptr_id, ring)),
    {
        match self {
            TouccaMode::Relative(cfg) => {
                let v_ring: usize = match cfg.map.get(&ptr_id) {
                    Some(entry) => move_ring(entry.0, entry.1, ring, cfg.threshold),
                    None => cfg.start,
                };
                cfg.map.insert(ptr_id, (ring, v_ring));
                let mut res: Vec<usize> = Vec::new();
                res.push(TouccaMode::map_section_and_ring(section, v_ring));
                assert(res@ =~= section_cells(section, seq![v_ring]));
                res
            },
            TouccaMode::Absolute(ranges) => {
                let mut res: Vec<usize> = Vec::new();
                let mut i: usize = 0;
                while i < 4
                    invariant
                        i <= 4,
                        section < SECTIONS,
                        res@ == section_cells(section, matching_rings_upto(*ranges, ring, i as nat)),
                    decreases 4 - i,
                {
                    let (st, end) = ranges[i];
                    let ghost before = matching_rings_upto(*ranges, ring, i as nat);
                    if st <= ring && ring <= end {
                        res.push(TouccaMode::map_section_and_ring(section, i));
                        assert(section_cells(section, before.push(i)) =~= section_cells(
                            section,
                            before,
                        ).push(cell_index(section as int, i as int) as usize));
                    }
                    i += 1;
                }
                res
            },
        }
    }

    /// The cells that pointer `id` at `section` on physical ring `ring`
    /// activates with a contact of radius `radius`: for each covered section
    /// in turn, its cells on the pointer's logical rings. A relative mode
    /// records the observation once.
    pub fn to_cells(&mut self, ptr_id: u32, section: usize, ring: usize, radius: u32) -> (r: Vec<
        usize,
    >)
        requires
            old(self).wf(),
            section < SECTIONS,
        ensures
            final(self).wf(),
            final(self).observed(*old(self), ptr_id, ring),
            r@ == cells_for(expansion(radius as nat, section as int), old(self).rings_for(ptr_id, ring)),
    {
        let sections = TouccaMode::expand_section_with_radius(radius, section);
        let ghost rings = self.rings_for(ptr_id, ring);
        let mut res: Vec<usize> = Vec::new();
        let mut j: usize = 0;
        proof {
            lemma_expansion_in_range(radius as nat, section as int);
            assert(sections@.take(0) =~= Seq::<usize>::empty());
        }
        while j < sections.len()
            invariant
                j <= sections@.len(),
                sections@ == expansion(radius as nat, section as int),
                forall|i: int| 0 <= i < sections@.len() ==> #[trigger] sections@[i] < SECTIONS,
                self.wf(),
                j == 0 ==> *self == *old(self),
                j > 0 ==> self.observed(*old(self), ptr_id, ring),
                res@ == cells_for(sections@.take(j as int), rings),
                rings == old(self).rings_for(ptr_id, ring),
                old(self).wf(),
            decreases sections@.len() - j,
        {
            let ghost mid = *self;
            proof {
                if j > 0 {
                    lemma_observed_again(*old(self), mid, ptr_id, ring);
                }
            }
            let mut cells = self.convert_single(ptr_id, sections[j], ring);
            proof {
                if j > 0 {
                    lemma_observed_twice(*old(self), mid, *self, ptr_id, ring);
                }
                assert(sections@.take(j + 1).drop_last() =~= sections@.take(j as int));
            }
            res.append(&mut cells);
            j += 1;
        }
        assert(sections@.take(j as int) =~= sections@);
        res
    }

    /// Forgets pointer `id`, which was lifted: a relative mode drops its
    /// tracker entry, so that the id starts afresh when it comes back.
    pub fn release(&mut self, ptr_id: u32)
        requires
            old(self).wf(),
        ensures
            final(self).wf(),
            final(self).released(*old(self), ptr_id),
    {
        match self {
            TouccaMode::Relative(cfg) => {
                cfg.map.remove(&ptr_id);
            },
            TouccaMode::Absolute(_) => {},
        }
    }
}

proof fn lemma_expansion_in_range(radius: nat, section: int)
    requires
        0 <= section < SECTIONS,
    ensures
        forall|j: int|
            0 <= j < expansion_len(radius) ==> #[trigger] expansion(radius, section)[j] < SECTIONS,
{
}

/// A pointer seen again on the ring where it was last seen keeps its
/// logical rings.
proof fn lemma_observed_again(orig: TouccaMode, mid: TouccaMode, id: u32, ring: usize)
    requires
        orig.wf(),
        mid.observed(orig, id, ring),
    ensures
        mid.rings_for(id, ring) == orig.rings_for(id, ring),
{
}

/// Seeing a pointer twice on the same ring is seeing it once.
proof fn lemma_observed_twice(
    orig: TouccaMode,
    mid: TouccaMode,
    last: TouccaMode,
    id: u32,
    ring: usize,
)
    requires
        orig.wf(),
        mid.observed(orig, id, ring),
        last.observed(mid, id, ring),
    ensures
        last.observed(orig, id, ring),
{
    if let (TouccaMode::Relative(c), TouccaMode::Relative(d), TouccaMode::Relative(e)) = (
        orig,
        mid,
        last,
    ) {
        assert(relative_ring(d, id, ring) == relative_ring(c, id, ring));
        assert(e.map@ =~= c.map@.insert(id, (ring, relative_ring(c, id, ring))));
    }
}

/// With contact radius 1 there is no expansion: a pointer activates exactly
/// the cells of its own section on its logical rings.
pub proof fn lemma_unit_radius(section: usize, rings: Seq<usize>)
    requires
        section < SECTIONS,
    ensures
        expansion(1, section as int) == seq![section],
        cells_for(expansion(1, section as int), rings) == section_cells(section, rings),
{
    let one = seq![section];
    assert(expansion(1, section as int) =~= one);
    assert(one.drop_last() =~= Seq::<usize>::empty());
    assert(one.last() == section);
    assert(cells_for(one.drop_last(), rings) =~= Seq::<usize>::empty());
    assert(cells_for(one, rings) =~= section_cells(section, rings));
}

/// The fold is its own inverse on the 60 sections.
pub proof fn lemma_flip_involution(s: int)
    requires
        0 <= s < SECTIONS,
    ensures
        0 <= flip(s) < SECTIONS,
        flip(flip(s)) == s,
{
}

/// A contact of radius `radius >= 1` covers `2 * radius - 1` sections: its
/// own, then pairs that lie the same angular distance `k` away on either
/// side, and for radii up to 30 no section twice.
pub proof fn lemma_expansion_symmetric(radius: nat, section: int)
    requires
        radius >= 1,
        0 <= section < SECTIONS,
    ensures
        expansion(radius, section).len() == 2 * radius - 1,
        expansion(radius, section)[0] == section,
        forall|k: int|
            1 <= k < radius ==> (flip(#[trigger] expansion(radius, section)[2 * k - 1] as int)
                - flip(section)) % 60 == k % 60 && (flip(section) - flip(
                expansion(radius, section)[2 * k] as int,
            )) % 60 == k % 60,
        radius <= 30 ==> expansion(radius, section).no_duplicates(),
{
    let e = expansion(radius, section);
    let f = flip(section);
    lemma_flip_involution(section);
    assert forall|k: int| 1 <= k < radius implies (flip(#[trigger] e[2 * k - 1] as int) - f) % 60
        == k % 60 && (f - flip(e[2 * k] as int)) % 60 == k % 60 by {
        lemma_position(section, 2 * k - 1);
        lemma_position(section, 2 * k);
        lemma_distance(f, k);
        lemma_distance(f, -k);
    }
    if radius <= 30 {
        assert forall|i: int, j: int|
            0 <= i < e.len() && 0 <= j < e.len() && i != j implies e[i] != e[j] by {
            lemma_position(section, i);
            lemma_position(section, j);
            lemma_mod_separates(SECTIONS + f + offset(i), SECTIONS + f + offset(j));
        }
    }
}

/// Signed angular offset of entry `j` of an expansion from its centre.
spec fn offset(j: int) -> int {
    if j == 0 {
        0
    } else if j % 2 == 1 {
        (j + 1) / 2
    } else {
        -(j / 2)
    }
}

/// Entry `j` of an expansion unfolds to the centre moved by its offset.
proof fn lemma_position(section: int, j: int)
    requires
        0 <= section < SECTIONS,
        0 <= j,
    ensures
        0 <= expanded_at(section, j) < SECTIONS,
        flip(expanded_at(section, j)) == (SECTIONS + flip(section) + offset(j)) % 60,
{
    let f = flip(section);
    lemma_flip_involution(section);
    let p = (SECTIONS + f + offset(j)) % 60;
    assert(0 <= p < 60);
    lemma_flip_involution(p);
    if j == 0 {
        assert(p == f);
    }
}

/// Moving `k` positions round the circle from `f` lands `k` away from it.
proof fn lemma_distance(f: int, k: int)
    ensures
        ((SECTIONS + f + k) % 60 - f) % 60 == k % 60,
        (f - (SECTIONS + f - k) % 60) % 60 == k % 60,
{
    let a = SECTIONS + f + k;
    let b = SECTIONS + f - k;
    vstd::arithmetic::div_mod::lemma_fundamental_div_mod(a, 60);
    vstd::arithmetic::div_mod::lemma_fundamental_div_mod(b, 60);
    vstd::arithmetic::div_mod::lemma_mod_multiples_vanish(1 - a / 60, k, 60);
    vstd::arithmetic::div_mod::lemma_mod_multiples_vanish(b / 60 - 1, k, 60);
}

/// Offsets of distinct entries of an expansion of radius at most 30 are
/// distinct positions round the circle.
proof fn lemma_mod_separates(x: int, y: int)
    ensures
        x % 60 == y % 60 && -60 < x - y < 60 ==> x == y,
{
    vstd::arithmetic::div_mod::lemma_fundamental_div_mod(x, 60);
    vstd::arithmetic::div_mod::lemma_fundamental_div_mod(y, 60);
}

/// In absolute mode every logical ring whose range holds the physical ring
/// is emitted, however many ranges overlap there, and no other.
pub proof fn lemma_absolute_all_matches(ranges: [(usize, usize); 4], section: usize, ring: usize)
    requires
        section < SECTIONS,
    ensures
        forall|i: int|
            0 <= i < 4 ==> ((ranges@[i].0 <= ring && ring <= ranges@[i].1) <==> section_cells(
                section,
                matching_rings(ranges, ring),
            ).contains(#[trigger] cell_index(section as int, i) as usize)),
{
    let m = matching_rings(ranges, ring);
    let cells = section_cells(section, m);
    assert forall|i: int| 0 <= i < 4 implies (ranges@[i].0 <= ring && ring <= ranges@[i].1)
        <==> cells.contains(#[trigger] cell_index(section as int, i) as usize) by {
        lemma_matching_rings(ranges, ring, 4);
        if ranges@[i].0 <= ring && ring <= ranges@[i].1 {
            let k = choose|k: int| 0 <= k < m.len() && m[k] == i;
            assert(cells[k] == cell_index(section as int, i) as usize);
        }
        if cells.contains(cell_index(section as int, i) as usize) {
            let k = choose|k: int|
                0 <= k < cells.len() && cells[k] == cell_index(section as int, i) as usize;
            assert(m[k] < 4);
            assert(m[k] == i);
        }
    }
}

proof fn lemma_matching_rings(ranges: [(usize, usize); 4], ring: usize, n: nat)
    requires
        n <= 4,
    ensures
        forall|k: int|
            0 <= k < matching_rings_upto(ranges, ring, n).len() ==> #[trigger] matching_rings_upto(
                ranges,
                ring,
                n,
            )[k] < n,
        forall|i: int|
            0 <= i < n ==> ((ranges@[i].0 <= ring && ring <= ranges@[i].1) <==> exists|k: int|
                0 <= k < matching_rings_upto(ranges, ring, n).len() && #[trigger] matching_rings_upto(
                    ranges,
                    ring,
                    n,
                )[k] == i),
    decreases n,
{
    if n > 0 {
        lemma_matching_rings(ranges, ring, (n - 1) as nat);
        let prev = matching_rings_upto(ranges, ring, (n - 1) as nat);
        let cur = matching_rings_upto(ranges, ring, n);
        assert forall|i: int| 0 <= i < n implies ((ranges@[i].0 <= ring && ring <= ranges@[i].1)
            <==> exists|k: int| 0 <= k < cur.len() && #[trigger] cur[k] == i) by {
            if i < n - 1 {
                if ranges@[i].0 <= ring && ring <= ranges@[i].1 {
                    let k = choose|k: int| 0 <= k < prev.len() && #[trigger] prev[k] == i;
                    assert(cur[k] == i);
                }
                if exists|k: int| 0 <= k < cur.len() && #[trigger] cur[k] == i {
                    let k = choose|k: int| 0 <= k < cur.len() && #[trigger] cur[k] == i;
                    if k < prev.len() {
                        assert(prev[k] == i);
                    }
                }
            } else {
                if ranges@[i].0 <= ring && ring <= ranges@[i].1 {
                    assert(cur[cur.len() - 1] == i);
                }
            }
        }
    }
}

/// Relative mode: a pointer not tracked yet lands on the start ring; a move
/// of exactly `threshold` physical rings outward or inward moves it one
/// logical ring up or down, clamped to 3 and 0.
pub proof fn lemma_relative_moves(c: TouccaRelativeConfig, id: u32, ring: usize)
    requires
        c.wf(),
    ensures
        !c.map@.contains_key(id) ==> relative_ring(c, id, ring) == c.start,
        c.map@.contains_key(id) && ring == c.map@[id].0 + c.threshold ==> relative_ring(c, id, ring)
            == if c.map@[id].1 + 1 > TOP_RING {
            TOP_RING as int
        } else {
            c.map@[id].1 + 1
        },
        c.map@.contains_key(id) && ring + c.threshold == c.map@[id].0 ==> relative_ring(c, id, ring)
            == if c.map@[id].1 == 0 {
            0int
        } else {
            c.map@[id].1 - 1
        },
{
    if c.map@.contains_key(id) {
        let t = c.threshold as int;
        assert(t / t == 1) by (nonlinear_arith)
            requires
                t > 0,
        ;
        lemma_floor_of_fall(t, t);
        assert((t - 1) / t == 0) by (nonlinear_arith)
            requires
                t > 0,
        ;
    }
}

/// A released pointer id behaves as a new pointer when it comes back: it
/// lands on the start ring.
pub proof fn lemma_release_then_reuse(
    c: TouccaRelativeConfig,
    after: TouccaMode,
    id: u32,
    ring: usize,
)
    requires
        after.released(TouccaMode::Relative(c), id),
    ensures
        after.rings_for(id, ring) == seq![c.start],
{
}

/// Falling by `fall` rounds down to minus the quotient rounded up.
proof fn lemma_floor_of_fall(fall: int, t: int)
    requires
        fall > 0,
        t > 0,
    ensures
        floor_div(-fall, t) == -((fall - 1) / t + 1),
{
    vstd::arithmetic::div_mod::lemma_fundamental_div_mod(fall - 1, t);
    let q = (fall - 1) / t;
    let r = (fall - 1) % t;
    assert(-fall == (-q - 1) * t + (t - r - 1)) by (nonlinear_arith)
        requires
            fall - 1 == t * q + r,
    ;
    vstd::arithmetic::div_mod::lemma_fundamental_div_mod_converse(-fall, t, -q - 1, t - r - 1);
}

/// The logical ring after a move from physical ring `prev` to `ring`, from
/// logical ring `logical`.
fn move_ring(prev: usize, logical: usize, ring: usize, threshold: usize) -> (r: usize)
    requires
        threshold > 0,
    ensures
        r == moved_ring(prev as int, logical as int, ring as int, threshold as int),
        r <= TOP_RING,
{
    if ring >= prev {
        let up = (ring - prev) / threshold;
        if logical >= TOP_RING || up >= TOP_RING - logical {
            TOP_RING
        } else {
            logical + up
        }
    } else {
        let fall = prev - ring;
        assert((fall as int - 1) / (threshold as int) <= fall as int - 1) by (nonlinear_arith)
            requires
                fall >= 1,
                threshold >= 1,
        ;
        let down = (fall - 1) / threshold + 1;
        proof {
            lemma_floor_of_fall(fall as int, threshold as int);
        }
        if down >= logical {
            0
        } else if logical - down > TOP_RING {
            TOP_RING
        } else {
            logical - down
        }
    }
}

} // verus!
