//! Die sites of the placement grid: counting by class, reproducible
//! illustrative defect markers, and probe-array coverage.

use std::collections::BTreeSet;

use vstd::prelude::*;

use crate::model::{DieClass, ProbeArray, ProbeSummary};
use crate::random::{splitmix_output, splitmix_state, SplitMix64};

verus! {

/// One die-sized rectangle of the placement grid that intersects the wafer,
/// reduced to what counting, marking and probe planning read.
#[derive(Clone, Copy, Debug, PartialEq, Eq, Structural)]
pub struct DieSite {
    /// Stable column index in the infinite placement grid.
    pub column: i32,
    /// Stable row index in the infinite placement grid.
    pub row: i32,
    /// Geometric classification.
    pub class: DieClass,
    /// Whether this usable die was selected as an expected defect marker.
    pub defective: bool,
}

/// Number of sites of the given class.
pub open spec fn class_count(sites: Seq<DieSite>, class: DieClass) -> nat
    decreases sites.len(),
{
    if sites.len() == 0 {
        0
    } else {
        class_count(sites.drop_last(), class) + if sites.last().class == class {
            1nat
        } else {
            0nat
        }
    }
}

/// Number of sites carrying a defect marker.
pub open spec fn defective_count(sites: Seq<DieSite>) -> nat
    decreases sites.len(),
{
    if sites.len() == 0 {
        0
    } else {
        defective_count(sites.drop_last()) + if sites.last().defective {
            1nat
        } else {
            0nat
        }
    }
}

/// Positions, in increasing order, of the usable sites.
pub open spec fn usable_positions(sites: Seq<DieSite>) -> Seq<usize>
    decreases sites.len(),
{
    if sites.len() == 0 {
        Seq::empty()
    } else if sites.last().class == DieClass::Usable {
        usable_positions(sites.drop_last()).push((sites.len() - 1) as usize)
    } else {
        usable_positions(sites.drop_last())
    }
}

/// Exchanges the entries at `i` and `j`.
pub open spec fn swap_entries(s: Seq<usize>, i: int, j: int) -> Seq<usize> {
    s.update(i, s[j]).update(j, s[i])
}

/// The order after the first `steps` steps of a Fisher-Yates shuffle whose
/// `k`-th step exchanges entry `k` with entry `k + draw_k mod (len - k)`,
/// `draw_k` being the `k`-th SplitMix64 output for `seed`.
pub open spec fn shuffled(order: Seq<usize>, seed: u64, steps: nat) -> Seq<usize>
    decreases steps,
{
    if steps == 0 {
        order
    } else {
        let k = (steps - 1) as nat;
        let prev = shuffled(order, seed, k);
        let remaining = (prev.len() - k) as u64;
        swap_entries(prev, k as int, k + (splitmix_output(seed, k) % remaining) as int)
    }
}

/// Number of markers that are placed: the requested count, capped at the
/// number of usable sites.
pub open spec fn marker_total(sites: Seq<DieSite>, requested: nat) -> nat {
    let available = usable_positions(sites).len();
    if requested < available {
        requested
    } else {
        available
    }
}

/// Positions that receive a defect marker: the first `marker_total` entries of
/// the shuffled usable positions.
pub open spec fn marked_positions(sites: Seq<DieSite>, requested: nat, seed: u64) -> Seq<usize> {
    let n = marker_total(sites, requested);
    shuffled(usable_positions(sites), seed, n).take(n as int)
}

/// The sites with a marker added at each listed position.
pub open spec fn with_marks(sites: Seq<DieSite>, marks: Seq<usize>) -> Seq<DieSite> {
    Seq::new(
        sites.len(),
        |i: int|
            DieSite {
                column: sites[i].column,
                row: sites[i].row,
                class: sites[i].class,
                defective: sites[i].defective || marks.contains(i as usize),
            },
    )
}

/// Counts the sites of the given class.
pub fn count_class(sites: &[DieSite], class: DieClass) -> (count: u64)
    ensures
        count == class_count(sites@, class),
{
    let mut count: u64 = 0;
    let mut i: usize = 0;
    while i < sites.len()
        invariant
            i <= sites@.len(),
            count == class_count(sites@.take(i as int), class),
            count <= i,
        decreases sites.len() - i,
    {
        proof {
            assert(sites@.take(i + 1).drop_last() =~= sites@.take(i as int));
        }
        if sites[i].class == class {
            count = count + 1;
        }
        i = i + 1;
    }
    proof {
        assert(sites@.take(sites@.len() as int) =~= sites@);
    }
    count
}

/// Counts the sites that carry a defect marker.
pub fn count_defective(sites: &[DieSite]) -> (count: u64)
    ensures
        count == defective_count(sites@),
{
    let mut count: u64 = 0;
    let mut i: usize = 0;
    while i < sites.len()
        invariant
            i <= sites@.len(),
            count == defective_count(sites@.take(i as int)),
            count <= i,
        decreases sites.len() - i,
    {
        proof {
            assert(sites@.take(i + 1).drop_last() =~= sites@.take(i as int));
        }
        if sites[i].defective {
            count = count + 1;
        }
        i = i + 1;
    }
    proof {
        assert(sites@.take(sites@.len() as int) =~= sites@);
    }
    count
}

/// Positions of the usable sites, in increasing order.
fn collect_usable_positions(sites: &Vec<DieSite>) -> (positions: Vec<usize>)
    ensures
        positions@ == usable_positions(sites@),
{
    let mut positions: Vec<usize> = Vec::new();
    let mut i: usize = 0;
    while i < sites.len()
        invariant
            i <= sites@.len(),
            positions@ == usable_positions(sites@.take(i as int)),
        decreases sites.len() - i,
    {
        proof {
            assert(sites@.take(i + 1).drop_last() =~= sites@.take(i as int));
        }
        if sites[i].class == DieClass::Usable {
            positions.push(i);
        }
        i = i + 1;
    }
    proof {
        assert(sites@.take(sites@.len() as int) =~= sites@);
    }
    positions
}

/// Every usable position is in range and names a usable site.
proof fn lemma_usable_positions_valid(sites: Seq<DieSite>)
    requires
        sites.len() <= usize::MAX,
    ensures
        usable_positions(sites).len() == class_count(sites, DieClass::Usable),
        usable_positions(sites).len() <= sites.len(),
        usable_positions(sites).no_duplicates(),
        forall|k: int|
            0 <= k < usable_positions(sites).len() ==> #[trigger] usable_positions(sites)[k]
                < sites.len(),
        forall|k: int|
            0 <= k < usable_positions(sites).len() ==> sites[#[trigger] usable_positions(
                sites,
            )[k] as int].class == DieClass::Usable,
    decreases sites.len(),
{
    if sites.len() > 0 {
        let prev = sites.drop_last();
        lemma_usable_positions_valid(prev);
        let p = usable_positions(prev);
        let q = usable_positions(sites);
        assert forall|k: int| 0 <= k < p.len() implies sites[#[trigger] p[k] as int].class
            == DieClass::Usable by {
            assert(prev[p[k] as int] == sites[p[k] as int]);
        }
        if sites.last().class == DieClass::Usable {
            let last = (sites.len() - 1) as usize;
            assert(q == p.push(last));
            assert forall|k: int| 0 <= k < q.len() implies #[trigger] q[k] < sites.len() by {
                if k < p.len() {
                    assert(q[k] == p[k]);
                }
            }
            assert forall|k: int| 0 <= k < q.len() implies sites[#[trigger] q[k] as int].class
                == DieClass::Usable by {
                if k < p.len() {
                    assert(q[k] == p[k]);
                }
            }
            assert forall|a: int, b: int|
                0 <= a < q.len() && 0 <= b < q.len() && a != b implies q[a] != q[b] by {
                if a < p.len() && b < p.len() {
                    assert(q[a] == p[a] && q[b] == p[b]);
                } else if a < p.len() {
                    assert(q[a] == p[a]);
                } else {
                    assert(q[b] == p[b]);
                }
            }
        } else {
            assert(q == p);
        }
    }
}

/// The step index drawn at step `k` lies in `k..len`.
proof fn lemma_draw_in_range(order: Seq<usize>, seed: u64, k: nat)
    requires
        k < order.len(),
        order.len() <= u64::MAX,
        shuffled(order, seed, k).len() == order.len(),
    ensures
        k <= k + (splitmix_output(seed, k) % ((shuffled(order, seed, k).len() - k) as u64))
            < order.len(),
        shuffled(order, seed, k + 1) == swap_entries(
            shuffled(order, seed, k),
            k as int,
            k + (splitmix_output(seed, k) % ((shuffled(order, seed, k).len() - k) as u64)) as int,
        ),
{
    let remaining = (order.len() - k) as u64;
    assert(remaining > 0);
    assert(splitmix_output(seed, k) % remaining < remaining);
    assert(((k + 1) as nat - 1) as nat == k);
}

/// The shuffle keeps the length.
proof fn lemma_shuffled_len(order: Seq<usize>, seed: u64, steps: nat)
    requires
        steps <= order.len(),
        order.len() <= u64::MAX,
    ensures
        shuffled(order, seed, steps).len() == order.len(),
    decreases steps,
{
    if steps > 0 {
        let k = (steps - 1) as nat;
        lemma_shuffled_len(order, seed, k);
        lemma_draw_in_range(order, seed, k);
    }
}

/// Entries placed before `steps` stay in place at the next step.
proof fn lemma_shuffled_prefix_stable(order: Seq<usize>, seed: u64, steps: nat)
    requires
        steps < order.len(),
        order.len() <= u64::MAX,
    ensures
        shuffled(order, seed, steps + 1).len() == order.len(),
        shuffled(order, seed, steps + 1).take(steps + 1int) == shuffled(order, seed, steps).take(
            steps as int,
        ).push(shuffled(order, seed, steps + 1)[steps as int]),
{
    lemma_shuffled_len(order, seed, steps);
    lemma_draw_in_range(order, seed, steps);
    lemma_shuffled_len(order, seed, steps + 1);
    let prev = shuffled(order, seed, steps);
    let next = shuffled(order, seed, steps + 1);
    assert(next.take(steps + 1int) =~= prev.take(steps as int).push(next[steps as int]));
}

/// The shuffle is a permutation: the same entries, still without duplicates.
proof fn lemma_shuffled_permutes(order: Seq<usize>, seed: u64, steps: nat)
    requires
        steps <= order.len(),
        order.len() <= u64::MAX,
        order.no_duplicates(),
    ensures
        shuffled(order, seed, steps).len() == order.len(),
        shuffled(order, seed, steps).no_duplicates(),
        forall|k: int|
            0 <= k < order.len() ==> order.contains(#[trigger] shuffled(order, seed, steps)[k]),
    decreases steps,
{
    lemma_shuffled_len(order, seed, steps);
    if steps > 0 {
        let k = (steps - 1) as nat;
        lemma_shuffled_permutes(order, seed, k);
        lemma_draw_in_range(order, seed, k);
        let prev = shuffled(order, seed, k);
        let j = k + (splitmix_output(seed, k) % ((prev.len() - k) as u64)) as int;
        let next = shuffled(order, seed, steps);
        assert(next == swap_entries(prev, k as int, j));
        assert forall|a: int| 0 <= a < order.len() implies order.contains(#[trigger] next[a]) by {
            let pa = if a == k {
                j
            } else if a == j {
                k as int
            } else {
                a
            };
            assert(next[a] == prev[pa]);
            assert(order.contains(prev[pa]));
        }
        assert forall|a: int, b: int|
            0 <= a < next.len() && 0 <= b < next.len() && a != b implies next[a] != next[b] by {
            let pa = if a == k {
                j
            } else if a == j {
                k as int
            } else {
                a
            };
            let pb = if b == k {
                j
            } else if b == j {
                k as int
            } else {
                b
            };
            assert(next[a] == prev[pa]);
            assert(next[b] == prev[pb]);
        }
    }
}

/// Adding one more mark to the list adds it to the sites and changes nothing else.
proof fn lemma_with_one_more_mark(sites: Seq<DieSite>, marks: Seq<usize>, target: usize)
    requires
        target < sites.len(),
        sites.len() <= usize::MAX,
    ensures
        with_marks(sites, marks.push(target)) == with_marks(sites, marks).update(
            target as int,
            DieSite { defective: true, ..with_marks(sites, marks)[target as int] },
        ),
{
    let next = marks.push(target);
    assert(next[marks.len() as int] == target);
    assert forall|i: int| 0 <= i < sites.len() && i != target as int implies #[trigger] next.contains(
        i as usize,
    ) == marks.contains(i as usize) by {
        if next.contains(i as usize) {
            let w = choose|w: int| 0 <= w < next.len() && next[w] == i as usize;
            assert(w < marks.len());
            assert(marks[w] == i as usize);
        }
        if marks.contains(i as usize) {
            let w = choose|w: int| 0 <= w < marks.len() && marks[w] == i as usize;
            assert(next[w] == i as usize);
        }
    }
    assert(with_marks(sites, next) =~= with_marks(sites, marks).update(
        target as int,
        DieSite { defective: true, ..with_marks(sites, marks)[target as int] },
    ));
}

/// Places `defect_count` illustrative defect markers on usable sites, chosen by a
/// partial Fisher-Yates shuffle of the usable positions driven by SplitMix64
/// seeded with `seed`. Classes and grid indices are left unchanged.
pub fn mark_expected_defects(sites: &mut Vec<DieSite>, defect_count: usize, seed: u64)
    ensures
        final(sites)@ == with_marks(
            old(sites)@,
            marked_positions(old(sites)@, defect_count as nat, seed),
        ),
{
    let ghost initial = sites@;
    assert(initial.len() == sites.len());
    let mut usable_indices = collect_usable_positions(sites);
    let ghost order = usable_indices@;
    proof {
        lemma_usable_positions_valid(initial);
        assert(order.len() <= u64::MAX);
    }
    let selection_count: usize = if defect_count < usable_indices.len() {
        defect_count
    } else {
        usable_indices.len()
    };
    let mut random = SplitMix64::new(seed);
    let mut selected: usize = 0;
    proof {
        assert(sites@ =~= with_marks(initial, shuffled(order, seed, 0).take(0)));
    }
    while selected < selection_count
        invariant
            order == usable_positions(initial),
            order.len() <= u64::MAX,
            initial.len() == sites@.len(),
            initial.len() <= usize::MAX,
            selection_count == marker_total(initial, defect_count as nat),
            selection_count <= usable_indices@.len(),
            selected <= selection_count,
            usable_indices@.len() == order.len(),
            usable_indices@ == shuffled(order, seed, selected as nat),
            random.state() == splitmix_state(seed, selected as nat),
            forall|k: int|
                0 <= k < usable_indices@.len() ==> #[trigger] usable_indices@[k] < sites@.len(),
            sites@ == with_marks(initial, shuffled(order, seed, selected as nat).take(
                selected as int,
            )),
        decreases selection_count - selected,
    {
        let ghost prev_indices = usable_indices@;
        proof {
            lemma_draw_in_range(order, seed, selected as nat);
            lemma_shuffled_prefix_stable(order, seed, selected as nat);
        }
        let remaining: usize = usable_indices.len() - selected;
        let swap_index: usize = selected + random.index(remaining);
        let a: usize = usable_indices[selected];
        let b: usize = usable_indices[swap_index];
        usable_indices.set(selected, b);
        usable_indices.set(swap_index, a);
        proof {
            assert(usable_indices@ =~= swap_entries(prev_indices, selected as int, swap_index as int));
        }
        let target: usize = usable_indices[selected];
        let mut site = sites[target];
        site.defective = true;
        sites.set(target, site);
        proof {
            let prev_marks = shuffled(order, seed, selected as nat).take(selected as int);
            lemma_with_one_more_mark(initial, prev_marks, target);
        }
        selected = selected + 1;
    }
}

/// With no markers, every site is unmarked.
proof fn lemma_unmarked_sites(sites: Seq<DieSite>)
    requires
        defective_count(sites) == 0,
    ensures
        forall|i: int| 0 <= i < sites.len() ==> !(#[trigger] sites[i]).defective,
    decreases sites.len(),
{
    if sites.len() > 0 {
        lemma_unmarked_sites(sites.drop_last());
        assert forall|i: int| 0 <= i < sites.len() implies !(#[trigger] sites[i]).defective by {
            if i < sites.len() - 1 {
                assert(sites.drop_last()[i] == sites[i]);
            }
        }
    }
}

/// Marking one unmarked site raises the marker count by one.
proof fn lemma_count_after_marking_one(sites: Seq<DieSite>, x: int, site: DieSite)
    requires
        0 <= x < sites.len(),
        !sites[x].defective,
        site.defective,
    ensures
        defective_count(sites.update(x, site)) == defective_count(sites) + 1,
    decreases sites.len(),
{
    let next = sites.update(x, site);
    if x == sites.len() - 1 {
        assert(next.drop_last() =~= sites.drop_last());
    } else {
        assert(next.drop_last() =~= sites.drop_last().update(x, site));
        lemma_count_after_marking_one(sites.drop_last(), x, site);
    }
}

/// Distinct in-range marks on unmarked sites mark exactly as many sites.
proof fn lemma_count_of_distinct_marks(sites: Seq<DieSite>, marks: Seq<usize>)
    requires
        sites.len() <= usize::MAX,
        defective_count(sites) == 0,
        marks.no_duplicates(),
        forall|k: int| 0 <= k < marks.len() ==> #[trigger] marks[k] < sites.len(),
    ensures
        defective_count(with_marks(sites, marks)) == marks.len(),
    decreases marks.len(),
{
    lemma_unmarked_sites(sites);
    if marks.len() == 0 {
        assert(with_marks(sites, marks) =~= sites);
    } else {
        let prev = marks.drop_last();
        let target = marks.last();
        assert(prev.push(target) =~= marks);
        assert forall|k: int| 0 <= k < prev.len() implies #[trigger] prev[k] < sites.len() by {
            assert(prev[k] == marks[k]);
        }
        lemma_count_of_distinct_marks(sites, prev);
        lemma_with_one_more_mark(sites, prev, target);
        assert(!prev.contains(target)) by {
            if prev.contains(target) {
                let w = choose|w: int| 0 <= w < prev.len() && prev[w] == target;
                assert(marks[w] == marks[marks.len() - 1]);
            }
        }
        let before = with_marks(sites, prev);
        assert(!before[target as int].defective);
        lemma_count_after_marking_one(
            before,
            target as int,
            DieSite { defective: true, ..before[target as int] },
        );
    }
}

/// Defect markers land only on usable sites: `min(requested, usable)` distinct
/// usable positions are chosen, whatever markers the sites already carry; with
/// no earlier markers exactly that many sites end up marked; classes and grid
/// indices are unchanged.
pub proof fn lemma_markers_fall_on_usable_sites(sites: Seq<DieSite>, requested: nat, seed: u64)
    requires
        sites.len() <= usize::MAX,
    ensures
        marked_positions(sites, requested, seed).len() == marker_total(sites, requested),
        marked_positions(sites, requested, seed).no_duplicates(),
        forall|k: int|
            0 <= k < marked_positions(sites, requested, seed).len() ==> {
                let position = #[trigger] marked_positions(sites, requested, seed)[k];
                &&& position < sites.len()
                &&& sites[position as int].class == DieClass::Usable
            },
        with_marks(sites, marked_positions(sites, requested, seed)).len() == sites.len(),
        forall|i: int|
            0 <= i < sites.len() ==> {
                let marked = #[trigger] with_marks(sites, marked_positions(sites, requested, seed))[i];
                &&& marked.column == sites[i].column
                &&& marked.row == sites[i].row
                &&& marked.class == sites[i].class
                &&& (marked.defective && !sites[i].defective) ==> marked.class == DieClass::Usable
            },
        marker_total(sites, requested) == if requested < class_count(sites, DieClass::Usable) {
            requested
        } else {
            class_count(sites, DieClass::Usable)
        },
        defective_count(sites) == 0 ==> defective_count(
            with_marks(sites, marked_positions(sites, requested, seed)),
        ) == marker_total(sites, requested),
{
    lemma_usable_positions_valid(sites);
    let order = usable_positions(sites);
    let n = marker_total(sites, requested);
    lemma_shuffled_permutes(order, seed, n);
    let full = shuffled(order, seed, n);
    let marks = marked_positions(sites, requested, seed);
    assert(marks == full.take(n as int));
    assert forall|k: int| 0 <= k < marks.len() implies #[trigger] marks[k] < sites.len()
        && sites[marks[k] as int].class == DieClass::Usable by {
        assert(marks[k] == full[k]);
        assert(order.contains(full[k]));
        let w = choose|w: int| 0 <= w < order.len() && order[w] == full[k];
        assert(order[w] < sites.len());
    }
    assert(marks.no_duplicates()) by {
        assert forall|a: int, b: int|
            0 <= a < marks.len() && 0 <= b < marks.len() && a != b implies marks[a] != marks[b] by {
            assert(marks[a] == full[a] && marks[b] == full[b]);
        }
    }
    let result = with_marks(sites, marks);
    assert forall|i: int| 0 <= i < sites.len() implies {
        let marked = #[trigger] result[i];
        (marked.defective && !sites[i].defective) ==> marked.class == DieClass::Usable
    } by {
        if result[i].defective && !sites[i].defective {
            assert(marks.contains(i as usize));
            let w = choose|w: int| 0 <= w < marks.len() && marks[w] == i as usize;
            assert(sites[marks[w] as int].class == DieClass::Usable);
        }
    }
    if defective_count(sites) == 0 {
        lemma_count_of_distinct_marks(sites, marks);
    }
}

/// The lowest grid column among usable sites (`i32::MAX` when there is none).
pub open spec fn lowest_usable_column(sites: Seq<DieSite>) -> int
    decreases sites.len(),
{
    if sites.len() == 0 {
        i32::MAX as int
    } else {
        let prev = lowest_usable_column(sites.drop_last());
        if sites.last().class == DieClass::Usable && sites.last().column < prev {
            sites.last().column as int
        } else {
            prev
        }
    }
}

/// The lowest grid row among usable sites (`i32::MAX` when there is none).
pub open spec fn lowest_usable_row(sites: Seq<DieSite>) -> int
    decreases sites.len(),
{
    if sites.len() == 0 {
        i32::MAX as int
    } else {
        let prev = lowest_usable_row(sites.drop_last());
        if sites.last().class == DieClass::Usable && sites.last().row < prev {
            sites.last().row as int
        } else {
            prev
        }
    }
}

/// The probe-array block holding a site, when blocks are laid out from the
/// given lowest column and row.
pub open spec fn block_of(site: DieSite, min_column: int, min_row: int, probe: ProbeArray) -> (
    i64,
    i64,
) {
    (
        ((site.column - min_column) / (probe.columns as int)) as i64,
        ((site.row - min_row) / (probe.rows as int)) as i64,
    )
}

/// Blocks that hold at least one usable site.
pub open spec fn blocks_of(
    sites: Seq<DieSite>,
    min_column: int,
    min_row: int,
    probe: ProbeArray,
) -> Set<(i64, i64)>
    decreases sites.len(),
{
    if sites.len() == 0 {
        Set::empty()
    } else {
        let prev = blocks_of(sites.drop_last(), min_column, min_row, probe);
        if sites.last().class == DieClass::Usable {
            prev.insert(block_of(sites.last(), min_column, min_row, probe))
        } else {
            prev
        }
    }
}

/// Probe-array blocks, aligned at the lowest usable column and row, that hold
/// at least one usable site.
pub open spec fn occupied_blocks(sites: Seq<DieSite>, probe: ProbeArray) -> Set<(i64, i64)> {
    blocks_of(sites, lowest_usable_column(sites), lowest_usable_row(sites), probe)
}

/// The lowest usable column and row bound every usable site from below.
proof fn lemma_lowest_usable_bounds(sites: Seq<DieSite>)
    ensures
        i32::MIN <= lowest_usable_column(sites) <= i32::MAX,
        i32::MIN <= lowest_usable_row(sites) <= i32::MAX,
        forall|i: int|
            0 <= i < sites.len() && (#[trigger] sites[i]).class == DieClass::Usable ==> {
                &&& lowest_usable_column(sites) <= sites[i].column
                &&& lowest_usable_row(sites) <= sites[i].row
            },
    decreases sites.len(),
{
    if sites.len() > 0 {
        lemma_lowest_usable_bounds(sites.drop_last());
        assert forall|i: int|
            0 <= i < sites.len() && (#[trigger] sites[i]).class == DieClass::Usable implies {
                &&& lowest_usable_column(sites) <= sites[i].column
                &&& lowest_usable_row(sites) <= sites[i].row
            } by {
            if i < sites.len() - 1 {
                assert(sites.drop_last()[i] == sites[i]);
            }
        }
    }
}

/// The block set is finite, holds at most one block per usable site, and is
/// empty exactly when there is no usable site.
pub proof fn lemma_blocks_bounded(
    sites: Seq<DieSite>,
    min_column: int,
    min_row: int,
    probe: ProbeArray,
)
    ensures
        blocks_of(sites, min_column, min_row, probe).finite(),
        blocks_of(sites, min_column, min_row, probe).len() <= class_count(sites, DieClass::Usable),
        (blocks_of(sites, min_column, min_row, probe).len() == 0) == (class_count(
            sites,
            DieClass::Usable,
        ) == 0),
    decreases sites.len(),
{
    if sites.len() > 0 {
        lemma_blocks_bounded(sites.drop_last(), min_column, min_row, probe);
        let prev = blocks_of(sites.drop_last(), min_column, min_row, probe);
        if sites.last().class == DieClass::Usable {
            let b = block_of(sites.last(), min_column, min_row, probe);
            assert(prev.insert(b).contains(b));
            assert(prev.insert(b).len() >= 1);
        }
    }
}

/// The slot a site takes inside its probe-array block, counted row by row
/// from the block's first column and row.
pub open spec fn block_slot(site: DieSite, min_column: int, min_row: int, probe: ProbeArray) -> int {
    ((site.column - min_column) % (probe.columns as int)) * (probe.rows as int) + (site.row
        - min_row) % (probe.rows as int)
}

/// Every slot of every listed block, as pairs of a block and a slot below `size`.
pub open spec fn block_slots(blocks: Set<(i64, i64)>, size: int) -> Set<((i64, i64), int)> {
    Set::new(|x: ((i64, i64), int)| blocks.contains(x.0) && 0 <= x.1 < size)
}

/// Quotient and remainder of a non-negative offset by a positive block size.
proof fn lemma_offset_in_block(x: int, size: int)
    requires
        0 <= x,
        0 < size,
    ensures
        0 <= x / size <= x,
        0 <= x % size < size,
        x == size * (x / size) + x % size,
{
    vstd::arithmetic::div_mod::lemma_div_pos_is_pos(x, size);
    vstd::arithmetic::div_mod::lemma_div_is_ordered_by_denominator(x, 1, size);
    vstd::arithmetic::div_mod::lemma_mod_pos_bound(x, size);
    vstd::arithmetic::div_mod::lemma_fundamental_div_mod(x, size);
}

/// A slot number below `columns * rows` names one column and one row offset.
proof fn lemma_slot_parts(m1: int, n1: int, m2: int, n2: int, columns: int, rows: int)
    requires
        0 <= m1 < columns,
        0 <= m2 < columns,
        0 <= n1 < rows,
        0 <= n2 < rows,
    ensures
        0 <= m1 * rows + n1 < columns * rows,
        m1 * rows + n1 == m2 * rows + n2 ==> m1 == m2 && n1 == n2,
{
    assert(0 <= m1 * rows + n1 < columns * rows) by (nonlinear_arith)
        requires
            0 <= m1 < columns,
            0 <= n1 < rows,
    ;
    assert(m1 * rows + n1 == m2 * rows + n2 ==> m1 == m2) by (nonlinear_arith)
        requires
            0 <= m1,
            0 <= m2,
            0 <= n1 < rows,
            0 <= n2 < rows,
    ;
}

/// The listed blocks have at most `size` slots each.
proof fn lemma_block_slots_len(blocks: Set<(i64, i64)>, size: int)
    requires
        blocks.finite(),
        0 <= size,
    ensures
        block_slots(blocks, size).finite(),
        block_slots(blocks, size).len() <= blocks.len() * size,
    decreases blocks.len(),
{
    if blocks.is_empty() {
        assert(block_slots(blocks, size) =~= Set::empty());
    } else {
        let b = blocks.choose();
        let rest = blocks.remove(b);
        lemma_block_slots_len(rest, size);
        let place = |o: int| (b, o);
        let one = vstd::set_lib::set_int_range(0, size).map(place);
        vstd::set_lib::lemma_int_range(0, size);
        vstd::set_lib::lemma_map_size(vstd::set_lib::set_int_range(0, size), one, place);
        assert forall|x: ((i64, i64), int)| #[trigger]
            block_slots(blocks, size).contains(x) implies block_slots(rest, size).union(
            one,
        ).contains(x) by {
            if x.0 == b {
                assert(vstd::set_lib::set_int_range(0, size).contains(x.1));
                assert(place(x.1) == x);
            }
        }
        assert(block_slots(blocks, size) =~= block_slots(rest, size).union(one));
        vstd::set_lib::lemma_len_union(block_slots(rest, size), one);
        assert((blocks.len() - 1) * size + size == blocks.len() * size) by (nonlinear_arith);
    }
}

/// Each usable site's block is among the blocks of usable sites.
proof fn lemma_usable_site_blocks(sites: Seq<DieSite>, min_column: int, min_row: int, probe: ProbeArray)
    ensures
        forall|i: int|
            0 <= i < sites.len() && (#[trigger] sites[i]).class == DieClass::Usable ==> blocks_of(
                sites,
                min_column,
                min_row,
                probe,
            ).contains(block_of(sites[i], min_column, min_row, probe)),
    decreases sites.len(),
{
    if sites.len() > 0 {
        lemma_usable_site_blocks(sites.drop_last(), min_column, min_row, probe);
        assert forall|i: int|
            0 <= i < sites.len() && (#[trigger] sites[i]).class == DieClass::Usable implies blocks_of(
            sites,
            min_column,
            min_row,
            probe,
        ).contains(block_of(sites[i], min_column, min_row, probe)) by {
            if i < sites.len() - 1 {
                assert(sites.drop_last()[i] == sites[i]);
            }
        }
    }
}

/// When no two usable sites share a grid cell, the touchdowns cover every
/// gross die: the gross count is at most the number of touchdowns times the
/// sites per touchdown.
pub proof fn lemma_touchdowns_cover_gross_dies(sites: Seq<DieSite>, probe: ProbeArray)
    requires
        sites.len() <= usize::MAX,
        probe.columns > 0,
        probe.rows > 0,
        forall|i: int, j: int|
            0 <= i < j < sites.len() && (#[trigger] sites[i]).class == DieClass::Usable && (
            #[trigger] sites[j]).class == DieClass::Usable ==> sites[i].column != sites[j].column
                || sites[i].row != sites[j].row,
    ensures
        class_count(sites, DieClass::Usable) <= occupied_blocks(sites, probe).len() * (
        probe.columns * probe.rows),
{
    broadcast use vstd::seq_lib::seq_to_set_is_finite;

    let min_column = lowest_usable_column(sites);
    let min_row = lowest_usable_row(sites);
    let columns = probe.columns as int;
    let rows = probe.rows as int;
    let positions = usable_positions(sites);
    lemma_usable_positions_valid(sites);
    lemma_lowest_usable_bounds(sites);
    lemma_usable_site_blocks(sites, min_column, min_row, probe);
    lemma_blocks_bounded(sites, min_column, min_row, probe);
    positions.unique_seq_to_set();
    let usable = positions.to_set();
    let place = |p: usize|
        (
            block_of(sites[p as int], min_column, min_row, probe),
            block_slot(sites[p as int], min_column, min_row, probe),
        );
    assert forall|p: usize| #[trigger] usable.contains(p) implies p < sites.len()
        && sites[p as int].class == DieClass::Usable && {
        let site = sites[p as int];
        let x = site.column - min_column;
        let y = site.row - min_row;
        &&& 0 <= x / columns <= x
        &&& 0 <= x % columns < columns
        &&& x == columns * (x / columns) + x % columns
        &&& 0 <= y / rows <= y
        &&& 0 <= y % rows < rows
        &&& y == rows * (y / rows) + y % rows
        &&& x <= 0x1_0000_0000
        &&& y <= 0x1_0000_0000
    } by {
        let k = choose|k: int| 0 <= k < positions.len() && positions[k] == p;
        assert(positions[k] < sites.len());
        let site = sites[p as int];
        lemma_offset_in_block(site.column - min_column, columns);
        lemma_offset_in_block(site.row - min_row, rows);
    }
    assert forall|p1: usize, p2: usize|
        usable.contains(p1) && usable.contains(p2) && #[trigger] place(p1) == #[trigger] place(
            p2,
        ) implies p1 == p2 by {
        let s1 = sites[p1 as int];
        let s2 = sites[p2 as int];
        let x1 = s1.column - min_column;
        let x2 = s2.column - min_column;
        let y1 = s1.row - min_row;
        let y2 = s2.row - min_row;
        assert(x1 / columns == x2 / columns);
        assert(y1 / rows == y2 / rows);
        lemma_slot_parts(x1 % columns, y1 % rows, x2 % columns, y2 % rows, columns, rows);
        assert(s1.column == s2.column && s1.row == s2.row);
        if p1 < p2 {
            assert(sites[p1 as int].class == DieClass::Usable);
        } else if p2 < p1 {
            assert(sites[p2 as int].class == DieClass::Usable);
        }
    }
    let slots = usable.map(place);
    vstd::set_lib::lemma_map_size(usable, slots, place);
    let blocks = occupied_blocks(sites, probe);
    lemma_block_slots_len(blocks, columns * rows);
    assert forall|x: ((i64, i64), int)| #[trigger] slots.contains(x) implies block_slots(
        blocks,
        columns * rows,
    ).contains(x) by {
        let p = choose|p: usize| usable.contains(p) && place(p) == x;
        let site = sites[p as int];
        lemma_slot_parts(
            (site.column - min_column) % columns,
            (site.row - min_row) % rows,
            (site.column - min_column) % columns,
            (site.row - min_row) % rows,
            columns,
            rows,
        );
    }
    vstd::set_lib::lemma_len_subset(slots, block_slots(blocks, columns * rows));
}

/// The lowest usable column and row are attained by a usable site whenever
/// there is one.
proof fn lemma_lowest_usable_attained(sites: Seq<DieSite>)
    ensures
        class_count(sites, DieClass::Usable) > 0 ==> exists|i: int|
            0 <= i < sites.len() && (#[trigger] sites[i]).class == DieClass::Usable
                && sites[i].column == lowest_usable_column(sites),
        class_count(sites, DieClass::Usable) > 0 ==> exists|i: int|
            0 <= i < sites.len() && (#[trigger] sites[i]).class == DieClass::Usable
                && sites[i].row == lowest_usable_row(sites),
        class_count(sites, DieClass::Usable) == 0 ==> lowest_usable_column(sites) == i32::MAX
            && lowest_usable_row(sites) == i32::MAX,
    decreases sites.len(),
{
    if sites.len() > 0 {
        let prev = sites.drop_last();
        let n = sites.len() - 1;
        lemma_usable_attained_step(sites);
        lemma_lowest_usable_attained(prev);
        if class_count(prev, DieClass::Usable) > 0 {
            let i = choose|i: int|
                0 <= i < prev.len() && (#[trigger] prev[i]).class == DieClass::Usable
                    && prev[i].column == lowest_usable_column(prev);
            let j = choose|j: int|
                0 <= j < prev.len() && (#[trigger] prev[j]).class == DieClass::Usable
                    && prev[j].row == lowest_usable_row(prev);
            assert(sites[i] == prev[i]);
            assert(sites[j] == prev[j]);
            assert(sites[n] == sites.last());
        } else {
            assert(sites[n] == sites.last());
        }
    }
}

/// One step of the recursion of the lowest usable column and row.
proof fn lemma_usable_attained_step(sites: Seq<DieSite>)
    requires
        sites.len() > 0,
    ensures
        class_count(sites, DieClass::Usable) == class_count(sites.drop_last(), DieClass::Usable)
            + if sites.last().class == DieClass::Usable {
            1nat
        } else {
            0nat
        },
{
}

/// Blocks of usable sites are exactly the blocks some usable site falls in.
proof fn lemma_blocks_of_usable_sites(
    sites: Seq<DieSite>,
    min_column: int,
    min_row: int,
    probe: ProbeArray,
)
    ensures
        forall|b: (i64, i64)|
            #[trigger] blocks_of(sites, min_column, min_row, probe).contains(b) <==> exists|i: int|
                0 <= i < sites.len() && (#[trigger] sites[i]).class == DieClass::Usable && b
                    == block_of(sites[i], min_column, min_row, probe),
    decreases sites.len(),
{
    if sites.len() > 0 {
        let prev = sites.drop_last();
        lemma_blocks_of_usable_sites(prev, min_column, min_row, probe);
        assert forall|b: (i64, i64)|
            #[trigger] blocks_of(sites, min_column, min_row, probe).contains(b) <==> exists|i: int|
                0 <= i < sites.len() && (#[trigger] sites[i]).class == DieClass::Usable && b
                    == block_of(sites[i], min_column, min_row, probe) by {
            if blocks_of(prev, min_column, min_row, probe).contains(b) {
                let i = choose|i: int|
                    0 <= i < prev.len() && (#[trigger] prev[i]).class == DieClass::Usable && b
                        == block_of(prev[i], min_column, min_row, probe);
                assert(sites[i] == prev[i]);
            }
            if exists|i: int|
                0 <= i < sites.len() && (#[trigger] sites[i]).class == DieClass::Usable && b
                    == block_of(sites[i], min_column, min_row, probe) {
                let i = choose|i: int|
                    0 <= i < sites.len() && (#[trigger] sites[i]).class == DieClass::Usable && b
                        == block_of(sites[i], min_column, min_row, probe);
                if i < prev.len() {
                    assert(prev[i] == sites[i]);
                }
            }
        }
    }
}

/// The touchdown grid is anchored at the usable dies alone: its first column
/// and row are the smallest column and row of a usable site, and a block is
/// occupied exactly when some usable site falls in it, so partial and
/// edge-band sites never move the grid or add touchdowns.
pub proof fn lemma_probe_grid_anchored_at_usable_sites(sites: Seq<DieSite>, probe: ProbeArray)
    ensures
        forall|i: int|
            0 <= i < sites.len() && (#[trigger] sites[i]).class == DieClass::Usable ==> {
                &&& lowest_usable_column(sites) <= sites[i].column
                &&& lowest_usable_row(sites) <= sites[i].row
            },
        class_count(sites, DieClass::Usable) > 0 ==> exists|i: int|
            0 <= i < sites.len() && (#[trigger] sites[i]).class == DieClass::Usable
                && sites[i].column == lowest_usable_column(sites),
        class_count(sites, DieClass::Usable) > 0 ==> exists|i: int|
            0 <= i < sites.len() && (#[trigger] sites[i]).class == DieClass::Usable
                && sites[i].row == lowest_usable_row(sites),
        forall|b: (i64, i64)|
            #[trigger] occupied_blocks(sites, probe).contains(b) <==> exists|i: int|
                0 <= i < sites.len() && (#[trigger] sites[i]).class == DieClass::Usable && b == (
                ((sites[i].column - lowest_usable_column(sites)) / (probe.columns as int)) as i64,
                ((sites[i].row - lowest_usable_row(sites)) / (probe.rows as int)) as i64,
            ),
{
    lemma_lowest_usable_bounds(sites);
    lemma_lowest_usable_attained(sites);
    lemma_blocks_of_usable_sites(
        sites,
        lowest_usable_column(sites),
        lowest_usable_row(sites),
        probe,
    );
}

/// Sites the probe array covers at one touchdown, and the number of occupied
/// array-sized blocks of usable sites, counted on a fixed grid aligned at the
/// lowest usable column and row.
pub fn summarize_probe(probe: ProbeArray, sites: &[DieSite]) -> (summary: ProbeSummary)
    requires
        class_count(sites@, DieClass::Usable) > 0 ==> probe.columns > 0 && probe.rows > 0,
    ensures
        summary.sites_per_touchdown == probe.columns * probe.rows,
        summary.touchdown_count == occupied_blocks(sites@, probe).len(),
{
    proof {
        let c = probe.columns as int;
        let r = probe.rows as int;
        assert(0 <= c * r <= u64::MAX) by (nonlinear_arith)
            requires
                0 <= c <= u32::MAX,
                0 <= r <= u32::MAX,
        ;
    }
    let sites_per_touchdown: u64 = (probe.columns as u64) * (probe.rows as u64);
    let mut found = false;
    let mut min_column: i32 = i32::MAX;
    let mut min_row: i32 = i32::MAX;
    let mut i: usize = 0;
    while i < sites.len()
        invariant
            i <= sites@.len(),
            min_column == lowest_usable_column(sites@.take(i as int)),
            min_row == lowest_usable_row(sites@.take(i as int)),
            found == (class_count(sites@.take(i as int), DieClass::Usable) > 0),
        decreases sites.len() - i,
    {
        proof {
            assert(sites@.take(i + 1).drop_last() =~= sites@.take(i as int));
        }
        let site = sites[i];
        if site.class == DieClass::Usable {
            found = true;
            if site.column < min_column {
                min_column = site.column;
            }
            if site.row < min_row {
                min_row = site.row;
            }
        }
        i = i + 1;
    }
    proof {
        assert(sites@.take(sites@.len() as int) =~= sites@);
        lemma_blocks_bounded(sites@, min_column as int, min_row as int, probe);
        lemma_lowest_usable_bounds(sites@);
    }
    if !found {
        return ProbeSummary { sites_per_touchdown, touchdown_count: 0 };
    }
    let columns: i64 = probe.columns as i64;
    let rows: i64 = probe.rows as i64;
    let mut blocks: BTreeSet<(i64, i64)> = BTreeSet::new();
    let mut j: usize = 0;
    while j < sites.len()
        invariant
            j <= sites@.len(),
            columns == probe.columns as i64,
            rows == probe.rows as i64,
            columns > 0,
            rows > 0,
            forall|k: int|
                0 <= k < sites@.len() && (#[trigger] sites@[k]).class == DieClass::Usable ==> {
                    &&& min_column <= sites@[k].column
                    &&& min_row <= sites@[k].row
                },
            blocks@ == blocks_of(sites@.take(j as int), min_column as int, min_row as int, probe),
        decreases sites.len() - j,
    {
        proof {
            assert(sites@.take(j + 1).drop_last() =~= sites@.take(j as int));
        }
        let site = sites[j];
        if site.class == DieClass::Usable {
            let column_offset: i64 = (site.column as i64) - (min_column as i64);
            let row_offset: i64 = (site.row as i64) - (min_row as i64);
            let block = (column_offset / columns, row_offset / rows);
            proof {
                assert(block == block_of(site, min_column as int, min_row as int, probe));
            }
            blocks.insert(block);
        }
        j = j + 1;
    }
    proof {
        assert(sites@.take(sites@.len() as int) =~= sites@);
        lemma_blocks_bounded(sites@, min_column as int, min_row as int, probe);
    }
    let touchdown_count: u64 = blocks.len() as u64;
    ProbeSummary { sites_per_touchdown, touchdown_count }
}

/// Every site is usable, partial or in the edge band.
pub proof fn lemma_classes_partition(sites: Seq<DieSite>)
    ensures
        class_count(sites, DieClass::Usable) + class_count(sites, DieClass::Partial)
            + class_count(sites, DieClass::EdgeExclusion) == sites.len(),
    decreases sites.len(),
{
    if sites.len() > 0 {
        lemma_classes_partition(sites.drop_last());
    }
}

/// Expected good dies: the rounded expectation, capped at the gross count.
pub open spec fn capped_good(gross: nat, rounded_good: nat) -> nat {
    if rounded_good < gross {
        rounded_good
    } else {
        gross
    }
}

/// Splits the gross die count into expected good dies (the rounded
/// expectation, capped at the gross count) and the remaining defective dies.
pub fn expected_counts(geometric_usable: u64, rounded_good: u64) -> (counts: (u64, u64))
    ensures
        counts.0 == capped_good(geometric_usable as nat, rounded_good as nat),
        counts.1 == geometric_usable - counts.0,
        counts.0 + counts.1 == geometric_usable,
{
    let good = if rounded_good < geometric_usable {
        rounded_good
    } else {
        geometric_usable
    };
    (good, geometric_usable - good)
}

/// Geometric and statistical die totals of one analysis.
#[derive(Clone, Copy, Debug, PartialEq, Eq, Structural)]
pub struct SiteTotals {
    /// Complete dies inside the usable radius before statistical defects.
    pub geometric_usable: u64,
    /// Expected good dies after statistical defects.
    pub expected_good: u64,
    /// Expected defective dies.
    pub expected_defective: u64,
    /// Dies intersecting the usable-radius boundary.
    pub partial: u64,
    /// Candidates wholly in the edge-exclusion band.
    pub edge_excluded: u64,
}

/// Counts the sites by class, splits the gross count with the rounded good-die
/// expectation, marks the expected defective dies on usable sites, and
/// summarizes probe coverage. On sites as the grid builder makes them, without
/// markers, exactly the expected defective dies end up marked.
pub fn settle_sites(
    sites: &mut Vec<DieSite>,
    probe: ProbeArray,
    rounded_good: u64,
    seed: u64,
) -> (settled: (SiteTotals, ProbeSummary))
    requires
        class_count(old(sites)@, DieClass::Usable) > 0 ==> probe.columns > 0 && probe.rows > 0,
    ensures
        settled.0.geometric_usable == class_count(old(sites)@, DieClass::Usable),
        settled.0.expected_good == capped_good(settled.0.geometric_usable as nat, rounded_good as nat),
        settled.0.expected_defective == settled.0.geometric_usable - settled.0.expected_good,
        settled.0.partial == class_count(old(sites)@, DieClass::Partial),
        settled.0.edge_excluded == class_count(old(sites)@, DieClass::EdgeExclusion),
        final(sites)@ == with_marks(
            old(sites)@,
            marked_positions(old(sites)@, settled.0.expected_defective as nat, seed),
        ),
        settled.1.sites_per_touchdown == probe.columns * probe.rows,
        settled.1.touchdown_count == occupied_blocks(old(sites)@, probe).len(),
        defective_count(old(sites)@) == 0 ==> defective_count(final(sites)@)
            == settled.0.expected_defective,
        forall|i: int|
            0 <= i < final(sites)@.len() && (#[trigger] final(sites)@[i]).defective
                && !old(sites)@[i].defective ==> final(sites)@[i].class == DieClass::Usable,
{
    let geometric_usable: u64 = count_class(sites.as_slice(), DieClass::Usable);
    let partial: u64 = count_class(sites.as_slice(), DieClass::Partial);
    let edge_excluded: u64 = count_class(sites.as_slice(), DieClass::EdgeExclusion);
    let (expected_good, expected_defective) = expected_counts(geometric_usable, rounded_good);
    let probe_summary = summarize_probe(probe, sites.as_slice());
    proof {
        lemma_classes_partition(sites@);
        assert(expected_defective <= sites.len());
    }
    let ghost before = sites@;
    mark_expected_defects(sites, expected_defective as usize, seed);
    proof {
        lemma_markers_fall_on_usable_sites(before, expected_defective as nat, seed);
        assert forall|i: int|
            0 <= i < sites@.len() && (#[trigger] sites@[i]).defective && !before[i].defective
                implies sites@[i].class == DieClass::Usable by {
            assert(sites@[i].class == before[i].class);
        }
    }
    (
        SiteTotals { geometric_usable, expected_good, expected_defective, partial, edge_excluded },
        probe_summary,
    )
}

/// The totals of a settled analysis agree with its sites: expected good and
/// defective dies make up the gross count; usable, partial and edge-band sites
/// make up all sites; exactly the expected number of defective dies is chosen,
/// at distinct usable sites, so that on sites without earlier markers exactly
/// that many are marked, all of them usable; and the number of touchdowns
/// never exceeds the gross count, being zero exactly when there is no gross die.
pub proof fn lemma_settled_totals_consistent(
    sites: Seq<DieSite>,
    probe: ProbeArray,
    rounded_good: nat,
    seed: u64,
)
    requires
        sites.len() <= usize::MAX,
    ensures
        ({
            let gross = class_count(sites, DieClass::Usable);
            let good = capped_good(gross, rounded_good);
            let defective = (gross - good) as nat;
            let settled = with_marks(sites, marked_positions(sites, defective, seed));
            &&& good + defective == gross
            &&& gross + class_count(sites, DieClass::Partial) + class_count(
                sites,
                DieClass::EdgeExclusion,
            ) == sites.len()
            &&& marked_positions(sites, defective, seed).len() == defective
            &&& marked_positions(sites, defective, seed).no_duplicates()
            &&& forall|k: int|
                0 <= k < defective ==> {
                    let position = #[trigger] marked_positions(sites, defective, seed)[k];
                    &&& position < sites.len()
                    &&& sites[position as int].class == DieClass::Usable
                }
            &&& defective_count(sites) == 0 ==> defective_count(settled) == defective
            &&& forall|i: int|
                0 <= i < sites.len() && (#[trigger] settled[i]).defective && !sites[i].defective
                    ==> settled[i].class == DieClass::Usable
            &&& occupied_blocks(sites, probe).len() <= gross
            &&& (occupied_blocks(sites, probe).len() == 0) == (gross == 0)
        }),
{
    let gross = class_count(sites, DieClass::Usable);
    let good = capped_good(gross, rounded_good);
    let defective = (gross - good) as nat;
    lemma_classes_partition(sites);
    lemma_markers_fall_on_usable_sites(sites, defective, seed);
    lemma_blocks_bounded(sites, lowest_usable_column(sites), lowest_usable_row(sites), probe);
    let settled = with_marks(sites, marked_positions(sites, defective, seed));
    assert forall|i: int|
        0 <= i < sites.len() && (#[trigger] settled[i]).defective && !sites[i].defective
            implies settled[i].class == DieClass::Usable by {
        assert(settled[i].class == sites[i].class);
    }
}

} // verus!
