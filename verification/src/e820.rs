//! Reconciliation of the firmware-provided physical memory map (E820) into a
//! trustworthy inventory of allocatable page frames.

use vstd::prelude::*;

verus! {

use vstd::arithmetic::div_mod::{lemma_div_is_ordered, lemma_div_multiples_vanish,
    lemma_fundamental_div_mod, lemma_mod_bound};

/// One record of the firmware memory map: a byte range and its region type.
/// Region type 1 marks usable memory.
#[derive(Clone, Copy, Debug)]
pub struct MemoryRegion {
    pub base: u64,
    pub length: u64,
    pub region_type: u32,
    pub acpi: u32,
}

/// The region-type value that marks usable memory in a firmware record.
pub const E820_MEMORY_USABLE: u32 = 1;

/// End address (exclusive) of a record, as a mathematical integer.
pub open spec fn rec_end(r: MemoryRegion) -> int {
    r.base + r.length
}

/// The record covers byte address `a`.
pub open spec fn covers(r: MemoryRegion, a: int) -> bool {
    r.length > 0 && r.base <= a < rec_end(r)
}

/// `x` is a boundary point: the start or the (exclusive) end of some
/// non-empty record.
pub open spec fn is_boundary(recs: Seq<MemoryRegion>, x: int) -> bool {
    exists|i: int|
        0 <= i < recs.len() && recs[i].length > 0 && (x == recs[i].base || x == rec_end(recs[i]))
}

/// `p` and `q` are boundary points with no boundary point strictly between.
pub open spec fn adjacent_boundaries(recs: Seq<MemoryRegion>, p: int, q: int) -> bool {
    &&& is_boundary(recs, p)
    &&& is_boundary(recs, q)
    &&& p < q
    &&& forall|b: int| p < b < q ==> !is_boundary(recs, b)
}

/// Conservative usability of one byte: at least one record covers it, and
/// every record covering it is of the usable type.
pub open spec fn usable_byte(recs: Seq<MemoryRegion>, a: int) -> bool {
    &&& exists|i: int| 0 <= i < recs.len() && covers(recs[i], a)
    &&& forall|i: int|
        0 <= i < recs.len() && covers(recs[i], a) ==> recs[i].region_type == E820_MEMORY_USABLE
}

/// Index of the first frame that starts at or after byte address `p`.
pub open spec fn first_frame(p: int) -> int {
    if p % 4096 == 0 {
        p / 4096
    } else {
        p / 4096 + 1
    }
}

/// The reconciliation emits the frame range `[s, e]` from the byte fragment
/// `[p, q)` bounded by the adjacent boundary points `p` and `q`.
pub open spec fn emitted_at(recs: Seq<MemoryRegion>, p: int, q: int, s: int, e: int) -> bool {
    &&& adjacent_boundaries(recs, p, q)
    &&& usable_byte(recs, p)
    &&& s == first_frame(p)
    &&& e == q / 4096 - 1
    &&& s <= e
}

/// The reconciliation emits the frame range `[s, e]`.
pub open spec fn emitted(recs: Seq<MemoryRegion>, s: int, e: int) -> bool {
    exists|p: int, q: int| emitted_at(recs, p, q, s, e)
}

/// The inventory `ranges` is exactly the reconciliation of the records
/// `recs`: the ranges are sorted ascending and pairwise disjoint, every range
/// is an emitted one, and every emitted range is present.
pub open spec fn reconciled(recs: Seq<MemoryRegion>, ranges: Seq<(usize, usize)>) -> bool {
    &&& forall|i: int, j: int|
        0 <= i < j < ranges.len() ==> #[trigger] ranges[i].1 < #[trigger] ranges[j].0
    &&& forall|k: int|
        0 <= k < ranges.len() ==> emitted(recs, #[trigger] ranges[k].0 as int, ranges[k].1 as int)
    &&& forall|s: int, e: int|
        #[trigger] emitted(recs, s, e) ==> exists|k: int|
            0 <= k < ranges.len() && ranges[k].0 == s && ranges[k].1 == e
}

/// Strictly ascending sequence.
pub open spec fn sorted_strict(s: Seq<u64>) -> bool {
    forall|i: int, j: int| 0 <= i < j < s.len() ==> s[i] < s[j]
}

/// Inserts `x` into the strictly sorted vector `v`, keeping it strictly
/// sorted; a value already present is not duplicated.
fn insert_sorted(v: &mut Vec<u64>, x: u64)
    requires
        sorted_strict(old(v)@),
    ensures
        sorted_strict(final(v)@),
        forall|y: u64| final(v)@.contains(y) <==> (old(v)@.contains(y) || y == x),
{
    let mut idx: usize = 0;
    while idx < v.len() && v[idx] < x
        invariant
            sorted_strict(v@),
            v@ == old(v)@,
            idx <= v@.len(),
            forall|i: int| 0 <= i < idx ==> v@[i] < x,
        decreases v@.len() - idx,
    {
        idx = idx + 1;
    }
    if idx < v.len() && v[idx] == x {
        proof {
            assert(v@.contains(x));
        }
        return;
    }
    let ghost oldv = v@;
    v.insert(idx, x);
    proof {
        assert(idx < oldv.len() ==> oldv[idx as int] > x);
        assert forall|y: u64| v@.contains(y) <==> (oldv.contains(y) || y == x) by {
            if v@.contains(y) {
                let i = choose|i: int| 0 <= i < v@.len() && v@[i] == y;
                if i < idx {
                    assert(oldv[i] == y);
                    assert(oldv.contains(y));
                } else if i == idx {
                    assert(y == x);
                } else {
                    assert(oldv[i - 1] == y);
                    assert(oldv.contains(y));
                }
            }
            if oldv.contains(y) {
                let i = choose|i: int| 0 <= i < oldv.len() && oldv[i] == y;
                if i < idx {
                    assert(v@[i] == y);
                } else {
                    assert(v@[i + 1] == y);
                }
                assert(v@.contains(y));
            }
            if y == x {
                assert(v@[idx as int] == x);
                assert(v@.contains(x));
            }
        }
        assert forall|i: int, j: int| 0 <= i < j < v@.len() implies v@[i] < v@[j] by {
            if j < idx {
            } else if i < idx && j == idx {
                assert(v@[i] == oldv[i]);
            } else if i < idx && j > idx {
                assert(v@[i] == oldv[i]);
                assert(v@[j] == oldv[j - 1]);
                assert(oldv[idx as int] > x);
                assert(oldv[idx as int] <= oldv[j - 1]);
            } else if i == idx {
                assert(v@[j] == oldv[j - 1]);
                assert(oldv[idx as int] > x);
                assert(oldv[idx as int] <= oldv[j - 1]);
            } else {
                assert(v@[i] == oldv[i - 1]);
                assert(v@[j] == oldv[j - 1]);
            }
        }
    }
}

impl MemoryRegion {
    /// Returns the start address of the region.
    pub fn start_addr(&self) -> (r: u64)
        ensures
            r == self.base,
    {
        self.base
    }

    /// Returns the length of the region (in bytes).
    pub fn len(&self) -> (r: u64)
        ensures
            r == self.length,
    {
        self.length
    }

    /// Returns the end address of the region (exclusive).
    pub fn end_addr(&self) -> (r: u64)
        requires
            self.base + self.length <= u64::MAX,
        ensures
            r == self.base + self.length,
    {
        self.base + self.length
    }
}

/// Extending the considered records by one changes the boundary points by at
/// most the new record's start and end.
proof fn lemma_boundary_step(records: Seq<MemoryRegion>, i: int, y: int)
    requires
        0 <= i < records.len(),
    ensures
        is_boundary(records.take(i + 1), y) <==> (is_boundary(records.take(i), y) || (
        records[i].length > 0 && (y == records[i].base || y == rec_end(records[i])))),
{
    let s1 = records.take(i + 1);
    let s0 = records.take(i);
    if is_boundary(s1, y) {
        let k = choose|k: int|
            0 <= k < s1.len() && s1[k].length > 0 && (y == s1[k].base || y == rec_end(s1[k]));
        if k < i {
            assert(s0[k] == records[k]);
            assert(s1[k] == records[k]);
            assert(is_boundary(s0, y));
        } else {
            assert(s1[k] == records[i]);
        }
    }
    if is_boundary(s0, y) {
        let k = choose|k: int|
            0 <= k < s0.len() && s0[k].length > 0 && (y == s0[k].base || y == rec_end(s0[k]));
        assert(s1[k] == s0[k]);
        assert(is_boundary(s1, y));
    }
    if records[i].length > 0 && (y == records[i].base || y == rec_end(records[i])) {
        assert(s1[i] == records[i]);
        assert(is_boundary(s1, y));
    }
}

/// Two consecutive entries of a strictly sorted vector holding exactly the
/// boundary points are adjacent boundary points.
proof fn lemma_consecutive_adjacent(recs: Seq<MemoryRegion>, endpoints: Seq<u64>, k: int)
    requires
        sorted_strict(endpoints),
        forall|y: u64| endpoints.contains(y) <==> is_boundary(recs, y as int),
        forall|x: int| #[trigger] is_boundary(recs, x) ==> 0 <= x <= u64::MAX,
        0 <= k,
        k + 1 < endpoints.len(),
    ensures
        adjacent_boundaries(recs, endpoints[k] as int, endpoints[k + 1] as int),
{
    let p = endpoints[k] as int;
    let q = endpoints[k + 1] as int;
    assert(endpoints.contains(endpoints[k]));
    assert(endpoints.contains(endpoints[k + 1]));
    assert(p < q);
    assert forall|b: int| p < b < q implies !is_boundary(recs, b) by {
        if is_boundary(recs, b) {
            let bu = b as u64;
            assert(bu as int == b);
            assert(endpoints.contains(bu));
            let m = choose|m: int| 0 <= m < endpoints.len() && endpoints[m] == bu;
            if m <= k {
                assert(endpoints[m] <= endpoints[k]);
            } else {
                assert(endpoints[m] >= endpoints[k + 1]);
            }
        }
    }
}

/// Decides conservative usability of the byte at address `p` from the first
/// `count` records: usable iff at least one record covers it and every record
/// covering it is of the usable type.
fn fragment_usable(records: &Vec<MemoryRegion>, count: usize, p: u64) -> (r: bool)
    requires
        count <= records@.len(),
        forall|t: int|
            0 <= t < count ==> (#[trigger] records@[t]).base + records@[t].length <= u64::MAX,
    ensures
        r == usable_byte(records@.take(count as int), p as int),
{
    let ghost recs = records@.take(count as int);
    let mut started = false;
    let mut all_usable = true;
    let mut j: usize = 0;
    while j < count
        invariant
            j <= count,
            count <= records@.len(),
            recs == records@.take(count as int),
            forall|t: int|
                0 <= t < count ==> (#[trigger] records@[t]).base + records@[t].length <= u64::MAX,
            started == exists|t: int| 0 <= t < j && covers(#[trigger] recs[t], p as int),
            all_usable == forall|t: int|
                0 <= t < j && covers(#[trigger] recs[t], p as int) ==> recs[t].region_type
                    == E820_MEMORY_USABLE,
        decreases count - j,
    {
        let r = records[j];
        proof {
            assert(recs[j as int] == records@[j as int]);
        }
        if r.length > 0 && r.base <= p && p < r.base + r.length {
            proof {
                assert(covers(recs[j as int], p as int));
            }
            started = true;
            if r.region_type != E820_MEMORY_USABLE {
                all_usable = false;
            }
        }
        j = j + 1;
    }
    proof {
        assert(recs.len() == count as int);
    }
    started && all_usable
}

/// Sum of (end_frame - start_frame + 1) over all ranges.
pub open spec fn total_frames(ranges: Seq<(usize, usize)>) -> int
    decreases ranges.len(),
{
    if ranges.len() == 0 {
        0
    } else {
        total_frames(ranges.drop_last()) + (ranges.last().1 - ranges.last().0 + 1)
    }
}

/// The reconciled, page-aligned inventory of usable physical frame ranges.
/// Immutable after construction.
#[derive(Debug)]
pub struct E820Info {
    regions: Vec<(usize, usize)>,
}

impl View for E820Info {
    type V = Seq<(usize, usize)>;

    closed spec fn view(&self) -> Seq<(usize, usize)> {
        self.regions@
    }
}

impl E820Info {
    /// Invariant of the inventory: ranges are sorted ascending by start and
    /// pairwise non-overlapping, each range is non-empty, and frame indices
    /// leave room for the total frame count to be computed.
    pub open spec fn inv(&self) -> bool {
        &&& forall|i: int, j: int|
            0 <= i < j < self@.len() ==> #[trigger] self@[i].1 < #[trigger] self@[j].0
        &&& forall|i: int|
            0 <= i < self@.len() ==> (#[trigger] self@[i]).0 <= self@[i].1 && self@[i].1
                < usize::MAX
    }

    /// Number of ranges in the inventory.
    pub fn num_regions(&self) -> (r: usize)
        ensures
            r == self@.len(),
    {
        self.regions.len()
    }

    /// The `i`-th range, as inclusive (start_frame, end_frame).
    pub fn region(&self, i: usize) -> (r: (usize, usize))
        requires
            i < self@.len(),
        ensures
            r == self@[i as int],
    {
        self.regions[i]
    }

    /// Reconcile the first `count` firmware records, which may overlap and
    /// conflict, into the inventory of usable page-aligned frame ranges.
    /// A byte counts as usable only if every record covering it is of the
    /// usable type; ranges that do not contain a full page are dropped.
    #[verifier::rlimit(100)]
    pub fn read(records: &Vec<MemoryRegion>, count: usize) -> (info: E820Info)
        requires
            count <= records@.len(),
            forall|t: int|
                0 <= t < count ==> (#[trigger] records@[t]).base + records@[t].length <= u64::MAX,
            forall|t: int|
                0 <= t < count ==> ((#[trigger] records@[t]).base + records@[t].length) / 4096
                    <= usize::MAX,
        ensures
            info.inv(),
            reconciled(records@.take(count as int), info@),
    {
        let ghost recs = records@.take(count as int);
        // Collect the set of all distinct boundary points, sorted ascending.
        let mut endpoints: Vec<u64> = Vec::new();
        let mut i: usize = 0;
        while i < count
            invariant
                i <= count,
                count <= records@.len(),
                forall|t: int|
                    0 <= t < count ==> (#[trigger] records@[t]).base + records@[t].length
                        <= u64::MAX,
                sorted_strict(endpoints@),
                forall|y: u64|
                    endpoints@.contains(y) <==> is_boundary(records@.take(i as int), y as int),
            decreases count - i,
        {
            let r = records[i];
            if r.length > 0 {
                insert_sorted(&mut endpoints, r.base);
                insert_sorted(&mut endpoints, r.base + r.length);
            }
            proof {
                assert forall|y: u64|
                    endpoints@.contains(y) <==> is_boundary(records@.take(i + 1), y as int) by {
                    lemma_boundary_step(records@, i as int, y as int);
                }
            }
            i = i + 1;
        }
        proof {
            assert forall|x: int| #[trigger] is_boundary(recs, x) implies 0 <= x <= u64::MAX && x
                / 4096 <= usize::MAX by {
                let t = choose|t: int|
                    0 <= t < recs.len() && recs[t].length > 0 && (x == recs[t].base || x == rec_end(
                        recs[t],
                    ));
                assert(recs[t] == records@[t]);
                if x == recs[t].base {
                    lemma_div_is_ordered(x, records@[t].base + records@[t].length, 4096);
                }
            }
        }
        // Walk the boundary points in ascending order; the fragment between
        // two adjacent boundary points is usable iff at least one record
        // covers it and every record covering it is of the usable type.
        let mut regions: Vec<(usize, usize)> = Vec::new();
        let mut k: usize = 0;
        let n = endpoints.len();
        while k + 1 < n
            invariant
                n == endpoints@.len(),
                count <= records@.len(),
                recs == records@.take(count as int),
                forall|t: int|
                    0 <= t < count ==> (#[trigger] records@[t]).base + records@[t].length
                        <= u64::MAX,
                sorted_strict(endpoints@),
                forall|y: u64| endpoints@.contains(y) <==> is_boundary(recs, y as int),
                forall|x: int|
                    #[trigger] is_boundary(recs, x) ==> 0 <= x <= u64::MAX && x / 4096
                        <= usize::MAX,
                endpoints@.len() == 0 ==> k == 0,
                endpoints@.len() > 0 ==> k < endpoints@.len(),
                forall|idx: int|
                    0 <= idx < regions@.len() ==> emitted(
                        recs,
                        #[trigger] regions@[idx].0 as int,
                        regions@[idx].1 as int,
                    ),
                forall|i2: int, j2: int|
                    0 <= i2 < j2 < regions@.len() ==> #[trigger] regions@[i2].1
                        < #[trigger] regions@[j2].0,
                forall|idx: int|
                    0 <= idx < regions@.len() ==> (#[trigger] regions@[idx]).0 <= regions@[idx].1
                        && regions@[idx].1 < usize::MAX,
                forall|idx: int|
                    0 <= idx < regions@.len() ==> (#[trigger] regions@[idx]).1 + 1 <= endpoints@[k as int]
                        as int / 4096,
                forall|kk: int|
                    0 <= kk < k ==> ((usable_byte(recs, #[trigger] endpoints@[kk] as int)
                        && first_frame(endpoints@[kk] as int) <= endpoints@[kk + 1] as int / 4096
                        - 1) ==> exists|idx: int|
                        0 <= idx < regions@.len() && regions@[idx].0 == first_frame(
                            endpoints@[kk] as int,
                        ) && regions@[idx].1 == endpoints@[kk + 1] as int / 4096 - 1),
            decreases endpoints@.len() - k,
        {
            let p = endpoints[k];
            let q = endpoints[k + 1];
            // The fragment [p, q) is usable iff its first byte is: the same
            // records cover every byte of a fragment between two adjacent
            // boundary points.
            let usable = fragment_usable(records, count, p);
            proof {
                lemma_consecutive_adjacent(recs, endpoints@, k as int);
                assert(is_boundary(recs, q as int));
                lemma_div_is_ordered(endpoints@[k as int] as int, endpoints@[k + 1] as int, 4096);
            }
            let s_frame: u64 = if p % 4096 == 0 {
                p / 4096
            } else {
                p / 4096 + 1
            };
            let e_excl: u64 = q / 4096;
            proof {
                assert(s_frame as int == first_frame(p as int));
                assert(e_excl as int == q as int / 4096);
                assert(e_excl <= usize::MAX);
            }
            let ghost regions_before = regions@;
            if usable && s_frame < e_excl {
                proof {
                    assert(emitted_at(recs, p as int, q as int, s_frame as int, e_excl as int - 1));
                    assert(emitted(recs, s_frame as int, e_excl as int - 1));
                }
                regions.push((s_frame as usize, (e_excl - 1) as usize));
            }
            proof {
                // Every emitted range whose fragment begins at a boundary
                // point processed so far is now present.
                assert forall|kk: int|
                    0 <= kk < k + 1 implies ((usable_byte(recs, #[trigger] endpoints@[kk] as int)
                    && first_frame(endpoints@[kk] as int) <= endpoints@[kk + 1] as int / 4096
                    - 1) ==> exists|idx: int|
                    0 <= idx < regions@.len() && regions@[idx].0 == first_frame(
                        endpoints@[kk] as int,
                    ) && regions@[idx].1 == endpoints@[kk + 1] as int / 4096 - 1) by {
                    if usable_byte(recs, endpoints@[kk] as int) && first_frame(
                        endpoints@[kk] as int,
                    ) <= endpoints@[kk + 1] as int / 4096 - 1 {
                        if kk == k {
                            assert(usable);
                            assert(s_frame < e_excl);
                            let last = regions@.len() - 1;
                            assert(regions@[last].0 == first_frame(endpoints@[kk] as int));
                            assert(regions@[last].1 == endpoints@[kk + 1] as int / 4096 - 1);
                        } else {
                            let idx = choose|idx: int|
                                0 <= idx < regions_before.len() && regions_before[idx].0
                                    == first_frame(endpoints@[kk] as int) && regions_before[idx].1
                                    == endpoints@[kk + 1] as int / 4096 - 1;
                            assert(regions@[idx] == regions_before[idx]);
                        }
                    }
                }
            }
            k = k + 1;
        }
        proof {
            assert forall|s: int, e: int| #[trigger] emitted(recs, s, e) implies exists|idx: int|
                0 <= idx < regions@.len() && regions@[idx].0 == s && regions@[idx].1 == e by {
                let (p, q) = choose|p: int, q: int| emitted_at(recs, p, q, s, e);
                assert(is_boundary(recs, p));
                assert(is_boundary(recs, q));
                let pu = p as u64;
                let qu = q as u64;
                assert(endpoints@.contains(pu));
                assert(endpoints@.contains(qu));
                let kk = choose|kk: int| 0 <= kk < endpoints@.len() && endpoints@[kk] == pu;
                let m = choose|m: int| 0 <= m < endpoints@.len() && endpoints@[m] == qu;
                assert(m != kk);
                assert(m > kk) by {
                    if m < kk {
                        assert(endpoints@[m] < endpoints@[kk]);
                    }
                }
                assert(kk + 1 < endpoints@.len());
                assert(endpoints@[kk + 1] as int == q) by {
                    assert(endpoints@[kk] < endpoints@[kk + 1]);
                    if kk + 1 < m {
                        assert(endpoints@[kk + 1] < endpoints@[m]);
                    }
                    if (endpoints@[kk + 1] as int) < q {
                        assert(endpoints@.contains(endpoints@[kk + 1]));
                        assert(is_boundary(recs, endpoints@[kk + 1] as int));
                        assert(!is_boundary(recs, endpoints@[kk + 1] as int));
                    }
                }
            }
        }
        let info = E820Info { regions };
        info
    }

    /// Compute the number of physical pages available: the sum of
    /// (end_frame - start_frame + 1) over all ranges of the inventory.
    pub fn num_phys_pages(&self) -> (r: usize)
        requires
            self.inv(),
        ensures
            r == total_frames(self@),
    {
        let mut total: usize = 0;
        let mut i: usize = 0;
        while i < self.regions.len()
            invariant
                self.inv(),
                i <= self@.len(),
                total == total_frames(self@.take(i as int)),
                i > 0 ==> total <= self@[i - 1].1 + 1,
                i == 0 ==> total == 0,
            decreases self@.len() - i,
        {
            let (s, e) = self.regions[i];
            proof {
                assert(self@.take(i + 1).drop_last() =~= self@.take(i as int));
                assert(self@.take(i + 1).last() == self@[i as int]);
                if i > 0 {
                    assert(self@[i - 1].1 < self@[i as int].0);
                }
            }
            total = total + (e - s) + 1;
            i = i + 1;
        }
        proof {
            assert(self@.take(i as int) =~= self@);
        }
        total
    }
}


/// The first frame at or after `p` lies within one page of `p`.
proof fn lemma_first_frame_bounds(p: int)
    requires
        0 <= p,
    ensures
        p <= first_frame(p) * 4096,
        first_frame(p) * 4096 < p + 4096,
{
    lemma_fundamental_div_mod(p, 4096);
    lemma_mod_bound(p, 4096);
}

/// Conservative intersection: every byte of every frame of every range of a
/// reconciled inventory is usable, so a byte covered by any record of a
/// non-usable type never appears in any range.
pub proof fn lemma_reconciled_conservative(
    recs: Seq<MemoryRegion>,
    ranges: Seq<(usize, usize)>,
    k: int,
    a: int,
)
    requires
        reconciled(recs, ranges),
        0 <= k < ranges.len(),
        ranges[k].0 * 4096 <= a < (ranges[k].1 + 1) * 4096,
    ensures
        usable_byte(recs, a),
{
    let s = ranges[k].0 as int;
    let e = ranges[k].1 as int;
    assert(emitted(recs, s, e));
    let (p, q) = choose|p: int, q: int| emitted_at(recs, p, q, s, e);
    assert(is_boundary(recs, p));
    let w = choose|w: int|
        0 <= w < recs.len() && recs[w].length > 0 && (p == recs[w].base || p == rec_end(recs[w]));
    assert(p >= 0);
    lemma_first_frame_bounds(p);
    assert(p <= s * 4096);
    lemma_fundamental_div_mod(q, 4096);
    lemma_mod_bound(q, 4096);
    assert((e + 1) * 4096 <= q);
    assert(p <= a < q);
    // Some record covers `a`: a record covering `p` reaches at least to `q`,
    // because its end is a boundary point and none lies strictly between.
    assert(usable_byte(recs, p));
    let i = choose|i: int| 0 <= i < recs.len() && covers(recs[i], p);
    assert(is_boundary(recs, rec_end(recs[i])));
    assert(rec_end(recs[i]) >= q);
    assert(covers(recs[i], a));
    // Every record covering `a` also covers `p`, hence is of the usable type.
    assert forall|j: int| 0 <= j < recs.len() && covers(recs[j], a) implies recs[j].region_type
        == E820_MEMORY_USABLE by {
        assert(is_boundary(recs, recs[j].base as int));
        assert(recs[j].base <= p);
        assert(covers(recs[j], p));
    }
}

/// Empty input, or input with no record that is both non-empty and of the
/// usable type, yields an empty inventory.
pub proof fn lemma_no_usable_record_empty(recs: Seq<MemoryRegion>, ranges: Seq<(usize, usize)>)
    requires
        reconciled(recs, ranges),
        forall|i: int|
            0 <= i < recs.len() ==> !((#[trigger] recs[i]).length > 0 && recs[i].region_type
                == E820_MEMORY_USABLE),
    ensures
        ranges.len() == 0,
{
    if ranges.len() > 0 {
        assert(emitted(recs, ranges[0].0 as int, ranges[0].1 as int));
        let (p, q) = choose|p: int, q: int|
            emitted_at(recs, p, q, ranges[0].0 as int, ranges[0].1 as int);
        assert(usable_byte(recs, p));
        let i = choose|i: int| 0 <= i < recs.len() && covers(recs[i], p);
        assert(recs[i].region_type == E820_MEMORY_USABLE);
        assert(false);
    }
}

/// A single fully-usable record [0, n * 4096) yields exactly one range
/// [0, n - 1], whose total frame count is n.
pub proof fn lemma_single_usable_record(
    recs: Seq<MemoryRegion>,
    ranges: Seq<(usize, usize)>,
    n: usize,
)
    requires
        reconciled(recs, ranges),
        recs.len() == 1,
        recs[0].base == 0,
        recs[0].length == n * 4096,
        recs[0].region_type == E820_MEMORY_USABLE,
        1 <= n,
        n * 4096 <= u64::MAX,
    ensures
        ranges.len() == 1,
        ranges[0].0 == 0,
        ranges[0].1 == n - 1,
        total_frames(ranges) == n,
{
    let en = n * 4096;
    assert(is_boundary(recs, 0));
    assert(is_boundary(recs, en as int));
    assert forall|x: int| #[trigger] is_boundary(recs, x) implies x == 0 || x == en as int by {}
    assert(adjacent_boundaries(recs, 0, en as int));
    assert(covers(recs[0], 0));
    assert(usable_byte(recs, 0));
    assert(first_frame(0) == 0);
    assert(en as int / 4096 == n) by {
        lemma_div_multiples_vanish(n as int, 4096);
        assert(en as int == 4096 * n);
    }
    assert(emitted_at(recs, 0, en as int, 0, n - 1));
    assert(emitted(recs, 0, n - 1));
    let w = choose|w: int| 0 <= w < ranges.len() && ranges[w].0 == 0 && ranges[w].1 == n - 1;
    assert forall|k: int| 0 <= k < ranges.len() implies ranges[k].0 == 0 && ranges[k].1 == n
        - 1 by {
        assert(emitted(recs, ranges[k].0 as int, ranges[k].1 as int));
        let (p, q) = choose|p: int, q: int|
            emitted_at(recs, p, q, ranges[k].0 as int, ranges[k].1 as int);
        assert(p == 0 && q == en as int);
    }
    if ranges.len() >= 2 {
        assert(ranges[0].1 < ranges[1].0);
        assert(false);
    }
    assert(total_frames(ranges) == total_frames(ranges.drop_last()) + n);
    assert(ranges.drop_last().len() == 0);
}


/// Value of the 8-byte little-endian unsigned integer at `off`.
pub open spec fn le_u64_at(b: Seq<u8>, off: int) -> int {
    b[off] + b[off + 1] * 0x100 + b[off + 2] * 0x1_0000 + b[off + 3] * 0x100_0000 + b[off + 4]
        * 0x1_0000_0000 + b[off + 5] * 0x100_0000_0000 + b[off + 6] * 0x1_0000_0000_0000 + b[off
        + 7] * 0x100_0000_0000_0000
}

/// Value of the 4-byte little-endian unsigned integer at `off`.
pub open spec fn le_u32_at(b: Seq<u8>, off: int) -> int {
    b[off] + b[off + 1] * 0x100 + b[off + 2] * 0x1_0000 + b[off + 3] * 0x100_0000
}

/// The firmware record stored in the fixed 24-byte little-endian layout
/// at `off`: base, length, region type, extended attributes.
pub open spec fn record_at(b: Seq<u8>, off: int) -> MemoryRegion {
    MemoryRegion {
        base: le_u64_at(b, off) as u64,
        length: le_u64_at(b, off + 8) as u64,
        region_type: le_u32_at(b, off + 16) as u32,
        acpi: le_u32_at(b, off + 20) as u32,
    }
}

/// Reads the 8-byte little-endian unsigned integer at `off`.
fn read_u64_at(bytes: &Vec<u8>, off: usize) -> (r: u64)
    requires
        off + 8 <= bytes@.len(),
    ensures
        r == le_u64_at(bytes@, off as int),
{
    let blen = bytes.len();
    (bytes[off] as u64) + (bytes[off + 1] as u64) * 0x100 + (bytes[off + 2] as u64) * 0x1_0000 + (
    bytes[off + 3] as u64) * 0x100_0000 + (bytes[off + 4] as u64) * 0x1_0000_0000 + (bytes[off
        + 5] as u64) * 0x100_0000_0000 + (bytes[off + 6] as u64) * 0x1_0000_0000_0000 + (bytes[off
        + 7] as u64) * 0x100_0000_0000_0000
}

/// Reads the 4-byte little-endian unsigned integer at `off`.
fn read_u32_at(bytes: &Vec<u8>, off: usize) -> (r: u32)
    requires
        off + 4 <= bytes@.len(),
    ensures
        r == le_u32_at(bytes@, off as int),
{
    let blen = bytes.len();
    (bytes[off] as u32) + (bytes[off + 1] as u32) * 0x100 + (bytes[off + 2] as u32) * 0x1_0000 + (
    bytes[off + 3] as u32) * 0x100_0000
}

impl MemoryRegion {
    /// Deserializes the fixed 24-byte little-endian record at `off`.
    pub fn parse(bytes: &Vec<u8>, off: usize) -> (r: MemoryRegion)
        requires
            off + 24 <= bytes@.len(),
        ensures
            r == record_at(bytes@, off as int),
    {
        let blen = bytes.len();
        MemoryRegion {
            base: read_u64_at(bytes, off),
            length: read_u64_at(bytes, off + 8),
            region_type: read_u32_at(bytes, off + 16),
            acpi: read_u32_at(bytes, off + 20),
        }
    }
}

/// Deserializes `count` consecutive 24-byte firmware records, copying them
/// once into an owned, bounds-checked sequence.
pub fn parse_table(bytes: &Vec<u8>, count: usize) -> (records: Vec<MemoryRegion>)
    requires
        count * 24 <= bytes@.len(),
    ensures
        records@.len() == count,
        forall|i: int| 0 <= i < count ==> records@[i] == record_at(bytes@, i * 24),
{
    let mut records: Vec<MemoryRegion> = Vec::new();
    let blen = bytes.len();
    let mut i: usize = 0;
    while i < count
        invariant
            i <= count,
            blen == bytes@.len(),
            count * 24 <= bytes@.len(),
            records@.len() == i,
            forall|t: int| 0 <= t < i ==> records@[t] == record_at(bytes@, t * 24),
        decreases count - i,
    {
        records.push(MemoryRegion::parse(bytes, i * 24));
        i = i + 1;
    }
    records
}

} // verus!
