//! Utilities for the firmware's map of physical memory.
//!
//! The firmware reports physical memory as a list of `(start, end, usable?)`
//! frame ranges (`end` exclusive).  Ranges can overlap, and overlapping
//! ranges can disagree about usability; this module is conservative and
//! counts a frame as usable only if every range containing it is usable.
//! Reading the raw table out of memory is the boot collaborator's job.

use vstd::prelude::*;

use crate::memory::paging::in_ranges;

verus! {

/// Whether some raw range of `raw` contains frame `f`.
pub open spec fn covered_by(raw: Seq<(u64, u64, bool)>, f: u64) -> bool {
    exists|i: int| 0 <= i < raw.len() && (#[trigger] raw[i]).0 <= f < raw[i].1
}

/// Whether frame `f` is usable: some raw range contains it, and every raw
/// range containing it is marked usable.
pub open spec fn usable_frame(raw: Seq<(u64, u64, bool)>, f: u64) -> bool {
    &&& covered_by(raw, f)
    &&& forall|i: int| 0 <= i < raw.len() && (#[trigger] raw[i]).0 <= f < raw[i].1 ==> raw[i].2
}

/// Whether `e` is one of the ranges' endpoints.
pub open spec fn is_endpoint(raw: Seq<(u64, u64, bool)>, e: u64) -> bool {
    exists|i: int| 0 <= i < raw.len() && ((#[trigger] raw[i]).0 == e || raw[i].1 == e)
}

/// Safe wrapper around the info from the firmware memory map: the usable
/// physical frames, as sorted disjoint inclusive ranges.
pub struct E820Info {
    /// Inclusive frame ranges `[start, end]`, sorted and disjoint.
    pub regions: Vec<(u64, u64)>,
}

impl E820Info {
    /// Well-formed normalized info: ranges are proper, sorted and disjoint.
    pub open spec fn wf(&self) -> bool {
        &&& forall|i: int|
            0 <= i < self.regions@.len() ==> (#[trigger] self.regions@[i]).0 <= self.regions@[i].1
                < u64::MAX
        &&& forall|i: int, j: int|
            0 <= i < j < self.regions@.len() ==> (#[trigger] self.regions@[i]).1 < (
            #[trigger] self.regions@[j]).0
    }

    /// Parse the raw firmware ranges into a safe wrapper holding exactly the
    /// usable frames.
    ///
    /// Overlapping raw ranges are broken up at every range endpoint; a piece
    /// is kept only if some range covers it and every range covering it is
    /// usable.
    pub fn read(raw: &Vec<(u64, u64, bool)>) -> (r: E820Info)
        ensures
            r.wf(),
            forall|f: u64| in_ranges(r.regions@, f) <==> usable_frame(raw@, f),
    {
        let n = raw.len();
        let mut regions: Vec<(u64, u64)> = Vec::new();
        if n == 0 {
            let r = E820Info { regions };
            proof {
                assert forall|f: u64| !usable_frame(raw@, f) by {
                    if covered_by(raw@, f) {
                        let j = choose|j: int|
                            0 <= j < raw@.len() && (#[trigger] raw@[j]).0 <= f < raw@[j].1;
                    }
                }
                assert forall|f: u64| !in_ranges(r.regions@, f) by {
                    if in_ranges(r.regions@, f) {
                        let j = choose|j: int|
                            0 <= j < r.regions@.len() && (#[trigger] r.regions@[j]).0 <= f
                                <= r.regions@[j].1;
                    }
                }
            }
            return r;
        }

        // The lowest and highest endpoints: no frame below the lowest or at
        // or above the highest is covered by any range.
        let mut mn: u64 = u64::MAX;
        let mut mx: u64 = 0;
        let mut i: usize = 0;
        while i < n
            invariant
                i <= n,
                n == raw@.len(),
                forall|j: int|
                    0 <= j < i ==> mn <= (#[trigger] raw@[j]).0 && raw@[j].0 <= mx && mn
                        <= raw@[j].1 && raw@[j].1 <= mx,
                i == 0 && mn == u64::MAX && mx == 0 || is_endpoint(raw@, mn) && is_endpoint(
                    raw@,
                    mx,
                ),
            decreases n - i,
        {
            let (s, e, _) = raw[i];
            if s < mn {
                mn = s;
            }
            if e < mn {
                mn = e;
            }
            if s > mx {
                mx = s;
            }
            if e > mx {
                mx = e;
            }
            i = i + 1;
        }

        proof {
            assert(mn <= raw@[0].0 <= mx);
        }
        let mut a = mn;
        while a < mx
            invariant
                n == raw@.len(),
                n > 0,
                mn <= a,
                a <= mx,
                forall|j: int|
                    0 <= j < n ==> mn <= (#[trigger] raw@[j]).0 && raw@[j].0 <= mx && mn
                        <= raw@[j].1 && raw@[j].1 <= mx,
                // Everything decided so far sits below `a` and is exactly
                // the usable frames below `a`.
                forall|i2: int|
                    0 <= i2 < regions@.len() ==> (#[trigger] regions@[i2]).0 <= regions@[i2].1 < a,
                forall|i2: int, j2: int|
                    0 <= i2 < j2 < regions@.len() ==> (#[trigger] regions@[i2]).1 < (
                    #[trigger] regions@[j2]).0,
                forall|f: u64| f < a ==> (in_ranges(regions@, f) <==> usable_frame(raw@, f)),
                forall|f: u64| f >= a ==> !in_ranges(regions@, f),
            decreases mx - a,
        {
            // The next endpoint above `a`: the piece `[a, b)` contains no
            // endpoint strictly inside it.
            let mut b = mx;
            let mut i: usize = 0;
            while i < n
                invariant
                    i <= n,
                    n == raw@.len(),
                    a < b,
                    b <= mx,
                    b == mx || is_endpoint(raw@, b),
                    forall|j: int|
                        0 <= j < i ==> !(a < (#[trigger] raw@[j]).0 < b) && !(a < raw@[j].1 < b),
                decreases n - i,
            {
                let (s, e, _) = raw[i];
                if s > a && s < b {
                    b = s;
                }
                if e > a && e < b {
                    b = e;
                }
                i = i + 1;
            }

            // Classify the piece: kept iff covered and only by usable
            // ranges.  A range that touches any frame of the piece covers
            // the whole piece, since the piece holds no endpoint inside.
            let mut any: bool = false;
            let mut all_usable: bool = true;
            let mut i: usize = 0;
            while i < n
                invariant
                    i <= n,
                    n == raw@.len(),
                    any == exists|j: int|
                        0 <= j < i && (#[trigger] raw@[j]).0 <= a && b <= raw@[j].1,
                    all_usable == forall|j: int|
                        0 <= j < i && (#[trigger] raw@[j]).0 <= a && b <= raw@[j].1 ==> raw@[j].2,
                decreases n - i,
            {
                let (s, e, usable) = raw[i];
                if s <= a && b <= e {
                    any = true;
                    if !usable {
                        all_usable = false;
                    }
                }
                i = i + 1;
            }

            let ghost regions0 = regions@;
            if any && all_usable {
                regions.push((a, b - 1));
                proof {
                    assert forall|f: u64|
                        in_ranges(regions@, f) <==> (in_ranges(regions0, f) || a <= f < b) by {
                        if in_ranges(regions@, f) {
                            let j = choose|j: int|
                                0 <= j < regions@.len() && (#[trigger] regions@[j]).0 <= f
                                    <= regions@[j].1;
                            if j < regions0.len() {
                                assert(in_ranges(regions0, f));
                            }
                        }
                        if in_ranges(regions0, f) {
                            let j = choose|j: int|
                                0 <= j < regions0.len() && (#[trigger] regions0[j]).0 <= f
                                    <= regions0[j].1;
                            assert(regions@[j] == regions0[j]);
                            assert(in_ranges(regions@, f));
                        }
                        if a <= f < b {
                            assert(regions@[regions0.len() as int] == (a, (b - 1) as u64));
                            assert(in_ranges(regions@, f));
                        }
                    }
                }
            }
            proof {
                assert forall|f: u64| a <= f < b implies (usable_frame(raw@, f) <==> (
                exists|j: int| 0 <= j < n && (#[trigger] raw@[j]).0 <= a && b <= raw@[j].1) && (
                forall|j: int|
                    0 <= j < n && (#[trigger] raw@[j]).0 <= a && b <= raw@[j].1
                        ==> raw@[j].2)) by {
                    // Every range containing a frame of the piece covers the
                    // whole piece, since no endpoint lies strictly inside it.
                    assert forall|j: int|
                        0 <= j < n && (#[trigger] raw@[j]).0 <= f < raw@[j].1 implies (raw@[j].0
                        <= a && b <= raw@[j].1) by {
                        assert(!(a < raw@[j].0 < b) && !(a < raw@[j].1 < b));
                    }
                    if exists|j: int| 0 <= j < n && (#[trigger] raw@[j]).0 <= a && b <= raw@[j].1 {
                        let j = choose|j: int|
                            0 <= j < n && (#[trigger] raw@[j]).0 <= a && b <= raw@[j].1;
                        assert(raw@[j].0 <= f < raw@[j].1);
                        assert(covered_by(raw@, f));
                    }
                }
            }
            proof {
                if !(any && all_usable) {
                    assert(regions@ == regions0);
                }
                assert forall|f: u64| f < b implies (in_ranges(regions@, f) <==> usable_frame(
                    raw@,
                    f,
                )) by {
                    if f < a {
                        if any && all_usable {
                            assert(in_ranges(regions@, f) <==> (in_ranges(regions0, f) || a <= f
                                < b));
                        }
                        assert(in_ranges(regions@, f) <==> in_ranges(regions0, f));
                    } else {
                        assert(usable_frame(raw@, f) <==> (any && all_usable));
                        if any && all_usable {
                            assert(regions@[regions0.len() as int] == (a, (b - 1) as u64));
                            assert(in_ranges(regions@, f));
                        } else {
                            assert(!in_ranges(regions0, f));
                        }
                    }
                }
                assert forall|f: u64| f >= b implies !in_ranges(regions@, f) by {
                    assert(!in_ranges(regions0, f));
                    if any && all_usable {
                        assert(in_ranges(regions@, f) <==> (in_ranges(regions0, f) || a <= f < b));
                    }
                }
            }
            a = b;
        }
        proof {
            // No range covers a frame at or above the highest endpoint.
            assert forall|f: u64| f >= mx implies !usable_frame(raw@, f) by {
                if covered_by(raw@, f) {
                    let j = choose|j: int|
                        0 <= j < raw@.len() && (#[trigger] raw@[j]).0 <= f < raw@[j].1;
                }
            }
        }
        E820Info { regions }
    }

    /// The number of frames spanned by each region, summed: the rough
    /// estimate of physical memory the boot path sizes structures by.
    pub fn num_phys_pages(&self) -> (r: u64)
        requires
            self.wf(),
        ensures
            r == sum_extents(self.regions@),
    {
        proof {
            lemma_sum_extents_bounded(self.regions@);
        }
        let mut total: u64 = 0;
        let mut i: usize = 0;
        while i < self.regions.len()
            invariant
                self.wf(),
                i <= self.regions@.len(),
                total == sum_extents(self.regions@.take(i as int)),
                total <= 0xFFFF_FFFF_FFFF_FFFF,
            decreases self.regions@.len() - i,
        {
            proof {
                lemma_sum_extents_bounded(self.regions@.take(i as int + 1));
                assert(self.regions@.take(i as int + 1).drop_last() =~= self.regions@.take(
                    i as int,
                ));
                assert(forall|j: int|
                    0 <= j < i + 1 ==> self.regions@.take(i as int + 1)[j] == self.regions@[j]);
            }
            let (s, e) = self.regions[i];
            total = total + (e - s);
            i = i + 1;
        }
        proof {
            assert(self.regions@.take(self.regions@.len() as int) =~= self.regions@);
        }
        total
    }
}

/// The summed extent `end - start` of the ranges.
pub open spec fn sum_extents(regions: Seq<(u64, u64)>) -> int
    decreases regions.len(),
{
    if regions.len() == 0 {
        0
    } else {
        sum_extents(regions.drop_last()) + regions.last().1 - regions.last().0
    }
}

/// For sorted, disjoint, proper ranges the summed extent is bounded by the
/// span from the first start to the last end — so it fits in a `u64`.
proof fn lemma_sum_extents_bounded(regions: Seq<(u64, u64)>)
    requires
        forall|i: int| 0 <= i < regions.len() ==> (#[trigger] regions[i]).0 <= regions[i].1,
        forall|i: int, j: int|
            0 <= i < j < regions.len() ==> (#[trigger] regions[i]).1 < (#[trigger] regions[j]).0,
    ensures
        0 <= sum_extents(regions),
        regions.len() > 0 ==> sum_extents(regions) <= regions.last().1 - regions[0].0,
    decreases regions.len(),
{
    if regions.len() > 0 {
        lemma_sum_extents_bounded(regions.drop_last());
        if regions.len() > 1 {
            assert(regions.drop_last().last() == regions[regions.len() - 2]);
            assert(regions[regions.len() - 2].1 < regions.last().0);
        }
    }
}

} // verus!
