//! The tempo map: an ordered list of BPM breakpoints with a derived cache of
//! cumulative real time, and the exact beat/time conversions over it.
//!
//! Every mutating entry point recomputes the cache before returning, so a
//! query can never observe a stale cache.

use vstd::prelude::*;

use crate::rational::{
    lemma_add_congr_right, lemma_add_le_mono, lemma_add_lt_mono, lemma_add_nonneg, lemma_add_pos,
    lemma_add_sub_complement, lemma_div_mul_cancel, lemma_mul_congr_left, lemma_mul_pos_lt_mono,
    lemma_rat_div_wf, lemma_rat_eq_trans, lemma_rat_lt_trans, lemma_rat_ops_wf,
    lemma_sub_from_add, lemma_sub_lt_mono, rat_add, rat_div, rat_eq, rat_fits, rat_le, rat_lt,
    rat_mul, rat_sub, rat_wf, rat_zero, Rat,
};

verus! {

/// A tempo breakpoint: from `start_beat` on, the tempo is `bpm` beats per
/// minute, until the next breakpoint.
#[derive(Clone, Copy, Debug, PartialEq, Eq, Structural)]
pub struct BpmPoint {
    pub start_beat: Rat,
    pub bpm: Rat,
}

impl BpmPoint {
    /// Beat position and tempo are well-formed rationals and the tempo is
    /// positive.
    pub open spec fn wf(self) -> bool {
        self.start_beat.wf() && self.bpm.wf() && self.bpm@.0 > 0
    }

    /// Build a breakpoint.
    pub fn new(start_beat: Rat, bpm: Rat) -> (p: BpmPoint)
        ensures
            p == (BpmPoint { start_beat, bpm }),
    {
        BpmPoint { start_beat, bpm }
    }
}

/// Every point of the sequence is well-formed.
pub open spec fn points_wf(s: Seq<BpmPoint>) -> bool {
    forall|i: int| 0 <= i < s.len() ==> (#[trigger] s[i]).wf()
}

/// Beat positions are strictly increasing (sorted, and unique).
pub open spec fn points_sorted(s: Seq<BpmPoint>) -> bool {
    forall|i: int, j: int|
        0 <= i < j < s.len() ==> rat_lt((#[trigger] s[i]).start_beat@, (#[trigger] s[j]).start_beat@)
}

/// Real-time duration of the segment that starts at point `p` and ends at
/// beat `b`: `(b - p.start_beat) * 60 / p.bpm` seconds.
pub open spec fn seg_dur(p: BpmPoint, b: (int, int)) -> (int, int) {
    rat_div(rat_mul(rat_sub(b, p.start_beat@), (60int, 1int)), p.bpm@)
}

/// Cumulative real time at point `i`'s start beat: zero for the first point,
/// and each later point adds the duration of the segment before it.
pub open spec fn cum_time(s: Seq<BpmPoint>, i: int) -> (int, int)
    decreases i,
{
    if i <= 0 {
        rat_zero()
    } else {
        rat_add(cum_time(s, i - 1), seg_dur(s[i - 1], s[i].start_beat@))
    }
}

/// The intermediate values that computing `cum_time(s, i)` from
/// `cum_time(s, i - 1)` goes through all fit in 64 bits.
pub open spec fn step_fits(s: Seq<BpmPoint>, i: int) -> bool {
    rat_fits(rat_sub(s[i].start_beat@, s[i - 1].start_beat@))
        && rat_fits(rat_mul(rat_sub(s[i].start_beat@, s[i - 1].start_beat@), (60int, 1int)))
        && rat_fits(seg_dur(s[i - 1], s[i].start_beat@))
        && rat_fits(cum_time(s, i))
}

/// The whole cumulative-time cache for `s` can be computed in 64 bits.
pub open spec fn cache_fits(s: Seq<BpmPoint>) -> bool {
    forall|i: int| 1 <= i < s.len() ==> #[trigger] step_fits(s, i)
}

/// A valid tempo map: well-formed points, strictly sorted by start beat, and
/// a cache that machine arithmetic can represent.
pub open spec fn list_valid(s: Seq<BpmPoint>) -> bool {
    points_wf(s) && points_sorted(s) && cache_fits(s)
}

/// `cum_time(s, i)` only depends on the points up to index `i`.
pub proof fn lemma_cum_time_agree(s1: Seq<BpmPoint>, s2: Seq<BpmPoint>, i: int)
    requires
        0 <= i < s1.len(),
        i < s2.len(),
        forall|j: int| 0 <= j <= i ==> s1[j] == s2[j],
    ensures
        cum_time(s1, i) == cum_time(s2, i),
    decreases i,
{
    if i > 0 {
        lemma_cum_time_agree(s1, s2, i - 1);
    }
}

/// An ordered list of tempo breakpoints together with the cumulative real
/// time at each breakpoint. The cache is rebuilt by every mutation, so it is
/// always consistent with the points.
#[derive(Debug)]
pub struct BpmList {
    points: Vec<BpmPoint>,
    cache: Vec<Rat>,
}

impl View for BpmList {
    type V = Seq<BpmPoint>;

    closed spec fn view(&self) -> Seq<BpmPoint> {
        self.points@
    }
}

impl BpmList {
    /// The cache mirrors `cum_time` entry for entry.
    pub closed spec fn cache_ok(self) -> bool {
        self.cache@.len() == self.points@.len() && forall|i: int|
            0 <= i < self.points@.len() ==> (#[trigger] self.cache@[i])@ == cum_time(self.points@, i)
    }

    /// Well-formed tempo map: valid point sequence and consistent cache.
    pub open spec fn wf(self) -> bool {
        self.cache_ok() && list_valid(self@)
    }

    /// An empty tempo map.
    pub fn new() -> (l: BpmList)
        ensures
            l@ == Seq::<BpmPoint>::empty(),
            l.wf(),
    {
        let l = BpmList { points: Vec::new(), cache: Vec::new() };
        proof {
            assert(l.points@ =~= Seq::<BpmPoint>::empty());
        }
        l
    }

    /// Number of breakpoints.
    pub fn len(&self) -> (n: usize)
        ensures
            n == self@.len(),
    {
        self.points.len()
    }

    /// The breakpoint at `index`.
    pub fn point_at(&self, index: usize) -> (p: BpmPoint)
        requires
            index < self@.len(),
        ensures
            p == self@[index as int],
    {
        self.points[index]
    }

    /// Rebuild the cumulative-time cache from the points. Called by every
    /// mutating operation before it returns.
    fn compute(&mut self)
        requires
            points_wf(old(self)@),
            cache_fits(old(self)@),
        ensures
            final(self)@ == old(self)@,
            final(self).cache_ok(),
    {
        let ghost s = self.points@;
        let n = self.points.len();
        let mut cache: Vec<Rat> = Vec::new();
        if n > 0 {
            cache.push(Rat::zero());
            let mut i: usize = 1;
            while i < n
                invariant
                    1 <= i <= n,
                    n == s.len(),
                    self.points@ == s,
                    points_wf(s),
                    cache_fits(s),
                    cache@.len() == i,
                    forall|j: int| 0 <= j < i ==> (#[trigger] cache@[j])@ == cum_time(s, j),
                decreases n - i,
            {
                proof {
                    assert(step_fits(s, i as int));
                    assert(s[i as int].wf());
                    assert(s[i - 1].wf());
                    if i >= 2 {
                        assert(step_fits(s, i - 1));
                    }
                }
                let prev = cache[i - 1];
                let p = self.points[i - 1];
                let q = self.points[i];
                let dur = q.start_beat.minus(p.start_beat).times(Rat::from_int(60)).divide(p.bpm);
                let c = prev.plus(dur);
                cache.push(c);
                i += 1;
            }
        }
        self.cache = cache;
    }

    /// Append a breakpoint after all existing ones.
    pub fn push_point(&mut self, p: BpmPoint)
        requires
            old(self).wf(),
            p.wf(),
            old(self)@.len() == 0 || rat_lt(old(self)@.last().start_beat@, p.start_beat@),
            cache_fits(old(self)@.push(p)),
        ensures
            final(self)@ == old(self)@.push(p),
            final(self).wf(),
    {
        let ghost s = self.points@;
        let ghost t = s.push(p);
        self.points.push(p);
        proof {
            assert(points_wf(t)) by {
                assert forall|i: int| 0 <= i < t.len() implies (#[trigger] t[i]).wf() by {
                    if i < s.len() {
                        assert(s[i].wf());
                    }
                }
            }
            assert(points_sorted(t)) by {
                assert forall|i: int, j: int| 0 <= i < j < t.len() implies rat_lt(
                    (#[trigger] t[i]).start_beat@,
                    (#[trigger] t[j]).start_beat@,
                ) by {
                    if j < s.len() {
                        assert(rat_lt(s[i].start_beat@, s[j].start_beat@));
                    } else {
                        assert(s[i].wf());
                        if i < s.len() - 1 {
                            assert(rat_lt(s[i].start_beat@, s.last().start_beat@));
                            lemma_rat_lt_trans(s[i].start_beat@, s.last().start_beat@, p.start_beat@);
                        }
                    }
                }
            }
        }
        self.compute();
    }

    /// Remove the last breakpoint and return it.
    pub fn pop_point(&mut self) -> (r: BpmPoint)
        requires
            old(self).wf(),
            old(self)@.len() > 0,
        ensures
            final(self)@ == old(self)@.drop_last(),
            r == old(self)@.last(),
            final(self).wf(),
    {
        let ghost s = self.points@;
        let ghost t = s.drop_last();
        let r = self.points.pop().unwrap();
        proof {
            assert(self.points@ =~= t);
            assert(points_wf(t)) by {
                assert forall|i: int| 0 <= i < t.len() implies (#[trigger] t[i]).wf() by {
                    assert(s[i].wf());
                }
            }
            assert(points_sorted(t)) by {
                assert forall|i: int, j: int| 0 <= i < j < t.len() implies rat_lt(
                    (#[trigger] t[i]).start_beat@,
                    (#[trigger] t[j]).start_beat@,
                ) by {
                    assert(rat_lt(s[i].start_beat@, s[j].start_beat@));
                }
            }
            assert(cache_fits(t)) by {
                assert forall|i: int| 1 <= i < t.len() implies #[trigger] step_fits(t, i) by {
                    assert(step_fits(s, i));
                    lemma_cum_time_agree(t, s, i);
                    lemma_cum_time_agree(t, s, i - 1);
                }
            }
        }
        self.compute();
        r
    }

    /// Insert a breakpoint at `index`, between its neighbours.
    pub fn insert_at(&mut self, index: usize, p: BpmPoint)
        requires
            old(self).wf(),
            index <= old(self)@.len(),
            p.wf(),
            index == 0 || rat_lt(old(self)@[index - 1].start_beat@, p.start_beat@),
            index == old(self)@.len() || rat_lt(p.start_beat@, old(self)@[index as int].start_beat@),
            cache_fits(old(self)@.insert(index as int, p)),
        ensures
            final(self)@ == old(self)@.insert(index as int, p),
            final(self).wf(),
    {
        let ghost s = self.points@;
        let ghost t = s.insert(index as int, p);
        self.points.insert(index, p);
        proof {
            assert(points_wf(t)) by {
                assert forall|i: int| 0 <= i < t.len() implies (#[trigger] t[i]).wf() by {
                    if i < index {
                        assert(s[i].wf());
                    } else if i > index {
                        assert(s[i - 1].wf());
                    }
                }
            }
            assert(points_sorted(t)) by {
                assert forall|i: int, j: int| 0 <= i < j < t.len() implies rat_lt(
                    (#[trigger] t[i]).start_beat@,
                    (#[trigger] t[j]).start_beat@,
                ) by {
                    lemma_sorted_insert_pair(s, index as int, p, i, j);
                }
            }
        }
        self.compute();
    }

    /// Remove the breakpoint at `index` and return it.
    pub fn remove_at(&mut self, index: usize) -> (r: BpmPoint)
        requires
            old(self).wf(),
            index < old(self)@.len(),
            cache_fits(old(self)@.remove(index as int)),
        ensures
            final(self)@ == old(self)@.remove(index as int),
            r == old(self)@[index as int],
            final(self).wf(),
    {
        let ghost s = self.points@;
        let ghost t = s.remove(index as int);
        let r = self.points.remove(index);
        proof {
            assert(points_wf(t)) by {
                assert forall|i: int| 0 <= i < t.len() implies (#[trigger] t[i]).wf() by {
                    if i < index {
                        assert(s[i].wf());
                    } else {
                        assert(s[i + 1].wf());
                    }
                }
            }
            assert(points_sorted(t)) by {
                assert forall|i: int, j: int| 0 <= i < j < t.len() implies rat_lt(
                    (#[trigger] t[i]).start_beat@,
                    (#[trigger] t[j]).start_beat@,
                ) by {
                    let i0 = if i < index { i } else { i + 1 };
                    let j0 = if j < index { j } else { j + 1 };
                    assert(rat_lt(s[i0].start_beat@, s[j0].start_beat@));
                }
            }
        }
        self.compute();
        r
    }

    /// Overwrite the breakpoint at `index`, keeping its position between its
    /// neighbours.
    pub fn set_at(&mut self, index: usize, p: BpmPoint)
        requires
            old(self).wf(),
            index < old(self)@.len(),
            p.wf(),
            index == 0 || rat_lt(old(self)@[index - 1].start_beat@, p.start_beat@),
            index == old(self)@.len() - 1 || rat_lt(
                p.start_beat@,
                old(self)@[index + 1].start_beat@,
            ),
            cache_fits(old(self)@.update(index as int, p)),
        ensures
            final(self)@ == old(self)@.update(index as int, p),
            final(self).wf(),
    {
        let ghost s = self.points@;
        let ghost t = s.update(index as int, p);
        let slot = vstd::std_specs::vec::vec_index_mut(&mut self.points, index);
        *slot = p;
        proof {
            assert(self.points@ =~= t);
            assert(points_wf(t)) by {
                assert forall|i: int| 0 <= i < t.len() implies (#[trigger] t[i]).wf() by {
                    if i != index {
                        assert(s[i].wf());
                    }
                }
            }
            assert(points_sorted(t)) by {
                assert forall|i: int, j: int| 0 <= i < j < t.len() implies rat_lt(
                    (#[trigger] t[i]).start_beat@,
                    (#[trigger] t[j]).start_beat@,
                ) by {
                    lemma_sorted_update_pair(s, index as int, p, i, j);
                }
            }
        }
        self.compute();
    }

    /// Binary search for the last breakpoint at or before `beat`.
    fn locate_index(&self, beat: Rat) -> (i: usize)
        requires
            self.wf(),
            beat.wf(),
            self@.len() > 0,
            rat_le(self@[0].start_beat@, beat@),
        ensures
            0 <= i < self@.len(),
            i == locate(self@, beat@),
    {
        let ghost s = self@;
        let mut lo: usize = 0;
        let mut hi: usize = self.points.len() - 1;
        while lo < hi
            invariant
                self.wf(),
                beat.wf(),
                s == self@,
                s.len() > 0,
                lo <= hi < s.len(),
                rat_le(s[lo as int].start_beat@, beat@),
                forall|k: int| hi < k < s.len() ==> rat_lt(beat@, (#[trigger] s[k]).start_beat@),
            decreases hi - lo,
        {
            let mid = hi - (hi - lo) / 2;
            let pm = self.points[mid];
            if pm.start_beat.le(beat) {
                lo = mid;
            } else {
                proof {
                    assert forall|k: int| mid - 1 < k < s.len() implies rat_lt(
                        beat@,
                        (#[trigger] s[k]).start_beat@,
                    ) by {
                        if mid < k <= hi {
                            assert(s[mid as int].wf());
                            assert(s[k].wf());
                            assert(rat_lt(s[mid as int].start_beat@, s[k].start_beat@));
                            lemma_rat_lt_trans(beat@, s[mid as int].start_beat@, s[k].start_beat@);
                        }
                    }
                }
                hi = mid - 1;
            }
        }
        proof {
            lemma_locate_props(s, beat@);
            let l = locate(s, beat@);
            if (lo as int) < l {
                assert(rat_lt(beat@, s[l].start_beat@));
                assert(false);
            }
            if (lo as int) > l {
                assert(rat_lt(beat@, s[lo as int].start_beat@));
                assert(false);
            }
        }
        lo
    }

    /// Elapsed real time from the start of the chart to beat `beat`,
    /// accounting for every tempo change before it.
    pub fn time_at(&self, beat: Rat) -> (t: Rat)
        requires
            self.wf(),
            beat.wf(),
            self@.len() > 0,
            rat_le(self@[0].start_beat@, beat@),
            time_query_fits(self@, beat@),
        ensures
            t@ == time_at_spec(self@, beat@),
            t.wf(),
    {
        let ghost s = self@;
        let i = self.locate_index(beat);
        let p = self.points[i];
        let c = self.cache[i];
        proof {
            assert(c@ == cum_time(s, i as int));
            if i >= 1 {
                assert(step_fits(s, i as int));
            }
            assert(s[i as int].wf());
        }
        c.plus(beat.minus(p.start_beat).times(Rat::from_int(60)).divide(p.bpm))
    }

    /// Binary search for the last breakpoint whose cumulative time is at or
    /// before `time`.
    fn locate_time_index(&self, time: Rat) -> (j: usize)
        requires
            self.wf(),
            time.wf(),
            self@.len() > 0,
            rat_le(rat_zero(), time@),
        ensures
            0 <= j < self@.len(),
            j == locate_time(self@, time@),
    {
        let ghost s = self@;
        let mut lo: usize = 0;
        let mut hi: usize = self.points.len() - 1;
        proof {
            assert(cum_time(s, 0) == rat_zero());
        }
        while lo < hi
            invariant
                self.wf(),
                time.wf(),
                s == self@,
                s.len() > 0,
                lo <= hi < s.len(),
                rat_le(cum_time(s, lo as int), time@),
                forall|k: int| hi < k < s.len() ==> rat_lt(time@, #[trigger] cum_time(s, k)),
            decreases hi - lo,
        {
            let mid = hi - (hi - lo) / 2;
            let cm = self.cache[mid];
            proof {
                assert(cm@ == cum_time(s, mid as int));
                assert(step_fits(s, mid as int));
            }
            if cm.le(time) {
                lo = mid;
            } else {
                proof {
                    assert forall|k: int| mid - 1 < k < s.len() implies rat_lt(
                        time@,
                        #[trigger] cum_time(s, k),
                    ) by {
                        if mid < k <= hi {
                            lemma_cum_time_increasing(s, mid as int, k);
                            lemma_cum_time_wf(s, mid as int);
                            lemma_cum_time_wf(s, k);
                            lemma_rat_lt_trans(time@, cum_time(s, mid as int), cum_time(s, k));
                        }
                    }
                }
                hi = mid - 1;
            }
        }
        proof {
            lemma_locate_time_props(s, time@);
            let l = locate_time(s, time@);
            if (lo as int) < l {
                assert(rat_lt(time@, cum_time(s, l)));
                assert(false);
            }
            if (lo as int) > l {
                assert(rat_lt(time@, cum_time(s, lo as int)));
                assert(false);
            }
        }
        lo
    }

    /// Beat position reached after `time` seconds of real time: the inverse
    /// of `time_at`, solved linearly within the governing segment.
    pub fn beat_at(&self, time: Rat) -> (b: Rat)
        requires
            self.wf(),
            time.wf(),
            self@.len() > 0,
            rat_le(rat_zero(), time@),
            beat_query_fits(self@, time@),
        ensures
            b@ == beat_at_spec(self@, time@),
            b.wf(),
    {
        let ghost s = self@;
        let j = self.locate_time_index(time);
        let p = self.points[j];
        let c = self.cache[j];
        proof {
            assert(c@ == cum_time(s, j as int));
            if j >= 1 {
                assert(step_fits(s, j as int));
            }
            assert(s[j as int].wf());
        }
        p.start_beat.plus(time.minus(c).times(p.bpm).divide(Rat::from_int(60)))
    }
}

/// Index of the last breakpoint whose start beat is at or before `b`
/// (`-1` when there is none).
pub open spec fn locate(s: Seq<BpmPoint>, b: (int, int)) -> int
    decreases s.len(),
{
    if s.len() == 0 {
        -1
    } else if rat_le(s.last().start_beat@, b) {
        s.len() - 1
    } else {
        locate(s.drop_last(), b)
    }
}

/// When `b` is at or after the first start beat, `locate` picks a real index
/// whose point starts at or before `b`, and every later point starts
/// strictly after `b`.
pub proof fn lemma_locate_props(s: Seq<BpmPoint>, b: (int, int))
    requires
        s.len() > 0,
        rat_le(s[0].start_beat@, b),
    ensures
        0 <= locate(s, b) < s.len(),
        rat_le(s[locate(s, b)].start_beat@, b),
        forall|k: int| locate(s, b) < k < s.len() ==> rat_lt(b, (#[trigger] s[k]).start_beat@),
    decreases s.len(),
{
    if !rat_le(s.last().start_beat@, b) {
        let s2 = s.drop_last();
        lemma_locate_props(s2, b);
        let l = locate(s, b);
        assert(l == locate(s2, b));
        assert forall|k: int| l < k < s.len() implies rat_lt(b, (#[trigger] s[k]).start_beat@) by {
            if k < s.len() - 1 {
                assert(rat_lt(b, s2[k].start_beat@));
            }
        }
    }
}

/// Exact elapsed real time at beat `b`: the cumulative time of the governing
/// breakpoint plus the partial segment after it.
pub open spec fn time_at_spec(s: Seq<BpmPoint>, b: (int, int)) -> (int, int) {
    rat_add(cum_time(s, locate(s, b)), seg_dur(s[locate(s, b)], b))
}

/// The intermediate values of a `time_at` query fit in 64 bits.
pub open spec fn time_query_fits(s: Seq<BpmPoint>, b: (int, int)) -> bool {
    let i = locate(s, b);
    rat_fits(rat_sub(b, s[i].start_beat@)) && rat_fits(
        rat_mul(rat_sub(b, s[i].start_beat@), (60int, 1int)),
    ) && rat_fits(seg_dur(s[i], b)) && rat_fits(time_at_spec(s, b))
}

/// Index of the last breakpoint whose cumulative time is at or before `t`
/// (`-1` when there is none).
pub open spec fn locate_time(s: Seq<BpmPoint>, t: (int, int)) -> int
    decreases s.len(),
{
    if s.len() == 0 {
        -1
    } else if rat_le(cum_time(s, s.len() - 1), t) {
        s.len() - 1
    } else {
        locate_time(s.drop_last(), t)
    }
}

/// When `t` is nonnegative, `locate_time` picks a real index whose
/// cumulative time is at or before `t`, and every later breakpoint's
/// cumulative time is strictly after `t`.
pub proof fn lemma_locate_time_props(s: Seq<BpmPoint>, t: (int, int))
    requires
        s.len() > 0,
        rat_le(rat_zero(), t),
    ensures
        0 <= locate_time(s, t) < s.len(),
        rat_le(cum_time(s, locate_time(s, t)), t),
        forall|k: int| locate_time(s, t) < k < s.len() ==> rat_lt(t, #[trigger] cum_time(s, k)),
    decreases s.len(),
{
    if !rat_le(cum_time(s, s.len() - 1), t) {
        let s2 = s.drop_last();
        assert(cum_time(s, 0) == rat_zero());
        lemma_locate_time_props(s2, t);
        assert forall|k: int| 0 <= k < s2.len() implies #[trigger] cum_time(s2, k) == cum_time(
            s,
            k,
        ) by {
            lemma_cum_time_agree(s2, s, k);
        }
        let j = locate_time(s, t);
        assert(j == locate_time(s2, t));
        assert forall|k: int| j < k < s.len() implies rat_lt(t, #[trigger] cum_time(s, k)) by {
            if k < s.len() - 1 {
                assert(rat_lt(t, cum_time(s2, k)));
            }
        }
    }
}

/// Exact beat at elapsed real time `t`: the governing breakpoint's start
/// beat plus the beats covered in the partial segment after it.
pub open spec fn beat_at_spec(s: Seq<BpmPoint>, t: (int, int)) -> (int, int) {
    let j = locate_time(s, t);
    rat_add(
        s[j].start_beat@,
        rat_div(rat_mul(rat_sub(t, cum_time(s, j)), s[j].bpm@), (60int, 1int)),
    )
}

/// The intermediate values of a `beat_at` query fit in 64 bits.
pub open spec fn beat_query_fits(s: Seq<BpmPoint>, t: (int, int)) -> bool {
    let j = locate_time(s, t);
    rat_fits(rat_sub(t, cum_time(s, j))) && rat_fits(
        rat_mul(rat_sub(t, cum_time(s, j)), s[j].bpm@),
    ) && rat_fits(rat_div(rat_mul(rat_sub(t, cum_time(s, j)), s[j].bpm@), (60int, 1int)))
        && rat_fits(beat_at_spec(s, t))
}

/// A segment duration over well-formed data is a well-formed rational.
pub proof fn lemma_seg_dur_wf(p: BpmPoint, b: (int, int))
    requires
        p.wf(),
        rat_wf(b),
    ensures
        rat_wf(seg_dur(p, b)),
{
    lemma_rat_ops_wf(b, p.start_beat@);
    lemma_rat_ops_wf(rat_sub(b, p.start_beat@), (60int, 1int));
    lemma_rat_div_wf(rat_mul(rat_sub(b, p.start_beat@), (60int, 1int)), p.bpm@);
}

/// A segment that ends strictly after the breakpoint it starts at lasts a
/// strictly positive time.
pub proof fn lemma_seg_dur_pos(p: BpmPoint, b: (int, int))
    requires
        p.wf(),
        rat_wf(b),
        rat_lt(p.start_beat@, b),
    ensures
        rat_wf(seg_dur(p, b)),
        rat_lt(rat_zero(), seg_dur(p, b)),
{
    lemma_seg_dur_wf(p, b);
    let d = rat_sub(b, p.start_beat@);
    assert(d.0 > 0);
    let m = rat_mul(d, (60int, 1int));
    assert(m.0 > 0);
    let q = rat_div(m, p.bpm@);
    assert(q.0 > 0) by (nonlinear_arith)
        requires
            m.0 > 0,
            p.bpm@.1 > 0,
            q.0 == m.0 * p.bpm@.1,
    ;
}

/// Cumulative times are well-formed rationals.
pub proof fn lemma_cum_time_wf(s: Seq<BpmPoint>, i: int)
    requires
        points_wf(s),
        0 <= i < s.len(),
    ensures
        rat_wf(cum_time(s, i)),
    decreases i,
{
    if i > 0 {
        lemma_cum_time_wf(s, i - 1);
        assert(s[i - 1].wf());
        lemma_seg_dur_wf(s[i - 1], s[i].start_beat@);
        lemma_rat_ops_wf(cum_time(s, i - 1), seg_dur(s[i - 1], s[i].start_beat@));
    }
}

/// With strictly sorted points and positive tempos, cumulative times are
/// strictly increasing.
pub proof fn lemma_cum_time_increasing(s: Seq<BpmPoint>, i: int, j: int)
    requires
        points_wf(s),
        points_sorted(s),
        0 <= i < j < s.len(),
    ensures
        rat_lt(cum_time(s, i), cum_time(s, j)),
    decreases j,
{
    assert(s[j - 1].wf());
    assert(rat_lt(s[j - 1].start_beat@, s[j].start_beat@));
    lemma_seg_dur_pos(s[j - 1], s[j].start_beat@);
    lemma_cum_time_wf(s, j - 1);
    lemma_add_pos(cum_time(s, j - 1), seg_dur(s[j - 1], s[j].start_beat@));
    if i < j - 1 {
        lemma_cum_time_increasing(s, i, j - 1);
        lemma_cum_time_wf(s, i);
        lemma_cum_time_wf(s, j);
        lemma_rat_lt_trans(cum_time(s, i), cum_time(s, j - 1), cum_time(s, j));
    }
}

/// A segment that ends at or after the breakpoint it starts at lasts a
/// nonnegative time.
pub proof fn lemma_seg_dur_nonneg(p: BpmPoint, b: (int, int))
    requires
        p.wf(),
        rat_wf(b),
        rat_le(p.start_beat@, b),
    ensures
        rat_wf(seg_dur(p, b)),
        rat_le(rat_zero(), seg_dur(p, b)),
{
    lemma_seg_dur_wf(p, b);
    let d = rat_sub(b, p.start_beat@);
    assert(d.0 >= 0);
    let m = rat_mul(d, (60int, 1int));
    assert(m.0 >= 0);
    let q = rat_div(m, p.bpm@);
    assert(q.0 >= 0) by (nonlinear_arith)
        requires
            m.0 >= 0,
            p.bpm@.1 > 0,
            q.0 == m.0 * p.bpm@.1,
    ;
}

/// Cumulative times are nonnegative.
pub proof fn lemma_cum_time_nonneg(s: Seq<BpmPoint>, i: int)
    requires
        points_wf(s),
        points_sorted(s),
        0 <= i < s.len(),
    ensures
        rat_le(rat_zero(), cum_time(s, i)),
{
    if i > 0 {
        lemma_cum_time_increasing(s, 0, i);
    }
}

/// Round-trip law: for a valid tempo map and any beat at or after the first
/// breakpoint, converting the beat to a time and that time back to a beat
/// yields the original beat, exactly.
pub proof fn lemma_beat_time_round_trip(s: Seq<BpmPoint>, b: (int, int))
    requires
        list_valid(s),
        s.len() > 0,
        rat_wf(b),
        rat_le(s[0].start_beat@, b),
    ensures
        rat_eq(beat_at_spec(s, time_at_spec(s, b)), b),
{
    lemma_locate_props(s, b);
    let i = locate(s, b);
    let p = s[i];
    assert(p.wf());
    let beat0 = p.start_beat@;
    let r = p.bpm@;
    let sixty = (60int, 1int);
    let d = rat_sub(b, beat0);
    let m = rat_mul(d, sixty);
    let seg = seg_dur(p, b);
    let c = cum_time(s, i);
    let t = time_at_spec(s, b);
    lemma_cum_time_wf(s, i);
    lemma_seg_dur_nonneg(p, b);
    lemma_cum_time_nonneg(s, i);
    lemma_rat_ops_wf(c, seg);
    lemma_add_nonneg(c, seg);
    // locate_time on t picks the same segment index i.
    lemma_locate_time_props(s, t);
    lemma_add_le_mono(c, seg);
    assert(rat_le(c, t));
    if i < s.len() - 1 {
        assert(cum_time(s, i + 1) == rat_add(c, seg_dur(s[i], s[i + 1].start_beat@)));
        assert(rat_lt(b, s[i + 1].start_beat@));
        assert(s[i + 1].wf());
        // seg grows strictly when its end beat grows.
        lemma_sub_lt_mono(b, s[i + 1].start_beat@, beat0);
        lemma_mul_pos_lt_mono(d, rat_sub(s[i + 1].start_beat@, beat0), sixty);
        lemma_mul_pos_lt_mono(
            m,
            rat_mul(rat_sub(s[i + 1].start_beat@, beat0), sixty),
            r,
        );
        assert(rat_lt(seg, seg_dur(s[i], s[i + 1].start_beat@)));
        lemma_add_lt_mono(c, seg, seg_dur(s[i], s[i + 1].start_beat@));
        assert(rat_lt(t, cum_time(s, i + 1)));
    }
    let j = locate_time(s, t);
    if j < i {
        assert(rat_lt(t, cum_time(s, i)));
        assert(false);
    }
    if j > i {
        assert(rat_le(cum_time(s, j), t));
        if j > i + 1 {
            lemma_cum_time_increasing(s, i + 1, j);
            lemma_cum_time_wf(s, i + 1);
            lemma_cum_time_wf(s, j);
            lemma_rat_lt_trans(t, cum_time(s, i + 1), cum_time(s, j));
        }
        assert(rat_lt(t, cum_time(s, j)));
        assert(false);
    }
    // Unwind the inverse conversion algebraically.
    let x = rat_sub(t, c);
    lemma_sub_from_add(c, seg);
    assert(rat_eq(x, seg));
    lemma_mul_congr_left(x, seg, r);
    assert(rat_eq(rat_mul(x, r), rat_mul(seg, r)));
    lemma_div_mul_cancel(m, r);
    assert(rat_eq(rat_mul(seg, r), m));
    lemma_rat_ops_wf(seg, r);
    lemma_rat_eq_trans(rat_mul(x, r), rat_mul(seg, r), m);
    lemma_mul_congr_left(rat_mul(x, r), m, sixty);
    assert(rat_eq(rat_div(rat_mul(x, r), sixty), rat_div(m, sixty)));
    lemma_div_mul_cancel(d, sixty);
    assert(rat_eq(rat_div(m, sixty), d));
    lemma_rat_ops_wf(b, beat0);
    lemma_rat_ops_wf(m, r);
    lemma_rat_div_wf(m, (60int, 1int));
    lemma_rat_eq_trans(rat_div(rat_mul(x, r), sixty), rat_div(m, sixty), d);
    lemma_add_congr_right(beat0, rat_div(rat_mul(x, r), sixty), d);
    lemma_add_sub_complement(beat0, b);
    lemma_rat_ops_wf(beat0, d);
    lemma_rat_eq_trans(
        rat_add(beat0, rat_div(rat_mul(x, r), sixty)),
        rat_add(beat0, d),
        b,
    );
    assert(beat_at_spec(s, t) == rat_add(beat0, rat_div(rat_mul(x, r), sixty)));
}

/// Appending a breakpoint past the last start beat keeps the tempo map
/// valid.
pub proof fn lemma_valid_push(s: Seq<BpmPoint>, p: BpmPoint)
    requires
        list_valid(s),
        p.wf(),
        s.len() == 0 || rat_lt(s.last().start_beat@, p.start_beat@),
        cache_fits(s.push(p)),
    ensures
        list_valid(s.push(p)),
{
    let t = s.push(p);
    assert(points_wf(t)) by {
        assert forall|i: int| 0 <= i < t.len() implies (#[trigger] t[i]).wf() by {
            if i < s.len() {
                assert(s[i].wf());
            }
        }
    }
    assert(points_sorted(t)) by {
        assert forall|i: int, j: int| 0 <= i < j < t.len() implies rat_lt(
            (#[trigger] t[i]).start_beat@,
            (#[trigger] t[j]).start_beat@,
        ) by {
            if j < s.len() {
                assert(rat_lt(s[i].start_beat@, s[j].start_beat@));
            } else {
                assert(s[i].wf());
                if i < s.len() - 1 {
                    assert(rat_lt(s[i].start_beat@, s.last().start_beat@));
                    lemma_rat_lt_trans(s[i].start_beat@, s.last().start_beat@, p.start_beat@);
                }
            }
        }
    }
}

/// Dropping the last breakpoint keeps the tempo map valid; the shorter cache
/// is a prefix of the old one, so it still fits.
pub proof fn lemma_valid_drop_last(s: Seq<BpmPoint>)
    requires
        list_valid(s),
        s.len() > 0,
    ensures
        list_valid(s.drop_last()),
{
    let t = s.drop_last();
    assert(points_wf(t)) by {
        assert forall|i: int| 0 <= i < t.len() implies (#[trigger] t[i]).wf() by {
            assert(s[i].wf());
        }
    }
    assert(points_sorted(t)) by {
        assert forall|i: int, j: int| 0 <= i < j < t.len() implies rat_lt(
            (#[trigger] t[i]).start_beat@,
            (#[trigger] t[j]).start_beat@,
        ) by {
            assert(rat_lt(s[i].start_beat@, s[j].start_beat@));
        }
    }
    assert(cache_fits(t)) by {
        assert forall|i: int| 1 <= i < t.len() implies #[trigger] step_fits(t, i) by {
            assert(step_fits(s, i));
            lemma_cum_time_agree(t, s, i);
            lemma_cum_time_agree(t, s, i - 1);
        }
    }
}

/// Inserting a breakpoint between its neighbours keeps the tempo map valid.
pub proof fn lemma_valid_insert(s: Seq<BpmPoint>, index: int, p: BpmPoint)
    requires
        list_valid(s),
        0 <= index <= s.len(),
        p.wf(),
        index == 0 || rat_lt(s[index - 1].start_beat@, p.start_beat@),
        index == s.len() || rat_lt(p.start_beat@, s[index].start_beat@),
        cache_fits(s.insert(index, p)),
    ensures
        list_valid(s.insert(index, p)),
{
    let t = s.insert(index, p);
    assert(points_wf(t)) by {
        assert forall|i: int| 0 <= i < t.len() implies (#[trigger] t[i]).wf() by {
            if i < index {
                assert(s[i].wf());
            } else if i > index {
                assert(s[i - 1].wf());
            }
        }
    }
    assert(points_sorted(t)) by {
        assert forall|i: int, j: int| 0 <= i < j < t.len() implies rat_lt(
            (#[trigger] t[i]).start_beat@,
            (#[trigger] t[j]).start_beat@,
        ) by {
            lemma_sorted_insert_pair(s, index, p, i, j);
        }
    }
}

/// Removing a breakpoint keeps the tempo map valid.
pub proof fn lemma_valid_remove(s: Seq<BpmPoint>, index: int)
    requires
        list_valid(s),
        0 <= index < s.len(),
        cache_fits(s.remove(index)),
    ensures
        list_valid(s.remove(index)),
{
    let t = s.remove(index);
    assert(points_wf(t)) by {
        assert forall|i: int| 0 <= i < t.len() implies (#[trigger] t[i]).wf() by {
            if i < index {
                assert(s[i].wf());
            } else {
                assert(s[i + 1].wf());
            }
        }
    }
    assert(points_sorted(t)) by {
        assert forall|i: int, j: int| 0 <= i < j < t.len() implies rat_lt(
            (#[trigger] t[i]).start_beat@,
            (#[trigger] t[j]).start_beat@,
        ) by {
            let i0 = if i < index { i } else { i + 1 };
            let j0 = if j < index { j } else { j + 1 };
            assert(rat_lt(s[i0].start_beat@, s[j0].start_beat@));
        }
    }
}

/// Overwriting a breakpoint within its neighbours keeps the tempo map valid.
pub proof fn lemma_valid_update(s: Seq<BpmPoint>, index: int, p: BpmPoint)
    requires
        list_valid(s),
        0 <= index < s.len(),
        p.wf(),
        index == 0 || rat_lt(s[index - 1].start_beat@, p.start_beat@),
        index == s.len() - 1 || rat_lt(p.start_beat@, s[index + 1].start_beat@),
        cache_fits(s.update(index, p)),
    ensures
        list_valid(s.update(index, p)),
{
    let t = s.update(index, p);
    assert(points_wf(t)) by {
        assert forall|i: int| 0 <= i < t.len() implies (#[trigger] t[i]).wf() by {
            if i != index {
                assert(s[i].wf());
            }
        }
    }
    assert(points_sorted(t)) by {
        assert forall|i: int, j: int| 0 <= i < j < t.len() implies rat_lt(
            (#[trigger] t[i]).start_beat@,
            (#[trigger] t[j]).start_beat@,
        ) by {
            lemma_sorted_update_pair(s, index, p, i, j);
        }
    }
}

/// Helper for the sortedness of an insertion: any pair of the new sequence
/// is ordered.
proof fn lemma_sorted_insert_pair(s: Seq<BpmPoint>, index: int, p: BpmPoint, i: int, j: int)
    requires
        points_wf(s),
        points_sorted(s),
        p.wf(),
        0 <= index <= s.len(),
        index == 0 || rat_lt(s[index - 1].start_beat@, p.start_beat@),
        index == s.len() || rat_lt(p.start_beat@, s[index].start_beat@),
        0 <= i < j < s.len() + 1,
    ensures
        rat_lt(s.insert(index, p)[i].start_beat@, s.insert(index, p)[j].start_beat@),
{
    let t = s.insert(index, p);
    if i == index {
        // t[i] is p; t[j] == s[j - 1] with j - 1 >= index
        assert(t[j] == s[j - 1]);
        if j - 1 > index {
            assert(s[index].wf());
            assert(rat_lt(s[index].start_beat@, s[j - 1].start_beat@));
            lemma_rat_lt_trans(p.start_beat@, s[index].start_beat@, s[j - 1].start_beat@);
        }
    } else if j == index {
        // t[i] == s[i] with i < index
        assert(t[i] == s[i]);
        if i < index - 1 {
            assert(s[index - 1].wf());
            assert(s[i].wf());
            assert(rat_lt(s[i].start_beat@, s[index - 1].start_beat@));
            lemma_rat_lt_trans(s[i].start_beat@, s[index - 1].start_beat@, p.start_beat@);
        }
    } else {
        let i0 = if i < index { i } else { i - 1 };
        let j0 = if j < index { j } else { j - 1 };
        assert(t[i] == s[i0]);
        assert(t[j] == s[j0]);
        assert(rat_lt(s[i0].start_beat@, s[j0].start_beat@));
    }
}

/// Helper for the sortedness of an in-place overwrite: any pair of the new
/// sequence is ordered.
proof fn lemma_sorted_update_pair(s: Seq<BpmPoint>, index: int, p: BpmPoint, i: int, j: int)
    requires
        points_wf(s),
        points_sorted(s),
        p.wf(),
        0 <= index < s.len(),
        index == 0 || rat_lt(s[index - 1].start_beat@, p.start_beat@),
        index == s.len() - 1 || rat_lt(p.start_beat@, s[index + 1].start_beat@),
        0 <= i < j < s.len(),
    ensures
        rat_lt(s.update(index, p)[i].start_beat@, s.update(index, p)[j].start_beat@),
{
    let t = s.update(index, p);
    if i == index {
        if j > index + 1 {
            assert(s[index + 1].wf());
            assert(rat_lt(s[index + 1].start_beat@, s[j].start_beat@));
            lemma_rat_lt_trans(p.start_beat@, s[index + 1].start_beat@, s[j].start_beat@);
        }
    } else if j == index {
        if i < index - 1 {
            assert(s[index - 1].wf());
            assert(s[i].wf());
            assert(rat_lt(s[i].start_beat@, s[index - 1].start_beat@));
            lemma_rat_lt_trans(s[i].start_beat@, s[index - 1].start_beat@, p.start_beat@);
        }
    } else {
        assert(rat_lt(s[i].start_beat@, s[j].start_beat@));
    }
}

} // verus!
