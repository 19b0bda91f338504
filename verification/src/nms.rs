//! Confidence ordering and greedy non-maximum suppression.
//!
//! Candidates are first sorted by descending confidence with a stable
//! insertion sort: a candidate moves past another only when its confidence
//! is strictly greater, so ties keep their original row order.  Greedy
//! suppression then repeatedly keeps the front candidate and discards every
//! remaining one that overlaps it at an intersection-over-union of 0.7 or
//! more.  Both passes are given as spec functions, so the kept set and its
//! order are a function of the input list alone.

use vstd::prelude::*;

use crate::detect::Candidate;
use crate::geometry::BBox;
use crate::geometry::spec_suppressed;
use crate::geometry::suppressed_by;

verus! {

/// Where a stable descending insertion places `c`: before the first
/// element whose confidence does not exceed `c`'s.
pub open spec fn spec_insert_desc(c: Candidate, s: Seq<Candidate>) -> Seq<Candidate>
    decreases s.len(),
{
    if s.len() == 0 {
        seq![c]
    } else if s[0].conf <= c.conf {
        seq![c] + s
    } else {
        seq![s[0]] + spec_insert_desc(c, s.drop_first())
    }
}

/// Stable sort by descending confidence; ties keep their input order.
pub open spec fn spec_sort_desc(s: Seq<Candidate>) -> Seq<Candidate>
    decreases s.len(),
{
    if s.len() == 0 {
        Seq::empty()
    } else {
        spec_insert_desc(s[0], spec_sort_desc(s.drop_first()))
    }
}

pub open spec fn sorted_desc(s: Seq<Candidate>) -> bool {
    forall|i: int, j: int| 0 <= i <= j < s.len() ==> #[trigger] s[i].conf >= #[trigger] s[j].conf
}

pub proof fn lemma_insert_desc_len(c: Candidate, s: Seq<Candidate>)
    ensures
        spec_insert_desc(c, s).len() == s.len() + 1,
    decreases s.len(),
{
    if s.len() > 0 && s[0].conf > c.conf {
        lemma_insert_desc_len(c, s.drop_first());
    }
}

pub proof fn lemma_insert_desc_sorted(c: Candidate, s: Seq<Candidate>)
    requires
        sorted_desc(s),
    ensures
        sorted_desc(spec_insert_desc(c, s)),
    decreases s.len(),
{
    lemma_insert_desc_len(c, s);
    if s.len() > 0 && s[0].conf > c.conf {
        lemma_insert_desc_sorted(c, s.drop_first());
        lemma_insert_desc_len(c, s.drop_first());
        let r = spec_insert_desc(c, s);
        let rest = spec_insert_desc(c, s.drop_first());
        assert forall|i: int, j: int| 0 <= i <= j < r.len() implies #[trigger] r[i].conf
            >= #[trigger] r[j].conf by {
            if i > 0 {
                assert(r[i] == rest[i - 1]);
                assert(r[j] == rest[j - 1]);
            } else if j > 0 {
                assert(r[j] == rest[j - 1]);
                if j - 1 < s.drop_first().len() + 1 {
                    lemma_insert_desc_members(c, s.drop_first(), j - 1);
                }
            }
        }
    }
}

/// Every slot of an insertion result holds either `c` or some element of `s`.
pub proof fn lemma_insert_desc_members(c: Candidate, s: Seq<Candidate>, k: int)
    requires
        0 <= k < spec_insert_desc(c, s).len(),
    ensures
        spec_insert_desc(c, s)[k] == c || exists|i: int|
            0 <= i < s.len() && spec_insert_desc(c, s)[k] == #[trigger] s[i],
    decreases s.len(),
{
    lemma_insert_desc_len(c, s);
    if s.len() > 0 && s[0].conf > c.conf {
        if k > 0 {
            lemma_insert_desc_members(c, s.drop_first(), k - 1);
            let r = spec_insert_desc(c, s.drop_first());
            if r[k - 1] != c {
                let i = choose|i: int| 0 <= i < s.drop_first().len() && r[k - 1]
                    == #[trigger] s.drop_first()[i];
                assert(spec_insert_desc(c, s)[k] == s[i + 1]);
            }
        }
    }
}

pub proof fn lemma_sort_desc_len(s: Seq<Candidate>)
    ensures
        spec_sort_desc(s).len() == s.len(),
    decreases s.len(),
{
    if s.len() > 0 {
        lemma_sort_desc_len(s.drop_first());
        lemma_insert_desc_len(s[0], spec_sort_desc(s.drop_first()));
    }
}

/// The stable sort really orders by descending confidence.
pub proof fn lemma_sort_desc_sorted(s: Seq<Candidate>)
    ensures
        sorted_desc(spec_sort_desc(s)),
    decreases s.len(),
{
    if s.len() > 0 {
        lemma_sort_desc_sorted(s.drop_first());
        lemma_insert_desc_sorted(s[0], spec_sort_desc(s.drop_first()));
    }
}

/// Every slot of the sorted list holds some element of the input.
pub proof fn lemma_sort_desc_members(s: Seq<Candidate>, k: int)
    requires
        0 <= k < spec_sort_desc(s).len(),
    ensures
        exists|i: int| 0 <= i < s.len() && spec_sort_desc(s)[k] == #[trigger] s[i],
    decreases s.len(),
{
    lemma_sort_desc_len(s);
    if s.len() > 0 {
        lemma_insert_desc_members(s[0], spec_sort_desc(s.drop_first()), k);
        let r = spec_sort_desc(s);
        if r[k] != s[0] {
            let j = choose|j: int|
                0 <= j < spec_sort_desc(s.drop_first()).len() && r[k] == #[trigger] spec_sort_desc(
                    s.drop_first(),
                )[j];
            lemma_sort_desc_members(s.drop_first(), j);
            let i = choose|i: int| 0 <= i < s.drop_first().len() && spec_sort_desc(s.drop_first())[j]
                == #[trigger] s.drop_first()[i];
            assert(r[k] == s[i + 1]);
        }
    }
}

/// Inserts `c` into a list already sorted by descending confidence.
fn insert_desc(c: Candidate, s: &Vec<Candidate>) -> (r: Vec<Candidate>)
    ensures
        r@ == spec_insert_desc(c, s@),
{
    let mut out: Vec<Candidate> = Vec::new();
    let mut j: usize = 0;
    while j < s.len() && s[j].conf > c.conf
        invariant
            0 <= j <= s.len(),
            out@ =~= s@.subrange(0, j as int),
            forall|k: int| 0 <= k < j ==> #[trigger] s@[k].conf > c.conf,
        decreases s.len() - j,
    {
        out.push(s[j]);
        j = j + 1;
    }
    out.push(c);
    let mut k: usize = j;
    while k < s.len()
        invariant
            j <= k <= s.len(),
            out@ =~= s@.subrange(0, j as int) + seq![c] + s@.subrange(j as int, k as int),
        decreases s.len() - k,
    {
        out.push(s[k]);
        k = k + 1;
    }
    proof {
        lemma_insert_desc_split(c, s@, j as int);
        assert(out@ =~= s@.subrange(0, j as int) + seq![c] + s@.subrange(
            j as int,
            s@.len() as int,
        ));
    }
    out
}

/// Insertion into a sorted list splits at the first index whose
/// confidence does not exceed the inserted one.
proof fn lemma_insert_desc_split(c: Candidate, s: Seq<Candidate>, j: int)
    requires
        0 <= j <= s.len(),
        forall|k: int| 0 <= k < j ==> #[trigger] s[k].conf > c.conf,
        j < s.len() ==> s[j].conf <= c.conf,
    ensures
        spec_insert_desc(c, s) =~= s.subrange(0, j) + seq![c] + s.subrange(j, s.len() as int),
    decreases s.len(),
{
    if s.len() == 0 || s[0].conf <= c.conf {
    } else {
        lemma_insert_desc_split(c, s.drop_first(), j - 1);
        assert(s.drop_first().subrange(0, j - 1) =~= s.subrange(1, j));
        assert(s.drop_first().subrange(j - 1, s.drop_first().len() as int) =~= s.subrange(
            j,
            s.len() as int,
        ));
    }
}

/// Sorts candidates by descending confidence; equal confidences keep
/// their input order.
pub fn sort_desc(v: &Vec<Candidate>) -> (r: Vec<Candidate>)
    ensures
        r@ == spec_sort_desc(v@),
{
    let mut out: Vec<Candidate> = Vec::new();
    let mut i: usize = v.len();
    while i > 0
        invariant
            0 <= i <= v.len(),
            out@ == spec_sort_desc(v@.subrange(i as int, v@.len() as int)),
        decreases i,
    {
        i = i - 1;
        assert(v@.subrange(i as int, v@.len() as int).drop_first() =~= v@.subrange(
            i + 1 as int,
            v@.len() as int,
        ));
        out = insert_desc(v[i], &out);
    }
    assert(v@.subrange(0, v@.len() as int) =~= v@);
    out
}

/// Survivors of one suppression round: the candidates of `s` whose box
/// does not overlap `pivot` at 0.7 intersection-over-union or more.
pub open spec fn spec_survivors(pivot: BBox, s: Seq<Candidate>) -> Seq<Candidate>
    decreases s.len(),
{
    if s.len() == 0 {
        Seq::empty()
    } else {
        let prev = spec_survivors(pivot, s.drop_last());
        if spec_suppressed(pivot, s.last().bbox) {
            prev
        } else {
            prev.push(s.last())
        }
    }
}

pub proof fn lemma_survivors_len(pivot: BBox, s: Seq<Candidate>)
    ensures
        spec_survivors(pivot, s).len() <= s.len(),
    decreases s.len(),
{
    if s.len() > 0 {
        lemma_survivors_len(pivot, s.drop_last());
    }
}

/// Each survivor comes from `s` and is clear of the pivot.
pub proof fn lemma_survivors_members(pivot: BBox, s: Seq<Candidate>)
    ensures
        forall|k: int|
            0 <= k < spec_survivors(pivot, s).len() ==> !spec_suppressed(
                pivot,
                (#[trigger] spec_survivors(pivot, s)[k]).bbox,
            ),
        forall|k: int|
            0 <= k < spec_survivors(pivot, s).len() ==> exists|i: int|
                0 <= i < s.len() && (#[trigger] spec_survivors(pivot, s)[k]) == #[trigger] s[i],
    decreases s.len(),
{
    if s.len() > 0 {
        lemma_survivors_members(pivot, s.drop_last());
        let r = spec_survivors(pivot, s);
        let prev = spec_survivors(pivot, s.drop_last());
        assert forall|k: int| 0 <= k < r.len() implies exists|i: int|
            0 <= i < s.len() && (#[trigger] r[k]) == #[trigger] s[i] by {
            if k < prev.len() {
                let i = choose|i: int| 0 <= i < s.drop_last().len() && prev[k]
                    == #[trigger] s.drop_last()[i];
                assert(r[k] == s[i]);
            } else {
                assert(r[k] == s[s.len() - 1]);
            }
        }
    }
}

/// Greedy non-maximum suppression: keep the front candidate, drop every
/// later one that overlaps it at 0.7 or more, repeat on the survivors.
pub open spec fn spec_nms(s: Seq<Candidate>) -> Seq<Candidate>
    decreases s.len(),
{
    if s.len() == 0 {
        Seq::empty()
    } else {
        proof {
            lemma_survivors_len(s[0].bbox, s.drop_first());
        }
        seq![s[0]] + spec_nms(spec_survivors(s[0].bbox, s.drop_first()))
    }
}

/// Suppression never grows the list: dropping the suppression step can
/// only preserve or increase the number of candidates kept.
pub proof fn lemma_nms_len(s: Seq<Candidate>)
    ensures
        spec_nms(s).len() <= s.len(),
    decreases s.len(),
{
    if s.len() > 0 {
        lemma_survivors_len(s[0].bbox, s.drop_first());
        lemma_nms_len(spec_survivors(s[0].bbox, s.drop_first()));
    }
}

/// Every kept candidate is one of the input candidates.
pub proof fn lemma_nms_members(s: Seq<Candidate>)
    ensures
        forall|k: int|
            0 <= k < spec_nms(s).len() ==> exists|i: int|
                0 <= i < s.len() && (#[trigger] spec_nms(s)[k]) == #[trigger] s[i],
    decreases s.len(),
{
    if s.len() > 0 {
        let t = spec_survivors(s[0].bbox, s.drop_first());
        lemma_survivors_len(s[0].bbox, s.drop_first());
        lemma_survivors_members(s[0].bbox, s.drop_first());
        lemma_nms_members(t);
        let r = spec_nms(s);
        assert forall|k: int| 0 <= k < r.len() implies exists|i: int|
            0 <= i < s.len() && (#[trigger] r[k]) == #[trigger] s[i] by {
            if k == 0 {
                assert(r[0] == s[0]);
            } else {
                let j = choose|j: int| 0 <= j < t.len() && spec_nms(t)[k - 1] == #[trigger] t[j];
                let i = choose|i: int| 0 <= i < s.drop_first().len() && t[j]
                    == #[trigger] s.drop_first()[i];
                assert(r[k] == s[i + 1]);
            }
        }
    }
}

/// Law: any two kept boxes overlap at strictly less than 0.7
/// intersection-over-union.
pub proof fn lemma_nms_no_overlap(s: Seq<Candidate>)
    ensures
        forall|i: int, j: int|
            0 <= i < spec_nms(s).len() && 0 <= j < spec_nms(s).len() && i != j ==> !spec_suppressed(
                (#[trigger] spec_nms(s)[i]).bbox,
                (#[trigger] spec_nms(s)[j]).bbox,
            ),
{
    lemma_nms_no_overlap_ordered(s);
    let r = spec_nms(s);
    assert forall|i: int, j: int|
        0 <= i < r.len() && 0 <= j < r.len() && i != j implies !spec_suppressed(
        (#[trigger] r[i]).bbox,
        (#[trigger] r[j]).bbox,
    ) by {
        if j < i {
            crate::geometry::lemma_suppressed_symmetric(r[i].bbox, r[j].bbox);
        }
    }
}

/// Helper for the overlap law: later kept boxes are clear of earlier ones.
proof fn lemma_nms_no_overlap_ordered(s: Seq<Candidate>)
    ensures
        forall|i: int, j: int|
            0 <= i < j < spec_nms(s).len() ==> !spec_suppressed(
                (#[trigger] spec_nms(s)[i]).bbox,
                (#[trigger] spec_nms(s)[j]).bbox,
            ),
    decreases s.len(),
{
    if s.len() > 0 {
        let t = spec_survivors(s[0].bbox, s.drop_first());
        lemma_survivors_len(s[0].bbox, s.drop_first());
        lemma_survivors_members(s[0].bbox, s.drop_first());
        lemma_nms_members(t);
        lemma_nms_no_overlap_ordered(t);
        let r = spec_nms(s);
        assert forall|i: int, j: int| 0 <= i < j < r.len() implies !spec_suppressed(
            (#[trigger] r[i]).bbox,
            (#[trigger] r[j]).bbox,
        ) by {
            if i == 0 {
                let k = choose|k: int| 0 <= k < t.len() && spec_nms(t)[j - 1] == #[trigger] t[k];
                assert(!spec_suppressed(s[0].bbox, t[k].bbox));
            } else {
                assert(r[i] == spec_nms(t)[i - 1]);
                assert(r[j] == spec_nms(t)[j - 1]);
            }
        }
    }
}

/// Keeps only candidates past `start` whose box is clear of `pivot`.
fn filter_survivors(pivot: &BBox, v: &Vec<Candidate>, start: usize) -> (r: Vec<Candidate>)
    requires
        pivot.wf(),
        start <= v.len(),
        forall|i: int| 0 <= i < v.len() ==> (#[trigger] v@[i]).wf(),
    ensures
        r@ == spec_survivors(*pivot, v@.subrange(start as int, v@.len() as int)),
        forall|i: int| 0 <= i < r.len() ==> (#[trigger] r@[i]).wf(),
{
    let mut out: Vec<Candidate> = Vec::new();
    let mut i: usize = start;
    while i < v.len()
        invariant
            start <= i <= v.len(),
            pivot.wf(),
            forall|j: int| 0 <= j < v.len() ==> (#[trigger] v@[j]).wf(),
            out@ == spec_survivors(*pivot, v@.subrange(start as int, i as int)),
            forall|j: int| 0 <= j < out.len() ==> (#[trigger] out@[j]).wf(),
        decreases v.len() - i,
    {
        assert(v@.subrange(start as int, i + 1 as int).drop_last() =~= v@.subrange(
            start as int,
            i as int,
        ));
        assert(v@.subrange(start as int, i + 1 as int).last() == v@[i as int]);
        if !suppressed_by(pivot, &v[i].bbox) {
            out.push(v[i]);
        }
        i = i + 1;
    }
    out
}

/// Greedy non-maximum suppression over a list already ordered by
/// descending confidence.
pub fn run_nms(v: Vec<Candidate>) -> (r: Vec<Candidate>)
    requires
        forall|i: int| 0 <= i < v.len() ==> (#[trigger] v@[i]).wf(),
    ensures
        r@ == spec_nms(v@),
        forall|i: int| 0 <= i < r.len() ==> (#[trigger] r@[i]).wf(),
{
    let ghost orig = v@;
    let mut rest = v;
    let mut kept: Vec<Candidate> = Vec::new();
    while rest.len() > 0
        invariant
            spec_nms(orig) == kept@ + spec_nms(rest@),
            forall|i: int| 0 <= i < rest.len() ==> (#[trigger] rest@[i]).wf(),
            forall|i: int| 0 <= i < kept.len() ==> (#[trigger] kept@[i]).wf(),
        decreases rest.len(),
    {
        let pivot = rest[0];
        kept.push(pivot);
        proof {
            lemma_survivors_len(pivot.bbox, rest@.drop_first());
            assert(rest@.subrange(1, rest@.len() as int) =~= rest@.drop_first());
        }
        let next = filter_survivors(&pivot.bbox, &rest, 1);
        proof {
            assert(kept@ + spec_nms(next@) =~= spec_nms(orig));
        }
        rest = next;
    }
    proof {
        assert(kept@ + spec_nms(rest@) =~= kept@);
    }
    kept
}

} // verus!
