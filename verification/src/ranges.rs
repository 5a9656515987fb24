//! Lists of styled byte ranges and their flattening into disjoint segments.

use crate::style::Style;
use std::ops::Range;
use vstd::prelude::*;

verus! {

/// A half-open byte range together with the style that it carries.
pub type Styled<S> = (Range<usize>, S);

/// Whether the offset `p` lies inside the half-open range `r`.
pub open spec fn covers(r: Range<usize>, p: int) -> bool {
    r.start <= p < r.end
}

/// Whether entry `i` of `l` is a range that holds at least one offset.
pub open spec fn occupied<S>(l: Seq<Styled<S>>, i: int) -> bool {
    0 <= i < l.len() && l[i].0.start < l[i].0.end
}

/// Whether some non-empty range of `l` starts at `p`.
pub open spec fn starts_at<S>(l: Seq<Styled<S>>, p: int) -> bool {
    exists|i: int| #[trigger] occupied(l, i) && l[i].0.start == p
}

/// Whether some non-empty range of `l` ends at `p`.
pub open spec fn ends_at<S>(l: Seq<Styled<S>>, p: int) -> bool {
    exists|i: int| #[trigger] occupied(l, i) && l[i].0.end == p
}

/// Whether `p` is the start or the end of a non-empty range of `l`.
pub open spec fn is_boundary<S>(l: Seq<Styled<S>>, p: int) -> bool {
    starts_at(l, p) || ends_at(l, p)
}

/// The style that `l` gives to the offset `p`: the styles of all ranges that
/// cover `p`, layered in list order with the earliest at the bottom, or `None`
/// where no range covers `p`.
pub open spec fn style_at<S: Style>(l: Seq<Styled<S>>, p: int) -> Option<S>
    decreases l.len(),
{
    if l.len() == 0 {
        None
    } else {
        let below = style_at(l.drop_last(), p);
        let top = l.last();
        if covers(top.0, p) {
            match below {
                Some(s) => Some(s.layered(top.1)),
                None => Some(top.1),
            }
        } else {
            below
        }
    }
}

/// Two optional styles stacked, the first at the bottom.
pub open spec fn stacked<S: Style>(lower: Option<S>, upper: Option<S>) -> Option<S> {
    match (lower, upper) {
        (Some(a), Some(b)) => Some(a.layered(b)),
        (Some(a), None) => Some(a),
        (None, b) => b,
    }
}

/// Whether `c` is sorted and holds only non-empty ranges that do not overlap.
pub open spec fn is_flat<S>(c: Seq<Styled<S>>) -> bool {
    &&& forall|i: int| 0 <= i < c.len() ==> (#[trigger] c[i]).0.start < c[i].0.end
    &&& forall|i: int, j: int|
        0 <= i < j < c.len() ==> (#[trigger] c[i]).0.end <= (#[trigger] c[j]).0.start
}

/// Whether `c` is the flattening of `l`: sorted disjoint non-empty segments,
/// cut at exactly the boundaries of `l`, that give every offset the style that
/// `l` gives it. For each `l` there is exactly one such `c`.
pub open spec fn flattens<S: Style>(c: Seq<Styled<S>>, l: Seq<Styled<S>>) -> bool {
    &&& is_flat(c)
    &&& forall|p: int| #[trigger] is_boundary(c, p) <==> is_boundary(l, p)
    &&& forall|p: int| #[trigger] style_at(c, p) == style_at(l, p)
}

/// An offset has a style exactly where a range covers it.
pub proof fn lemma_styled_iff_covered<S: Style>(l: Seq<Styled<S>>, p: int)
    ensures
        style_at(l, p) is Some <==> exists|i: int|
            0 <= i < l.len() && covers((#[trigger] l[i]).0, p),
    decreases l.len(),
{
    if l.len() > 0 {
        let front = l.drop_last();
        lemma_styled_iff_covered(front, p);
        if style_at(l, p) is Some {
            if covers(l.last().0, p) {
                assert(covers(l[l.len() - 1].0, p));
            } else {
                let i = choose|i: int| 0 <= i < front.len() && covers((#[trigger] front[i]).0, p);
                assert(covers(l[i].0, p));
            }
        } else {
            assert forall|i: int| 0 <= i < l.len() implies !covers((#[trigger] l[i]).0, p) by {
                if i < l.len() - 1 {
                    assert(front[i] == l[i]);
                }
            }
        }
    }
}

/// Between two neighbouring boundaries the style does not change.
pub proof fn lemma_style_constant_between<S: Style>(l: Seq<Styled<S>>, lo: int, hi: int, p: int)
    requires
        lo <= p < hi,
        forall|q: int| lo < q < hi ==> !is_boundary(l, q),
    ensures
        style_at(l, p) == style_at(l, lo),
    decreases l.len(),
{
    if l.len() > 0 {
        let front = l.drop_last();
        let last = l.len() - 1;
        assert forall|q: int| lo < q < hi implies !is_boundary(front, q) by {
            if starts_at(front, q) {
                let i = choose|i: int| #[trigger] occupied(front, i) && front[i].0.start == q;
                assert(occupied(l, i));
                assert(is_boundary(l, q));
            }
            if ends_at(front, q) {
                let i = choose|i: int| #[trigger] occupied(front, i) && front[i].0.end == q;
                assert(occupied(l, i));
                assert(is_boundary(l, q));
            }
        }
        lemma_style_constant_between(front, lo, hi, p);
        let r = l.last().0;
        if r.start < r.end {
            assert(occupied(l, last));
            if lo < r.start < hi {
                assert(starts_at(l, r.start as int));
                assert(is_boundary(l, r.start as int));
            }
            if lo < r.end < hi {
                assert(ends_at(l, r.end as int));
                assert(is_boundary(l, r.end as int));
            }
        }
        assert(covers(r, p) == covers(r, lo));
    }
}

/// Past the end of every range there is no style.
pub proof fn lemma_unstyled_beyond<S: Style>(l: Seq<Styled<S>>, limit: int, p: int)
    requires
        forall|i: int| 0 <= i < l.len() ==> (#[trigger] l[i]).0.end <= limit,
        limit <= p,
    ensures
        style_at(l, p) is None,
    decreases l.len(),
{
    if l.len() > 0 {
        let front = l.drop_last();
        assert forall|i: int| 0 <= i < front.len() implies (#[trigger] front[i]).0.end <= limit by {
            assert(front[i] == l[i]);
        }
        lemma_unstyled_beyond(front, limit, p);
        assert(l[l.len() - 1].0.end <= limit);
    }
}

/// The style of a concatenation is the style of its first part with the style
/// of its second part stacked on it.
pub proof fn lemma_style_at_concat<S: Style>(a: Seq<Styled<S>>, b: Seq<Styled<S>>, p: int)
    ensures
        style_at(a + b, p) == stacked(style_at(a, p), style_at(b, p)),
    decreases b.len(),
{
    if b.len() == 0 {
        assert(a + b =~= a);
    } else {
        let front = b.drop_last();
        assert((a + b).drop_last() =~= a + front);
        assert((a + b).last() == b.last());
        lemma_style_at_concat(a, front, p);
        if covers(b.last().0, p) {
            match (style_at(a, p), style_at(front, p)) {
                (Some(x), Some(y)) => {
                    S::layered_is_associative(x, y, b.last().1);
                },
                _ => {},
            }
        }
    }
}

/// What holds of the segments emitted so far once a sweep over `l` has
/// reached the offset `pos`.
spec fn swept<S: Style>(out: Seq<Styled<S>>, l: Seq<Styled<S>>, pos: int) -> bool {
    &&& is_flat(out)
    &&& forall|i: int| 0 <= i < out.len() ==> (#[trigger] out[i]).0.end <= pos
    &&& forall|p: int| p < pos ==> #[trigger] style_at(out, p) == style_at(l, p)
    &&& forall|q: int| #[trigger] is_boundary(out, q) ==> is_boundary(l, q)
    &&& forall|q: int| q < pos && #[trigger] starts_at(l, q) ==> is_boundary(out, q)
    &&& forall|q: int| q <= pos && #[trigger] ends_at(l, q) ==> is_boundary(out, q)
    &&& pos == 0 || is_boundary(l, pos)
}

/// Whether `next` is the first boundary of `l` after `pos`.
spec fn next_boundary<S>(l: Seq<Styled<S>>, pos: int, next: int) -> bool {
    &&& 0 <= pos < next
    &&& is_boundary(l, next)
    &&& forall|q: int| pos < q < next ==> !is_boundary(l, q)
}

/// A boundary of a list is still one after a segment was appended.
proof fn lemma_boundary_kept<S>(before: Seq<Styled<S>>, after: Seq<Styled<S>>, q: int)
    requires
        after.len() == before.len() + 1,
        after.drop_last() == before,
        is_boundary(before, q),
    ensures
        is_boundary(after, q),
{
    if starts_at(before, q) {
        let i = choose|i: int| #[trigger] occupied(before, i) && before[i].0.start == q;
        assert(after[i] == before[i]);
        assert(occupied(after, i));
    } else {
        let i = choose|i: int| #[trigger] occupied(before, i) && before[i].0.end == q;
        assert(after[i] == before[i]);
        assert(occupied(after, i));
    }
}

/// A range of `l` that ends at the next boundary covers the current offset.
proof fn lemma_ending_range_covers<S>(l: Seq<Styled<S>>, pos: int, next: int) -> (i: int)
    requires
        next_boundary(l, pos, next),
        ends_at(l, next),
    ensures
        0 <= i < l.len(),
        covers(l[i].0, pos),
        l[i].0.end == next,
{
    let i = choose|i: int| #[trigger] occupied(l, i) && l[i].0.end == next;
    let start = l[i].0.start as int;
    assert(starts_at(l, start));
    assert(is_boundary(l, start));
    i
}

/// Before the sweep starts nothing is emitted and nothing is owed.
proof fn lemma_sweep_start<S: Style>(l: Seq<Styled<S>>)
    ensures
        swept(Seq::<Styled<S>>::empty(), l, 0),
{
    let out = Seq::<Styled<S>>::empty();
    assert forall|p: int| p < 0 implies #[trigger] style_at(out, p) == style_at(l, p) by {
        lemma_styled_iff_covered(l, p);
    }
    assert forall|q: int| #[trigger] is_boundary(out, q) implies is_boundary(l, q) by {
        if starts_at(out, q) {
            let i = choose|i: int| #[trigger] occupied(out, i) && out[i].0.start == q;
        } else {
            let i = choose|i: int| #[trigger] occupied(out, i) && out[i].0.end == q;
        }
    }
    assert forall|q: int| q < 0 && #[trigger] starts_at(l, q) implies is_boundary(out, q) by {
        let i = choose|i: int| #[trigger] occupied(l, i) && l[i].0.start == q;
    }
    assert forall|q: int| q <= 0 && #[trigger] ends_at(l, q) implies is_boundary(out, q) by {
        let i = choose|i: int| #[trigger] occupied(l, i) && l[i].0.end == q;
    }
}

/// The sweep stays sound when the stretch up to the next boundary is
/// emitted with the style that the list gives it.
proof fn lemma_segment_added<S: Style>(
    before: Seq<Styled<S>>,
    after: Seq<Styled<S>>,
    l: Seq<Styled<S>>,
    pos: int,
    next: int,
)
    requires
        swept(before, l, pos),
        next_boundary(l, pos, next),
        after.len() == before.len() + 1,
        after.drop_last() == before,
        after.last().0.start == pos,
        after.last().0.end == next,
        style_at(l, pos) == Some(after.last().1),
    ensures
        swept(after, l, next),
{
    let last = after.len() - 1;
    assert forall|i: int| 0 <= i < after.len() implies (#[trigger] after[i]).0.start
        < after[i].0.end && after[i].0.end <= next by {
        if i < last {
            assert(after[i] == before[i]);
        }
    }
    assert forall|i: int, j: int| 0 <= i < j < after.len() implies (#[trigger] after[i]).0.end <= (
    #[trigger] after[j]).0.start by {
        assert(after[i] == before[i]);
        if j < last {
            assert(after[j] == before[j]);
        }
    }
    assert forall|p: int| p < next implies #[trigger] style_at(after, p) == style_at(l, p) by {
        if pos <= p {
            lemma_unstyled_beyond(before, pos, p);
            lemma_style_constant_between(l, pos, next, p);
        }
    }
    assert(occupied(after, last));
    lemma_styled_iff_covered(l, pos);
    let c = choose|i: int| 0 <= i < l.len() && covers((#[trigger] l[i]).0, pos);
    assert(occupied(l, c));
    assert(starts_at(l, l[c].0.start as int));
    assert(is_boundary(l, pos));
    assert(starts_at(after, pos));
    assert(ends_at(after, next));
    assert forall|q: int| #[trigger] is_boundary(after, q) implies is_boundary(l, q) by {
        let i = if starts_at(after, q) {
            choose|i: int| #[trigger] occupied(after, i) && after[i].0.start == q
        } else {
            choose|i: int| #[trigger] occupied(after, i) && after[i].0.end == q
        };
        if i < last {
            assert(after[i] == before[i]);
            assert(occupied(before, i));
            assert(is_boundary(before, q));
        }
    }
    assert forall|q: int| q < next && #[trigger] starts_at(l, q) implies is_boundary(after, q) by {
        assert(is_boundary(l, q));
        if q < pos {
            lemma_boundary_kept(before, after, q);
        }
    }
    assert forall|q: int| q <= next && #[trigger] ends_at(l, q) implies is_boundary(after, q) by {
        assert(is_boundary(l, q));
        if q <= pos {
            lemma_boundary_kept(before, after, q);
        }
    }
}

/// The sweep stays sound when a stretch that no range covers is passed over.
proof fn lemma_segment_skipped<S: Style>(
    out: Seq<Styled<S>>,
    l: Seq<Styled<S>>,
    pos: int,
    next: int,
)
    requires
        swept(out, l, pos),
        next_boundary(l, pos, next),
        style_at(l, pos) is None,
    ensures
        swept(out, l, next),
{
    lemma_styled_iff_covered(l, pos);
    assert forall|p: int| p < next implies #[trigger] style_at(out, p) == style_at(l, p) by {
        if pos <= p {
            lemma_unstyled_beyond(out, pos, p);
            lemma_style_constant_between(l, pos, next, p);
        }
    }
    assert forall|q: int| q < next && #[trigger] starts_at(l, q) implies is_boundary(out, q) by {
        assert(is_boundary(l, q));
        if pos <= q {
            let i = choose|i: int| #[trigger] occupied(l, i) && l[i].0.start == q;
            assert(covers(l[i].0, pos));
        }
    }
    assert forall|q: int| q <= next && #[trigger] ends_at(l, q) implies is_boundary(out, q) by {
        assert(is_boundary(l, q));
        if pos < q {
            let i = lemma_ending_range_covers(l, pos, next);
        }
    }
}

/// Once no boundary is left, what the sweep emitted is the flattening.
proof fn lemma_flattening_complete<S: Style>(out: Seq<Styled<S>>, l: Seq<Styled<S>>, pos: int)
    requires
        swept(out, l, pos),
        forall|q: int| pos < q ==> !is_boundary(l, q),
    ensures
        flattens(out, l),
{
    assert forall|p: int| #[trigger] style_at(out, p) == style_at(l, p) by {
        if pos <= p {
            lemma_unstyled_beyond(out, pos, p);
            lemma_styled_iff_covered(l, p);
            if style_at(l, p) is Some {
                let i = choose|i: int| 0 <= i < l.len() && covers((#[trigger] l[i]).0, p);
                assert(occupied(l, i));
                assert(ends_at(l, l[i].0.end as int));
                assert(is_boundary(l, l[i].0.end as int));
            }
        }
    }
    assert forall|q: int| is_boundary(l, q) implies #[trigger] is_boundary(out, q) by {
        if starts_at(l, q) && q >= pos {
            let i = choose|i: int| #[trigger] occupied(l, i) && l[i].0.start == q;
            assert(ends_at(l, l[i].0.end as int));
            assert(is_boundary(l, l[i].0.end as int));
        }
    }
}

/// The style that `l` gives to the offset `pos`.
pub fn style_over<S: Style>(l: &Vec<Styled<S>>, pos: usize) -> (r: Option<S>)
    ensures
        r == style_at(l@, pos as int),
{
    let mut acc: Option<S> = None;
    let mut i: usize = 0;
    while i < l.len()
        invariant
            i <= l.len(),
            acc == style_at(l@.take(i as int), pos as int),
        decreases l.len() - i,
    {
        proof {
            assert(l@.take(i + 1).drop_last() =~= l@.take(i as int));
            assert(l@.take(i + 1).last() == l@[i as int]);
        }
        if l[i].0.start <= pos && pos < l[i].0.end {
            acc = Some(
                match acc {
                    Some(below) => below.layer(&l[i].1),
                    None => l[i].1.duplicate(),
                },
            );
        }
        i += 1;
    }
    proof {
        assert(l@.take(l@.len() as int) =~= l@);
    }
    acc
}

/// The smaller of a candidate boundary and the best one found so far.
fn nearer(best: Option<usize>, candidate: usize) -> (r: Option<usize>)
    ensures
        r is Some,
        r->0 <= candidate,
        best is Some ==> r->0 <= best->0,
        r->0 == candidate || r == best,
{
    match best {
        Some(b) => if b <= candidate {
            Some(b)
        } else {
            Some(candidate)
        },
        None => Some(candidate),
    }
}

/// The first boundary of `l` after `pos`, or `None` where `l` has none there.
pub fn boundary_after<S>(l: &Vec<Styled<S>>, pos: usize) -> (r: Option<usize>)
    ensures
        r matches Some(n) ==> pos < n && is_boundary(l@, n as int) && forall|q: int|
            pos < q < n ==> !is_boundary(l@, q),
        r is None ==> forall|q: int| pos < q ==> !is_boundary(l@, q),
{
    let mut best: Option<usize> = None;
    let mut i: usize = 0;
    while i < l.len()
        invariant
            i <= l.len(),
            best matches Some(n) ==> pos < n && is_boundary(l@, n as int),
            forall|j: int|
                0 <= j < i && #[trigger] occupied(l@, j) && pos < l@[j].0.start ==> best is Some
                    && best->0 <= l@[j].0.start,
            forall|j: int|
                0 <= j < i && #[trigger] occupied(l@, j) && pos < l@[j].0.end ==> best is Some
                    && best->0 <= l@[j].0.end,
        decreases l.len() - i,
    {
        let start = l[i].0.start;
        let end = l[i].0.end;
        if start < end {
            proof {
                assert(occupied(l@, i as int));
                assert(starts_at(l@, start as int));
                assert(ends_at(l@, end as int));
            }
            if pos < start {
                best = nearer(best, start);
            }
            if pos < end {
                best = nearer(best, end);
            }
        }
        i += 1;
    }
    proof {
        assert forall|q: int| pos < q && is_boundary(l@, q) implies best is Some && best->0
            <= q by {
            if starts_at(l@, q) {
                let j = choose|j: int| #[trigger] occupied(l@, j) && l@[j].0.start == q;
                assert(occupied(l@, j));
            } else {
                let j = choose|j: int| #[trigger] occupied(l@, j) && l@[j].0.end == q;
                assert(occupied(l@, j));
            }
        }
    }
    best
}

/// Flattens a list of styled ranges, which may overlap and come in any order,
/// into sorted disjoint segments: one segment between each two neighbouring
/// boundaries wherever a range covers it, carrying the layered style of all
/// ranges that cover it. Empty ranges are dropped.
pub fn flatten<S: Style>(l: &Vec<Styled<S>>) -> (out: Vec<Styled<S>>)
    ensures
        flattens(out@, l@),
{
    let mut out: Vec<Styled<S>> = Vec::new();
    let mut pos: usize = 0;
    let mut upcoming = boundary_after(l, pos);
    proof {
        lemma_sweep_start(l@);
    }
    while upcoming.is_some()
        invariant
            swept(out@, l@, pos as int),
            upcoming matches Some(n) ==> next_boundary(l@, pos as int, n as int),
            upcoming is None ==> forall|q: int| pos < q ==> !is_boundary(l@, q),
        decreases usize::MAX - pos,
    {
        let next = upcoming.unwrap();
        let style = style_over(l, pos);
        let ghost before = out@;
        proof {
            lemma_styled_iff_covered(l@, pos as int);
        }
        match style {
            Some(s) => {
                out.push((Range { start: pos, end: next }, s));
                proof {
                    assert(out@.drop_last() =~= before);
                    lemma_segment_added(before, out@, l@, pos as int, next as int);
                }
            },
            None => {
                proof {
                    lemma_segment_skipped(before, l@, pos as int, next as int);
                }
            },
        }
        pos = next;
        upcoming = boundary_after(l, pos);
    }
    proof {
        lemma_flattening_complete(out@, l@, pos as int);
    }
    out
}

/// Merges two lists of styled ranges into one flat list that covers what
/// either covers. Where ranges of both cover an offset their styles are
/// layered, those of `a` below those of `b`, so that on conflict `a` wins.
pub fn merge<S: Style>(a: Vec<Styled<S>>, b: Vec<Styled<S>>) -> (out: Vec<Styled<S>>)
    ensures
        flattens(out@, a@ + b@),
{
    let mut all = a;
    let mut rest = b;
    all.append(&mut rest);
    flatten(&all)
}

/// In a flat list the style at an offset is the style of the one segment
/// that covers it.
pub proof fn lemma_flat_style<S: Style>(c: Seq<Styled<S>>, i: int, p: int)
    requires
        is_flat(c),
        0 <= i < c.len(),
        covers(c[i].0, p),
    ensures
        style_at(c, p) == Some(c[i].1),
    decreases c.len(),
{
    let front = c.drop_last();
    let last = c.len() - 1;
    assert forall|j: int| 0 <= j < front.len() implies (#[trigger] front[j]).0.end
        <= c[last].0.start by {
        assert(front[j] == c[j]);
    }
    if i == last {
        lemma_unstyled_beyond(front, c[last].0.start as int, p);
    } else {
        assert(is_flat(front)) by {
            assert forall|j: int| 0 <= j < front.len() implies (#[trigger] front[j]).0.start
                < front[j].0.end by {
                assert(front[j] == c[j]);
            }
            assert forall|j: int, k: int| 0 <= j < k < front.len() implies (
            #[trigger] front[j]).0.end <= (#[trigger] front[k]).0.start by {
                assert(front[j] == c[j]);
                assert(front[k] == c[k]);
            }
        }
        assert(front[i] == c[i]);
        lemma_flat_style(front, i, p);
        assert(c[i].0.end <= c[last].0.start);
    }
}

/// The merge of two lists covers exactly the offsets that either covers, and
/// gives each the two styles stacked, that of the first list at the bottom.
/// Where both lists are flat, these are the styles of the one segment of each
/// that covers the offset (see [`lemma_flat_style`]).
pub proof fn merge_is_pointwise<S: Style>(
    a: Seq<Styled<S>>,
    b: Seq<Styled<S>>,
    merged: Seq<Styled<S>>,
    p: int,
)
    requires
        flattens(merged, a + b),
    ensures
        style_at(merged, p) == stacked(style_at(a, p), style_at(b, p)),
        style_at(merged, p) is Some <==> style_at(a, p) is Some || style_at(b, p) is Some,
        (exists|k: int| 0 <= k < merged.len() && covers((#[trigger] merged[k]).0, p)) <==> (exists|
            i: int,
        |
            0 <= i < a.len() && covers((#[trigger] a[i]).0, p)) || (exists|j: int|
            0 <= j < b.len() && covers((#[trigger] b[j]).0, p)),
{
    lemma_style_at_concat(a, b, p);
    assert(style_at(merged, p) == style_at(a + b, p));
    lemma_styled_iff_covered(merged, p);
    lemma_styled_iff_covered(a, p);
    lemma_styled_iff_covered(b, p);
}

/// The boundaries of a concatenation are those of its two parts.
pub proof fn lemma_boundary_concat<S>(a: Seq<Styled<S>>, b: Seq<Styled<S>>, q: int)
    ensures
        is_boundary(a + b, q) <==> is_boundary(a, q) || is_boundary(b, q),
{
    let ab = a + b;
    if starts_at(a, q) {
        let i = choose|i: int| #[trigger] occupied(a, i) && a[i].0.start == q;
        assert(occupied(ab, i) && ab[i].0.start == q);
    }
    if ends_at(a, q) {
        let i = choose|i: int| #[trigger] occupied(a, i) && a[i].0.end == q;
        assert(occupied(ab, i) && ab[i].0.end == q);
    }
    if starts_at(b, q) {
        let i = choose|i: int| #[trigger] occupied(b, i) && b[i].0.start == q;
        assert(ab[a.len() + i] == b[i]);
        assert(occupied(ab, a.len() + i) && ab[a.len() + i].0.start == q);
    }
    if ends_at(b, q) {
        let i = choose|i: int| #[trigger] occupied(b, i) && b[i].0.end == q;
        assert(ab[a.len() + i] == b[i]);
        assert(occupied(ab, a.len() + i) && ab[a.len() + i].0.end == q);
    }
    if starts_at(ab, q) {
        let i = choose|i: int| #[trigger] occupied(ab, i) && ab[i].0.start == q;
        if i < a.len() {
            assert(occupied(a, i) && a[i].0.start == q);
        } else {
            assert(ab[i] == b[i - a.len()]);
            assert(occupied(b, i - a.len()) && b[i - a.len()].0.start == q);
        }
    }
    if ends_at(ab, q) {
        let i = choose|i: int| #[trigger] occupied(ab, i) && ab[i].0.end == q;
        if i < a.len() {
            assert(occupied(a, i) && a[i].0.end == q);
        } else {
            assert(ab[i] == b[i - a.len()]);
            assert(occupied(b, i - a.len()) && b[i - a.len()].0.end == q);
        }
    }
}

/// Merging more ranges into a flattening gives the flattening of all ranges:
/// a list may be flattened in one go or folded in part by part.
pub proof fn lemma_flattening_absorbs<S: Style>(
    flat: Seq<Styled<S>>,
    l: Seq<Styled<S>>,
    more: Seq<Styled<S>>,
    merged: Seq<Styled<S>>,
)
    requires
        flattens(flat, l),
        flattens(merged, flat + more),
    ensures
        flattens(merged, l + more),
{
    assert forall|p: int| #[trigger] is_boundary(merged, p) <==> is_boundary(l + more, p) by {
        lemma_boundary_concat(flat, more, p);
        lemma_boundary_concat(l, more, p);
        assert(is_boundary(flat, p) <==> is_boundary(l, p));
        assert(is_boundary(merged, p) <==> is_boundary(flat + more, p));
    }
    assert forall|p: int| #[trigger] style_at(merged, p) == style_at(l + more, p) by {
        lemma_style_at_concat(flat, more, p);
        lemma_style_at_concat(l, more, p);
        assert(style_at(flat, p) == style_at(l, p));
        assert(style_at(merged, p) == style_at(flat + more, p));
    }
}

/// A flattening reaches no further than the ranges that it flattens.
pub proof fn lemma_flattening_bounded<S: Style>(c: Seq<Styled<S>>, l: Seq<Styled<S>>, limit: int)
    requires
        flattens(c, l),
        forall|i: int| 0 <= i < l.len() ==> (#[trigger] l[i]).0.end <= limit,
    ensures
        forall|i: int| 0 <= i < c.len() ==> (#[trigger] c[i]).0.start < c[i].0.end <= limit,
{
    assert forall|i: int| 0 <= i < c.len() implies (#[trigger] c[i]).0.start < c[i].0.end
        <= limit by {
        let e = c[i].0.end as int;
        assert(occupied(c, i));
        assert(ends_at(c, e));
        assert(is_boundary(c, e));
        assert(is_boundary(l, e));
        if starts_at(l, e) {
            let j = choose|j: int| #[trigger] occupied(l, j) && l[j].0.start == e;
            assert(l[j].0.end <= limit);
        } else {
            let j = choose|j: int| #[trigger] occupied(l, j) && l[j].0.end == e;
            assert(l[j].0.end <= limit);
        }
    }
}

/// Whether two lists have the same boundaries and give every offset the
/// same style.
pub open spec fn agree<S: Style>(c: Seq<Styled<S>>, d: Seq<Styled<S>>) -> bool {
    &&& forall|p: int| #[trigger] is_boundary(c, p) <==> is_boundary(d, p)
    &&& forall|p: int| #[trigger] style_at(c, p) == style_at(d, p)
}

/// No boundary of a flat list lies strictly inside one of its segments.
proof fn lemma_no_boundary_inside<S>(c: Seq<Styled<S>>, i: int, q: int)
    requires
        is_flat(c),
        0 <= i < c.len(),
        c[i].0.start < q < c[i].0.end,
    ensures
        !is_boundary(c, q),
{
    if is_boundary(c, q) {
        let m = if starts_at(c, q) {
            choose|m: int| #[trigger] occupied(c, m) && c[m].0.start == q
        } else {
            choose|m: int| #[trigger] occupied(c, m) && c[m].0.end == q
        };
        if m < i {
            assert(c[m].0.end <= c[i].0.start);
        } else if m > i {
            assert(c[i].0.end <= c[m].0.start);
        }
    }
}

/// Each segment of a flat list is a segment of every flat list that agrees
/// with it.
proof fn lemma_segment_found<S: Style>(c: Seq<Styled<S>>, d: Seq<Styled<S>>, i: int) -> (j: int)
    requires
        is_flat(c),
        is_flat(d),
        agree(c, d),
        0 <= i < c.len(),
    ensures
        0 <= j < d.len(),
        d[j] == c[i],
{
    let s = c[i].0.start as int;
    let e = c[i].0.end as int;
    assert(occupied(c, i));
    lemma_flat_style(c, i, s);
    assert(style_at(d, s) == style_at(c, s));
    lemma_styled_iff_covered(d, s);
    let j = choose|j: int| 0 <= j < d.len() && covers((#[trigger] d[j]).0, s);
    assert(occupied(d, j));
    lemma_flat_style(d, j, s);
    assert(is_boundary(c, s));
    assert(is_boundary(d, s));
    if d[j].0.start < s {
        lemma_no_boundary_inside(d, j, s);
    }
    let e2 = d[j].0.end as int;
    assert(is_boundary(c, e));
    assert(is_boundary(d, e));
    assert(is_boundary(d, e2));
    assert(is_boundary(c, e2));
    if e2 < e {
        lemma_no_boundary_inside(c, i, e2);
    }
    if e < e2 {
        lemma_no_boundary_inside(d, j, e);
    }
    j
}

/// Two flat lists that agree hold the same segments at the same places, as
/// far as the first of them reaches.
proof fn lemma_prefix_equal<S: Style>(c: Seq<Styled<S>>, d: Seq<Styled<S>>, n: int)
    requires
        is_flat(c),
        is_flat(d),
        agree(c, d),
        0 <= n <= c.len(),
    ensures
        n <= d.len(),
        forall|k: int| 0 <= k < n ==> d[k] == c[k],
    decreases n,
{
    if n > 0 {
        let i = n - 1;
        lemma_prefix_equal(c, d, i);
        let j = lemma_segment_found(c, d, i);
        if j < i {
            assert(d[j] == c[j]);
            assert(c[j].0.end <= c[i].0.start);
        } else if j > i {
            let k = lemma_segment_found(d, c, i);
            assert(d[i].0.end <= d[j].0.start);
            if k < i {
                assert(d[k] == c[k]);
                assert(d[k].0.end <= d[i].0.start);
            } else if k > i {
                assert(c[i].0.end <= c[k].0.start);
            }
        }
    }
}

/// Two flat lists that agree are the same list.
pub proof fn lemma_flat_unique<S: Style>(c: Seq<Styled<S>>, d: Seq<Styled<S>>)
    requires
        is_flat(c),
        is_flat(d),
        agree(c, d),
    ensures
        c == d,
{
    lemma_prefix_equal(c, d, c.len() as int);
    lemma_prefix_equal(d, c, d.len() as int);
    assert(c =~= d);
}

/// A list has one flattening only: what `flatten` and `merge` return is
/// fixed by their contract.
pub proof fn flattening_is_unique<S: Style>(
    c: Seq<Styled<S>>,
    d: Seq<Styled<S>>,
    l: Seq<Styled<S>>,
)
    requires
        flattens(c, l),
        flattens(d, l),
    ensures
        c == d,
{
    lemma_flat_unique(c, d);
}

/// A flat list is its own flattening: to merge it with the empty list, on
/// either side, gives the list back unchanged.
pub proof fn merge_with_empty_is_identity<S: Style>(a: Seq<Styled<S>>, merged: Seq<Styled<S>>)
    requires
        is_flat(a),
        flattens(merged, a + Seq::<Styled<S>>::empty()) || flattens(
            merged,
            Seq::<Styled<S>>::empty() + a,
        ),
    ensures
        merged == a,
{
    assert(a + Seq::<Styled<S>>::empty() =~= a);
    assert(Seq::<Styled<S>>::empty() + a =~= a);
    lemma_flat_unique(merged, a);
}

/// Flattening a flattening changes nothing.
pub proof fn flattening_is_idempotent<S: Style>(
    c: Seq<Styled<S>>,
    again: Seq<Styled<S>>,
    l: Seq<Styled<S>>,
)
    requires
        flattens(c, l),
        flattens(again, c),
    ensures
        again == c,
{
    lemma_flat_unique(again, c);
}

} // verus!
