//! Flattening the runs of a paragraph into one text with merged highlights
//! and a table of links.

use crate::paragraph::{byte_len, runs, text_bytes, TextNode, TextNodeView};
use crate::ranges::{
    flattens, is_boundary, lemma_flattening_absorbs, lemma_flattening_bounded, merge, occupied,
    Styled,
};
use crate::style::{resolve, resolved, InlineTextStyle, LinkMark, ResolvedStyle};
use std::ops::Range;
use vstd::prelude::*;
use vstd::string::*;
use vstd::utf8::encode_utf8;

verus! {

/// A byte range of the composed text and the link that a click on it opens.
pub type Linked = (Range<usize>, LinkMark);

/// The texts of all runs, one after the other.
pub open spec fn joined(children: Seq<TextNodeView>) -> Seq<char>
    decreases children.len(),
{
    if children.len() == 0 {
        Seq::empty()
    } else {
        joined(children.drop_last()) + children.last().text
    }
}

/// The sum of the lengths in bytes of all runs.
pub open spec fn total_len(children: Seq<TextNodeView>) -> nat
    decreases children.len(),
{
    if children.len() == 0 {
        0
    } else {
        total_len(children.drop_last()) + children.last().len()
    }
}

/// A range moved `offset` bytes to the right.
pub open spec fn shifted(r: Range<usize>, offset: nat) -> Range<usize> {
    Range { start: (r.start + offset) as usize, end: (r.end + offset) as usize }
}

/// The marks of one run as highlights of the composed text, where the run
/// starts at `offset`.
pub open spec fn run_highlights(marks: Seq<Styled<InlineTextStyle>>, offset: nat) -> Seq<
    Styled<ResolvedStyle>,
> {
    Seq::new(marks.len(), |i: int| (shifted(marks[i].0, offset), resolved(marks[i].1)))
}

/// The links among the marks of one run, in the order of the marks, where the
/// run starts at `offset`.
pub open spec fn run_links(marks: Seq<Styled<InlineTextStyle>>, offset: nat) -> Seq<Linked>
    decreases marks.len(),
{
    if marks.len() == 0 {
        Seq::empty()
    } else {
        let front = run_links(marks.drop_last(), offset);
        match marks.last().1.link {
            Some(link) => front.push((shifted(marks.last().0, offset), link)),
            None => front,
        }
    }
}

/// The marks of all runs as highlights of the composed text, run by run.
pub open spec fn all_highlights(children: Seq<TextNodeView>) -> Seq<Styled<ResolvedStyle>>
    decreases children.len(),
{
    if children.len() == 0 {
        Seq::empty()
    } else {
        let front = children.drop_last();
        all_highlights(front) + run_highlights(children.last().marks, byte_len(joined(front)))
    }
}

/// The links of all runs as ranges of the composed text, run by run.
pub open spec fn all_links(children: Seq<TextNodeView>) -> Seq<Linked>
    decreases children.len(),
{
    if children.len() == 0 {
        Seq::empty()
    } else {
        let front = children.drop_last();
        all_links(front) + run_links(children.last().marks, byte_len(joined(front)))
    }
}

/// A paragraph ready to be shaped and painted.
#[derive(Debug, PartialEq)]
pub struct Composed {
    /// The text of all runs.
    pub text: String,
    /// Sorted, disjoint ranges of `text` with the style to paint them in.
    pub highlights: Vec<Styled<ResolvedStyle>>,
    /// The ranges of `text` that can be clicked, each with its link.
    pub links: Vec<Linked>,
}

impl Composed {
    /// Whether every highlight and every link lies inside the text.
    pub open spec fn within_text(self) -> bool {
        &&& forall|i: int|
            0 <= i < self.highlights@.len() ==> (#[trigger] self.highlights@[i]).0.start
                <= self.highlights@[i].0.end <= byte_len(self.text@)
        &&& forall|i: int|
            0 <= i < self.links@.len() ==> (#[trigger] self.links@[i]).0.start
                <= self.links@[i].0.end <= byte_len(self.text@)
    }
}

/// The encoding of two texts in a row is the two encodings in a row.
pub proof fn lemma_encode_concat(a: Seq<char>, b: Seq<char>)
    ensures
        encode_utf8(a + b) == encode_utf8(a) + encode_utf8(b),
    decreases a.len(),
{
    if a.len() == 0 {
        assert(a + b =~= b);
        assert(encode_utf8(a) + encode_utf8(b) =~= encode_utf8(b));
    } else {
        assert((a + b).drop_first() =~= a.drop_first() + b);
        assert((a + b)[0] == a[0]);
        lemma_encode_concat(a.drop_first(), b);
        assert(encode_utf8(a + b) =~= encode_utf8(a) + encode_utf8(b));
    }
}

/// The composed text is as long as its runs together.
pub proof fn joined_length_is_sum(children: Seq<TextNodeView>)
    ensures
        byte_len(joined(children)) == total_len(children),
    decreases children.len(),
{
    if children.len() > 0 {
        joined_length_is_sum(children.drop_last());
        lemma_encode_concat(joined(children.drop_last()), children.last().text);
    }
}

/// With marks that lie inside their runs, every highlight and every link
/// lies inside the composed text.
pub proof fn lemma_marks_within(children: Seq<TextNodeView>)
    requires
        forall|i: int| 0 <= i < children.len() ==> (#[trigger] children[i]).wf(),
        byte_len(joined(children)) <= usize::MAX,
    ensures
        forall|i: int|
            0 <= i < all_highlights(children).len() ==> (#[trigger] all_highlights(
                children,
            )[i]).0.start <= all_highlights(children)[i].0.end <= byte_len(joined(children)),
        forall|i: int|
            0 <= i < all_links(children).len() ==> (#[trigger] all_links(children)[i]).0.start
                <= all_links(children)[i].0.end <= byte_len(joined(children)),
    decreases children.len(),
{
    if children.len() > 0 {
        let front = children.drop_last();
        let last = children.last();
        let offset = byte_len(joined(front));
        lemma_encode_concat(joined(front), last.text);
        assert forall|i: int| 0 <= i < front.len() implies (#[trigger] front[i]).wf() by {
            assert(front[i] == children[i]);
        }
        lemma_marks_within(front);
        assert(last.wf());
        lemma_run_links_within(last.marks, offset, last.len());
        assert forall|i: int| 0 <= i < all_highlights(children).len() implies (
        #[trigger] all_highlights(children)[i]).0.start <= all_highlights(children)[i].0.end
            <= byte_len(joined(children)) by {
            let n = all_highlights(front).len();
            if i < n {
                assert(all_highlights(children)[i] == all_highlights(front)[i]);
            } else {
                assert(all_highlights(children)[i] == run_highlights(last.marks, offset)[i - n]);
                assert(last.marks[i - n].0.end <= last.len());
            }
        }
        assert forall|i: int| 0 <= i < all_links(children).len() implies (#[trigger] all_links(
            children,
        )[i]).0.start <= all_links(children)[i].0.end <= byte_len(joined(children)) by {
            let n = all_links(front).len();
            if i < n {
                assert(all_links(children)[i] == all_links(front)[i]);
            } else {
                assert(all_links(children)[i] == run_links(last.marks, offset)[i - n]);
            }
        }
    }
}

/// The links of a run whose marks lie inside it lie inside the run where it
/// stands in the composed text.
proof fn lemma_run_links_within(marks: Seq<Styled<InlineTextStyle>>, offset: nat, len: nat)
    requires
        forall|i: int|
            0 <= i < marks.len() ==> (#[trigger] marks[i]).0.start <= marks[i].0.end <= len,
        offset + len <= usize::MAX,
    ensures
        forall|i: int|
            0 <= i < run_links(marks, offset).len() ==> (#[trigger] run_links(
                marks,
                offset,
            )[i]).0.start <= run_links(marks, offset)[i].0.end <= offset + len,
    decreases marks.len(),
{
    if marks.len() > 0 {
        let front = marks.drop_last();
        assert forall|i: int| 0 <= i < front.len() implies (#[trigger] front[i]).0.start
            <= front[i].0.end <= len by {
            assert(front[i] == marks[i]);
        }
        lemma_run_links_within(front, offset, len);
        assert(marks[marks.len() - 1].0.end <= len);
        let before = run_links(front, offset);
        assert forall|i: int| 0 <= i < run_links(marks, offset).len() implies (#[trigger] run_links(
            marks,
            offset,
        )[i]).0.start <= run_links(marks, offset)[i].0.end <= offset + len by {
            if i < before.len() {
                assert(run_links(marks, offset)[i] == before[i]);
            }
        }
    }
}

/// Flattens the runs of a paragraph, whose marks lie inside their runs, into
/// one text.
///
/// The text is that of all runs in order. The highlights are the flattening
/// of all marks, each moved to where its run starts in the text and resolved
/// to its painted form; they are folded in run by run. The links are the
/// marks that carry one, in order, with their ranges moved likewise.
pub fn compose(children: &Vec<TextNode>) -> (out: Composed)
    requires
        forall|i: int| 0 <= i < children@.len() ==> (#[trigger] children@[i])@.wf(),
    ensures
        out.text@ == joined(runs(children@)),
        byte_len(out.text@) == total_len(runs(children@)),
        flattens(out.highlights@, all_highlights(runs(children@))),
        out.links@ == all_links(runs(children@)),
        out.within_text(),
{
    let ghost all = runs(children@);
    let mut text = String::new();
    let mut highlights: Vec<Styled<ResolvedStyle>> = Vec::new();
    let mut links: Vec<Linked> = Vec::new();
    let mut offset: usize = 0;
    let mut k: usize = 0;
    proof {
        assert(byte_len(Seq::<char>::empty()) == 0);
        assert(forall|p: int| !is_boundary(Seq::<Styled<ResolvedStyle>>::empty(), p)) by {
            assert(forall|i: int| !occupied(Seq::<Styled<ResolvedStyle>>::empty(), i));
        }
    }
    while k < children.len()
        invariant
            k <= children.len(),
            all == runs(children@),
            forall|i: int| 0 <= i < children@.len() ==> (#[trigger] children@[i])@.wf(),
            text@ == joined(all.take(k as int)),
            offset == byte_len(text@),
            flattens(highlights@, all_highlights(all.take(k as int))),
            links@ == all_links(all.take(k as int)),
        decreases children.len() - k,
    {
        let node = &children[k];
        let ghost upto = all.take(k + 1);
        let ghost start = offset as nat;
        proof {
            assert(upto.drop_last() =~= all.take(k as int));
            assert(upto.last() == node@);
            assert(node@.wf());
            lemma_encode_concat(text@, node@.text);
        }
        let base = offset;
        text.append(node.text.as_str());
        offset = text_bytes(text.as_str());
        let ghost links_before = links@;
        let mut run: Vec<Styled<ResolvedStyle>> = Vec::new();
        let mut j: usize = 0;
        while j < node.marks.len()
            invariant
                j <= node.marks.len(),
                node@.wf(),
                base == start,
                base + node@.len() == offset,
                run@ == run_highlights(node@.marks.take(j as int), start),
                links@ == links_before + run_links(node@.marks.take(j as int), start),
            decreases node.marks.len() - j,
        {
            let ghost marks = node@.marks.take(j + 1);
            proof {
                assert(marks.drop_last() =~= node@.marks.take(j as int));
                assert(marks.last() == node@.marks[j as int]);
                assert(node@.marks[j as int].0.end <= node@.len());
            }
            let mark = &node.marks[j];
            let range = Range { start: base + mark.0.start, end: base + mark.0.end };
            match &mark.1.link {
                Some(link) => {
                    links.push((Range { start: range.start, end: range.end }, link.clone()));
                },
                None => {},
            }
            run.push((range, resolve(&mark.1)));
            proof {
                assert(run@ =~= run_highlights(marks, start));
                assert(links@ =~= links_before + run_links(marks, start));
            }
            j += 1;
        }
        proof {
            assert(node@.marks.take(node@.marks.len() as int) =~= node@.marks);
        }
        let ghost flat = highlights@;
        highlights = merge(highlights, run);
        proof {
            lemma_flattening_absorbs(flat, all_highlights(all.take(k as int)), run@, highlights@);
            assert(links@ =~= all_links(upto));
        }
        k += 1;
    }
    proof {
        assert(all.take(children@.len() as int) =~= all);
        joined_length_is_sum(all);
        assert forall|i: int| 0 <= i < all.len() implies (#[trigger] all[i]).wf() by {
            assert(all[i] == children@[i]@);
        }
        lemma_marks_within(all);
        lemma_flattening_bounded(highlights@, all_highlights(all), byte_len(text@) as int);
    }
    Composed { text, highlights, links }
}

/// Whether the marks of every run lie inside the run.
pub open spec fn all_well_formed(children: Seq<TextNodeView>) -> bool {
    forall|i: int| 0 <= i < children.len() ==> (#[trigger] children[i]).wf()
}

/// Composes the runs where the marks of each lie inside it, as [`compose`]
/// does; returns `None` where a mark of some run does not.
pub fn try_compose(children: &Vec<TextNode>) -> (out: Option<Composed>)
    ensures
        out is Some <==> all_well_formed(runs(children@)),
        out matches Some(c) ==> {
            &&& c.text@ == joined(runs(children@))
            &&& byte_len(c.text@) == total_len(runs(children@))
            &&& flattens(c.highlights@, all_highlights(runs(children@)))
            &&& c.links@ == all_links(runs(children@))
            &&& c.within_text()
        },
{
    let mut i: usize = 0;
    while i < children.len()
        invariant
            i <= children.len(),
            forall|j: int| 0 <= j < i ==> (#[trigger] children@[j])@.wf(),
        decreases children.len() - i,
    {
        if !children[i].is_well_formed() {
            proof {
                assert(runs(children@)[i as int] == children@[i as int]@);
            }
            return None;
        }
        i += 1;
    }
    proof {
        assert forall|j: int| 0 <= j < runs(children@).len() implies (#[trigger] runs(
            children@,
        )[j]).wf() by {
            assert(runs(children@)[j] == children@[j]@);
        }
    }
    Some(compose(children))
}

impl Composed {
    /// The ranges that can be clicked, in the order of the links.
    pub fn link_ranges(&self) -> (r: Vec<Range<usize>>)
        ensures
            r@.len() == self.links@.len(),
            forall|i: int| 0 <= i < r@.len() ==> r@[i] == self.links@[i].0,
    {
        let mut out: Vec<Range<usize>> = Vec::new();
        let mut i: usize = 0;
        while i < self.links.len()
            invariant
                i <= self.links.len(),
                out@.len() == i,
                forall|j: int| 0 <= j < i ==> out@[j] == self.links@[j].0,
            decreases self.links.len() - i,
        {
            out.push(Range { start: self.links[i].0.start, end: self.links[i].0.end });
            i += 1;
        }
        out
    }

    /// The link that a click on the clickable range number `ix` opens, or
    /// `None` where there is no such range.
    pub fn link_at(&self, ix: usize) -> (r: Option<&LinkMark>)
        ensures
            ix < self.links@.len() ==> r == Some(&self.links@[ix as int].1),
            ix >= self.links@.len() ==> r is None,
    {
        if ix < self.links.len() {
            Some(&self.links[ix].1)
        } else {
            None
        }
    }
}

} // verus!
