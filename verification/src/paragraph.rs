//! Paragraphs: a sequence of marked text runs, or one image.

use crate::ranges::Styled;
use crate::style::InlineTextStyle;
use std::ops::Range;
use vstd::prelude::*;
use vstd::string::*;
use vstd::utf8::encode_utf8;

verus! {

/// Where a block began and ended in the source text. It serves only to tell
/// blocks apart.
#[derive(Clone, Copy, Debug, PartialEq, Eq, Structural)]
pub struct Span {
    pub start: usize,
    pub end: usize,
}

impl Span {
    /// Whether the span runs forward.
    pub open spec fn wf(self) -> bool {
        self.start <= self.end
    }

    /// Whether the span runs forward.
    pub fn is_well_formed(&self) -> (r: bool)
        ensures
            r == self.wf(),
    {
        self.start <= self.end
    }
}

impl Default for Span {
    fn default() -> (r: Self)
        ensures
            r == (Span { start: 0, end: 0 }),
            r.wf(),
    {
        Span { start: 0, end: 0 }
    }
}

/// A length in thousandths of its unit.
#[derive(Clone, Copy, Debug, PartialEq, Eq, Structural)]
pub enum Length {
    /// Thousandths of a pixel.
    Pixels(u32),
    /// Thousandths of the root font size.
    Rems(u32),
    /// Thousandths of the space that the parent offers.
    Fraction(u32),
}

/// An embedded image. Two images are the same image when `url`, `title` and
/// `alt` agree; the size hints do not count.
#[derive(Debug)]
pub struct ImageNode {
    pub url: String,
    pub title: Option<String>,
    pub alt: Option<String>,
    pub width: Option<Length>,
    pub height: Option<Length>,
}

/// A copy of an optional string.
pub fn duplicate_text(text: &Option<String>) -> (r: Option<String>)
    ensures
        r == *text,
{
    match text {
        Some(t) => Some(t.clone()),
        None => None,
    }
}

/// Whether two optional strings hold the same characters or are both absent.
pub open spec fn same_text(a: Option<String>, b: Option<String>) -> bool {
    match (a, b) {
        (Some(x), Some(y)) => x@ == y@,
        (None, None) => true,
        _ => false,
    }
}

fn text_eq(a: &Option<String>, b: &Option<String>) -> (r: bool)
    ensures
        r == same_text(*a, *b),
{
    match (a, b) {
        (Some(x), Some(y)) => *x == *y,
        (None, None) => true,
        _ => false,
    }
}

impl ImageNode {
    /// Whether `self` and `other` are the same image.
    pub open spec fn same_image(self, other: ImageNode) -> bool {
        &&& self.url@ == other.url@
        &&& same_text(self.title, other.title)
        &&& same_text(self.alt, other.alt)
    }
}

impl PartialEq for ImageNode {
    fn eq(&self, other: &Self) -> (r: bool) {
        self.url == other.url && text_eq(&self.title, &other.title) && text_eq(
            &self.alt,
            &other.alt,
        )
    }
}

impl vstd::std_specs::cmp::PartialEqSpecImpl for ImageNode {
    open spec fn obeys_eq_spec() -> bool {
        true
    }

    open spec fn eq_spec(&self, other: &Self) -> bool {
        self.same_image(*other)
    }
}

impl Clone for ImageNode {
    fn clone(&self) -> (r: Self)
        ensures
            r == *self,
    {
        ImageNode {
            url: self.url.clone(),
            title: duplicate_text(&self.title),
            alt: duplicate_text(&self.alt),
            width: self.width,
            height: self.height,
        }
    }
}

impl Default for ImageNode {
    fn default() -> (r: Self)
        ensures
            r.url@ == Seq::<char>::empty(),
            r.title is None,
            r.alt is None,
            r.width is None,
            r.height is None,
    {
        ImageNode { url: String::new(), title: None, alt: None, width: None, height: None }
    }
}

/// The number of bytes that a text takes in UTF-8.
pub open spec fn byte_len(text: Seq<char>) -> nat {
    encode_utf8(text).len()
}

/// The number of bytes of `text`.
pub fn text_bytes(text: &str) -> (n: usize)
    ensures
        n == byte_len(text@),
{
    broadcast use vstd::slice::axiom_spec_len;

    text.as_bytes().len()
}

/// A run of text with the marks that a parser put on it. The ranges of the
/// marks count bytes from the start of this run.
#[derive(Debug, PartialEq)]
pub struct TextNode {
    /// The text content.
    pub text: String,
    /// The marks, each a byte range of `text` and its style.
    pub marks: Vec<(Range<usize>, InlineTextStyle)>,
}

/// What a [`TextNode`] holds.
pub struct TextNodeView {
    pub text: Seq<char>,
    pub marks: Seq<Styled<InlineTextStyle>>,
}

impl View for TextNode {
    type V = TextNodeView;

    open spec fn view(&self) -> TextNodeView {
        TextNodeView { text: self.text@, marks: self.marks@ }
    }
}

impl TextNodeView {
    /// Whether every mark lies inside the text and runs forward.
    pub open spec fn wf(self) -> bool {
        forall|i: int|
            0 <= i < self.marks.len() ==> (#[trigger] self.marks[i]).0.start <= self.marks[i].0.end
                <= byte_len(self.text)
    }

    /// The number of bytes of the text.
    pub open spec fn len(self) -> nat {
        byte_len(self.text)
    }
}

/// A copy of a list of marks.
pub fn duplicate_marks(marks: &Vec<Styled<InlineTextStyle>>) -> (r: Vec<Styled<InlineTextStyle>>)
    ensures
        r@ == marks@,
{
    let mut out: Vec<Styled<InlineTextStyle>> = Vec::new();
    let mut i: usize = 0;
    while i < marks.len()
        invariant
            i <= marks.len(),
            out@ == marks@.take(i as int),
        decreases marks.len() - i,
    {
        let range = Range { start: marks[i].0.start, end: marks[i].0.end };
        out.push((range, marks[i].1.clone()));
        proof {
            assert(out@ =~= marks@.take(i + 1));
        }
        i += 1;
    }
    proof {
        assert(marks@.take(marks@.len() as int) =~= marks@);
    }
    out
}

impl TextNode {
    /// Whether every mark lies inside the text and runs forward.
    pub fn is_well_formed(&self) -> (r: bool)
        ensures
            r == self@.wf(),
    {
        let len = text_bytes(self.text.as_str());
        let mut i: usize = 0;
        while i < self.marks.len()
            invariant
                i <= self.marks.len(),
                len == byte_len(self.text@),
                forall|j: int|
                    0 <= j < i ==> (#[trigger] self.marks@[j]).0.start <= self.marks@[j].0.end
                        <= len,
            decreases self.marks.len() - i,
        {
            if self.marks[i].0.start > self.marks[i].0.end || self.marks[i].0.end > len {
                proof {
                    assert(self@.marks[i as int] == self.marks@[i as int]);
                }
                return false;
            }
            i += 1;
        }
        true
    }
}

impl Clone for TextNode {
    fn clone(&self) -> (r: Self)
        ensures
            r@ == self@,
    {
        TextNode { text: self.text.clone(), marks: duplicate_marks(&self.marks) }
    }
}

impl Default for TextNode {
    fn default() -> (r: Self)
        ensures
            r@.text == Seq::<char>::empty(),
            r@.marks == Seq::<Styled<InlineTextStyle>>::empty(),
    {
        TextNode { text: String::new(), marks: Vec::new() }
    }
}

/// A paragraph: text runs that read from left to right as one text, or a
/// single image. An image paragraph holds no text runs.
#[derive(Debug, PartialEq)]
pub enum Paragraph {
    Texts { span: Option<Span>, children: Vec<TextNode> },
    Image { span: Option<Span>, image: ImageNode },
}

/// What a [`Paragraph`] holds.
pub enum ParagraphView {
    Texts { span: Option<Span>, children: Seq<TextNodeView> },
    Image { span: Option<Span>, image: ImageNode },
}

/// What a list of text runs holds.
pub open spec fn runs(children: Seq<TextNode>) -> Seq<TextNodeView> {
    children.map_values(|t: TextNode| t@)
}

impl View for Paragraph {
    type V = ParagraphView;

    open spec fn view(&self) -> ParagraphView {
        match *self {
            Paragraph::Texts { span, children } => ParagraphView::Texts {
                span,
                children: runs(children@),
            },
            Paragraph::Image { span, image } => ParagraphView::Image { span, image },
        }
    }
}

/// The length in bytes of the longest single run.
pub open spec fn longest_run(children: Seq<TextNodeView>) -> nat
    decreases children.len(),
{
    if children.len() == 0 {
        0
    } else {
        let rest = longest_run(children.drop_last());
        if children.last().len() > rest {
            children.last().len()
        } else {
            rest
        }
    }
}

/// The run that `push_str` makes of a text: the text with one unmarked style
/// over all of it.
pub open spec fn plain_run(text: Seq<char>) -> TextNodeView {
    TextNodeView {
        text,
        marks: seq![
            (Range { start: 0usize, end: byte_len(text) as usize }, InlineTextStyle::unmarked()),
        ],
    }
}

impl ParagraphView {
    /// The paragraph without text and without an image.
    pub open spec fn empty() -> ParagraphView {
        ParagraphView::Texts { span: None, children: Seq::empty() }
    }

    /// The size of the paragraph for layout: the length in bytes of its
    /// longest run, not of all its text; an image counts as one.
    pub open spec fn text_len(self) -> nat {
        match self {
            ParagraphView::Texts { children, .. } => longest_run(children),
            ParagraphView::Image { .. } => 1,
        }
    }

    /// The paragraph with `span` as its place in the source.
    pub open spec fn with_span(self, span: Span) -> ParagraphView {
        match self {
            ParagraphView::Texts { children, .. } => ParagraphView::Texts {
                span: Some(span),
                children,
            },
            ParagraphView::Image { image, .. } => ParagraphView::Image { span: Some(span), image },
        }
    }

    /// The paragraph with `run` added at its end; an image stays as it is.
    pub open spec fn with_run(self, run: TextNodeView) -> ParagraphView {
        match self {
            ParagraphView::Texts { span, children } => ParagraphView::Texts {
                span,
                children: children.push(run),
            },
            ParagraphView::Image { .. } => self,
        }
    }

    /// The paragraph with its content removed: text runs are dropped and the
    /// span stays; an image gives way to the empty paragraph.
    pub open spec fn cleared(self) -> ParagraphView {
        match self {
            ParagraphView::Texts { span, .. } => ParagraphView::Texts {
                span,
                children: Seq::empty(),
            },
            ParagraphView::Image { .. } => ParagraphView::empty(),
        }
    }
}

impl Default for Paragraph {
    fn default() -> (r: Self)
        ensures
            r@ == ParagraphView::empty(),
    {
        let r = Paragraph::Texts { span: None, children: Vec::new() };
        proof {
            assert(r@->Texts_children =~= Seq::empty());
        }
        r
    }
}

impl Paragraph {
    /// The place of the paragraph in the source, or the span at zero where
    /// none was set.
    pub fn span(&self) -> (r: Span)
        ensures
            r == match self@ {
                ParagraphView::Texts { span, .. } => span.unwrap_or(Span { start: 0, end: 0 }),
                ParagraphView::Image { span, .. } => span.unwrap_or(Span { start: 0, end: 0 }),
            },
    {
        let span = match self {
            Paragraph::Texts { span, .. } => span,
            Paragraph::Image { span, .. } => span,
        };
        match span {
            Some(s) => *s,
            None => Span::default(),
        }
    }

    /// A paragraph of one run that holds `value` and no mark.
    pub fn from_string(value: String) -> (r: Self)
        ensures
            r@ == (ParagraphView::Texts {
                span: None,
                children: seq![TextNodeView { text: value@, marks: Seq::empty() }],
            }),
    {
        let mut children: Vec<TextNode> = Vec::new();
        children.push(TextNode { text: value, marks: Vec::new() });
        let r = Paragraph::Texts { span: None, children };
        proof {
            assert(r@->Texts_children =~= seq![TextNodeView { text: value@, marks: Seq::empty() }]);
        }
        r
    }

    /// Removes the content: the text runs of a text paragraph, or the image,
    /// in whose place the empty text paragraph is left.
    pub fn clear(&mut self)
        ensures
            final(self)@ == old(self)@.cleared(),
    {
        match self {
            Paragraph::Texts { children, .. } => {
                children.clear();
            },
            Paragraph::Image { .. } => {
                *self = Paragraph::default();
            },
        }
        proof {
            if old(self)@ is Texts {
                assert(self@->Texts_children =~= Seq::empty());
            }
        }
    }

    pub fn is_image(&self) -> (r: bool)
        ensures
            r == (self@ is Image),
    {
        matches!(self, Paragraph::Image { .. })
    }

    pub fn set_span(&mut self, span: Span)
        ensures
            final(self)@ == old(self)@.with_span(span),
    {
        match self {
            Paragraph::Texts { span: s, .. } => {
                *s = Some(span);
            },
            Paragraph::Image { span: s, .. } => {
                *s = Some(span);
            },
        }
    }

    /// Adds `text` as a new run with one unmarked style over all of it. On an
    /// image paragraph nothing happens.
    pub fn push_str(&mut self, text: &str)
        ensures
            final(self)@ == old(self)@.with_run(plain_run(text@)),
            old(self)@ is Image ==> final(self)@ == old(self)@,
    {
        match self {
            Paragraph::Texts { children, .. } => {
                let mut marks: Vec<Styled<InlineTextStyle>> = Vec::new();
                marks.push((Range { start: 0, end: text_bytes(text) }, InlineTextStyle::default()));
                children.push(TextNode { text: text.to_owned(), marks });
            },
            Paragraph::Image { .. } => {},
        }
        proof {
            if old(self)@ is Texts {
                assert(self@->Texts_children =~= old(self)@->Texts_children.push(plain_run(text@)));
            }
        }
    }

    /// Adds `text` as a new run. On an image paragraph nothing happens.
    pub fn push(&mut self, text: TextNode)
        ensures
            final(self)@ == old(self)@.with_run(text@),
            old(self)@ is Image ==> final(self)@ == old(self)@,
    {
        match self {
            Paragraph::Texts { children, .. } => {
                children.push(text);
            },
            Paragraph::Image { .. } => {},
        }
        proof {
            if old(self)@ is Texts {
                assert(self@->Texts_children =~= old(self)@->Texts_children.push(text@));
            }
        }
    }

    /// Makes this an image paragraph of `image`, whatever it held before.
    pub fn set_image(&mut self, image: ImageNode)
        ensures
            final(self)@ == (ParagraphView::Image { span: None, image }),
    {
        *self = Paragraph::Image { span: None, image };
    }

    /// Whether the paragraph shows nothing: a text paragraph whose runs are
    /// all empty. An image paragraph is never empty.
    pub fn is_empty(&self) -> (r: bool)
        ensures
            r == (self@ is Texts && self@.text_len() == 0),
    {
        match self {
            Paragraph::Texts { .. } => self.text_len() == 0,
            Paragraph::Image { .. } => false,
        }
    }

    /// The length in bytes of the longest run; an image counts as one.
    pub fn text_len(&self) -> (r: usize)
        ensures
            r == self@.text_len(),
    {
        match self {
            Paragraph::Texts { children, .. } => {
                let mut len: usize = 0;
                let mut i: usize = 0;
                while i < children.len()
                    invariant
                        i <= children.len(),
                        len == longest_run(runs(children@).take(i as int)),
                    decreases children.len() - i,
                {
                    proof {
                        let upto = runs(children@).take(i + 1);
                        assert(upto.drop_last() =~= runs(children@).take(i as int));
                        assert(upto.last() == children@[i as int]@);
                    }
                    let n = text_bytes(children[i].text.as_str());
                    if n > len {
                        len = n;
                    }
                    i += 1;
                }
                proof {
                    assert(runs(children@).take(children@.len() as int) =~= runs(children@));
                }
                len
            },
            Paragraph::Image { .. } => 1,
        }
    }
}

impl Clone for Paragraph {
    fn clone(&self) -> (r: Self)
        ensures
            r@ == self@,
    {
        match self {
            Paragraph::Texts { span, children } => {
                let mut out: Vec<TextNode> = Vec::new();
                let mut i: usize = 0;
                while i < children.len()
                    invariant
                        i <= children.len(),
                        out@.len() == i,
                        forall|j: int| 0 <= j < i ==> (#[trigger] out@[j])@ == children@[j]@,
                    decreases children.len() - i,
                {
                    out.push(children[i].clone());
                    i += 1;
                }
                proof {
                    assert(runs(out@) =~= runs(children@));
                }
                Paragraph::Texts { span: *span, children: out }
            },
            Paragraph::Image { span, image } => Paragraph::Image {
                span: *span,
                image: image.clone(),
            },
        }
    }
}

impl From<String> for Paragraph {
    /// The same as [`Paragraph::from_string`], which carries the contract.
    fn from(value: String) -> (r: Self) {
        Paragraph::from_string(value)
    }
}

impl vstd::std_specs::convert::FromSpecImpl<String> for Paragraph {
    /// A paragraph owns a vector, which no specification value can build:
    /// what `from` returns is stated over views, on `from_string`.
    open spec fn obeys_from_spec() -> bool {
        false
    }

    open spec fn from_spec(value: String) -> Self {
        arbitrary()
    }
}

/// An image paragraph takes no text: adding a run leaves it as it is.
pub proof fn image_takes_no_text(paragraph: ParagraphView, run: TextNodeView)
    requires
        paragraph is Image,
    ensures
        paragraph.with_run(run) == paragraph,
{
}

/// The size of a text paragraph is at least the length of each of its runs
/// and, where it has a run, the length of one of them.
pub proof fn longest_run_is_a_maximum(children: Seq<TextNodeView>)
    ensures
        forall|i: int|
            0 <= i < children.len() ==> (#[trigger] children[i]).len() <= longest_run(children),
        children.len() > 0 ==> exists|i: int|
            0 <= i < children.len() && (#[trigger] children[i]).len() == longest_run(children),
        children.len() == 0 ==> longest_run(children) == 0,
    decreases children.len(),
{
    if children.len() > 0 {
        let front = children.drop_last();
        let last = children.len() - 1;
        longest_run_is_a_maximum(front);
        assert forall|i: int| 0 <= i < children.len() implies (#[trigger] children[i]).len()
            <= longest_run(children) by {
            if i < last {
                assert(front[i] == children[i]);
            }
        }
        if children.last().len() > longest_run(front) || front.len() == 0 {
            assert(children[last].len() == longest_run(children));
        } else {
            let i = choose|i: int|
                0 <= i < front.len() && (#[trigger] front[i]).len() == longest_run(front);
            assert(front[i] == children[i]);
            assert(children[i].len() == longest_run(children));
        }
    }
}

} // verus!
