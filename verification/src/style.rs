//! Inline style values and the rule by which two of them layer.

use vstd::prelude::*;

verus! {

/// A link target carried by a run of text.
#[derive(Debug, PartialEq)]
pub struct LinkMark {
    pub url: String,
    pub title: Option<String>,
}

/// The inline marks that a parser attaches to a byte range of text.
#[derive(Debug, PartialEq)]
pub struct InlineTextStyle {
    pub bold: bool,
    pub italic: bool,
    pub strikethrough: bool,
    pub code: bool,
    pub link: Option<LinkMark>,
}

/// A value that can be stacked on another of its kind where two ranges overlap.
///
/// `layered` must be associative, so that the style at a point does not depend
/// on how the ranges that cover it were grouped while merging.
pub trait Style: Sized {
    /// `self` with `other` applied on top of it; on conflict `self` wins.
    spec fn layered(self, other: Self) -> Self;

    proof fn layered_is_associative(a: Self, b: Self, c: Self)
        ensures
            a.layered(b).layered(c) == a.layered(b.layered(c)),
    ;

    fn layer(&self, other: &Self) -> (r: Self)
        ensures
            r == self.layered(*other),
    ;

    fn duplicate(&self) -> (r: Self)
        ensures
            r == *self,
    ;
}

impl LinkMark {
    pub fn duplicate(&self) -> (r: Self)
        ensures
            r == *self,
    {
        let title = match &self.title {
            Some(t) => Some(t.clone()),
            None => None,
        };
        LinkMark { url: self.url.clone(), title }
    }
}

impl Clone for LinkMark {
    fn clone(&self) -> (r: Self)
        ensures
            r == *self,
    {
        self.duplicate()
    }
}

/// The link of the lower style where it has one, else the link of the upper.
pub open spec fn first_link(lower: Option<LinkMark>, upper: Option<LinkMark>) -> Option<LinkMark> {
    if lower is Some {
        lower
    } else {
        upper
    }
}

impl Style for InlineTextStyle {
    open spec fn layered(self, other: Self) -> Self {
        InlineTextStyle {
            bold: self.bold || other.bold,
            italic: self.italic || other.italic,
            strikethrough: self.strikethrough || other.strikethrough,
            code: self.code || other.code,
            link: first_link(self.link, other.link),
        }
    }

    proof fn layered_is_associative(a: Self, b: Self, c: Self) {
    }

    fn layer(&self, other: &Self) -> (r: Self) {
        let link = match &self.link {
            Some(l) => Some(l.duplicate()),
            None => match &other.link {
                Some(l) => Some(l.duplicate()),
                None => None,
            },
        };
        InlineTextStyle {
            bold: self.bold || other.bold,
            italic: self.italic || other.italic,
            strikethrough: self.strikethrough || other.strikethrough,
            code: self.code || other.code,
            link,
        }
    }

    fn duplicate(&self) -> (r: Self) {
        let link = match &self.link {
            Some(l) => Some(l.duplicate()),
            None => None,
        };
        InlineTextStyle {
            bold: self.bold,
            italic: self.italic,
            strikethrough: self.strikethrough,
            code: self.code,
            link,
        }
    }
}

/// How heavy the strokes of a run of text are drawn.
#[derive(Clone, Copy, Debug, PartialEq, Eq, Structural)]
pub enum Weight {
    Regular,
    Bold,
}

/// Whether a run of text is drawn upright or slanted.
#[derive(Clone, Copy, Debug, PartialEq, Eq, Structural)]
pub enum Slant {
    Upright,
    Italic,
}

/// Which colour of the theme a run of text takes.
#[derive(Clone, Copy, Debug, PartialEq, Eq, Structural)]
pub enum ColorVariant {
    Inherit,
    Link,
}

/// What a renderer needs to know to paint a run of text. It names no colour
/// and no font: the theme of the host decides those.
#[derive(Clone, Copy, Debug, PartialEq, Eq, Structural)]
pub struct ResolvedStyle {
    pub weight: Weight,
    pub slant: Slant,
    pub strikethrough: bool,
    pub background: bool,
    pub color: ColorVariant,
    pub underline: bool,
}

impl ResolvedStyle {
    /// The style of text that carries no mark.
    pub open spec fn plain() -> ResolvedStyle {
        ResolvedStyle {
            weight: Weight::Regular,
            slant: Slant::Upright,
            strikethrough: false,
            background: false,
            color: ColorVariant::Inherit,
            underline: false,
        }
    }
}

impl Style for ResolvedStyle {
    open spec fn layered(self, other: Self) -> Self {
        ResolvedStyle {
            weight: if self.weight is Bold || other.weight is Bold {
                Weight::Bold
            } else {
                Weight::Regular
            },
            slant: if self.slant is Italic || other.slant is Italic {
                Slant::Italic
            } else {
                Slant::Upright
            },
            strikethrough: self.strikethrough || other.strikethrough,
            background: self.background || other.background,
            color: if self.color is Link || other.color is Link {
                ColorVariant::Link
            } else {
                ColorVariant::Inherit
            },
            underline: self.underline || other.underline,
        }
    }

    proof fn layered_is_associative(a: Self, b: Self, c: Self) {
    }

    fn layer(&self, other: &Self) -> (r: Self) {
        ResolvedStyle {
            weight: match (self.weight, other.weight) {
                (Weight::Regular, Weight::Regular) => Weight::Regular,
                _ => Weight::Bold,
            },
            slant: match (self.slant, other.slant) {
                (Slant::Upright, Slant::Upright) => Slant::Upright,
                _ => Slant::Italic,
            },
            strikethrough: self.strikethrough || other.strikethrough,
            background: self.background || other.background,
            color: match (self.color, other.color) {
                (ColorVariant::Inherit, ColorVariant::Inherit) => ColorVariant::Inherit,
                _ => ColorVariant::Link,
            },
            underline: self.underline || other.underline,
        }
    }

    fn duplicate(&self) -> (r: Self) {
        *self
    }
}

/// The painted form of a set of inline marks: bold text is heavy, italic text
/// slanted, code gets a background, and a link is coloured and underlined.
pub open spec fn resolved(style: InlineTextStyle) -> ResolvedStyle {
    ResolvedStyle {
        weight: if style.bold {
            Weight::Bold
        } else {
            Weight::Regular
        },
        slant: if style.italic {
            Slant::Italic
        } else {
            Slant::Upright
        },
        strikethrough: style.strikethrough,
        background: style.code,
        color: if style.link is Some {
            ColorVariant::Link
        } else {
            ColorVariant::Inherit
        },
        underline: style.link is Some,
    }
}

/// Resolves a set of inline marks to what a renderer paints.
pub fn resolve(style: &InlineTextStyle) -> (r: ResolvedStyle)
    ensures
        r == resolved(*style),
{
    ResolvedStyle {
        weight: if style.bold {
            Weight::Bold
        } else {
            Weight::Regular
        },
        slant: if style.italic {
            Slant::Italic
        } else {
            Slant::Upright
        },
        strikethrough: style.strikethrough,
        background: style.code,
        color: if style.link.is_some() {
            ColorVariant::Link
        } else {
            ColorVariant::Inherit
        },
        underline: style.link.is_some(),
    }
}

/// Resolving two layered sets of marks gives the layering of what each
/// resolves to: marks may be resolved before or after they are merged.
pub proof fn resolve_commutes_with_layering(a: InlineTextStyle, b: InlineTextStyle)
    ensures
        resolved(a.layered(b)) == resolved(a).layered(resolved(b)),
{
}

/// Layering never drops a mark and invents none: each flag of the result is
/// the disjunction of the two flags, and the link is that of the lower style
/// wherever it has one.
pub proof fn layering_is_attributewise(a: InlineTextStyle, b: InlineTextStyle)
    ensures
        a.layered(b).bold == (a.bold || b.bold),
        a.layered(b).italic == (a.italic || b.italic),
        a.layered(b).strikethrough == (a.strikethrough || b.strikethrough),
        a.layered(b).code == (a.code || b.code),
        a.link is Some ==> a.layered(b).link == a.link,
        a.link is None ==> a.layered(b).link == b.link,
{
}

impl Clone for InlineTextStyle {
    fn clone(&self) -> (r: Self)
        ensures
            r == *self,
    {
        self.duplicate()
    }
}

impl Default for LinkMark {
    fn default() -> (r: Self)
        ensures
            r.url@ == Seq::<char>::empty(),
            r.title is None,
    {
        LinkMark { url: String::new(), title: None }
    }
}

impl Default for InlineTextStyle {
    fn default() -> (r: Self)
        ensures
            r == InlineTextStyle::unmarked(),
    {
        InlineTextStyle {
            bold: false,
            italic: false,
            strikethrough: false,
            code: false,
            link: None,
        }
    }
}

impl InlineTextStyle {
    /// The style that carries no mark at all.
    pub open spec fn unmarked() -> InlineTextStyle {
        InlineTextStyle {
            bold: false,
            italic: false,
            strikethrough: false,
            code: false,
            link: None,
        }
    }
}

} // verus!
