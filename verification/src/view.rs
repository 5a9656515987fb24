//! The text view: a source text, the language it is written in, and how its
//! blocks are spaced.

use vstd::prelude::*;

verus! {

/// How a [`TextView`] spaces its blocks.
#[derive(Clone, Copy, Debug, PartialEq, Eq, Structural)]
pub struct TextViewStyle {
    /// The gap below a block, in thousandths of the root font size.
    pub paragraph_gap: u32,
}

impl Default for TextViewStyle {
    /// One root font size between blocks.
    fn default() -> (r: Self)
        ensures
            r == (TextViewStyle { paragraph_gap: 1000 }),
    {
        TextViewStyle { paragraph_gap: 1000 }
    }
}

impl TextViewStyle {
    /// The style for text that runs inside a line: no gap between blocks.
    pub fn inline() -> (r: Self)
        ensures
            r == (TextViewStyle { paragraph_gap: 0 }),
    {
        TextViewStyle { paragraph_gap: 0 }
    }

    /// Sets the gap below a block, in thousandths of the root font size.
    pub fn paragraph_gap(self, gap: u32) -> (r: Self)
        ensures
            r == (TextViewStyle { paragraph_gap: gap }),
    {
        TextViewStyle { paragraph_gap: gap }
    }
}

/// The language of a source text.
#[derive(Clone, Copy, Debug, PartialEq, Eq, Structural)]
pub enum Markup {
    Markdown,
    Html,
}

/// A source text with the name of the element that shows it.
#[derive(Debug, PartialEq)]
pub struct Document {
    pub id: String,
    pub text: String,
    pub style: TextViewStyle,
}

/// A view that shows a Markdown or an HTML text.
#[derive(Debug, PartialEq)]
pub enum TextView {
    Markdown(Document),
    Html(Document),
}

/// What a [`TextView`] holds.
pub struct TextViewModel {
    pub markup: Markup,
    pub id: Seq<char>,
    pub text: Seq<char>,
    pub style: TextViewStyle,
}

impl View for TextView {
    type V = TextViewModel;

    open spec fn view(&self) -> TextViewModel {
        match *self {
            TextView::Markdown(d) => TextViewModel {
                markup: Markup::Markdown,
                id: d.id@,
                text: d.text@,
                style: d.style,
            },
            TextView::Html(d) => TextViewModel {
                markup: Markup::Html,
                id: d.id@,
                text: d.text@,
                style: d.style,
            },
        }
    }
}

impl Clone for TextView {
    fn clone(&self) -> (r: Self)
        ensures
            r@ == self@,
    {
        match self {
            TextView::Markdown(d) => TextView::Markdown(
                Document { id: d.id.clone(), text: d.text.clone(), style: d.style },
            ),
            TextView::Html(d) => TextView::Html(
                Document { id: d.id.clone(), text: d.text.clone(), style: d.style },
            ),
        }
    }
}

impl TextView {
    /// A view of the Markdown text `raw`, with the default style.
    pub fn markdown(id: String, raw: String) -> (r: Self)
        ensures
            r@ == (TextViewModel {
                markup: Markup::Markdown,
                id: id@,
                text: raw@,
                style: TextViewStyle { paragraph_gap: 1000 },
            }),
    {
        TextView::Markdown(Document { id, text: raw, style: TextViewStyle::default() })
    }

    /// A view of the HTML text `raw`, with the default style.
    pub fn html(id: String, raw: String) -> (r: Self)
        ensures
            r@ == (TextViewModel {
                markup: Markup::Html,
                id: id@,
                text: raw@,
                style: TextViewStyle { paragraph_gap: 1000 },
            }),
    {
        TextView::Html(Document { id, text: raw, style: TextViewStyle::default() })
    }

    /// Replaces the source text.
    pub fn text(self, raw: String) -> (r: Self)
        ensures
            r@ == (TextViewModel { text: raw@, ..self@ }),
    {
        match self {
            TextView::Markdown(d) => TextView::Markdown(
                Document { id: d.id, text: raw, style: d.style },
            ),
            TextView::Html(d) => TextView::Html(Document { id: d.id, text: raw, style: d.style }),
        }
    }

    /// Replaces the style.
    pub fn style(self, style: TextViewStyle) -> (r: Self)
        ensures
            r@ == (TextViewModel { style, ..self@ }),
    {
        match self {
            TextView::Markdown(d) => TextView::Markdown(Document { id: d.id, text: d.text, style }),
            TextView::Html(d) => TextView::Html(Document { id: d.id, text: d.text, style }),
        }
    }

    /// Sets the style for text that runs inside a line.
    pub fn inline(self) -> (r: Self)
        ensures
            r@ == (TextViewModel { style: TextViewStyle { paragraph_gap: 0 }, ..self@ }),
    {
        self.style(TextViewStyle::inline())
    }
}

/// Something that is shown as text: a plain string or a text view.
#[derive(Debug, PartialEq)]
pub enum Text {
    String(String),
    TextView(TextView),
}

impl From<String> for Text {
    fn from(s: String) -> (r: Self) {
        Text::String(s)
    }
}

impl vstd::std_specs::convert::FromSpecImpl<String> for Text {
    open spec fn obeys_from_spec() -> bool {
        true
    }

    open spec fn from_spec(s: String) -> Self {
        Text::String(s)
    }
}

impl From<TextView> for Text {
    fn from(e: TextView) -> (r: Self) {
        Text::TextView(e)
    }
}

impl vstd::std_specs::convert::FromSpecImpl<TextView> for Text {
    open spec fn obeys_from_spec() -> bool {
        true
    }

    open spec fn from_spec(e: TextView) -> Self {
        Text::TextView(e)
    }
}

impl Text {
    /// A plain text with the characters of `s`.
    pub fn from_str(s: &str) -> (r: Self)
        ensures
            r matches Text::String(t) && t@ == s@,
    {
        Text::String(s.to_owned())
    }
}

impl Clone for Text {
    fn clone(&self) -> (r: Self)
        ensures
            self matches Text::String(s) ==> r == *self,
            self matches Text::TextView(v) ==> r matches Text::TextView(w) && w@ == v@,
    {
        match self {
            Text::String(s) => Text::String(s.clone()),
            Text::TextView(v) => Text::TextView(v.clone()),
        }
    }
}

} // verus!
