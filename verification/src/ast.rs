//! The element tree: blocks, list items and spans, each owning its text.

use vstd::prelude::*;
use crate::ial::Attr;

verus! {

/// One inline element.
pub enum Span {
    /// Raw text (escaped at conversion), typography and escapes applied.
    Text(Vec<char>),
    /// Verbatim HTML emitted without escaping (a re-serialized inline HTML
    /// element, an autolink, or a hard line break).
    Raw(Vec<char>),
    /// Emphasis with its children and span IAL.
    Em(Vec<Span>, Vec<Attr>),
    /// Strong emphasis with its children and span IAL.
    Strong(Vec<Span>, Vec<Attr>),
    /// GFM strikethrough (`~~…~~`).
    Del(Vec<Span>),
    /// Code span text.
    Code(Vec<char>),
    /// A link: its text spans, `href`, optional `title`, span IAL.
    Link { spans: Vec<Span>, href: Vec<char>, title: Option<Vec<char>>, ial: Vec<Attr> },
    /// `![alt](src "title")` → `<img>`; `alt` is the raw bracket text.
    Image { src: Vec<char>, alt: Vec<char>, title: Option<Vec<char>>, ial: Vec<Attr> },
}

/// Per-column text alignment from a table's separator line.
#[derive(Clone, Copy, PartialEq, Eq, Structural, Debug)]
pub enum Align {
    Unset,
    Left,
    Center,
    Right,
}

/// One list item: its content blocks.
pub struct Item {
    pub blocks: Vec<Block>,
}

/// One block plus its block IAL.
pub struct Block {
    pub kind: BlockKind,
    /// Block IAL attributes in kramdown's insertion order.
    pub ial: Vec<Attr>,
}

pub enum BlockKind {
    /// A run of blank lines between blocks (renders as one `\n`).
    Blank,
    /// ATX heading. `raw` is the unparsed heading text (kramdown core derives
    /// `auto_ids` slugs from it); `span_text` is the parsed-tree text (the GFM
    /// slug input); `id` is the auto id assigned before conversion.
    Heading {
        level: u8,
        raw: Vec<char>,
        span_text: Vec<char>,
        spans: Vec<Span>,
        id: Option<Vec<char>>,
    },
    Para(Vec<Span>),
    /// A list. `loose` items wrap their paragraphs in `<p>`; `toc` marks a
    /// list replaced by the table of contents.
    List { ordered: bool, loose: bool, items: Vec<Item>, toc: bool },
    Quote(Vec<Block>),
    /// A code block: the fence language, the text, and — once the
    /// highlighter has run — the language it ran with and its HTML.
    Code { lang: Option<Vec<char>>, text: Vec<char>, highlighted: Option<(Vec<char>, Vec<char>)> },
    /// A raw HTML block, already re-serialized. Emitted verbatim.
    RawHtml(Vec<char>),
    Hr,
    /// A pipe table: per-column alignment, optional header row, body rows;
    /// each cell is its parsed spans.
    Table { aligns: Vec<Align>, header: Option<Vec<Vec<Span>>>, body: Vec<Vec<Vec<Span>>> },
}

impl BlockKind {
    /// Whether this is a blank-run marker.
    pub fn is_blank(&self) -> (r: bool)
        ensures
            r == (*self is Blank),
    {
        match self {
            BlockKind::Blank => true,
            _ => false,
        }
    }
}

/// A block link reference definition: normalized id, url, optional title.
pub struct LinkDef {
    pub id: Vec<char>,
    pub url: Vec<char>,
    pub title: Option<Vec<char>>,
}

} // verus!
