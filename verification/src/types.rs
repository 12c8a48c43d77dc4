//! The document model: a closed family of recursive sum types.
//!
//! A document is a metadata mapping plus a sequence of blocks; blocks and
//! inlines are tagged unions; attributes, targets and list attributes are
//! plain tuples. Table column widths are carried as decimal number text so
//! that the wire form of a width survives a round trip unchanged.

use vstd::prelude::*;

verus! {

/// A raw markup format name, such as `html` or `tex`.
pub type Format = String;

/// HTML-like attributes: identifier, classes, key-value pairs, in order.
pub type Attr = (String, Vec<String>, Vec<(String, String)>);

/// A link or image target: url and title.
pub type Target = (String, String);

/// Ordered-list attributes: start number, number style, number delimiter.
pub type ListAttributes = (u64, ListNumberStyle, ListNumberDelim);

/// A complete document: metadata and a sequence of blocks.
#[derive(Debug, PartialEq)]
pub struct Pandoc {
    pub meta: Meta,
    pub blocks: Vec<Block>,
}

/// Document metadata: a mapping from string keys to metadata values.
/// Entries are kept sorted by key, each key at most once; `Meta::insert`
/// and the decoder both maintain that canonical order.
#[derive(Debug, PartialEq)]
pub struct Meta {
    pub un_meta: Vec<(String, MetaValue)>,
}

/// A heterogeneous metadata value.
#[derive(Debug, PartialEq)]
pub enum MetaValue {
    MetaMap(Vec<(String, MetaValue)>),
    MetaList(Vec<MetaValue>),
    MetaBool(bool),
    MetaString(String),
    MetaInlines(Vec<Inline>),
    MetaBlocks(Vec<Block>),
}

/// A block-level document element.
#[derive(Debug, PartialEq)]
pub enum Block {
    Plain(Vec<Inline>),
    Para(Vec<Inline>),
    CodeBlock(Attr, String),
    RawBlock(Format, String),
    BlockQuote(Vec<Block>),
    OrderedList(ListAttributes, Vec<Vec<Block>>),
    BulletList(Vec<Vec<Block>>),
    DefinitionList(Vec<(Vec<Inline>, Vec<Vec<Block>>)>),
    Header(u64, Attr, Vec<Inline>),
    HorizontalRule,
    Table(Vec<Inline>, Vec<Alignment>, Vec<String>, Vec<Vec<Block>>, Vec<Vec<Vec<Block>>>),
    Div(Attr, Vec<Block>),
    Null,
}

/// An inline-level document element.
#[derive(Debug, PartialEq)]
pub enum Inline {
    Str(String),
    Emph(Vec<Inline>),
    Strong(Vec<Inline>),
    Strikeout(Vec<Inline>),
    Superscript(Vec<Inline>),
    Subscript(Vec<Inline>),
    SmallCaps(Vec<Inline>),
    Quoted(QuoteType, Vec<Inline>),
    Cite(Vec<Citation>, Vec<Inline>),
    Code(Attr, String),
    Space,
    SoftBreak,
    LineBreak,
    Math(MathType, String),
    RawInline(Format, String),
    Link(Attr, Vec<Inline>, Target),
    Image(Attr, Vec<Inline>, Target),
    Span(Attr, Vec<Inline>),
}

/// A citation attached to a `Inline::Cite` element.
#[derive(Debug, PartialEq)]
pub struct Citation {
    pub citation_id: String,
    pub citation_prefix: Vec<Inline>,
    pub citation_suffix: Vec<Inline>,
    pub citation_mode: CitationMode,
    pub citation_note_num: u64,
    pub citation_hash: u64,
}

/// How a citation is rendered.
#[derive(Debug, PartialEq, Eq, Clone, Copy, Structural)]
pub enum CitationMode {
    AuthorInText,
    SuppressAuthor,
    NormalCitation,
}

/// The quotation marks of a `Inline::Quoted` element.
#[derive(Debug, PartialEq, Eq, Clone, Copy, Structural)]
pub enum QuoteType {
    SingleQuote,
    DoubleQuote,
}

/// Display or inline mathematics.
#[derive(Debug, PartialEq, Eq, Clone, Copy, Structural)]
pub enum MathType {
    DisplayMath,
    InlineMath,
}

/// Per-column table alignment.
#[derive(Debug, PartialEq, Eq, Clone, Copy, Structural)]
pub enum Alignment {
    AlignLeft,
    AlignRight,
    AlignCenter,
    AlignDefault,
}

/// Numbering style of an ordered list.
#[derive(Debug, PartialEq, Eq, Clone, Copy, Structural)]
pub enum ListNumberStyle {
    DefaultStyle,
    Example,
    Decimal,
    LowerRoman,
    UpperRoman,
    LowerAlpha,
    UpperAlpha,
}

/// Delimiter style of an ordered list's numbers.
#[derive(Debug, PartialEq, Eq, Clone, Copy, Structural)]
pub enum ListNumberDelim {
    DefaultDelim,
    Period,
    OneParen,
    TwoParens,
}

} // verus!
