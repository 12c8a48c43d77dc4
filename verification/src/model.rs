//! Mathematical models of the document types, the view functions that map
//! an in-memory document to its model, and well-formedness.

use vstd::prelude::*;

use crate::strutil::lex_lt;
use crate::types::{
    Alignment, Attr, Block, Citation, CitationMode, Inline, ListAttributes, ListNumberDelim,
    ListNumberStyle, MathType, Meta, MetaValue, Pandoc, QuoteType, Target,
};

verus! {

/// Model of an `Attr`: identifier, classes, key-value pairs.
pub type SpecAttr = (Seq<char>, Seq<Seq<char>>, Seq<(Seq<char>, Seq<char>)>);

/// Model of a `Target`: url and title.
pub type SpecTarget = (Seq<char>, Seq<char>);

/// Model of `ListAttributes`.
pub type SpecListAttributes = (u64, ListNumberStyle, ListNumberDelim);

/// Model of an `Inline`.
#[verifier::ext_equal]
pub enum SpecInline {
    Str(Seq<char>),
    Emph(Seq<SpecInline>),
    Strong(Seq<SpecInline>),
    Strikeout(Seq<SpecInline>),
    Superscript(Seq<SpecInline>),
    Subscript(Seq<SpecInline>),
    SmallCaps(Seq<SpecInline>),
    Quoted(QuoteType, Seq<SpecInline>),
    Cite(Seq<SpecCitation>, Seq<SpecInline>),
    Code(SpecAttr, Seq<char>),
    Space,
    SoftBreak,
    LineBreak,
    Math(MathType, Seq<char>),
    RawInline(Seq<char>, Seq<char>),
    Link(SpecAttr, Seq<SpecInline>, SpecTarget),
    Image(SpecAttr, Seq<SpecInline>, SpecTarget),
    Span(SpecAttr, Seq<SpecInline>),
}

/// Model of a `Citation`.
#[verifier::ext_equal]
pub struct SpecCitation {
    pub citation_id: Seq<char>,
    pub citation_prefix: Seq<SpecInline>,
    pub citation_suffix: Seq<SpecInline>,
    pub citation_mode: CitationMode,
    pub citation_note_num: u64,
    pub citation_hash: u64,
}

/// Model of a `Block`.
#[verifier::ext_equal]
pub enum SpecBlock {
    Plain(Seq<SpecInline>),
    Para(Seq<SpecInline>),
    CodeBlock(SpecAttr, Seq<char>),
    RawBlock(Seq<char>, Seq<char>),
    BlockQuote(Seq<SpecBlock>),
    OrderedList(SpecListAttributes, Seq<Seq<SpecBlock>>),
    BulletList(Seq<Seq<SpecBlock>>),
    DefinitionList(Seq<(Seq<SpecInline>, Seq<Seq<SpecBlock>>)>),
    Header(u64, SpecAttr, Seq<SpecInline>),
    HorizontalRule,
    Table(
        Seq<SpecInline>,
        Seq<Alignment>,
        Seq<Seq<char>>,
        Seq<Seq<SpecBlock>>,
        Seq<Seq<Seq<SpecBlock>>>,
    ),
    Div(SpecAttr, Seq<SpecBlock>),
    Null,
}

/// Model of a `MetaValue`.
#[verifier::ext_equal]
pub enum SpecMetaValue {
    MetaMap(Seq<(Seq<char>, SpecMetaValue)>),
    MetaList(Seq<SpecMetaValue>),
    MetaBool(bool),
    MetaString(Seq<char>),
    MetaInlines(Seq<SpecInline>),
    MetaBlocks(Seq<SpecBlock>),
}

/// Model of a `Meta`.
#[verifier::ext_equal]
pub struct SpecMeta {
    pub un_meta: Seq<(Seq<char>, SpecMetaValue)>,
}

/// Model of a `Pandoc` document.
#[verifier::ext_equal]
pub struct SpecPandoc {
    pub meta: SpecMeta,
    pub blocks: Seq<SpecBlock>,
}

pub open spec fn view_strings(s: Seq<String>) -> Seq<Seq<char>> {
    Seq::new(s.len(), |i: int| s[i]@)
}

pub open spec fn view_string_pairs(s: Seq<(String, String)>) -> Seq<(Seq<char>, Seq<char>)> {
    Seq::new(s.len(), |i: int| (s[i].0@, s[i].1@))
}

pub open spec fn view_attr(a: Attr) -> SpecAttr {
    (a.0@, view_strings(a.1@), view_string_pairs(a.2@))
}

pub open spec fn view_target(t: Target) -> SpecTarget {
    (t.0@, t.1@)
}

pub open spec fn view_inline(i: Inline) -> SpecInline
    decreases i,
{
    match i {
        Inline::Str(s) => SpecInline::Str(s@),
        Inline::Emph(v) => SpecInline::Emph(view_inlines(v@)),
        Inline::Strong(v) => SpecInline::Strong(view_inlines(v@)),
        Inline::Strikeout(v) => SpecInline::Strikeout(view_inlines(v@)),
        Inline::Superscript(v) => SpecInline::Superscript(view_inlines(v@)),
        Inline::Subscript(v) => SpecInline::Subscript(view_inlines(v@)),
        Inline::SmallCaps(v) => SpecInline::SmallCaps(view_inlines(v@)),
        Inline::Quoted(q, v) => SpecInline::Quoted(q, view_inlines(v@)),
        Inline::Cite(cs, v) => SpecInline::Cite(view_citations(cs@), view_inlines(v@)),
        Inline::Code(a, s) => SpecInline::Code(view_attr(a), s@),
        Inline::Space => SpecInline::Space,
        Inline::SoftBreak => SpecInline::SoftBreak,
        Inline::LineBreak => SpecInline::LineBreak,
        Inline::Math(m, s) => SpecInline::Math(m, s@),
        Inline::RawInline(f, s) => SpecInline::RawInline(f@, s@),
        Inline::Link(a, v, t) => SpecInline::Link(view_attr(a), view_inlines(v@), view_target(t)),
        Inline::Image(a, v, t) => SpecInline::Image(view_attr(a), view_inlines(v@), view_target(t)),
        Inline::Span(a, v) => SpecInline::Span(view_attr(a), view_inlines(v@)),
    }
}

pub open spec fn view_inlines(s: Seq<Inline>) -> Seq<SpecInline>
    decreases s,
{
    Seq::new(s.len(), |i: int| if 0 <= i < s.len() { view_inline(s[i]) } else { SpecInline::Space })
}

pub open spec fn view_citation(c: Citation) -> SpecCitation
    decreases c,
{
    SpecCitation {
        citation_id: c.citation_id@,
        citation_prefix: view_inlines(c.citation_prefix@),
        citation_suffix: view_inlines(c.citation_suffix@),
        citation_mode: c.citation_mode,
        citation_note_num: c.citation_note_num,
        citation_hash: c.citation_hash,
    }
}

pub open spec fn view_citations(s: Seq<Citation>) -> Seq<SpecCitation>
    decreases s,
{
    Seq::new(
        s.len(),
        |i: int|
            if 0 <= i < s.len() {
                view_citation(s[i])
            } else {
                SpecCitation {
                    citation_id: Seq::empty(),
                    citation_prefix: Seq::empty(),
                    citation_suffix: Seq::empty(),
                    citation_mode: CitationMode::NormalCitation,
                    citation_note_num: 0,
                    citation_hash: 0,
                }
            },
    )
}

pub open spec fn view_block(b: Block) -> SpecBlock
    decreases b,
{
    match b {
        Block::Plain(v) => SpecBlock::Plain(view_inlines(v@)),
        Block::Para(v) => SpecBlock::Para(view_inlines(v@)),
        Block::CodeBlock(a, s) => SpecBlock::CodeBlock(view_attr(a), s@),
        Block::RawBlock(f, s) => SpecBlock::RawBlock(f@, s@),
        Block::BlockQuote(v) => SpecBlock::BlockQuote(view_blocks(v@)),
        Block::OrderedList(la, v) => SpecBlock::OrderedList((la.0, la.1, la.2), view_blockss(v@)),
        Block::BulletList(v) => SpecBlock::BulletList(view_blockss(v@)),
        Block::DefinitionList(v) => SpecBlock::DefinitionList(view_defitems(v@)),
        Block::Header(lvl, a, v) => SpecBlock::Header(lvl, view_attr(a), view_inlines(v@)),
        Block::HorizontalRule => SpecBlock::HorizontalRule,
        Block::Table(cap, al, w, h, r) => SpecBlock::Table(
            view_inlines(cap@),
            al@,
            view_strings(w@),
            view_blockss(h@),
            view_blocksss(r@),
        ),
        Block::Div(a, v) => SpecBlock::Div(view_attr(a), view_blocks(v@)),
        Block::Null => SpecBlock::Null,
    }
}

pub open spec fn view_blocks(s: Seq<Block>) -> Seq<SpecBlock>
    decreases s,
{
    Seq::new(s.len(), |i: int| if 0 <= i < s.len() { view_block(s[i]) } else { SpecBlock::Null })
}

pub open spec fn view_blockss(s: Seq<Vec<Block>>) -> Seq<Seq<SpecBlock>>
    decreases s,
{
    Seq::new(s.len(), |i: int| if 0 <= i < s.len() { view_blocks(s[i]@) } else { Seq::empty() })
}

pub open spec fn view_blocksss(s: Seq<Vec<Vec<Block>>>) -> Seq<Seq<Seq<SpecBlock>>>
    decreases s,
{
    Seq::new(s.len(), |i: int| if 0 <= i < s.len() { view_blockss(s[i]@) } else { Seq::empty() })
}

pub open spec fn view_defitems(s: Seq<(Vec<Inline>, Vec<Vec<Block>>)>) -> Seq<
    (Seq<SpecInline>, Seq<Seq<SpecBlock>>),
>
    decreases s,
{
    Seq::new(
        s.len(),
        |i: int|
            if 0 <= i < s.len() {
                (view_inlines(s[i].0@), view_blockss(s[i].1@))
            } else {
                (Seq::empty(), Seq::empty())
            },
    )
}

pub open spec fn view_meta_value(m: MetaValue) -> SpecMetaValue
    decreases m,
{
    match m {
        MetaValue::MetaMap(entries) => SpecMetaValue::MetaMap(view_meta_entries(entries@)),
        MetaValue::MetaList(v) => SpecMetaValue::MetaList(view_meta_values(v@)),
        MetaValue::MetaBool(b) => SpecMetaValue::MetaBool(b),
        MetaValue::MetaString(s) => SpecMetaValue::MetaString(s@),
        MetaValue::MetaInlines(v) => SpecMetaValue::MetaInlines(view_inlines(v@)),
        MetaValue::MetaBlocks(v) => SpecMetaValue::MetaBlocks(view_blocks(v@)),
    }
}

pub open spec fn view_meta_values(s: Seq<MetaValue>) -> Seq<SpecMetaValue>
    decreases s,
{
    Seq::new(
        s.len(),
        |i: int|
            if 0 <= i < s.len() {
                view_meta_value(s[i])
            } else {
                SpecMetaValue::MetaBool(false)
            },
    )
}

pub open spec fn view_meta_entries(s: Seq<(String, MetaValue)>) -> Seq<
    (Seq<char>, SpecMetaValue),
>
    decreases s,
{
    Seq::new(
        s.len(),
        |i: int|
            if 0 <= i < s.len() {
                (s[i].0@, view_meta_value(s[i].1))
            } else {
                (Seq::<char>::empty(), SpecMetaValue::MetaBool(false))
            },
    )
}

pub open spec fn view_meta(m: Meta) -> SpecMeta {
    SpecMeta { un_meta: view_meta_entries(m.un_meta@) }
}

pub open spec fn view_pandoc(p: Pandoc) -> SpecPandoc {
    SpecPandoc { meta: view_meta(p.meta), blocks: view_blocks(p.blocks@) }
}

/// The keys of a metadata entry sequence are strictly increasing: sorted,
/// and each key occurs at most once.
pub open spec fn entries_sorted<V>(s: Seq<(Seq<char>, V)>) -> bool {
    forall|i: int, j: int| 0 <= i < j < s.len() ==> lex_lt(s[i].0, s[j].0)
}

pub open spec fn wf_inline(i: SpecInline) -> bool
    decreases i,
{
    match i {
        SpecInline::Str(_) => true,
        SpecInline::Emph(v) => wf_inlines(v),
        SpecInline::Strong(v) => wf_inlines(v),
        SpecInline::Strikeout(v) => wf_inlines(v),
        SpecInline::Superscript(v) => wf_inlines(v),
        SpecInline::Subscript(v) => wf_inlines(v),
        SpecInline::SmallCaps(v) => wf_inlines(v),
        SpecInline::Quoted(_, v) => wf_inlines(v),
        SpecInline::Cite(cs, v) => wf_citations(cs) && wf_inlines(v),
        SpecInline::Code(_, _) => true,
        SpecInline::Space => true,
        SpecInline::SoftBreak => true,
        SpecInline::LineBreak => true,
        SpecInline::Math(_, _) => true,
        SpecInline::RawInline(_, _) => true,
        SpecInline::Link(_, v, _) => wf_inlines(v),
        SpecInline::Image(_, v, _) => wf_inlines(v),
        SpecInline::Span(_, v) => wf_inlines(v),
    }
}

pub open spec fn wf_inlines(s: Seq<SpecInline>) -> bool
    decreases s,
{
    forall|i: int| 0 <= i < s.len() ==> wf_inline(#[trigger] s[i])
}

pub open spec fn wf_citation(c: SpecCitation) -> bool
    decreases c,
{
    wf_inlines(c.citation_prefix) && wf_inlines(c.citation_suffix)
}

pub open spec fn wf_citations(s: Seq<SpecCitation>) -> bool
    decreases s,
{
    forall|i: int| 0 <= i < s.len() ==> wf_citation(#[trigger] s[i])
}

/// A block is well formed when every header level is at least 1 and the
/// column-count-derived sequences of every table agree in length,
/// recursively.
pub open spec fn wf_block(b: SpecBlock) -> bool
    decreases b,
{
    match b {
        SpecBlock::Plain(v) => wf_inlines(v),
        SpecBlock::Para(v) => wf_inlines(v),
        SpecBlock::CodeBlock(_, _) => true,
        SpecBlock::RawBlock(_, _) => true,
        SpecBlock::BlockQuote(v) => wf_blocks(v),
        SpecBlock::OrderedList(_, v) => wf_blockss(v),
        SpecBlock::BulletList(v) => wf_blockss(v),
        SpecBlock::DefinitionList(v) => wf_defitems(v),
        SpecBlock::Header(lvl, _, v) => lvl >= 1 && wf_inlines(v),
        SpecBlock::HorizontalRule => true,
        SpecBlock::Table(cap, al, w, h, r) => wf_inlines(cap) && al.len() == w.len() && w.len()
            == h.len() && wf_blockss(h) && wf_blocksss(r),
        SpecBlock::Div(_, v) => wf_blocks(v),
        SpecBlock::Null => true,
    }
}

pub open spec fn wf_blocks(s: Seq<SpecBlock>) -> bool
    decreases s,
{
    forall|i: int| 0 <= i < s.len() ==> wf_block(#[trigger] s[i])
}

pub open spec fn wf_blockss(s: Seq<Seq<SpecBlock>>) -> bool
    decreases s,
{
    forall|i: int| 0 <= i < s.len() ==> wf_blocks(#[trigger] s[i])
}

pub open spec fn wf_blocksss(s: Seq<Seq<Seq<SpecBlock>>>) -> bool
    decreases s,
{
    forall|i: int| 0 <= i < s.len() ==> wf_blockss(#[trigger] s[i])
}

pub open spec fn wf_defitems(s: Seq<(Seq<SpecInline>, Seq<Seq<SpecBlock>>)>) -> bool
    decreases s,
{
    forall|i: int|
        0 <= i < s.len() ==> wf_inlines((#[trigger] s[i]).0) && wf_blockss(s[i].1)
}

pub open spec fn wf_meta_value(m: SpecMetaValue) -> bool
    decreases m,
{
    match m {
        SpecMetaValue::MetaMap(entries) => entries_sorted(entries) && wf_meta_entries(entries),
        SpecMetaValue::MetaList(v) => wf_meta_values(v),
        SpecMetaValue::MetaBool(_) => true,
        SpecMetaValue::MetaString(_) => true,
        SpecMetaValue::MetaInlines(v) => wf_inlines(v),
        SpecMetaValue::MetaBlocks(v) => wf_blocks(v),
    }
}

pub open spec fn wf_meta_values(s: Seq<SpecMetaValue>) -> bool
    decreases s,
{
    forall|i: int| 0 <= i < s.len() ==> wf_meta_value(#[trigger] s[i])
}

pub open spec fn wf_meta_entries(s: Seq<(Seq<char>, SpecMetaValue)>) -> bool
    decreases s,
{
    forall|i: int| 0 <= i < s.len() ==> wf_meta_value((#[trigger] s[i]).1)
}

/// A metadata mapping is well formed when its keys are strictly sorted and
/// its values are well formed.
pub open spec fn wf_meta(m: SpecMeta) -> bool {
    entries_sorted(m.un_meta) && wf_meta_entries(m.un_meta)
}

/// A document is well formed when its metadata and all its blocks are.
pub open spec fn wf_pandoc(p: SpecPandoc) -> bool {
    wf_meta(p.meta) && wf_blocks(p.blocks)
}

} // verus!
