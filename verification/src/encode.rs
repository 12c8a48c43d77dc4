//! Encoding documents as wire values.
//!
//! Encoding follows the fixed per-shape conventions: a nullary variant
//! becomes an object with the tag mapped to an empty array, except citation
//! modes and the two content-free blocks, which become bare tag strings; a
//! single-payload variant becomes an object with the tag mapped to the
//! encoded payload; a multi-field variant maps its tag to the array of its
//! encoded fields; a citation becomes a plain object with its externally
//! mandated field names; metadata objects are emitted with their keys
//! sorted. Encoding is total: it never fails.

use vstd::prelude::*;

use crate::metamap::{canon_entries, insert_entry, pair_entries_insert};
use crate::model::{
    entries_sorted, view_attr, view_block, view_blocks, view_blockss, view_blocksss,
    view_citation, view_citations, view_defitems, view_inline, view_inlines, view_meta,
    view_meta_entries, view_meta_value, view_meta_values, view_pandoc, view_string_pairs,
    view_strings, view_target, SpecAttr, SpecBlock, SpecCitation, SpecInline, SpecListAttributes,
    SpecMeta, SpecMetaValue, SpecPandoc, SpecTarget,
};
use crate::strutil::{u64_dec_str, u64_to_string};
use crate::types::{
    Alignment, Attr, Block, Citation, CitationMode, Inline, ListNumberDelim, ListNumberStyle,
    MathType, Meta, MetaValue, Pandoc, QuoteType, Target,
};
use crate::value::{view_pairs, view_value, view_values, SpecValue, WireValue};

verus! {

/// An object with a single entry: the tag mapped to its payload.
pub open spec fn tagged(tag: Seq<char>, payload: SpecValue) -> SpecValue {
    SpecValue::Obj(seq![(tag, payload)])
}

/// The empty-array form of a nullary variant.
pub open spec fn tagged_unit(tag: Seq<char>) -> SpecValue {
    tagged(tag, SpecValue::Arr(Seq::empty()))
}

pub open spec fn enc_texts(s: Seq<Seq<char>>) -> Seq<SpecValue> {
    Seq::new(s.len(), |i: int| SpecValue::Text(s[i]))
}

pub open spec fn enc_text_pairs(s: Seq<(Seq<char>, Seq<char>)>) -> Seq<SpecValue> {
    Seq::new(
        s.len(),
        |i: int| SpecValue::Arr(seq![SpecValue::Text(s[i].0), SpecValue::Text(s[i].1)]),
    )
}

pub open spec fn enc_nums(s: Seq<Seq<char>>) -> Seq<SpecValue> {
    Seq::new(s.len(), |i: int| SpecValue::Num(s[i]))
}

pub open spec fn enc_attr(a: SpecAttr) -> SpecValue {
    SpecValue::Arr(
        seq![
            SpecValue::Text(a.0),
            SpecValue::Arr(enc_texts(a.1)),
            SpecValue::Arr(enc_text_pairs(a.2)),
        ],
    )
}

pub open spec fn enc_target(t: SpecTarget) -> SpecValue {
    SpecValue::Arr(seq![SpecValue::Text(t.0), SpecValue::Text(t.1)])
}

pub open spec fn quote_type_tag(q: QuoteType) -> Seq<char> {
    match q {
        QuoteType::SingleQuote => "SingleQuote"@,
        QuoteType::DoubleQuote => "DoubleQuote"@,
    }
}

pub open spec fn enc_quote_type(q: QuoteType) -> SpecValue {
    tagged_unit(quote_type_tag(q))
}

pub open spec fn math_type_tag(m: MathType) -> Seq<char> {
    match m {
        MathType::DisplayMath => "DisplayMath"@,
        MathType::InlineMath => "InlineMath"@,
    }
}

pub open spec fn enc_math_type(m: MathType) -> SpecValue {
    tagged_unit(math_type_tag(m))
}

pub open spec fn alignment_tag(a: Alignment) -> Seq<char> {
    match a {
        Alignment::AlignLeft => "AlignLeft"@,
        Alignment::AlignRight => "AlignRight"@,
        Alignment::AlignCenter => "AlignCenter"@,
        Alignment::AlignDefault => "AlignDefault"@,
    }
}

pub open spec fn enc_alignment(a: Alignment) -> SpecValue {
    tagged_unit(alignment_tag(a))
}

pub open spec fn list_number_style_tag(s: ListNumberStyle) -> Seq<char> {
    match s {
        ListNumberStyle::DefaultStyle => "DefaultStyle"@,
        ListNumberStyle::Example => "Example"@,
        ListNumberStyle::Decimal => "Decimal"@,
        ListNumberStyle::LowerRoman => "LowerRoman"@,
        ListNumberStyle::UpperRoman => "UpperRoman"@,
        ListNumberStyle::LowerAlpha => "LowerAlpha"@,
        ListNumberStyle::UpperAlpha => "UpperAlpha"@,
    }
}

pub open spec fn enc_list_number_style(s: ListNumberStyle) -> SpecValue {
    tagged_unit(list_number_style_tag(s))
}

pub open spec fn list_number_delim_tag(d: ListNumberDelim) -> Seq<char> {
    match d {
        ListNumberDelim::DefaultDelim => "DefaultDelim"@,
        ListNumberDelim::Period => "Period"@,
        ListNumberDelim::OneParen => "OneParen"@,
        ListNumberDelim::TwoParens => "TwoParens"@,
    }
}

pub open spec fn enc_list_number_delim(d: ListNumberDelim) -> SpecValue {
    tagged_unit(list_number_delim_tag(d))
}

pub open spec fn citation_mode_tag(m: CitationMode) -> Seq<char> {
    match m {
        CitationMode::AuthorInText => "AuthorInText"@,
        CitationMode::SuppressAuthor => "SuppressAuthor"@,
        CitationMode::NormalCitation => "NormalCitation"@,
    }
}

/// A citation mode encodes as a bare tag string.
pub open spec fn enc_citation_mode(m: CitationMode) -> SpecValue {
    SpecValue::Text(citation_mode_tag(m))
}

pub open spec fn enc_list_attributes(la: SpecListAttributes) -> SpecValue {
    SpecValue::Arr(
        seq![
            SpecValue::Num(u64_dec_str(la.0 as int)),
            enc_list_number_style(la.1),
            enc_list_number_delim(la.2),
        ],
    )
}

pub open spec fn enc_inline(i: SpecInline) -> SpecValue
    decreases i,
{
    match i {
        SpecInline::Str(s) => tagged("Str"@, SpecValue::Text(s)),
        SpecInline::Emph(v) => tagged("Emph"@, SpecValue::Arr(enc_inlines(v))),
        SpecInline::Strong(v) => tagged("Strong"@, SpecValue::Arr(enc_inlines(v))),
        SpecInline::Strikeout(v) => tagged("Strikeout"@, SpecValue::Arr(enc_inlines(v))),
        SpecInline::Superscript(v) => tagged("Superscript"@, SpecValue::Arr(enc_inlines(v))),
        SpecInline::Subscript(v) => tagged("Subscript"@, SpecValue::Arr(enc_inlines(v))),
        SpecInline::SmallCaps(v) => tagged("SmallCaps"@, SpecValue::Arr(enc_inlines(v))),
        SpecInline::Quoted(q, v) => tagged(
            "Quoted"@,
            SpecValue::Arr(seq![enc_quote_type(q), SpecValue::Arr(enc_inlines(v))]),
        ),
        SpecInline::Cite(cs, v) => tagged(
            "Cite"@,
            SpecValue::Arr(
                seq![
                    SpecValue::Arr(enc_citations(cs)),
                    SpecValue::Arr(enc_inlines(v)),
                ],
            ),
        ),
        SpecInline::Code(a, s) => tagged(
            "Code"@,
            SpecValue::Arr(seq![enc_attr(a), SpecValue::Text(s)]),
        ),
        SpecInline::Space => tagged_unit("Space"@),
        SpecInline::SoftBreak => tagged_unit("SoftBreak"@),
        SpecInline::LineBreak => tagged_unit("LineBreak"@),
        SpecInline::Math(m, s) => tagged(
            "Math"@,
            SpecValue::Arr(seq![enc_math_type(m), SpecValue::Text(s)]),
        ),
        SpecInline::RawInline(f, s) => tagged(
            "RawInline"@,
            SpecValue::Arr(seq![SpecValue::Text(f), SpecValue::Text(s)]),
        ),
        SpecInline::Link(a, v, t) => tagged(
            "Link"@,
            SpecValue::Arr(seq![enc_attr(a), SpecValue::Arr(enc_inlines(v)), enc_target(t)]),
        ),
        SpecInline::Image(a, v, t) => tagged(
            "Image"@,
            SpecValue::Arr(seq![enc_attr(a), SpecValue::Arr(enc_inlines(v)), enc_target(t)]),
        ),
        SpecInline::Span(a, v) => tagged(
            "Span"@,
            SpecValue::Arr(seq![enc_attr(a), SpecValue::Arr(enc_inlines(v))]),
        ),
    }
}

pub open spec fn enc_inlines(s: Seq<SpecInline>) -> Seq<SpecValue>
    decreases s,
{
    Seq::new(s.len(), |i: int| if 0 <= i < s.len() { enc_inline(s[i]) } else { SpecValue::Null })
}

pub open spec fn enc_citation(c: SpecCitation) -> SpecValue
    decreases c,
{
    SpecValue::Obj(
        seq![
            ("citationId"@, SpecValue::Text(c.citation_id)),
            ("citationPrefix"@, SpecValue::Arr(enc_inlines(c.citation_prefix))),
            ("citationSuffix"@, SpecValue::Arr(enc_inlines(c.citation_suffix))),
            ("citationMode"@, enc_citation_mode(c.citation_mode)),
            ("citationNoteNum"@, SpecValue::Num(u64_dec_str(c.citation_note_num as int))),
            ("citationHash"@, SpecValue::Num(u64_dec_str(c.citation_hash as int))),
        ],
    )
}

pub open spec fn enc_citations(s: Seq<SpecCitation>) -> Seq<SpecValue>
    decreases s,
{
    Seq::new(s.len(), |i: int| if 0 <= i < s.len() { enc_citation(s[i]) } else { SpecValue::Null })
}

pub open spec fn enc_block(b: SpecBlock) -> SpecValue
    decreases b,
{
    match b {
        SpecBlock::Plain(v) => tagged("Plain"@, SpecValue::Arr(enc_inlines(v))),
        SpecBlock::Para(v) => tagged("Para"@, SpecValue::Arr(enc_inlines(v))),
        SpecBlock::CodeBlock(a, s) => tagged(
            "CodeBlock"@,
            SpecValue::Arr(seq![enc_attr(a), SpecValue::Text(s)]),
        ),
        SpecBlock::RawBlock(f, s) => tagged(
            "RawBlock"@,
            SpecValue::Arr(seq![SpecValue::Text(f), SpecValue::Text(s)]),
        ),
        SpecBlock::BlockQuote(v) => tagged("BlockQuote"@, SpecValue::Arr(enc_blocks(v))),
        SpecBlock::OrderedList(la, v) => tagged(
            "OrderedList"@,
            SpecValue::Arr(seq![enc_list_attributes(la), SpecValue::Arr(enc_blockss(v))]),
        ),
        SpecBlock::BulletList(v) => tagged("BulletList"@, SpecValue::Arr(enc_blockss(v))),
        SpecBlock::DefinitionList(v) => tagged(
            "DefinitionList"@,
            SpecValue::Arr(enc_defitems(v)),
        ),
        SpecBlock::Header(lvl, a, v) => tagged(
            "Header"@,
            SpecValue::Arr(
                seq![
                    SpecValue::Num(u64_dec_str(lvl as int)),
                    enc_attr(a),
                    SpecValue::Arr(enc_inlines(v)),
                ],
            ),
        ),
        SpecBlock::HorizontalRule => SpecValue::Text("HorizontalRule"@),
        SpecBlock::Table(cap, al, w, h, r) => tagged(
            "Table"@,
            SpecValue::Arr(
                seq![
                    SpecValue::Arr(enc_inlines(cap)),
                    SpecValue::Arr(enc_alignments(al)),
                    SpecValue::Arr(enc_nums(w)),
                    SpecValue::Arr(enc_blockss(h)),
                    SpecValue::Arr(enc_blocksss(r)),
                ],
            ),
        ),
        SpecBlock::Div(a, v) => tagged(
            "Div"@,
            SpecValue::Arr(seq![enc_attr(a), SpecValue::Arr(enc_blocks(v))]),
        ),
        SpecBlock::Null => SpecValue::Text("Null"@),
    }
}

pub open spec fn enc_alignments(s: Seq<Alignment>) -> Seq<SpecValue> {
    Seq::new(s.len(), |i: int| enc_alignment(s[i]))
}

pub open spec fn enc_blocks(s: Seq<SpecBlock>) -> Seq<SpecValue>
    decreases s,
{
    Seq::new(s.len(), |i: int| if 0 <= i < s.len() { enc_block(s[i]) } else { SpecValue::Null })
}

pub open spec fn enc_blockss(s: Seq<Seq<SpecBlock>>) -> Seq<SpecValue>
    decreases s,
{
    Seq::new(
        s.len(),
        |i: int|
            if 0 <= i < s.len() {
                SpecValue::Arr(enc_blocks(s[i]))
            } else {
                SpecValue::Null
            },
    )
}

pub open spec fn enc_blocksss(s: Seq<Seq<Seq<SpecBlock>>>) -> Seq<SpecValue>
    decreases s,
{
    Seq::new(
        s.len(),
        |i: int|
            if 0 <= i < s.len() {
                SpecValue::Arr(enc_blockss(s[i]))
            } else {
                SpecValue::Null
            },
    )
}

pub open spec fn enc_defitems(s: Seq<(Seq<SpecInline>, Seq<Seq<SpecBlock>>)>) -> Seq<SpecValue>
    decreases s,
{
    Seq::new(
        s.len(),
        |i: int|
            if 0 <= i < s.len() {
                SpecValue::Arr(
                    seq![
                        SpecValue::Arr(enc_inlines(s[i].0)),
                        SpecValue::Arr(enc_blockss(s[i].1)),
                    ],
                )
            } else {
                SpecValue::Null
            },
    )
}

pub open spec fn enc_meta_value(m: SpecMetaValue) -> SpecValue
    decreases m,
{
    match m {
        SpecMetaValue::MetaMap(entries) => tagged(
            "MetaMap"@,
            SpecValue::Obj(canon_entries(enc_meta_entries(entries))),
        ),
        SpecMetaValue::MetaList(v) => tagged("MetaList"@, SpecValue::Arr(enc_meta_values(v))),
        SpecMetaValue::MetaBool(b) => tagged("MetaBool"@, SpecValue::Bool(b)),
        SpecMetaValue::MetaString(s) => tagged("MetaString"@, SpecValue::Text(s)),
        SpecMetaValue::MetaInlines(v) => tagged("MetaInlines"@, SpecValue::Arr(enc_inlines(v))),
        SpecMetaValue::MetaBlocks(v) => tagged("MetaBlocks"@, SpecValue::Arr(enc_blocks(v))),
    }
}

pub open spec fn enc_meta_values(s: Seq<SpecMetaValue>) -> Seq<SpecValue>
    decreases s,
{
    Seq::new(s.len(), |i: int| if 0 <= i < s.len() { enc_meta_value(s[i]) } else { SpecValue::Null })
}

pub open spec fn enc_meta_entries(s: Seq<(Seq<char>, SpecMetaValue)>) -> Seq<
    (Seq<char>, SpecValue),
>
    decreases s,
{
    Seq::new(
        s.len(),
        |i: int|
            if 0 <= i < s.len() {
                (s[i].0, enc_meta_value(s[i].1))
            } else {
                (Seq::<char>::empty(), SpecValue::Null)
            },
    )
}

/// A metadata mapping encodes as an object with the single key `unMeta`,
/// whose value is the entry object with its keys sorted.
pub open spec fn enc_meta(m: SpecMeta) -> SpecValue {
    tagged("unMeta"@, SpecValue::Obj(canon_entries(enc_meta_entries(m.un_meta))))
}

/// A document encodes as a two-element array: metadata, then blocks.
pub open spec fn enc_pandoc(p: SpecPandoc) -> SpecValue {
    SpecValue::Arr(seq![enc_meta(p.meta), SpecValue::Arr(enc_blocks(p.blocks))])
}

fn tag_obj(tag: &str, payload: WireValue) -> (v: WireValue)
    ensures
        view_value(v) == tagged(tag@, view_value(payload)),
{
    let ghost pv = view_value(payload);
    let mut pairs: Vec<(String, WireValue)> = Vec::new();
    pairs.push((tag.to_owned(), payload));
    let v = WireValue::Obj(pairs);
    proof {
        assert(view_pairs(pairs@) =~= seq![(tag@, pv)]);
    }
    v
}

fn tag_obj_unit(tag: &str) -> (v: WireValue)
    ensures
        view_value(v) == tagged_unit(tag@),
{
    let items: Vec<WireValue> = Vec::new();
    proof {
        assert(view_values(items@) =~= Seq::<SpecValue>::empty());
    }
    tag_obj(tag, WireValue::Arr(items))
}

impl QuoteType {
    /// The wire value of this quote type.
    pub fn encode(&self) -> (v: WireValue)
        ensures
            view_value(v) == enc_quote_type(*self),
    {
        match self {
            QuoteType::SingleQuote => tag_obj_unit("SingleQuote"),
            QuoteType::DoubleQuote => tag_obj_unit("DoubleQuote"),
        }
    }
}

impl MathType {
    /// The wire value of this math type.
    pub fn encode(&self) -> (v: WireValue)
        ensures
            view_value(v) == enc_math_type(*self),
    {
        match self {
            MathType::DisplayMath => tag_obj_unit("DisplayMath"),
            MathType::InlineMath => tag_obj_unit("InlineMath"),
        }
    }
}

impl Alignment {
    /// The wire value of this alignment.
    pub fn encode(&self) -> (v: WireValue)
        ensures
            view_value(v) == enc_alignment(*self),
    {
        match self {
            Alignment::AlignLeft => tag_obj_unit("AlignLeft"),
            Alignment::AlignRight => tag_obj_unit("AlignRight"),
            Alignment::AlignCenter => tag_obj_unit("AlignCenter"),
            Alignment::AlignDefault => tag_obj_unit("AlignDefault"),
        }
    }
}

impl ListNumberStyle {
    /// The wire value of this list number style.
    pub fn encode(&self) -> (v: WireValue)
        ensures
            view_value(v) == enc_list_number_style(*self),
    {
        match self {
            ListNumberStyle::DefaultStyle => tag_obj_unit("DefaultStyle"),
            ListNumberStyle::Example => tag_obj_unit("Example"),
            ListNumberStyle::Decimal => tag_obj_unit("Decimal"),
            ListNumberStyle::LowerRoman => tag_obj_unit("LowerRoman"),
            ListNumberStyle::UpperRoman => tag_obj_unit("UpperRoman"),
            ListNumberStyle::LowerAlpha => tag_obj_unit("LowerAlpha"),
            ListNumberStyle::UpperAlpha => tag_obj_unit("UpperAlpha"),
        }
    }
}

impl ListNumberDelim {
    /// The wire value of this list number delimiter.
    pub fn encode(&self) -> (v: WireValue)
        ensures
            view_value(v) == enc_list_number_delim(*self),
    {
        match self {
            ListNumberDelim::DefaultDelim => tag_obj_unit("DefaultDelim"),
            ListNumberDelim::Period => tag_obj_unit("Period"),
            ListNumberDelim::OneParen => tag_obj_unit("OneParen"),
            ListNumberDelim::TwoParens => tag_obj_unit("TwoParens"),
        }
    }
}

impl CitationMode {
    /// The wire value of this citation mode: a bare tag string.
    pub fn encode(&self) -> (v: WireValue)
        ensures
            view_value(v) == enc_citation_mode(*self),
    {
        match self {
            CitationMode::AuthorInText => WireValue::Text("AuthorInText".to_owned()),
            CitationMode::SuppressAuthor => WireValue::Text("SuppressAuthor".to_owned()),
            CitationMode::NormalCitation => WireValue::Text("NormalCitation".to_owned()),
        }
    }
}

fn enc_attr_exec(a: &Attr) -> (v: WireValue)
    ensures
        view_value(v) == enc_attr(view_attr(*a)),
{
    let mut classes: Vec<WireValue> = Vec::new();
    let mut i: usize = 0;
    while i < a.1.len()
        invariant
            0 <= i <= a.1.len(),
            classes@.len() == i,
            forall|k: int|
                0 <= k < i ==> view_value(#[trigger] classes@[k]) == SpecValue::Text(a.1@[k]@),
        decreases a.1.len() - i,
    {
        classes.push(WireValue::Text(a.1[i].clone()));
        i = i + 1;
    }
    let mut kvs: Vec<WireValue> = Vec::new();
    let mut j: usize = 0;
    while j < a.2.len()
        invariant
            0 <= j <= a.2.len(),
            kvs@.len() == j,
            forall|k: int|
                0 <= k < j ==> view_value(#[trigger] kvs@[k]) == SpecValue::Arr(
                    seq![SpecValue::Text(a.2@[k].0@), SpecValue::Text(a.2@[k].1@)],
                ),
        decreases a.2.len() - j,
    {
        let mut pair: Vec<WireValue> = Vec::new();
        pair.push(WireValue::Text(a.2[j].0.clone()));
        pair.push(WireValue::Text(a.2[j].1.clone()));
        proof {
            assert(view_values(pair@) =~= seq![
                SpecValue::Text(a.2@[j as int].0@),
                SpecValue::Text(a.2@[j as int].1@),
            ]);
        }
        kvs.push(WireValue::Arr(pair));
        j = j + 1;
    }
    let mut items: Vec<WireValue> = Vec::new();
    items.push(WireValue::Text(a.0.clone()));
    items.push(WireValue::Arr(classes));
    items.push(WireValue::Arr(kvs));
    let v = WireValue::Arr(items);
    proof {
        assert(view_values(classes@) =~= enc_texts(view_attr(*a).1));
        assert(view_values(kvs@) =~= enc_text_pairs(view_attr(*a).2));
        assert(view_values(items@) =~= seq![
            SpecValue::Text(a.0@),
            SpecValue::Arr(enc_texts(view_attr(*a).1)),
            SpecValue::Arr(enc_text_pairs(view_attr(*a).2)),
        ]);
    }
    v
}

fn enc_target_exec(t: &Target) -> (v: WireValue)
    ensures
        view_value(v) == enc_target(view_target(*t)),
{
    let mut items: Vec<WireValue> = Vec::new();
    items.push(WireValue::Text(t.0.clone()));
    items.push(WireValue::Text(t.1.clone()));
    let v = WireValue::Arr(items);
    proof {
        assert(view_values(items@) =~= seq![SpecValue::Text(t.0@), SpecValue::Text(t.1@)]);
    }
    v
}

fn arr2(a: WireValue, b: WireValue) -> (v: WireValue)
    ensures
        view_value(v) == SpecValue::Arr(seq![view_value(a), view_value(b)]),
{
    let ghost (av, bv) = (view_value(a), view_value(b));
    let mut items: Vec<WireValue> = Vec::new();
    items.push(a);
    items.push(b);
    let v = WireValue::Arr(items);
    proof {
        assert(view_values(items@) =~= seq![av, bv]);
    }
    v
}

fn arr3(a: WireValue, b: WireValue, c: WireValue) -> (v: WireValue)
    ensures
        view_value(v) == SpecValue::Arr(seq![view_value(a), view_value(b), view_value(c)]),
{
    let ghost (av, bv, cv) = (view_value(a), view_value(b), view_value(c));
    let mut items: Vec<WireValue> = Vec::new();
    items.push(a);
    items.push(b);
    items.push(c);
    let v = WireValue::Arr(items);
    proof {
        assert(view_values(items@) =~= seq![av, bv, cv]);
    }
    v
}

impl Inline {
    /// The wire value of this inline element.
    pub fn encode(&self) -> (v: WireValue)
        ensures
            view_value(v) == enc_inline(view_inline(*self)),
        decreases *self,
    {
        match self {
            Inline::Str(s) => tag_obj("Str", WireValue::Text(s.clone())),
            Inline::Emph(v) => tag_obj("Emph", WireValue::Arr(enc_inlines_exec(v))),
            Inline::Strong(v) => tag_obj("Strong", WireValue::Arr(enc_inlines_exec(v))),
            Inline::Strikeout(v) => tag_obj("Strikeout", WireValue::Arr(enc_inlines_exec(v))),
            Inline::Superscript(v) => tag_obj("Superscript", WireValue::Arr(enc_inlines_exec(v))),
            Inline::Subscript(v) => tag_obj("Subscript", WireValue::Arr(enc_inlines_exec(v))),
            Inline::SmallCaps(v) => tag_obj("SmallCaps", WireValue::Arr(enc_inlines_exec(v))),
            Inline::Quoted(q, v) => tag_obj(
                "Quoted",
                arr2(q.encode(), WireValue::Arr(enc_inlines_exec(v))),
            ),
            Inline::Cite(cs, v) => tag_obj(
                "Cite",
                arr2(WireValue::Arr(enc_citations_exec(cs)), WireValue::Arr(enc_inlines_exec(v))),
            ),
            Inline::Code(a, s) => tag_obj("Code", arr2(enc_attr_exec(a), WireValue::Text(s.clone()))),
            Inline::Space => tag_obj_unit("Space"),
            Inline::SoftBreak => tag_obj_unit("SoftBreak"),
            Inline::LineBreak => tag_obj_unit("LineBreak"),
            Inline::Math(m, s) => tag_obj("Math", arr2(m.encode(), WireValue::Text(s.clone()))),
            Inline::RawInline(f, s) => tag_obj(
                "RawInline",
                arr2(WireValue::Text(f.clone()), WireValue::Text(s.clone())),
            ),
            Inline::Link(a, v, t) => tag_obj(
                "Link",
                arr3(enc_attr_exec(a), WireValue::Arr(enc_inlines_exec(v)), enc_target_exec(t)),
            ),
            Inline::Image(a, v, t) => tag_obj(
                "Image",
                arr3(enc_attr_exec(a), WireValue::Arr(enc_inlines_exec(v)), enc_target_exec(t)),
            ),
            Inline::Span(a, v) => tag_obj(
                "Span",
                arr2(enc_attr_exec(a), WireValue::Arr(enc_inlines_exec(v))),
            ),
        }
    }
}

fn enc_inlines_exec(v: &Vec<Inline>) -> (r: Vec<WireValue>)
    ensures
        view_values(r@) == enc_inlines(view_inlines(v@)),
    decreases v@,
{
    let mut out: Vec<WireValue> = Vec::new();
    let mut i: usize = 0;
    while i < v.len()
        invariant
            0 <= i <= v.len(),
            out@.len() == i,
            forall|k: int|
                0 <= k < i ==> view_value(#[trigger] out@[k]) == enc_inline(view_inline(v@[k])),
        decreases v.len() - i,
    {
        let e = v[i].encode();
        out.push(e);
        i = i + 1;
    }
    proof {
        assert(view_values(out@) =~= enc_inlines(view_inlines(v@)));
    }
    out
}

impl Citation {
    /// The wire value of this citation: a plain object with the externally
    /// mandated field names, in declaration order.
    pub fn encode(&self) -> (v: WireValue)
        ensures
            view_value(v) == enc_citation(view_citation(*self)),
        decreases *self,
    {
        let mut pairs: Vec<(String, WireValue)> = Vec::new();
        pairs.push(("citationId".to_owned(), WireValue::Text(self.citation_id.clone())));
        pairs.push(
            ("citationPrefix".to_owned(), WireValue::Arr(enc_inlines_exec(&self.citation_prefix))),
        );
        pairs.push(
            ("citationSuffix".to_owned(), WireValue::Arr(enc_inlines_exec(&self.citation_suffix))),
        );
        pairs.push(("citationMode".to_owned(), self.citation_mode.encode()));
        pairs.push(("citationNoteNum".to_owned(), WireValue::Num(u64_to_string(self.citation_note_num))));
        pairs.push(("citationHash".to_owned(), WireValue::Num(u64_to_string(self.citation_hash))));
        let v = WireValue::Obj(pairs);
        proof {
            assert(view_pairs(pairs@) =~= seq![
                ("citationId"@, SpecValue::Text(self.citation_id@)),
                (
                    "citationPrefix"@,
                    SpecValue::Arr(enc_inlines(view_inlines(self.citation_prefix@))),
                ),
                (
                    "citationSuffix"@,
                    SpecValue::Arr(enc_inlines(view_inlines(self.citation_suffix@))),
                ),
                ("citationMode"@, enc_citation_mode(self.citation_mode)),
                (
                    "citationNoteNum"@,
                    SpecValue::Num(u64_dec_str(self.citation_note_num as int)),
                ),
                ("citationHash"@, SpecValue::Num(u64_dec_str(self.citation_hash as int))),
            ]);
        }
        v
    }
}

fn enc_citations_exec(v: &Vec<Citation>) -> (r: Vec<WireValue>)
    ensures
        view_values(r@) == enc_citations(view_citations(v@)),
    decreases v@,
{
    let mut out: Vec<WireValue> = Vec::new();
    let mut i: usize = 0;
    while i < v.len()
        invariant
            0 <= i <= v.len(),
            out@.len() == i,
            forall|k: int|
                0 <= k < i ==> view_value(#[trigger] out@[k]) == enc_citation(
                    view_citation(v@[k]),
                ),
        decreases v.len() - i,
    {
        let e = v[i].encode();
        out.push(e);
        i = i + 1;
    }
    proof {
        assert(view_values(out@) =~= enc_citations(view_citations(v@)));
    }
    out
}

impl Block {
    /// The wire value of this block element.
    pub fn encode(&self) -> (v: WireValue)
        ensures
            view_value(v) == enc_block(view_block(*self)),
        decreases *self,
    {
        match self {
            Block::Plain(v) => tag_obj("Plain", WireValue::Arr(enc_inlines_exec(v))),
            Block::Para(v) => tag_obj("Para", WireValue::Arr(enc_inlines_exec(v))),
            Block::CodeBlock(a, s) => tag_obj(
                "CodeBlock",
                arr2(enc_attr_exec(a), WireValue::Text(s.clone())),
            ),
            Block::RawBlock(f, s) => tag_obj(
                "RawBlock",
                arr2(WireValue::Text(f.clone()), WireValue::Text(s.clone())),
            ),
            Block::BlockQuote(v) => tag_obj("BlockQuote", WireValue::Arr(enc_blocks_exec(v))),
            Block::OrderedList(la, v) => tag_obj(
                "OrderedList",
                arr2(
                    arr3(WireValue::Num(u64_to_string(la.0)), la.1.encode(), la.2.encode()),
                    WireValue::Arr(enc_blockss_exec(v)),
                ),
            ),
            Block::BulletList(v) => tag_obj("BulletList", WireValue::Arr(enc_blockss_exec(v))),
            Block::DefinitionList(v) => tag_obj("DefinitionList", WireValue::Arr(enc_defitems_exec(v))),
            Block::Header(lvl, a, v) => tag_obj(
                "Header",
                arr3(
                    WireValue::Num(u64_to_string(*lvl)),
                    enc_attr_exec(a),
                    WireValue::Arr(enc_inlines_exec(v)),
                ),
            ),
            Block::HorizontalRule => WireValue::Text("HorizontalRule".to_owned()),
            Block::Table(cap, al, w, h, r) => {
                let mut items: Vec<WireValue> = Vec::new();
                items.push(WireValue::Arr(enc_inlines_exec(cap)));
                items.push(WireValue::Arr(enc_alignments_exec(al)));
                items.push(WireValue::Arr(enc_nums_exec(w)));
                items.push(WireValue::Arr(enc_blockss_exec(h)));
                items.push(WireValue::Arr(enc_blocksss_exec(r)));
                let ghost target = seq![
                    SpecValue::Arr(enc_inlines(view_inlines(cap@))),
                    SpecValue::Arr(enc_alignments(al@)),
                    SpecValue::Arr(enc_nums(view_strings(w@))),
                    SpecValue::Arr(enc_blockss(view_blockss(h@))),
                    SpecValue::Arr(enc_blocksss(view_blocksss(r@))),
                ];
                proof {
                    assert(view_values(items@) =~= target);
                }
                tag_obj("Table", WireValue::Arr(items))
            },
            Block::Div(a, v) => tag_obj(
                "Div",
                arr2(enc_attr_exec(a), WireValue::Arr(enc_blocks_exec(v))),
            ),
            Block::Null => WireValue::Text("Null".to_owned()),
        }
    }
}

fn enc_alignments_exec(v: &Vec<Alignment>) -> (r: Vec<WireValue>)
    ensures
        view_values(r@) == enc_alignments(v@),
{
    let mut out: Vec<WireValue> = Vec::new();
    let mut i: usize = 0;
    while i < v.len()
        invariant
            0 <= i <= v.len(),
            out@.len() == i,
            forall|k: int|
                0 <= k < i ==> view_value(#[trigger] out@[k]) == enc_alignment(v@[k]),
        decreases v.len() - i,
    {
        let e = v[i].encode();
        out.push(e);
        i = i + 1;
    }
    proof {
        assert(view_values(out@) =~= enc_alignments(v@));
    }
    out
}

fn enc_nums_exec(v: &Vec<String>) -> (r: Vec<WireValue>)
    ensures
        view_values(r@) == enc_nums(view_strings(v@)),
{
    let mut out: Vec<WireValue> = Vec::new();
    let mut i: usize = 0;
    while i < v.len()
        invariant
            0 <= i <= v.len(),
            out@.len() == i,
            forall|k: int|
                0 <= k < i ==> view_value(#[trigger] out@[k]) == SpecValue::Num(v@[k]@),
        decreases v.len() - i,
    {
        out.push(WireValue::Num(v[i].clone()));
        i = i + 1;
    }
    proof {
        assert(view_values(out@) =~= enc_nums(view_strings(v@)));
    }
    out
}

fn enc_blocks_exec(v: &Vec<Block>) -> (r: Vec<WireValue>)
    ensures
        view_values(r@) == enc_blocks(view_blocks(v@)),
    decreases v@,
{
    let mut out: Vec<WireValue> = Vec::new();
    let mut i: usize = 0;
    while i < v.len()
        invariant
            0 <= i <= v.len(),
            out@.len() == i,
            forall|k: int|
                0 <= k < i ==> view_value(#[trigger] out@[k]) == enc_block(view_block(v@[k])),
        decreases v.len() - i,
    {
        let e = v[i].encode();
        out.push(e);
        i = i + 1;
    }
    proof {
        assert(view_values(out@) =~= enc_blocks(view_blocks(v@)));
    }
    out
}

fn enc_blockss_exec(v: &Vec<Vec<Block>>) -> (r: Vec<WireValue>)
    ensures
        view_values(r@) == enc_blockss(view_blockss(v@)),
    decreases v@,
{
    let mut out: Vec<WireValue> = Vec::new();
    let mut i: usize = 0;
    while i < v.len()
        invariant
            0 <= i <= v.len(),
            out@.len() == i,
            forall|k: int|
                0 <= k < i ==> view_value(#[trigger] out@[k]) == SpecValue::Arr(
                    enc_blocks(view_blocks(v@[k]@)),
                ),
        decreases v.len() - i,
    {
        let e = WireValue::Arr(enc_blocks_exec(&v[i]));
        out.push(e);
        i = i + 1;
    }
    proof {
        assert(view_values(out@) =~= enc_blockss(view_blockss(v@)));
    }
    out
}

fn enc_blocksss_exec(v: &Vec<Vec<Vec<Block>>>) -> (r: Vec<WireValue>)
    ensures
        view_values(r@) == enc_blocksss(view_blocksss(v@)),
    decreases v@,
{
    let mut out: Vec<WireValue> = Vec::new();
    let mut i: usize = 0;
    while i < v.len()
        invariant
            0 <= i <= v.len(),
            out@.len() == i,
            forall|k: int|
                0 <= k < i ==> view_value(#[trigger] out@[k]) == SpecValue::Arr(
                    enc_blockss(view_blockss(v@[k]@)),
                ),
        decreases v.len() - i,
    {
        let e = WireValue::Arr(enc_blockss_exec(&v[i]));
        out.push(e);
        i = i + 1;
    }
    proof {
        assert(view_values(out@) =~= enc_blocksss(view_blocksss(v@)));
    }
    out
}

fn enc_defitems_exec(v: &Vec<(Vec<Inline>, Vec<Vec<Block>>)>) -> (r: Vec<WireValue>)
    ensures
        view_values(r@) == enc_defitems(view_defitems(v@)),
    decreases v@,
{
    let mut out: Vec<WireValue> = Vec::new();
    let mut i: usize = 0;
    while i < v.len()
        invariant
            0 <= i <= v.len(),
            out@.len() == i,
            forall|k: int|
                0 <= k < i ==> view_value(#[trigger] out@[k]) == SpecValue::Arr(
                    seq![
                        SpecValue::Arr(enc_inlines(view_inlines(v@[k].0@))),
                        SpecValue::Arr(enc_blockss(view_blockss(v@[k].1@))),
                    ],
                ),
        decreases v.len() - i,
    {
        let item = &v[i];
        let e = arr2(
            WireValue::Arr(enc_inlines_exec(&item.0)),
            WireValue::Arr(enc_blockss_exec(&item.1)),
        );
        out.push(e);
        i = i + 1;
    }
    proof {
        assert(view_values(out@) =~= enc_defitems(view_defitems(v@)));
    }
    out
}

impl MetaValue {
    /// The wire value of this metadata value; nested mapping keys are
    /// emitted sorted.
    pub fn encode(&self) -> (v: WireValue)
        ensures
            view_value(v) == enc_meta_value(view_meta_value(*self)),
        decreases *self,
    {
        match self {
            MetaValue::MetaMap(entries) => tag_obj(
                "MetaMap",
                WireValue::Obj(enc_meta_entries_exec(entries)),
            ),
            MetaValue::MetaList(v) => tag_obj("MetaList", WireValue::Arr(enc_meta_values_exec(v))),
            MetaValue::MetaBool(b) => tag_obj("MetaBool", WireValue::Bool(*b)),
            MetaValue::MetaString(s) => tag_obj("MetaString", WireValue::Text(s.clone())),
            MetaValue::MetaInlines(v) => tag_obj("MetaInlines", WireValue::Arr(enc_inlines_exec(v))),
            MetaValue::MetaBlocks(v) => tag_obj("MetaBlocks", WireValue::Arr(enc_blocks_exec(v))),
        }
    }
}

fn enc_meta_values_exec(v: &Vec<MetaValue>) -> (r: Vec<WireValue>)
    ensures
        view_values(r@) == enc_meta_values(view_meta_values(v@)),
    decreases v@,
{
    let mut out: Vec<WireValue> = Vec::new();
    let mut i: usize = 0;
    while i < v.len()
        invariant
            0 <= i <= v.len(),
            out@.len() == i,
            forall|k: int|
                0 <= k < i ==> view_value(#[trigger] out@[k]) == enc_meta_value(
                    view_meta_value(v@[k]),
                ),
        decreases v.len() - i,
    {
        let e = v[i].encode();
        out.push(e);
        i = i + 1;
    }
    proof {
        assert(view_values(out@) =~= enc_meta_values(view_meta_values(v@)));
    }
    out
}

fn enc_meta_entries_exec(entries: &Vec<(String, MetaValue)>) -> (r: Vec<(String, WireValue)>)
    ensures
        view_pairs(r@) == canon_entries(enc_meta_entries(view_meta_entries(entries@))),
    decreases entries@,
{
    let ghost sv = enc_meta_entries(view_meta_entries(entries@));
    let mut out: Vec<(String, WireValue)> = Vec::new();
    let mut i: usize = 0;
    proof {
        assert(sv.subrange(0, 0) =~= Seq::<(Seq<char>, SpecValue)>::empty());
        assert(view_pairs(out@) =~= Seq::<(Seq<char>, SpecValue)>::empty());
        assert(canon_entries(sv.subrange(0, 0)) =~= Seq::<(Seq<char>, SpecValue)>::empty());
    }
    while i < entries.len()
        invariant
            0 <= i <= entries.len(),
            sv == enc_meta_entries(view_meta_entries(entries@)),
            view_pairs(out@) == canon_entries(sv.subrange(0, i as int)),
            entries_sorted(view_pairs(out@)),
        decreases entries.len() - i,
    {
        let pair = &entries[i];
        let ev = pair.1.encode();
        pair_entries_insert(&mut out, pair.0.clone(), ev);
        proof {
            let pre = sv.subrange(0, i as int);
            let cur = sv.subrange(0, i as int + 1);
            assert(cur.drop_last() =~= pre);
            assert(cur.last() == sv[i as int]);
            assert(sv[i as int] == (entries@[i as int].0@, enc_meta_value(
                view_meta_value(entries@[i as int].1),
            )));
            assert(canon_entries(cur) == insert_entry(
                canon_entries(pre),
                sv[i as int].0,
                sv[i as int].1,
            ));
        }
        i = i + 1;
    }
    proof {
        assert(sv.subrange(0, entries.len() as int) =~= sv);
    }
    out
}

impl Meta {
    /// The wire value of this metadata mapping: an object with the single
    /// key `unMeta`, its entry keys sorted.
    pub fn encode(&self) -> (v: WireValue)
        ensures
            view_value(v) == enc_meta(view_meta(*self)),
    {
        tag_obj("unMeta", WireValue::Obj(enc_meta_entries_exec(&self.un_meta)))
    }
}

impl Pandoc {
    /// The wire value of this document: a two-element array of metadata
    /// and blocks. Encoding is total and never fails.
    pub fn encode(&self) -> (v: WireValue)
        ensures
            view_value(v) == enc_pandoc(view_pandoc(*self)),
    {
        arr2(self.meta.encode(), WireValue::Arr(enc_blocks_exec(&self.blocks)))
    }
}

} // verus!
