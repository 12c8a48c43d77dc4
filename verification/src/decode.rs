//! Decoding wire values into documents.
//!
//! Decoding accepts both forms of every nullary variant — the object with
//! the tag mapped to an empty array and the bare tag string — and reports
//! every malformed value as an error instead of guessing:
//! `NotAnArray` when the top-level value is not a two-element array;
//! `MissingTag` when a tagged object does not have exactly one entry, when
//! the metadata wrapper lacks its `unMeta` key, or when a citation object
//! does not carry exactly its six named fields; `UnknownTag` when a tag
//! is not among the union's variants; `ArityMismatch` when a tuple payload
//! or a table's column-derived sequences have the wrong length; and
//! `TypeMismatch` when a leaf has the wrong shape, a number is not
//! unsigned decimal text in range, or a header level is zero.

use vstd::prelude::*;

use crate::metamap::insert_entry;
use crate::model::{
    view_attr, view_block, view_blocks, view_blockss, view_blocksss, view_citation,
    view_citations, view_defitems, view_inline, view_inlines, view_meta, view_meta_entries,
    view_meta_value, view_meta_values, view_pandoc, view_string_pairs, view_strings, view_target,
    SpecAttr, SpecBlock, SpecCitation, SpecInline, SpecListAttributes, SpecMeta, SpecMetaValue,
    SpecPandoc, SpecTarget,
};
use crate::strutil::{dec_val, is_u64_text, parse_u64, str_is};
use crate::types::{
    Alignment, Attr, Block, Citation, CitationMode, Inline, ListNumberDelim, ListNumberStyle,
    MathType, Meta, MetaValue, Pandoc, QuoteType, Target,
};
use crate::value::{view_pairs, view_value, view_values, SpecValue, WireValue};

verus! {

/// Why a wire value failed to decode.
#[derive(Debug, PartialEq, Eq, Clone, Copy, Structural)]
pub enum DecodeError {
    /// The top-level value is not a two-element array.
    NotAnArray,
    /// A tagged object, the metadata wrapper or a citation object does
    /// not carry exactly the expected keys.
    MissingTag,
    /// A tag name is not among the known variants of the union decoded at
    /// that position.
    UnknownTag,
    /// A tuple payload, or a table's column-derived sequences, have the
    /// wrong length.
    ArityMismatch,
    /// A leaf value has the wrong shape or an unrepresentable number, or a
    /// header level is zero.
    TypeMismatch,
}

/// The error of an empty-array check on a nullary variant's payload, if
/// any.
pub open spec fn unit_payload_err(payload: SpecValue) -> Option<DecodeError> {
    match payload {
        SpecValue::Arr(items) => if items.len() == 0 {
            None
        } else {
            Some(DecodeError::ArityMismatch)
        },
        _ => Some(DecodeError::TypeMismatch),
    }
}

pub open spec fn dec_u64(v: SpecValue) -> Result<u64, DecodeError> {
    match v {
        SpecValue::Num(s) => if is_u64_text(s) {
            Ok(dec_val(s) as u64)
        } else {
            Err(DecodeError::TypeMismatch)
        },
        _ => Err(DecodeError::TypeMismatch),
    }
}

pub open spec fn dec_text(v: SpecValue) -> Result<Seq<char>, DecodeError> {
    match v {
        SpecValue::Text(s) => Ok(s),
        _ => Err(DecodeError::TypeMismatch),
    }
}

pub open spec fn dec_quote_type(v: SpecValue) -> Result<QuoteType, DecodeError> {
    match v {
        SpecValue::Text(s) => if s == "SingleQuote"@ {
            Ok(QuoteType::SingleQuote)
        } else if s == "DoubleQuote"@ {
            Ok(QuoteType::DoubleQuote)
        } else {
            Err(DecodeError::UnknownTag)
        },
        SpecValue::Obj(pairs) => if pairs.len() != 1 {
            Err(DecodeError::MissingTag)
        } else {
            match unit_payload_err(pairs[0].1) {
                Some(e) => Err(e),
                None => if pairs[0].0 == "SingleQuote"@ {
                    Ok(QuoteType::SingleQuote)
                } else if pairs[0].0 == "DoubleQuote"@ {
                    Ok(QuoteType::DoubleQuote)
                } else {
                    Err(DecodeError::UnknownTag)
                },
            }
        },
        _ => Err(DecodeError::TypeMismatch),
    }
}

pub open spec fn dec_math_type(v: SpecValue) -> Result<MathType, DecodeError> {
    match v {
        SpecValue::Text(s) => if s == "DisplayMath"@ {
            Ok(MathType::DisplayMath)
        } else if s == "InlineMath"@ {
            Ok(MathType::InlineMath)
        } else {
            Err(DecodeError::UnknownTag)
        },
        SpecValue::Obj(pairs) => if pairs.len() != 1 {
            Err(DecodeError::MissingTag)
        } else {
            match unit_payload_err(pairs[0].1) {
                Some(e) => Err(e),
                None => if pairs[0].0 == "DisplayMath"@ {
                    Ok(MathType::DisplayMath)
                } else if pairs[0].0 == "InlineMath"@ {
                    Ok(MathType::InlineMath)
                } else {
                    Err(DecodeError::UnknownTag)
                },
            }
        },
        _ => Err(DecodeError::TypeMismatch),
    }
}

pub open spec fn dec_alignment(v: SpecValue) -> Result<Alignment, DecodeError> {
    match v {
        SpecValue::Text(s) => if s == "AlignLeft"@ {
            Ok(Alignment::AlignLeft)
        } else if s == "AlignRight"@ {
            Ok(Alignment::AlignRight)
        } else if s == "AlignCenter"@ {
            Ok(Alignment::AlignCenter)
        } else if s == "AlignDefault"@ {
            Ok(Alignment::AlignDefault)
        } else {
            Err(DecodeError::UnknownTag)
        },
        SpecValue::Obj(pairs) => if pairs.len() != 1 {
            Err(DecodeError::MissingTag)
        } else {
            match unit_payload_err(pairs[0].1) {
                Some(e) => Err(e),
                None => if pairs[0].0 == "AlignLeft"@ {
                    Ok(Alignment::AlignLeft)
                } else if pairs[0].0 == "AlignRight"@ {
                    Ok(Alignment::AlignRight)
                } else if pairs[0].0 == "AlignCenter"@ {
                    Ok(Alignment::AlignCenter)
                } else if pairs[0].0 == "AlignDefault"@ {
                    Ok(Alignment::AlignDefault)
                } else {
                    Err(DecodeError::UnknownTag)
                },
            }
        },
        _ => Err(DecodeError::TypeMismatch),
    }
}

pub open spec fn dec_list_number_style(v: SpecValue) -> Result<ListNumberStyle, DecodeError> {
    match v {
        SpecValue::Text(s) => match style_of_tag(s) {
            Some(st) => Ok(st),
            None => Err(DecodeError::UnknownTag),
        },
        SpecValue::Obj(pairs) => if pairs.len() != 1 {
            Err(DecodeError::MissingTag)
        } else {
            match unit_payload_err(pairs[0].1) {
                Some(e) => Err(e),
                None => match style_of_tag(pairs[0].0) {
                    Some(st) => Ok(st),
                    None => Err(DecodeError::UnknownTag),
                },
            }
        },
        _ => Err(DecodeError::TypeMismatch),
    }
}

pub open spec fn style_of_tag(s: Seq<char>) -> Option<ListNumberStyle> {
    if s == "DefaultStyle"@ {
        Some(ListNumberStyle::DefaultStyle)
    } else if s == "Example"@ {
        Some(ListNumberStyle::Example)
    } else if s == "Decimal"@ {
        Some(ListNumberStyle::Decimal)
    } else if s == "LowerRoman"@ {
        Some(ListNumberStyle::LowerRoman)
    } else if s == "UpperRoman"@ {
        Some(ListNumberStyle::UpperRoman)
    } else if s == "LowerAlpha"@ {
        Some(ListNumberStyle::LowerAlpha)
    } else if s == "UpperAlpha"@ {
        Some(ListNumberStyle::UpperAlpha)
    } else {
        None
    }
}

pub open spec fn delim_of_tag(s: Seq<char>) -> Option<ListNumberDelim> {
    if s == "DefaultDelim"@ {
        Some(ListNumberDelim::DefaultDelim)
    } else if s == "Period"@ {
        Some(ListNumberDelim::Period)
    } else if s == "OneParen"@ {
        Some(ListNumberDelim::OneParen)
    } else if s == "TwoParens"@ {
        Some(ListNumberDelim::TwoParens)
    } else {
        None
    }
}

pub open spec fn dec_list_number_delim(v: SpecValue) -> Result<ListNumberDelim, DecodeError> {
    match v {
        SpecValue::Text(s) => match delim_of_tag(s) {
            Some(d) => Ok(d),
            None => Err(DecodeError::UnknownTag),
        },
        SpecValue::Obj(pairs) => if pairs.len() != 1 {
            Err(DecodeError::MissingTag)
        } else {
            match unit_payload_err(pairs[0].1) {
                Some(e) => Err(e),
                None => match delim_of_tag(pairs[0].0) {
                    Some(d) => Ok(d),
                    None => Err(DecodeError::UnknownTag),
                },
            }
        },
        _ => Err(DecodeError::TypeMismatch),
    }
}

pub open spec fn dec_citation_mode(v: SpecValue) -> Result<CitationMode, DecodeError> {
    match v {
        SpecValue::Text(s) => if s == "AuthorInText"@ {
            Ok(CitationMode::AuthorInText)
        } else if s == "SuppressAuthor"@ {
            Ok(CitationMode::SuppressAuthor)
        } else if s == "NormalCitation"@ {
            Ok(CitationMode::NormalCitation)
        } else {
            Err(DecodeError::UnknownTag)
        },
        SpecValue::Obj(pairs) => if pairs.len() != 1 {
            Err(DecodeError::MissingTag)
        } else {
            match unit_payload_err(pairs[0].1) {
                Some(e) => Err(e),
                None => if pairs[0].0 == "AuthorInText"@ {
                    Ok(CitationMode::AuthorInText)
                } else if pairs[0].0 == "SuppressAuthor"@ {
                    Ok(CitationMode::SuppressAuthor)
                } else if pairs[0].0 == "NormalCitation"@ {
                    Ok(CitationMode::NormalCitation)
                } else {
                    Err(DecodeError::UnknownTag)
                },
            }
        },
        _ => Err(DecodeError::TypeMismatch),
    }
}

pub open spec fn dec_texts(s: Seq<SpecValue>) -> Result<Seq<Seq<char>>, DecodeError>
    decreases s,
{
    if s.len() == 0 {
        Ok(Seq::empty())
    } else {
        match dec_texts(s.drop_last()) {
            Ok(rest) => match dec_text(s.last()) {
                Ok(t) => Ok(rest.push(t)),
                Err(e) => Err(e),
            },
            Err(e) => Err(e),
        }
    }
}

pub open spec fn dec_text_pair(v: SpecValue) -> Result<(Seq<char>, Seq<char>), DecodeError> {
    match v {
        SpecValue::Arr(items) => if items.len() != 2 {
            Err(DecodeError::ArityMismatch)
        } else {
            match dec_text(items[0]) {
                Ok(a) => match dec_text(items[1]) {
                    Ok(b) => Ok((a, b)),
                    Err(e) => Err(e),
                },
                Err(e) => Err(e),
            }
        },
        _ => Err(DecodeError::TypeMismatch),
    }
}

pub open spec fn dec_text_pairs(s: Seq<SpecValue>) -> Result<
    Seq<(Seq<char>, Seq<char>)>,
    DecodeError,
>
    decreases s,
{
    if s.len() == 0 {
        Ok(Seq::empty())
    } else {
        match dec_text_pairs(s.drop_last()) {
            Ok(rest) => match dec_text_pair(s.last()) {
                Ok(p) => Ok(rest.push(p)),
                Err(e) => Err(e),
            },
            Err(e) => Err(e),
        }
    }
}

pub open spec fn dec_attr(v: SpecValue) -> Result<SpecAttr, DecodeError> {
    match v {
        SpecValue::Arr(items) => if items.len() != 3 {
            Err(DecodeError::ArityMismatch)
        } else {
            match dec_text(items[0]) {
                Ok(id) => match items[1] {
                    SpecValue::Arr(cs) => match dec_texts(cs) {
                        Ok(classes) => match items[2] {
                            SpecValue::Arr(ks) => match dec_text_pairs(ks) {
                                Ok(kvs) => Ok((id, classes, kvs)),
                                Err(e) => Err(e),
                            },
                            _ => Err(DecodeError::TypeMismatch),
                        },
                        Err(e) => Err(e),
                    },
                    _ => Err(DecodeError::TypeMismatch),
                },
                Err(e) => Err(e),
            }
        },
        _ => Err(DecodeError::TypeMismatch),
    }
}

pub open spec fn dec_target(v: SpecValue) -> Result<SpecTarget, DecodeError> {
    match v {
        SpecValue::Arr(items) => if items.len() != 2 {
            Err(DecodeError::ArityMismatch)
        } else {
            match dec_text(items[0]) {
                Ok(url) => match dec_text(items[1]) {
                    Ok(title) => Ok((url, title)),
                    Err(e) => Err(e),
                },
                Err(e) => Err(e),
            }
        },
        _ => Err(DecodeError::TypeMismatch),
    }
}

pub open spec fn dec_list_attributes(v: SpecValue) -> Result<SpecListAttributes, DecodeError> {
    match v {
        SpecValue::Arr(items) => if items.len() != 3 {
            Err(DecodeError::ArityMismatch)
        } else {
            match dec_u64(items[0]) {
                Ok(start) => match dec_list_number_style(items[1]) {
                    Ok(style) => match dec_list_number_delim(items[2]) {
                        Ok(delim) => Ok((start, style, delim)),
                        Err(e) => Err(e),
                    },
                    Err(e) => Err(e),
                },
                Err(e) => Err(e),
            }
        },
        _ => Err(DecodeError::TypeMismatch),
    }
}

pub open spec fn dec_nums(s: Seq<SpecValue>) -> Result<Seq<Seq<char>>, DecodeError>
    decreases s,
{
    if s.len() == 0 {
        Ok(Seq::empty())
    } else {
        match dec_nums(s.drop_last()) {
            Ok(rest) => match s.last() {
                SpecValue::Num(t) => Ok(rest.push(t)),
                _ => Err(DecodeError::TypeMismatch),
            },
            Err(e) => Err(e),
        }
    }
}

pub open spec fn dec_alignments(s: Seq<SpecValue>) -> Result<Seq<Alignment>, DecodeError>
    decreases s,
{
    if s.len() == 0 {
        Ok(Seq::empty())
    } else {
        match dec_alignments(s.drop_last()) {
            Ok(rest) => match dec_alignment(s.last()) {
                Ok(a) => Ok(rest.push(a)),
                Err(e) => Err(e),
            },
            Err(e) => Err(e),
        }
    }
}

pub open spec fn dec_inline(v: SpecValue) -> Result<SpecInline, DecodeError>
    decreases v, 3int,
{
    match v {
        SpecValue::Text(s) => if s == "Space"@ {
            Ok(SpecInline::Space)
        } else if s == "SoftBreak"@ {
            Ok(SpecInline::SoftBreak)
        } else if s == "LineBreak"@ {
            Ok(SpecInline::LineBreak)
        } else {
            Err(DecodeError::UnknownTag)
        },
        SpecValue::Obj(pairs) => if pairs.len() != 1 {
            Err(DecodeError::MissingTag)
        } else {
            dec_inline_tagged(pairs[0].0, pairs[0].1)
        },
        _ => Err(DecodeError::TypeMismatch),
    }
}

pub open spec fn dec_inline_tagged(tag: Seq<char>, payload: SpecValue) -> Result<
    SpecInline,
    DecodeError,
>
    decreases payload, 2int,
{
    if tag == "Str"@ {
        match dec_text(payload) {
            Ok(s) => Ok(SpecInline::Str(s)),
            Err(e) => Err(e),
        }
    } else if tag == "Emph"@ {
        match dec_inline_seq_payload(payload) {
            Ok(v) => Ok(SpecInline::Emph(v)),
            Err(e) => Err(e),
        }
    } else if tag == "Strong"@ {
        match dec_inline_seq_payload(payload) {
            Ok(v) => Ok(SpecInline::Strong(v)),
            Err(e) => Err(e),
        }
    } else if tag == "Strikeout"@ {
        match dec_inline_seq_payload(payload) {
            Ok(v) => Ok(SpecInline::Strikeout(v)),
            Err(e) => Err(e),
        }
    } else if tag == "Superscript"@ {
        match dec_inline_seq_payload(payload) {
            Ok(v) => Ok(SpecInline::Superscript(v)),
            Err(e) => Err(e),
        }
    } else if tag == "Subscript"@ {
        match dec_inline_seq_payload(payload) {
            Ok(v) => Ok(SpecInline::Subscript(v)),
            Err(e) => Err(e),
        }
    } else if tag == "SmallCaps"@ {
        match dec_inline_seq_payload(payload) {
            Ok(v) => Ok(SpecInline::SmallCaps(v)),
            Err(e) => Err(e),
        }
    } else if tag == "Quoted"@ {
        match payload {
            SpecValue::Arr(items) => if items.len() != 2 {
                Err(DecodeError::ArityMismatch)
            } else {
                match dec_quote_type(items[0]) {
                    Ok(q) => match dec_inline_seq_payload(items[1]) {
                        Ok(v) => Ok(SpecInline::Quoted(q, v)),
                        Err(e) => Err(e),
                    },
                    Err(e) => Err(e),
                }
            },
            _ => Err(DecodeError::TypeMismatch),
        }
    } else if tag == "Cite"@ {
        match payload {
            SpecValue::Arr(items) => if items.len() != 2 {
                Err(DecodeError::ArityMismatch)
            } else {
                match items[0] {
                    SpecValue::Arr(cs) => match dec_citations(cs) {
                        Ok(citations) => match dec_inline_seq_payload(items[1]) {
                            Ok(v) => Ok(SpecInline::Cite(citations, v)),
                            Err(e) => Err(e),
                        },
                        Err(e) => Err(e),
                    },
                    _ => Err(DecodeError::TypeMismatch),
                }
            },
            _ => Err(DecodeError::TypeMismatch),
        }
    } else if tag == "Code"@ {
        match payload {
            SpecValue::Arr(items) => if items.len() != 2 {
                Err(DecodeError::ArityMismatch)
            } else {
                match dec_attr(items[0]) {
                    Ok(a) => match dec_text(items[1]) {
                        Ok(s) => Ok(SpecInline::Code(a, s)),
                        Err(e) => Err(e),
                    },
                    Err(e) => Err(e),
                }
            },
            _ => Err(DecodeError::TypeMismatch),
        }
    } else if tag == "Space"@ {
        match unit_payload_err(payload) {
            None => Ok(SpecInline::Space),
            Some(e) => Err(e),
        }
    } else if tag == "SoftBreak"@ {
        match unit_payload_err(payload) {
            None => Ok(SpecInline::SoftBreak),
            Some(e) => Err(e),
        }
    } else if tag == "LineBreak"@ {
        match unit_payload_err(payload) {
            None => Ok(SpecInline::LineBreak),
            Some(e) => Err(e),
        }
    } else if tag == "Math"@ {
        match payload {
            SpecValue::Arr(items) => if items.len() != 2 {
                Err(DecodeError::ArityMismatch)
            } else {
                match dec_math_type(items[0]) {
                    Ok(m) => match dec_text(items[1]) {
                        Ok(s) => Ok(SpecInline::Math(m, s)),
                        Err(e) => Err(e),
                    },
                    Err(e) => Err(e),
                }
            },
            _ => Err(DecodeError::TypeMismatch),
        }
    } else if tag == "RawInline"@ {
        match payload {
            SpecValue::Arr(items) => if items.len() != 2 {
                Err(DecodeError::ArityMismatch)
            } else {
                match dec_text(items[0]) {
                    Ok(f) => match dec_text(items[1]) {
                        Ok(s) => Ok(SpecInline::RawInline(f, s)),
                        Err(e) => Err(e),
                    },
                    Err(e) => Err(e),
                }
            },
            _ => Err(DecodeError::TypeMismatch),
        }
    } else if tag == "Link"@ {
        match dec_attr_inlines_target(payload) {
            Ok(t3) => Ok(SpecInline::Link(t3.0, t3.1, t3.2)),
            Err(e) => Err(e),
        }
    } else if tag == "Image"@ {
        match dec_attr_inlines_target(payload) {
            Ok(t3) => Ok(SpecInline::Image(t3.0, t3.1, t3.2)),
            Err(e) => Err(e),
        }
    } else if tag == "Span"@ {
        match payload {
            SpecValue::Arr(items) => if items.len() != 2 {
                Err(DecodeError::ArityMismatch)
            } else {
                match dec_attr(items[0]) {
                    Ok(a) => match dec_inline_seq_payload(items[1]) {
                        Ok(v) => Ok(SpecInline::Span(a, v)),
                        Err(e) => Err(e),
                    },
                    Err(e) => Err(e),
                }
            },
            _ => Err(DecodeError::TypeMismatch),
        }
    } else {
        Err(DecodeError::UnknownTag)
    }
}

pub open spec fn dec_attr_inlines_target(payload: SpecValue) -> Result<
    (SpecAttr, Seq<SpecInline>, SpecTarget),
    DecodeError,
>
    decreases payload, 1int,
{
    match payload {
        SpecValue::Arr(items) => if items.len() != 3 {
            Err(DecodeError::ArityMismatch)
        } else {
            match dec_attr(items[0]) {
                Ok(a) => match dec_inline_seq_payload(items[1]) {
                    Ok(v) => match dec_target(items[2]) {
                        Ok(t) => Ok((a, v, t)),
                        Err(e) => Err(e),
                    },
                    Err(e) => Err(e),
                },
                Err(e) => Err(e),
            }
        },
        _ => Err(DecodeError::TypeMismatch),
    }
}

pub open spec fn dec_inline_seq_payload(payload: SpecValue) -> Result<
    Seq<SpecInline>,
    DecodeError,
>
    decreases payload, 0int,
{
    match payload {
        SpecValue::Arr(items) => dec_inlines(items),
        _ => Err(DecodeError::TypeMismatch),
    }
}

pub open spec fn dec_inlines(s: Seq<SpecValue>) -> Result<Seq<SpecInline>, DecodeError>
    decreases s, 3int,
{
    if s.len() == 0 {
        Ok(Seq::empty())
    } else {
        match dec_inlines(s.drop_last()) {
            Ok(rest) => match dec_inline(s.last()) {
                Ok(i) => Ok(rest.push(i)),
                Err(e) => Err(e),
            },
            Err(e) => Err(e),
        }
    }
}

/// The index of the first entry of `s` whose key is `k`, or -1 when no
/// entry has that key.
pub open spec fn find_idx(s: Seq<(Seq<char>, SpecValue)>, k: Seq<char>) -> int
    decreases s.len(),
{
    if s.len() == 0 {
        -1
    } else if s[0].0 == k {
        0
    } else if find_idx(s.drop_first(), k) >= 0 {
        1 + find_idx(s.drop_first(), k)
    } else {
        -1
    }
}

/// A citation object must carry exactly its six named fields; they are
/// looked up by name, so their order does not matter.
pub open spec fn dec_citation(v: SpecValue) -> Result<SpecCitation, DecodeError>
    decreases v, 2int,
{
    match v {
        SpecValue::Obj(pairs) => if pairs.len() != 6 {
            Err(DecodeError::MissingTag)
        } else {
            dec_citation_fields(pairs)
        },
        _ => Err(DecodeError::TypeMismatch),
    }
}

/// Decodes the six citation fields from an object's entries, each found
/// by its name.
pub open spec fn dec_citation_fields(pairs: Seq<(Seq<char>, SpecValue)>) -> Result<
    SpecCitation,
    DecodeError,
>
    decreases pairs, 1int,
{
    let i_id = find_idx(pairs, "citationId"@);
    let i_pre = find_idx(pairs, "citationPrefix"@);
    let i_suf = find_idx(pairs, "citationSuffix"@);
    let i_mode = find_idx(pairs, "citationMode"@);
    let i_num = find_idx(pairs, "citationNoteNum"@);
    let i_hash = find_idx(pairs, "citationHash"@);
    if 0 <= i_id < pairs.len() && 0 <= i_pre < pairs.len() && 0 <= i_suf < pairs.len() && 0
        <= i_mode < pairs.len() && 0 <= i_num < pairs.len() && 0 <= i_hash < pairs.len() {
        match dec_text(pairs[i_id].1) {
            Ok(id) => match dec_inline_seq_payload(pairs[i_pre].1) {
                Ok(prefix) => match dec_inline_seq_payload(pairs[i_suf].1) {
                    Ok(suffix) => match dec_citation_mode(pairs[i_mode].1) {
                        Ok(mode) => match dec_u64(pairs[i_num].1) {
                            Ok(note_num) => match dec_u64(pairs[i_hash].1) {
                                Ok(hash) => Ok(
                                    SpecCitation {
                                        citation_id: id,
                                        citation_prefix: prefix,
                                        citation_suffix: suffix,
                                        citation_mode: mode,
                                        citation_note_num: note_num,
                                        citation_hash: hash,
                                    },
                                ),
                                Err(e) => Err(e),
                            },
                            Err(e) => Err(e),
                        },
                        Err(e) => Err(e),
                    },
                    Err(e) => Err(e),
                },
                Err(e) => Err(e),
            },
            Err(e) => Err(e),
        }
    } else {
        Err(DecodeError::MissingTag)
    }
}

pub open spec fn dec_citations(s: Seq<SpecValue>) -> Result<Seq<SpecCitation>, DecodeError>
    decreases s, 3int,
{
    if s.len() == 0 {
        Ok(Seq::empty())
    } else {
        match dec_citations(s.drop_last()) {
            Ok(rest) => match dec_citation(s.last()) {
                Ok(c) => Ok(rest.push(c)),
                Err(e) => Err(e),
            },
            Err(e) => Err(e),
        }
    }
}

pub open spec fn dec_block(v: SpecValue) -> Result<SpecBlock, DecodeError>
    decreases v, 3int,
{
    match v {
        SpecValue::Text(s) => if s == "HorizontalRule"@ {
            Ok(SpecBlock::HorizontalRule)
        } else if s == "Null"@ {
            Ok(SpecBlock::Null)
        } else {
            Err(DecodeError::UnknownTag)
        },
        SpecValue::Obj(pairs) => if pairs.len() != 1 {
            Err(DecodeError::MissingTag)
        } else {
            dec_block_tagged(pairs[0].0, pairs[0].1)
        },
        _ => Err(DecodeError::TypeMismatch),
    }
}

pub open spec fn dec_block_tagged(tag: Seq<char>, payload: SpecValue) -> Result<
    SpecBlock,
    DecodeError,
>
    decreases payload, 2int,
{
    if tag == "Plain"@ {
        match dec_inline_seq_payload(payload) {
            Ok(v) => Ok(SpecBlock::Plain(v)),
            Err(e) => Err(e),
        }
    } else if tag == "Para"@ {
        match dec_inline_seq_payload(payload) {
            Ok(v) => Ok(SpecBlock::Para(v)),
            Err(e) => Err(e),
        }
    } else if tag == "CodeBlock"@ {
        match payload {
            SpecValue::Arr(items) => if items.len() != 2 {
                Err(DecodeError::ArityMismatch)
            } else {
                match dec_attr(items[0]) {
                    Ok(a) => match dec_text(items[1]) {
                        Ok(s) => Ok(SpecBlock::CodeBlock(a, s)),
                        Err(e) => Err(e),
                    },
                    Err(e) => Err(e),
                }
            },
            _ => Err(DecodeError::TypeMismatch),
        }
    } else if tag == "RawBlock"@ {
        match payload {
            SpecValue::Arr(items) => if items.len() != 2 {
                Err(DecodeError::ArityMismatch)
            } else {
                match dec_text(items[0]) {
                    Ok(f) => match dec_text(items[1]) {
                        Ok(s) => Ok(SpecBlock::RawBlock(f, s)),
                        Err(e) => Err(e),
                    },
                    Err(e) => Err(e),
                }
            },
            _ => Err(DecodeError::TypeMismatch),
        }
    } else if tag == "BlockQuote"@ {
        match dec_block_seq_payload(payload) {
            Ok(v) => Ok(SpecBlock::BlockQuote(v)),
            Err(e) => Err(e),
        }
    } else if tag == "OrderedList"@ {
        match payload {
            SpecValue::Arr(items) => if items.len() != 2 {
                Err(DecodeError::ArityMismatch)
            } else {
                match dec_list_attributes(items[0]) {
                    Ok(la) => match dec_blockss_payload(items[1]) {
                        Ok(v) => Ok(SpecBlock::OrderedList(la, v)),
                        Err(e) => Err(e),
                    },
                    Err(e) => Err(e),
                }
            },
            _ => Err(DecodeError::TypeMismatch),
        }
    } else if tag == "BulletList"@ {
        match dec_blockss_payload(payload) {
            Ok(v) => Ok(SpecBlock::BulletList(v)),
            Err(e) => Err(e),
        }
    } else if tag == "DefinitionList"@ {
        match payload {
            SpecValue::Arr(items) => match dec_defitems(items) {
                Ok(v) => Ok(SpecBlock::DefinitionList(v)),
                Err(e) => Err(e),
            },
            _ => Err(DecodeError::TypeMismatch),
        }
    } else if tag == "Header"@ {
        match payload {
            SpecValue::Arr(items) => if items.len() != 3 {
                Err(DecodeError::ArityMismatch)
            } else {
                match dec_u64(items[0]) {
                    Ok(lvl) => if lvl >= 1 {
                        match dec_attr(items[1]) {
                            Ok(a) => match dec_inline_seq_payload(items[2]) {
                                Ok(v) => Ok(SpecBlock::Header(lvl, a, v)),
                                Err(e) => Err(e),
                            },
                            Err(e) => Err(e),
                        }
                    } else {
                        Err(DecodeError::TypeMismatch)
                    },
                    Err(e) => Err(e),
                }
            },
            _ => Err(DecodeError::TypeMismatch),
        }
    } else if tag == "HorizontalRule"@ {
        match unit_payload_err(payload) {
            None => Ok(SpecBlock::HorizontalRule),
            Some(e) => Err(e),
        }
    } else if tag == "Table"@ {
        match payload {
            SpecValue::Arr(items) => if items.len() != 5 {
                Err(DecodeError::ArityMismatch)
            } else {
                dec_table(items)
            },
            _ => Err(DecodeError::TypeMismatch),
        }
    } else if tag == "Div"@ {
        match payload {
            SpecValue::Arr(items) => if items.len() != 2 {
                Err(DecodeError::ArityMismatch)
            } else {
                match dec_attr(items[0]) {
                    Ok(a) => match dec_block_seq_payload(items[1]) {
                        Ok(v) => Ok(SpecBlock::Div(a, v)),
                        Err(e) => Err(e),
                    },
                    Err(e) => Err(e),
                }
            },
            _ => Err(DecodeError::TypeMismatch),
        }
    } else if tag == "Null"@ {
        match unit_payload_err(payload) {
            None => Ok(SpecBlock::Null),
            Some(e) => Err(e),
        }
    } else {
        Err(DecodeError::UnknownTag)
    }
}

/// The column-count-derived sequences of a table must agree in length.
pub open spec fn dec_table(items: Seq<SpecValue>) -> Result<SpecBlock, DecodeError>
    recommends
        items.len() == 5,
    decreases items, 0int,
{
    if items.len() != 5 {
        Err(DecodeError::ArityMismatch)
    } else {
        match (items[1], items[2], items[3]) {
            (SpecValue::Arr(als), SpecValue::Arr(ws), SpecValue::Arr(hs)) => if als.len()
                != ws.len() || ws.len() != hs.len() {
                Err(DecodeError::ArityMismatch)
            } else {
            match dec_inline_seq_payload(items[0]) {
                Ok(caption) => match dec_alignments(als) {
                    Ok(aligns) => match dec_nums(ws) {
                        Ok(widths) => match dec_blockss_payload(items[3]) {
                            Ok(headers) => match dec_blocksss_payload(items[4]) {
                                Ok(rows) => Ok(
                                    SpecBlock::Table(caption, aligns, widths, headers, rows),
                                ),
                                Err(e) => Err(e),
                            },
                            Err(e) => Err(e),
                        },
                        Err(e) => Err(e),
                    },
                    Err(e) => Err(e),
                },
                Err(e) => Err(e),
            }
            },
            _ => Err(DecodeError::TypeMismatch),
        }
    }
}

pub open spec fn dec_blocksss_payload(payload: SpecValue) -> Result<
    Seq<Seq<Seq<SpecBlock>>>,
    DecodeError,
>
    decreases payload, 0int,
{
    match payload {
        SpecValue::Arr(items) => dec_blocksss(items),
        _ => Err(DecodeError::TypeMismatch),
    }
}

pub open spec fn dec_block_seq_payload(payload: SpecValue) -> Result<Seq<SpecBlock>, DecodeError>
    decreases payload, 0int,
{
    match payload {
        SpecValue::Arr(items) => dec_blocks(items),
        _ => Err(DecodeError::TypeMismatch),
    }
}

pub open spec fn dec_blocks(s: Seq<SpecValue>) -> Result<Seq<SpecBlock>, DecodeError>
    decreases s, 3int,
{
    if s.len() == 0 {
        Ok(Seq::empty())
    } else {
        match dec_blocks(s.drop_last()) {
            Ok(rest) => match dec_block(s.last()) {
                Ok(b) => Ok(rest.push(b)),
                Err(e) => Err(e),
            },
            Err(e) => Err(e),
        }
    }
}

pub open spec fn dec_blockss_payload(payload: SpecValue) -> Result<
    Seq<Seq<SpecBlock>>,
    DecodeError,
>
    decreases payload, 0int,
{
    match payload {
        SpecValue::Arr(items) => dec_blockss(items),
        _ => Err(DecodeError::TypeMismatch),
    }
}

pub open spec fn dec_blockss(s: Seq<SpecValue>) -> Result<Seq<Seq<SpecBlock>>, DecodeError>
    decreases s, 3int,
{
    if s.len() == 0 {
        Ok(Seq::empty())
    } else {
        match dec_blockss(s.drop_last()) {
            Ok(rest) => match dec_block_seq_payload(s.last()) {
                Ok(b) => Ok(rest.push(b)),
                Err(e) => Err(e),
            },
            Err(e) => Err(e),
        }
    }
}

pub open spec fn dec_blocksss(s: Seq<SpecValue>) -> Result<
    Seq<Seq<Seq<SpecBlock>>>,
    DecodeError,
>
    decreases s, 3int,
{
    if s.len() == 0 {
        Ok(Seq::empty())
    } else {
        match dec_blocksss(s.drop_last()) {
            Ok(rest) => match dec_blockss_payload(s.last()) {
                Ok(b) => Ok(rest.push(b)),
                Err(e) => Err(e),
            },
            Err(e) => Err(e),
        }
    }
}

pub open spec fn dec_defitem(v: SpecValue) -> Result<
    (Seq<SpecInline>, Seq<Seq<SpecBlock>>),
    DecodeError,
>
    decreases v, 2int,
{
    match v {
        SpecValue::Arr(items) => if items.len() != 2 {
            Err(DecodeError::ArityMismatch)
        } else {
            match dec_inline_seq_payload(items[0]) {
                Ok(term) => match dec_blockss_payload(items[1]) {
                    Ok(defs) => Ok((term, defs)),
                    Err(e) => Err(e),
                },
                Err(e) => Err(e),
            }
        },
        _ => Err(DecodeError::TypeMismatch),
    }
}

pub open spec fn dec_defitems(s: Seq<SpecValue>) -> Result<
    Seq<(Seq<SpecInline>, Seq<Seq<SpecBlock>>)>,
    DecodeError,
>
    decreases s, 3int,
{
    if s.len() == 0 {
        Ok(Seq::empty())
    } else {
        match dec_defitems(s.drop_last()) {
            Ok(rest) => match dec_defitem(s.last()) {
                Ok(d) => Ok(rest.push(d)),
                Err(e) => Err(e),
            },
            Err(e) => Err(e),
        }
    }
}

pub open spec fn dec_meta_value(v: SpecValue) -> Result<SpecMetaValue, DecodeError>
    decreases v, 3int,
{
    match v {
        SpecValue::Obj(pairs) => if pairs.len() != 1 {
            Err(DecodeError::MissingTag)
        } else {
            dec_meta_value_tagged(pairs[0].0, pairs[0].1)
        },
        SpecValue::Text(_) => Err(DecodeError::UnknownTag),
        _ => Err(DecodeError::TypeMismatch),
    }
}

pub open spec fn dec_meta_value_tagged(tag: Seq<char>, payload: SpecValue) -> Result<
    SpecMetaValue,
    DecodeError,
>
    decreases payload, 2int,
{
    if tag == "MetaMap"@ {
        match payload {
            SpecValue::Obj(entries) => match dec_meta_entries(entries) {
                Ok(es) => Ok(SpecMetaValue::MetaMap(es)),
                Err(e) => Err(e),
            },
            _ => Err(DecodeError::TypeMismatch),
        }
    } else if tag == "MetaList"@ {
        match payload {
            SpecValue::Arr(items) => match dec_meta_values(items) {
                Ok(vs) => Ok(SpecMetaValue::MetaList(vs)),
                Err(e) => Err(e),
            },
            _ => Err(DecodeError::TypeMismatch),
        }
    } else if tag == "MetaBool"@ {
        match payload {
            SpecValue::Bool(b) => Ok(SpecMetaValue::MetaBool(b)),
            _ => Err(DecodeError::TypeMismatch),
        }
    } else if tag == "MetaString"@ {
        match payload {
            SpecValue::Text(s) => Ok(SpecMetaValue::MetaString(s)),
            _ => Err(DecodeError::TypeMismatch),
        }
    } else if tag == "MetaInlines"@ {
        match dec_inline_seq_payload(payload) {
            Ok(v) => Ok(SpecMetaValue::MetaInlines(v)),
            Err(e) => Err(e),
        }
    } else if tag == "MetaBlocks"@ {
        match dec_block_seq_payload(payload) {
            Ok(v) => Ok(SpecMetaValue::MetaBlocks(v)),
            Err(e) => Err(e),
        }
    } else {
        Err(DecodeError::UnknownTag)
    }
}

pub open spec fn dec_meta_values(s: Seq<SpecValue>) -> Result<Seq<SpecMetaValue>, DecodeError>
    decreases s, 3int,
{
    if s.len() == 0 {
        Ok(Seq::empty())
    } else {
        match dec_meta_values(s.drop_last()) {
            Ok(rest) => match dec_meta_value(s.last()) {
                Ok(v) => Ok(rest.push(v)),
                Err(e) => Err(e),
            },
            Err(e) => Err(e),
        }
    }
}

/// Decoded metadata entries are built by sorted insertion: the result is
/// the canonical sorted form, later duplicates overriding earlier ones.
pub open spec fn dec_meta_entries(s: Seq<(Seq<char>, SpecValue)>) -> Result<
    Seq<(Seq<char>, SpecMetaValue)>,
    DecodeError,
>
    decreases s, 3int,
{
    if s.len() == 0 {
        Ok(Seq::empty())
    } else {
        match dec_meta_entries(s.drop_last()) {
            Ok(rest) => match dec_meta_value(s.last().1) {
                Ok(v) => Ok(insert_entry(rest, s.last().0, v)),
                Err(e) => Err(e),
            },
            Err(e) => Err(e),
        }
    }
}

/// The metadata wrapper: an object with the single key `unMeta`, holding
/// the entry object.
pub open spec fn dec_meta(v: SpecValue) -> Result<SpecMeta, DecodeError>
    decreases v, 0int,
{
    match v {
        SpecValue::Obj(pairs) => if pairs.len() != 1 || pairs[0].0 != "unMeta"@ {
            Err(DecodeError::MissingTag)
        } else {
            match pairs[0].1 {
                SpecValue::Obj(entries) => match dec_meta_entries(entries) {
                    Ok(es) => Ok(SpecMeta { un_meta: es }),
                    Err(e) => Err(e),
                },
                _ => Err(DecodeError::TypeMismatch),
            }
        },
        _ => Err(DecodeError::TypeMismatch),
    }
}

/// A document is a two-element array of metadata and blocks; anything else
/// is `NotAnArray`.
pub open spec fn dec_pandoc(v: SpecValue) -> Result<SpecPandoc, DecodeError>
    decreases v, 0int,
{
    match v {
        SpecValue::Arr(items) => if items.len() != 2 {
            Err(DecodeError::NotAnArray)
        } else {
            match dec_meta(items[0]) {
                Ok(meta) => match items[1] {
                    SpecValue::Arr(bs) => match dec_blocks(bs) {
                        Ok(blocks) => Ok(SpecPandoc { meta, blocks }),
                        Err(e) => Err(e),
                    },
                    _ => Err(DecodeError::TypeMismatch),
                },
                Err(e) => Err(e),
            }
        },
        _ => Err(DecodeError::NotAnArray),
    }
}

// ---------------------------------------------------------------------------
// Executable decoding.
// ---------------------------------------------------------------------------

pub open spec fn r_text(r: Result<String, DecodeError>) -> Result<Seq<char>, DecodeError> {
    match r {
        Ok(s) => Ok(s@),
        Err(e) => Err(e),
    }
}

pub open spec fn r_texts(r: Result<Vec<String>, DecodeError>) -> Result<
    Seq<Seq<char>>,
    DecodeError,
> {
    match r {
        Ok(v) => Ok(view_strings(v@)),
        Err(e) => Err(e),
    }
}

pub open spec fn r_text_pair(r: Result<(String, String), DecodeError>) -> Result<
    (Seq<char>, Seq<char>),
    DecodeError,
> {
    match r {
        Ok(p) => Ok((p.0@, p.1@)),
        Err(e) => Err(e),
    }
}

pub open spec fn r_text_pairs(r: Result<Vec<(String, String)>, DecodeError>) -> Result<
    Seq<(Seq<char>, Seq<char>)>,
    DecodeError,
> {
    match r {
        Ok(v) => Ok(view_string_pairs(v@)),
        Err(e) => Err(e),
    }
}

pub open spec fn r_attr(r: Result<Attr, DecodeError>) -> Result<SpecAttr, DecodeError> {
    match r {
        Ok(a) => Ok(view_attr(a)),
        Err(e) => Err(e),
    }
}

pub open spec fn r_target(r: Result<Target, DecodeError>) -> Result<SpecTarget, DecodeError> {
    match r {
        Ok(t) => Ok(view_target(t)),
        Err(e) => Err(e),
    }
}

pub open spec fn r_inline(r: Result<Inline, DecodeError>) -> Result<SpecInline, DecodeError> {
    match r {
        Ok(i) => Ok(view_inline(i)),
        Err(e) => Err(e),
    }
}

pub open spec fn r_inlines(r: Result<Vec<Inline>, DecodeError>) -> Result<
    Seq<SpecInline>,
    DecodeError,
> {
    match r {
        Ok(v) => Ok(view_inlines(v@)),
        Err(e) => Err(e),
    }
}

pub open spec fn r_citation(r: Result<Citation, DecodeError>) -> Result<
    SpecCitation,
    DecodeError,
> {
    match r {
        Ok(c) => Ok(view_citation(c)),
        Err(e) => Err(e),
    }
}

pub open spec fn r_citations(r: Result<Vec<Citation>, DecodeError>) -> Result<
    Seq<SpecCitation>,
    DecodeError,
> {
    match r {
        Ok(v) => Ok(view_citations(v@)),
        Err(e) => Err(e),
    }
}

pub open spec fn r_block(r: Result<Block, DecodeError>) -> Result<SpecBlock, DecodeError> {
    match r {
        Ok(b) => Ok(view_block(b)),
        Err(e) => Err(e),
    }
}

pub open spec fn r_blocks(r: Result<Vec<Block>, DecodeError>) -> Result<
    Seq<SpecBlock>,
    DecodeError,
> {
    match r {
        Ok(v) => Ok(view_blocks(v@)),
        Err(e) => Err(e),
    }
}

pub open spec fn r_blockss(r: Result<Vec<Vec<Block>>, DecodeError>) -> Result<
    Seq<Seq<SpecBlock>>,
    DecodeError,
> {
    match r {
        Ok(v) => Ok(view_blockss(v@)),
        Err(e) => Err(e),
    }
}

pub open spec fn r_blocksss(r: Result<Vec<Vec<Vec<Block>>>, DecodeError>) -> Result<
    Seq<Seq<Seq<SpecBlock>>>,
    DecodeError,
> {
    match r {
        Ok(v) => Ok(view_blocksss(v@)),
        Err(e) => Err(e),
    }
}

pub open spec fn r_defitems(
    r: Result<Vec<(Vec<Inline>, Vec<Vec<Block>>)>, DecodeError>,
) -> Result<Seq<(Seq<SpecInline>, Seq<Seq<SpecBlock>>)>, DecodeError> {
    match r {
        Ok(v) => Ok(view_defitems(v@)),
        Err(e) => Err(e),
    }
}

pub open spec fn r_alignments(r: Result<Vec<Alignment>, DecodeError>) -> Result<
    Seq<Alignment>,
    DecodeError,
> {
    match r {
        Ok(v) => Ok(v@),
        Err(e) => Err(e),
    }
}

pub open spec fn r_meta_value(r: Result<MetaValue, DecodeError>) -> Result<
    SpecMetaValue,
    DecodeError,
> {
    match r {
        Ok(m) => Ok(view_meta_value(m)),
        Err(e) => Err(e),
    }
}

pub open spec fn r_meta_values(r: Result<Vec<MetaValue>, DecodeError>) -> Result<
    Seq<SpecMetaValue>,
    DecodeError,
> {
    match r {
        Ok(v) => Ok(view_meta_values(v@)),
        Err(e) => Err(e),
    }
}

pub open spec fn r_meta_entries(r: Result<Vec<(String, MetaValue)>, DecodeError>) -> Result<
    Seq<(Seq<char>, SpecMetaValue)>,
    DecodeError,
> {
    match r {
        Ok(v) => Ok(view_meta_entries(v@)),
        Err(e) => Err(e),
    }
}

pub open spec fn r_meta(r: Result<Meta, DecodeError>) -> Result<SpecMeta, DecodeError> {
    match r {
        Ok(m) => Ok(view_meta(m)),
        Err(e) => Err(e),
    }
}

pub open spec fn r_pandoc(r: Result<Pandoc, DecodeError>) -> Result<SpecPandoc, DecodeError> {
    match r {
        Ok(p) => Ok(view_pandoc(p)),
        Err(e) => Err(e),
    }
}

fn unit_payload_check(payload: &WireValue) -> (r: Option<DecodeError>)
    ensures
        r == unit_payload_err(view_value(*payload)),
{
    match payload {
        WireValue::Arr(items) => if items.len() == 0 {
            proof {
                assert(view_values(items@) =~= Seq::<SpecValue>::empty());
            }
            None
        } else {
            Some(DecodeError::ArityMismatch)
        },
        _ => Some(DecodeError::TypeMismatch),
    }
}

fn dec_u64_exec(v: &WireValue) -> (r: Result<u64, DecodeError>)
    ensures
        r == dec_u64(view_value(*v)),
{
    match v {
        WireValue::Num(s) => match parse_u64(s) {
            Some(n) => Ok(n),
            None => Err(DecodeError::TypeMismatch),
        },
        _ => Err(DecodeError::TypeMismatch),
    }
}

fn dec_text_exec(v: &WireValue) -> (r: Result<String, DecodeError>)
    ensures
        r_text(r) == dec_text(view_value(*v)),
{
    match v {
        WireValue::Text(s) => Ok(s.clone()),
        _ => Err(DecodeError::TypeMismatch),
    }
}

impl QuoteType {
    /// Decodes a quote type from either nullary form.
    pub fn decode(v: &WireValue) -> (r: Result<QuoteType, DecodeError>)
        ensures
            r == dec_quote_type(view_value(*v)),
    {
        match v {
            WireValue::Text(s) => if str_is(s, "SingleQuote") {
                Ok(QuoteType::SingleQuote)
            } else if str_is(s, "DoubleQuote") {
                Ok(QuoteType::DoubleQuote)
            } else {
                Err(DecodeError::UnknownTag)
            },
            WireValue::Obj(pairs) => if pairs.len() != 1 {
                Err(DecodeError::MissingTag)
            } else {
                match unit_payload_check(&pairs[0].1) {
                    Some(e) => Err(e),
                    None => if str_is(&pairs[0].0, "SingleQuote") {
                        Ok(QuoteType::SingleQuote)
                    } else if str_is(&pairs[0].0, "DoubleQuote") {
                        Ok(QuoteType::DoubleQuote)
                    } else {
                        Err(DecodeError::UnknownTag)
                    },
                }
            },
            _ => Err(DecodeError::TypeMismatch),
        }
    }
}

impl MathType {
    /// Decodes a math type from either nullary form.
    pub fn decode(v: &WireValue) -> (r: Result<MathType, DecodeError>)
        ensures
            r == dec_math_type(view_value(*v)),
    {
        match v {
            WireValue::Text(s) => if str_is(s, "DisplayMath") {
                Ok(MathType::DisplayMath)
            } else if str_is(s, "InlineMath") {
                Ok(MathType::InlineMath)
            } else {
                Err(DecodeError::UnknownTag)
            },
            WireValue::Obj(pairs) => if pairs.len() != 1 {
                Err(DecodeError::MissingTag)
            } else {
                match unit_payload_check(&pairs[0].1) {
                    Some(e) => Err(e),
                    None => if str_is(&pairs[0].0, "DisplayMath") {
                        Ok(MathType::DisplayMath)
                    } else if str_is(&pairs[0].0, "InlineMath") {
                        Ok(MathType::InlineMath)
                    } else {
                        Err(DecodeError::UnknownTag)
                    },
                }
            },
            _ => Err(DecodeError::TypeMismatch),
        }
    }
}

impl Alignment {
    /// Decodes an alignment from either nullary form.
    pub fn decode(v: &WireValue) -> (r: Result<Alignment, DecodeError>)
        ensures
            r == dec_alignment(view_value(*v)),
    {
        match v {
            WireValue::Text(s) => if str_is(s, "AlignLeft") {
                Ok(Alignment::AlignLeft)
            } else if str_is(s, "AlignRight") {
                Ok(Alignment::AlignRight)
            } else if str_is(s, "AlignCenter") {
                Ok(Alignment::AlignCenter)
            } else if str_is(s, "AlignDefault") {
                Ok(Alignment::AlignDefault)
            } else {
                Err(DecodeError::UnknownTag)
            },
            WireValue::Obj(pairs) => if pairs.len() != 1 {
                Err(DecodeError::MissingTag)
            } else {
                match unit_payload_check(&pairs[0].1) {
                    Some(e) => Err(e),
                    None => if str_is(&pairs[0].0, "AlignLeft") {
                        Ok(Alignment::AlignLeft)
                    } else if str_is(&pairs[0].0, "AlignRight") {
                        Ok(Alignment::AlignRight)
                    } else if str_is(&pairs[0].0, "AlignCenter") {
                        Ok(Alignment::AlignCenter)
                    } else if str_is(&pairs[0].0, "AlignDefault") {
                        Ok(Alignment::AlignDefault)
                    } else {
                        Err(DecodeError::UnknownTag)
                    },
                }
            },
            _ => Err(DecodeError::TypeMismatch),
        }
    }
}

fn style_of_tag_exec(s: &String) -> (r: Option<ListNumberStyle>)
    ensures
        r == style_of_tag(s@),
{
    if str_is(s, "DefaultStyle") {
        Some(ListNumberStyle::DefaultStyle)
    } else if str_is(s, "Example") {
        Some(ListNumberStyle::Example)
    } else if str_is(s, "Decimal") {
        Some(ListNumberStyle::Decimal)
    } else if str_is(s, "LowerRoman") {
        Some(ListNumberStyle::LowerRoman)
    } else if str_is(s, "UpperRoman") {
        Some(ListNumberStyle::UpperRoman)
    } else if str_is(s, "LowerAlpha") {
        Some(ListNumberStyle::LowerAlpha)
    } else if str_is(s, "UpperAlpha") {
        Some(ListNumberStyle::UpperAlpha)
    } else {
        None
    }
}

fn delim_of_tag_exec(s: &String) -> (r: Option<ListNumberDelim>)
    ensures
        r == delim_of_tag(s@),
{
    if str_is(s, "DefaultDelim") {
        Some(ListNumberDelim::DefaultDelim)
    } else if str_is(s, "Period") {
        Some(ListNumberDelim::Period)
    } else if str_is(s, "OneParen") {
        Some(ListNumberDelim::OneParen)
    } else if str_is(s, "TwoParens") {
        Some(ListNumberDelim::TwoParens)
    } else {
        None
    }
}

impl ListNumberStyle {
    /// Decodes a list number style from either nullary form.
    pub fn decode(v: &WireValue) -> (r: Result<ListNumberStyle, DecodeError>)
        ensures
            r == dec_list_number_style(view_value(*v)),
    {
        match v {
            WireValue::Text(s) => match style_of_tag_exec(s) {
                Some(st) => Ok(st),
                None => Err(DecodeError::UnknownTag),
            },
            WireValue::Obj(pairs) => if pairs.len() != 1 {
                Err(DecodeError::MissingTag)
            } else {
                match unit_payload_check(&pairs[0].1) {
                    Some(e) => Err(e),
                    None => match style_of_tag_exec(&pairs[0].0) {
                        Some(st) => Ok(st),
                        None => Err(DecodeError::UnknownTag),
                    },
                }
            },
            _ => Err(DecodeError::TypeMismatch),
        }
    }
}

impl ListNumberDelim {
    /// Decodes a list number delimiter from either nullary form.
    pub fn decode(v: &WireValue) -> (r: Result<ListNumberDelim, DecodeError>)
        ensures
            r == dec_list_number_delim(view_value(*v)),
    {
        match v {
            WireValue::Text(s) => match delim_of_tag_exec(s) {
                Some(d) => Ok(d),
                None => Err(DecodeError::UnknownTag),
            },
            WireValue::Obj(pairs) => if pairs.len() != 1 {
                Err(DecodeError::MissingTag)
            } else {
                match unit_payload_check(&pairs[0].1) {
                    Some(e) => Err(e),
                    None => match delim_of_tag_exec(&pairs[0].0) {
                        Some(d) => Ok(d),
                        None => Err(DecodeError::UnknownTag),
                    },
                }
            },
            _ => Err(DecodeError::TypeMismatch),
        }
    }
}

impl CitationMode {
    /// Decodes a citation mode from either nullary form.
    pub fn decode(v: &WireValue) -> (r: Result<CitationMode, DecodeError>)
        ensures
            r == dec_citation_mode(view_value(*v)),
    {
        match v {
            WireValue::Text(s) => if str_is(s, "AuthorInText") {
                Ok(CitationMode::AuthorInText)
            } else if str_is(s, "SuppressAuthor") {
                Ok(CitationMode::SuppressAuthor)
            } else if str_is(s, "NormalCitation") {
                Ok(CitationMode::NormalCitation)
            } else {
                Err(DecodeError::UnknownTag)
            },
            WireValue::Obj(pairs) => if pairs.len() != 1 {
                Err(DecodeError::MissingTag)
            } else {
                match unit_payload_check(&pairs[0].1) {
                    Some(e) => Err(e),
                    None => if str_is(&pairs[0].0, "AuthorInText") {
                        Ok(CitationMode::AuthorInText)
                    } else if str_is(&pairs[0].0, "SuppressAuthor") {
                        Ok(CitationMode::SuppressAuthor)
                    } else if str_is(&pairs[0].0, "NormalCitation") {
                        Ok(CitationMode::NormalCitation)
                    } else {
                        Err(DecodeError::UnknownTag)
                    },
                }
            },
            _ => Err(DecodeError::TypeMismatch),
        }
    }
}


fn dec_texts_exec(items: &Vec<WireValue>, n: usize) -> (r: Result<Vec<String>, DecodeError>)
    requires
        n <= items.len(),
    ensures
        r_texts(r) == dec_texts(view_values(items@).subrange(0, n as int)),
    decreases n,
{
    let ghost s = view_values(items@).subrange(0, n as int);
    if n == 0 {
        let out: Vec<String> = Vec::new();
        proof {
            assert(s =~= Seq::<SpecValue>::empty());
            assert(view_strings(out@) =~= Seq::<Seq<char>>::empty());
        }
        Ok(out)
    } else {
        proof {
            assert(s.drop_last() =~= view_values(items@).subrange(0, n as int - 1));
            assert(s.last() == view_value(items@[n as int - 1]));
        }
        match dec_texts_exec(items, n - 1) {
            Ok(mut rest) => match dec_text_exec(&items[n - 1]) {
                Ok(t) => {
                    let ghost restv = rest@;
                    let ghost tv = t@;
                    rest.push(t);
                    proof {
                        assert(view_strings(rest@) =~= view_strings(restv).push(tv));
                    }
                    Ok(rest)
                },
                Err(e) => Err(e),
            },
            Err(e) => Err(e),
        }
    }
}

fn dec_text_pair_exec(v: &WireValue) -> (r: Result<(String, String), DecodeError>)
    ensures
        r_text_pair(r) == dec_text_pair(view_value(*v)),
{
    match v {
        WireValue::Arr(items) => if items.len() != 2 {
            Err(DecodeError::ArityMismatch)
        } else {
            match dec_text_exec(&items[0]) {
                Ok(a) => match dec_text_exec(&items[1]) {
                    Ok(b) => Ok((a, b)),
                    Err(e) => Err(e),
                },
                Err(e) => Err(e),
            }
        },
        _ => Err(DecodeError::TypeMismatch),
    }
}

fn dec_text_pairs_exec(items: &Vec<WireValue>, n: usize) -> (r: Result<
    Vec<(String, String)>,
    DecodeError,
>)
    requires
        n <= items.len(),
    ensures
        r_text_pairs(r) == dec_text_pairs(view_values(items@).subrange(0, n as int)),
    decreases n,
{
    let ghost s = view_values(items@).subrange(0, n as int);
    if n == 0 {
        let out: Vec<(String, String)> = Vec::new();
        proof {
            assert(s =~= Seq::<SpecValue>::empty());
            assert(view_string_pairs(out@) =~= Seq::<(Seq<char>, Seq<char>)>::empty());
        }
        Ok(out)
    } else {
        proof {
            assert(s.drop_last() =~= view_values(items@).subrange(0, n as int - 1));
            assert(s.last() == view_value(items@[n as int - 1]));
        }
        match dec_text_pairs_exec(items, n - 1) {
            Ok(mut rest) => match dec_text_pair_exec(&items[n - 1]) {
                Ok(p) => {
                    let ghost restv = rest@;
                    let ghost pv = (p.0@, p.1@);
                    rest.push(p);
                    proof {
                        assert(view_string_pairs(rest@) =~= view_string_pairs(restv).push(pv));
                    }
                    Ok(rest)
                },
                Err(e) => Err(e),
            },
            Err(e) => Err(e),
        }
    }
}

fn dec_attr_exec(v: &WireValue) -> (r: Result<Attr, DecodeError>)
    ensures
        r_attr(r) == dec_attr(view_value(*v)),
{
    match v {
        WireValue::Arr(items) => {
            proof {
                assert(view_value(*v) == SpecValue::Arr(view_values(items@)));
            }
            if items.len() != 3 {
                return Err(DecodeError::ArityMismatch);
            }
            proof {
                assert(view_values(items@)[0] == view_value(items@[0]));
                assert(view_values(items@)[1] == view_value(items@[1]));
                assert(view_values(items@)[2] == view_value(items@[2]));
            }
            match dec_text_exec(&items[0]) {
                Ok(id) => {
                    let it1 = &items[1];
                    proof {
                        assert(*it1 == items@[1]);
                    }
                    match it1 {
                        WireValue::Arr(cs) => {
                            let rc = dec_texts_exec(cs, cs.len());
                            proof {
                                assert(view_value(items@[1]) == SpecValue::Arr(view_values(cs@)));
                                assert(view_values(cs@).subrange(0, cs@.len() as int)
                                    =~= view_values(cs@));
                            }
                            match rc {
                            Ok(classes) => {
                                let it2 = &items[2];
                                match it2 {
                                    WireValue::Arr(ks) => {
                                        let rk = dec_text_pairs_exec(ks, ks.len());
                                        proof {
                                            assert(view_value(items@[2]) == SpecValue::Arr(
                                                view_values(ks@),
                                            ));
                                            assert(view_values(ks@).subrange(
                                                0,
                                                ks@.len() as int,
                                            ) =~= view_values(ks@));
                                        }
                                        match rk {
                                        Ok(kvs) => Ok((id, classes, kvs)),
                                        Err(e) => Err(e),
                                        }
                                    },
                                    _ => {
                                        proof {
                                            assert(!(view_value(items@[2]) is Arr));
                                        }
                                        Err(DecodeError::TypeMismatch)
                                    },
                                }
                            },
                            Err(e) => Err(e),
                            }
                        },
                        _ => {
                            proof {
                                assert(!(view_value(items@[1]) is Arr));
                            }
                            Err(DecodeError::TypeMismatch)
                        },
                    }
                },
                Err(e) => Err(e),
            }
        },
        _ => {
            proof {
                assert(!(view_value(*v) is Arr));
            }
            Err(DecodeError::TypeMismatch)
        },
    }
}

fn dec_target_exec(v: &WireValue) -> (r: Result<Target, DecodeError>)
    ensures
        r_target(r) == dec_target(view_value(*v)),
{
    match v {
        WireValue::Arr(items) => if items.len() != 2 {
            Err(DecodeError::ArityMismatch)
        } else {
            match dec_text_exec(&items[0]) {
                Ok(url) => match dec_text_exec(&items[1]) {
                    Ok(title) => Ok((url, title)),
                    Err(e) => Err(e),
                },
                Err(e) => Err(e),
            }
        },
        _ => Err(DecodeError::TypeMismatch),
    }
}

fn dec_list_attributes_exec(v: &WireValue) -> (r: Result<
    (u64, ListNumberStyle, ListNumberDelim),
    DecodeError,
>)
    ensures
        r == dec_list_attributes(view_value(*v)),
{
    match v {
        WireValue::Arr(items) => if items.len() != 3 {
            Err(DecodeError::ArityMismatch)
        } else {
            match dec_u64_exec(&items[0]) {
                Ok(start) => match ListNumberStyle::decode(&items[1]) {
                    Ok(style) => match ListNumberDelim::decode(&items[2]) {
                        Ok(delim) => Ok((start, style, delim)),
                        Err(e) => Err(e),
                    },
                    Err(e) => Err(e),
                },
                Err(e) => Err(e),
            }
        },
        _ => Err(DecodeError::TypeMismatch),
    }
}

fn dec_nums_exec(items: &Vec<WireValue>, n: usize) -> (r: Result<Vec<String>, DecodeError>)
    requires
        n <= items.len(),
    ensures
        r_texts(r) == dec_nums(view_values(items@).subrange(0, n as int)),
    decreases n,
{
    let ghost s = view_values(items@).subrange(0, n as int);
    if n == 0 {
        let out: Vec<String> = Vec::new();
        proof {
            assert(s =~= Seq::<SpecValue>::empty());
            assert(view_strings(out@) =~= Seq::<Seq<char>>::empty());
        }
        Ok(out)
    } else {
        proof {
            assert(s.drop_last() =~= view_values(items@).subrange(0, n as int - 1));
            assert(s.last() == view_value(items@[n as int - 1]));
        }
        match dec_nums_exec(items, n - 1) {
            Ok(mut rest) => {
                let last = &items[n - 1];
                match last {
                    WireValue::Num(t) => {
                        let ghost restv = rest@;
                        let ghost tv = t@;
                        rest.push(t.clone());
                        proof {
                            assert(view_strings(rest@) =~= view_strings(restv).push(tv));
                        }
                        Ok(rest)
                    },
                    _ => Err(DecodeError::TypeMismatch),
                }
            },
            Err(e) => Err(e),
        }
    }
}

fn dec_alignments_exec(items: &Vec<WireValue>, n: usize) -> (r: Result<Vec<Alignment>, DecodeError>)
    requires
        n <= items.len(),
    ensures
        r_alignments(r) == dec_alignments(view_values(items@).subrange(0, n as int)),
    decreases n,
{
    let ghost s = view_values(items@).subrange(0, n as int);
    if n == 0 {
        let out: Vec<Alignment> = Vec::new();
        proof {
            assert(s =~= Seq::<SpecValue>::empty());
        }
        Ok(out)
    } else {
        proof {
            assert(s.drop_last() =~= view_values(items@).subrange(0, n as int - 1));
            assert(s.last() == view_value(items@[n as int - 1]));
        }
        match dec_alignments_exec(items, n - 1) {
            Ok(mut rest) => match Alignment::decode(&items[n - 1]) {
                Ok(a) => {
                    rest.push(a);
                    Ok(rest)
                },
                Err(e) => Err(e),
            },
            Err(e) => Err(e),
        }
    }
}

impl Inline {
    /// Decodes an inline element from a wire value.
    pub fn decode(v: &WireValue) -> (r: Result<Inline, DecodeError>)
        ensures
            r_inline(r) == dec_inline(view_value(*v)),
        decreases v, 0int, 3int,
    {
        match v {
            WireValue::Text(s) => if str_is(s, "Space") {
                Ok(Inline::Space)
            } else if str_is(s, "SoftBreak") {
                Ok(Inline::SoftBreak)
            } else if str_is(s, "LineBreak") {
                Ok(Inline::LineBreak)
            } else {
                Err(DecodeError::UnknownTag)
            },
            WireValue::Obj(pairs) => if pairs.len() != 1 {
                Err(DecodeError::MissingTag)
            } else {
                dec_inline_tagged_exec(&pairs[0].0, &pairs[0].1)
            },
            _ => Err(DecodeError::TypeMismatch),
        }
    }
}

fn dec_inline_tagged_exec(tag: &String, payload: &WireValue) -> (r: Result<Inline, DecodeError>)
    ensures
        r_inline(r) == dec_inline_tagged(tag@, view_value(*payload)),
    decreases payload, 0int, 2int,
{
    if str_is(tag, "Str") {
        match dec_text_exec(payload) {
            Ok(s) => Ok(Inline::Str(s)),
            Err(e) => Err(e),
        }
    } else if str_is(tag, "Emph") {
        match dec_inline_seq_payload_exec(payload) {
            Ok(v) => Ok(Inline::Emph(v)),
            Err(e) => Err(e),
        }
    } else if str_is(tag, "Strong") {
        match dec_inline_seq_payload_exec(payload) {
            Ok(v) => Ok(Inline::Strong(v)),
            Err(e) => Err(e),
        }
    } else if str_is(tag, "Strikeout") {
        match dec_inline_seq_payload_exec(payload) {
            Ok(v) => Ok(Inline::Strikeout(v)),
            Err(e) => Err(e),
        }
    } else if str_is(tag, "Superscript") {
        match dec_inline_seq_payload_exec(payload) {
            Ok(v) => Ok(Inline::Superscript(v)),
            Err(e) => Err(e),
        }
    } else if str_is(tag, "Subscript") {
        match dec_inline_seq_payload_exec(payload) {
            Ok(v) => Ok(Inline::Subscript(v)),
            Err(e) => Err(e),
        }
    } else if str_is(tag, "SmallCaps") {
        match dec_inline_seq_payload_exec(payload) {
            Ok(v) => Ok(Inline::SmallCaps(v)),
            Err(e) => Err(e),
        }
    } else if str_is(tag, "Quoted") {
        match payload {
            WireValue::Arr(items) => if items.len() != 2 {
                Err(DecodeError::ArityMismatch)
            } else {
                match QuoteType::decode(&items[0]) {
                    Ok(q) => match dec_inline_seq_payload_exec(&items[1]) {
                        Ok(v) => Ok(Inline::Quoted(q, v)),
                        Err(e) => Err(e),
                    },
                    Err(e) => Err(e),
                }
            },
            _ => Err(DecodeError::TypeMismatch),
        }
    } else if str_is(tag, "Cite") {
        match payload {
            WireValue::Arr(items) => if items.len() != 2 {
                Err(DecodeError::ArityMismatch)
            } else {
                let it0 = &items[0];
                proof {
                    assert(view_value(*payload) == SpecValue::Arr(view_values(items@)));
                    assert(view_values(items@)[0] == view_value(items@[0]));
                    assert(*it0 == items@[0]);
                }
                match it0 {
                    WireValue::Arr(cs) => {
                        let rc = dec_citations_exec(cs, cs.len());
                        proof {
                            assert(view_value(items@[0]) == SpecValue::Arr(view_values(cs@)));
                            assert(view_values(cs@).subrange(0, cs@.len() as int) =~= view_values(
                                cs@,
                            ));
                        }
                        match rc {
                            Ok(citations) => match dec_inline_seq_payload_exec(&items[1]) {
                                Ok(v) => Ok(Inline::Cite(citations, v)),
                                Err(e) => Err(e),
                            },
                            Err(e) => Err(e),
                        }
                    },
                    _ => {
                        proof {
                            assert(!(view_value(items@[0]) is Arr));
                        }
                        Err(DecodeError::TypeMismatch)
                    },
                }
            },
            _ => Err(DecodeError::TypeMismatch),
        }
    } else if str_is(tag, "Code") {
        match payload {
            WireValue::Arr(items) => if items.len() != 2 {
                Err(DecodeError::ArityMismatch)
            } else {
                match dec_attr_exec(&items[0]) {
                    Ok(a) => match dec_text_exec(&items[1]) {
                        Ok(s) => Ok(Inline::Code(a, s)),
                        Err(e) => Err(e),
                    },
                    Err(e) => Err(e),
                }
            },
            _ => Err(DecodeError::TypeMismatch),
        }
    } else if str_is(tag, "Space") {
        match unit_payload_check(payload) {
            None => Ok(Inline::Space),
            Some(e) => Err(e),
        }
    } else if str_is(tag, "SoftBreak") {
        match unit_payload_check(payload) {
            None => Ok(Inline::SoftBreak),
            Some(e) => Err(e),
        }
    } else if str_is(tag, "LineBreak") {
        match unit_payload_check(payload) {
            None => Ok(Inline::LineBreak),
            Some(e) => Err(e),
        }
    } else if str_is(tag, "Math") {
        match payload {
            WireValue::Arr(items) => if items.len() != 2 {
                Err(DecodeError::ArityMismatch)
            } else {
                match MathType::decode(&items[0]) {
                    Ok(m) => match dec_text_exec(&items[1]) {
                        Ok(s) => Ok(Inline::Math(m, s)),
                        Err(e) => Err(e),
                    },
                    Err(e) => Err(e),
                }
            },
            _ => Err(DecodeError::TypeMismatch),
        }
    } else if str_is(tag, "RawInline") {
        match payload {
            WireValue::Arr(items) => if items.len() != 2 {
                Err(DecodeError::ArityMismatch)
            } else {
                match dec_text_exec(&items[0]) {
                    Ok(f) => match dec_text_exec(&items[1]) {
                        Ok(s) => Ok(Inline::RawInline(f, s)),
                        Err(e) => Err(e),
                    },
                    Err(e) => Err(e),
                }
            },
            _ => Err(DecodeError::TypeMismatch),
        }
    } else if str_is(tag, "Link") {
        match dec_ait_exec(payload) {
            Ok(t3) => Ok(Inline::Link(t3.0, t3.1, t3.2)),
            Err(e) => Err(e),
        }
    } else if str_is(tag, "Image") {
        match dec_ait_exec(payload) {
            Ok(t3) => Ok(Inline::Image(t3.0, t3.1, t3.2)),
            Err(e) => Err(e),
        }
    } else if str_is(tag, "Span") {
        match payload {
            WireValue::Arr(items) => if items.len() != 2 {
                Err(DecodeError::ArityMismatch)
            } else {
                match dec_attr_exec(&items[0]) {
                    Ok(a) => match dec_inline_seq_payload_exec(&items[1]) {
                        Ok(v) => Ok(Inline::Span(a, v)),
                        Err(e) => Err(e),
                    },
                    Err(e) => Err(e),
                }
            },
            _ => Err(DecodeError::TypeMismatch),
        }
    } else {
        Err(DecodeError::UnknownTag)
    }
}

pub open spec fn r_ait(r: Result<(Attr, Vec<Inline>, Target), DecodeError>) -> Result<
    (SpecAttr, Seq<SpecInline>, SpecTarget),
    DecodeError,
> {
    match r {
        Ok(t) => Ok((view_attr(t.0), view_inlines(t.1@), view_target(t.2))),
        Err(e) => Err(e),
    }
}

fn dec_ait_exec(payload: &WireValue) -> (r: Result<(Attr, Vec<Inline>, Target), DecodeError>)
    ensures
        r_ait(r) == dec_attr_inlines_target(view_value(*payload)),
    decreases payload, 0int, 1int,
{
    match payload {
        WireValue::Arr(items) => if items.len() != 3 {
            Err(DecodeError::ArityMismatch)
        } else {
            match dec_attr_exec(&items[0]) {
                Ok(a) => match dec_inline_seq_payload_exec(&items[1]) {
                    Ok(v) => match dec_target_exec(&items[2]) {
                        Ok(t) => Ok((a, v, t)),
                        Err(e) => Err(e),
                    },
                    Err(e) => Err(e),
                },
                Err(e) => Err(e),
            }
        },
        _ => Err(DecodeError::TypeMismatch),
    }
}

fn dec_inline_seq_payload_exec(payload: &WireValue) -> (r: Result<Vec<Inline>, DecodeError>)
    ensures
        r_inlines(r) == dec_inline_seq_payload(view_value(*payload)),
    decreases payload, 0int, 0int,
{
    match payload {
        WireValue::Arr(items) => {
            let r = dec_inlines_exec(items, items.len());
            proof {
                assert(view_values(items@).subrange(0, items@.len() as int) =~= view_values(
                    items@,
                ));
            }
            r
        },
        _ => Err(DecodeError::TypeMismatch),
    }
}

fn dec_inlines_exec(items: &Vec<WireValue>, n: usize) -> (r: Result<Vec<Inline>, DecodeError>)
    requires
        n <= items.len(),
    ensures
        r_inlines(r) == dec_inlines(view_values(items@).subrange(0, n as int)),
    decreases items@, n, 0int,
{
    let ghost s = view_values(items@).subrange(0, n as int);
    if n == 0 {
        let out: Vec<Inline> = Vec::new();
        proof {
            assert(s =~= Seq::<SpecValue>::empty());
            assert(view_inlines(out@) =~= Seq::<SpecInline>::empty());
        }
        Ok(out)
    } else {
        proof {
            assert(s.drop_last() =~= view_values(items@).subrange(0, n as int - 1));
            assert(s.last() == view_value(items@[n as int - 1]));
        }
        match dec_inlines_exec(items, n - 1) {
            Ok(mut rest) => match Inline::decode(&items[n - 1]) {
                Ok(i) => {
                    let ghost restv = rest@;
                    let ghost iv = view_inline(i);
                    rest.push(i);
                    proof {
                        assert(view_inlines(rest@) =~= view_inlines(restv).push(iv));
                    }
                    Ok(rest)
                },
                Err(e) => Err(e),
            },
            Err(e) => Err(e),
        }
    }
}

/// Finds the first entry at or after `j` whose key is `k`.
fn find_key_from(pairs: &Vec<(String, WireValue)>, k: &str, j: usize) -> (r: Option<usize>)
    requires
        j <= pairs.len(),
    ensures
        (match r {
            Some(i) => j <= i < pairs.len() && find_idx(view_pairs(pairs@).skip(j as int), k@)
                == i - j,
            None => find_idx(view_pairs(pairs@).skip(j as int), k@) == -1,
        }),
    decreases pairs.len() - j,
{
    if j == pairs.len() {
        proof {
            assert(view_pairs(pairs@).skip(j as int) =~= Seq::<(Seq<char>, SpecValue)>::empty());
        }
        None
    } else {
        proof {
            assert(view_pairs(pairs@).skip(j as int)[0] == view_pairs(pairs@)[j as int]);
            assert(view_pairs(pairs@)[j as int] == (pairs@[j as int].0@, view_value(
                pairs@[j as int].1,
            )));
            assert(view_pairs(pairs@).skip(j as int).drop_first() =~= view_pairs(pairs@).skip(
                j as int + 1,
            ));
        }
        if str_is(&pairs[j].0, k) {
            Some(j)
        } else {
            match find_key_from(pairs, k, j + 1) {
                Some(i) => Some(i),
                None => None,
            }
        }
    }
}

impl Citation {
    /// Decodes a citation: a plain object carrying exactly its six named
    /// fields, each found by name, in any order.
    pub fn decode(v: &WireValue) -> (r: Result<Citation, DecodeError>)
        ensures
            r_citation(r) == dec_citation(view_value(*v)),
        decreases v, 0int, 2int,
    {
        match v {
            WireValue::Obj(pairs) => {
                proof {
                    assert(view_value(*v) == SpecValue::Obj(view_pairs(pairs@)));
                }
                if pairs.len() != 6 {
                    return Err(DecodeError::MissingTag);
                }
                let ghost ps = view_pairs(pairs@);
                proof {
                    assert(ps.skip(0) =~= ps);
                }
                let f_id = find_key_from(pairs, "citationId", 0);
                let f_pre = find_key_from(pairs, "citationPrefix", 0);
                let f_suf = find_key_from(pairs, "citationSuffix", 0);
                let f_mode = find_key_from(pairs, "citationMode", 0);
                let f_num = find_key_from(pairs, "citationNoteNum", 0);
                let f_hash = find_key_from(pairs, "citationHash", 0);
                match (f_id, f_pre, f_suf, f_mode, f_num, f_hash) {
                    (Some(a), Some(b), Some(c), Some(d), Some(n), Some(h)) => {
                        proof {
                            assert(ps[a as int].1 == view_value(pairs@[a as int].1));
                            assert(ps[b as int].1 == view_value(pairs@[b as int].1));
                            assert(ps[c as int].1 == view_value(pairs@[c as int].1));
                            assert(ps[d as int].1 == view_value(pairs@[d as int].1));
                            assert(ps[n as int].1 == view_value(pairs@[n as int].1));
                            assert(ps[h as int].1 == view_value(pairs@[h as int].1));
                        }
                        match dec_text_exec(&pairs[a].1) {
                            Ok(id) => match dec_inline_seq_payload_exec(&pairs[b].1) {
                                Ok(prefix) => match dec_inline_seq_payload_exec(&pairs[c].1) {
                                    Ok(suffix) => match CitationMode::decode(&pairs[d].1) {
                                        Ok(mode) => match dec_u64_exec(&pairs[n].1) {
                                            Ok(note_num) => match dec_u64_exec(&pairs[h].1) {
                                                Ok(hash) => Ok(
                                                    Citation {
                                                        citation_id: id,
                                                        citation_prefix: prefix,
                                                        citation_suffix: suffix,
                                                        citation_mode: mode,
                                                        citation_note_num: note_num,
                                                        citation_hash: hash,
                                                    },
                                                ),
                                                Err(e) => Err(e),
                                            },
                                            Err(e) => Err(e),
                                        },
                                        Err(e) => Err(e),
                                    },
                                    Err(e) => Err(e),
                                },
                                Err(e) => Err(e),
                            },
                            Err(e) => Err(e),
                        }
                    },
                    _ => Err(DecodeError::MissingTag),
                }
            },
            _ => Err(DecodeError::TypeMismatch),
        }
    }
}

fn dec_citations_exec(items: &Vec<WireValue>, n: usize) -> (r: Result<Vec<Citation>, DecodeError>)
    requires
        n <= items.len(),
    ensures
        r_citations(r) == dec_citations(view_values(items@).subrange(0, n as int)),
    decreases items@, n, 0int,
{
    let ghost s = view_values(items@).subrange(0, n as int);
    if n == 0 {
        let out: Vec<Citation> = Vec::new();
        proof {
            assert(s =~= Seq::<SpecValue>::empty());
            assert(view_citations(out@) =~= Seq::<SpecCitation>::empty());
        }
        Ok(out)
    } else {
        proof {
            assert(s.drop_last() =~= view_values(items@).subrange(0, n as int - 1));
            assert(s.last() == view_value(items@[n as int - 1]));
        }
        match dec_citations_exec(items, n - 1) {
            Ok(mut rest) => match Citation::decode(&items[n - 1]) {
                Ok(c) => {
                    let ghost restv = rest@;
                    let ghost cv = view_citation(c);
                    rest.push(c);
                    proof {
                        assert(view_citations(rest@) =~= view_citations(restv).push(cv));
                    }
                    Ok(rest)
                },
                Err(e) => Err(e),
            },
            Err(e) => Err(e),
        }
    }
}

impl Block {
    /// Decodes a block element from a wire value.
    pub fn decode(v: &WireValue) -> (r: Result<Block, DecodeError>)
        ensures
            r_block(r) == dec_block(view_value(*v)),
        decreases v, 0int, 3int,
    {
        match v {
            WireValue::Text(s) => if str_is(s, "HorizontalRule") {
                Ok(Block::HorizontalRule)
            } else if str_is(s, "Null") {
                Ok(Block::Null)
            } else {
                Err(DecodeError::UnknownTag)
            },
            WireValue::Obj(pairs) => if pairs.len() != 1 {
                Err(DecodeError::MissingTag)
            } else {
                dec_block_tagged_exec(&pairs[0].0, &pairs[0].1)
            },
            _ => Err(DecodeError::TypeMismatch),
        }
    }
}

#[verifier::rlimit(100)]
fn dec_block_tagged_exec(tag: &String, payload: &WireValue) -> (r: Result<Block, DecodeError>)
    ensures
        r_block(r) == dec_block_tagged(tag@, view_value(*payload)),
    decreases payload, 0int, 2int,
{
    if str_is(tag, "Plain") {
        match dec_inline_seq_payload_exec(payload) {
            Ok(v) => Ok(Block::Plain(v)),
            Err(e) => Err(e),
        }
    } else if str_is(tag, "Para") {
        match dec_inline_seq_payload_exec(payload) {
            Ok(v) => Ok(Block::Para(v)),
            Err(e) => Err(e),
        }
    } else if str_is(tag, "CodeBlock") {
        match payload {
            WireValue::Arr(items) => if items.len() != 2 {
                Err(DecodeError::ArityMismatch)
            } else {
                match dec_attr_exec(&items[0]) {
                    Ok(a) => match dec_text_exec(&items[1]) {
                        Ok(s) => Ok(Block::CodeBlock(a, s)),
                        Err(e) => Err(e),
                    },
                    Err(e) => Err(e),
                }
            },
            _ => Err(DecodeError::TypeMismatch),
        }
    } else if str_is(tag, "RawBlock") {
        match payload {
            WireValue::Arr(items) => if items.len() != 2 {
                Err(DecodeError::ArityMismatch)
            } else {
                match dec_text_exec(&items[0]) {
                    Ok(f) => match dec_text_exec(&items[1]) {
                        Ok(s) => Ok(Block::RawBlock(f, s)),
                        Err(e) => Err(e),
                    },
                    Err(e) => Err(e),
                }
            },
            _ => Err(DecodeError::TypeMismatch),
        }
    } else if str_is(tag, "BlockQuote") {
        match dec_block_seq_payload_exec(payload) {
            Ok(v) => Ok(Block::BlockQuote(v)),
            Err(e) => Err(e),
        }
    } else if str_is(tag, "OrderedList") {
        match payload {
            WireValue::Arr(items) => if items.len() != 2 {
                Err(DecodeError::ArityMismatch)
            } else {
                match dec_list_attributes_exec(&items[0]) {
                    Ok(la) => match dec_blockss_payload_exec(&items[1]) {
                        Ok(v) => Ok(Block::OrderedList(la, v)),
                        Err(e) => Err(e),
                    },
                    Err(e) => Err(e),
                }
            },
            _ => Err(DecodeError::TypeMismatch),
        }
    } else if str_is(tag, "BulletList") {
        match dec_blockss_payload_exec(payload) {
            Ok(v) => Ok(Block::BulletList(v)),
            Err(e) => Err(e),
        }
    } else if str_is(tag, "DefinitionList") {
        match payload {
            WireValue::Arr(items) => {
                let r = dec_defitems_exec(items, items.len());
                proof {
                    assert(view_values(items@).subrange(0, items@.len() as int) =~= view_values(
                        items@,
                    ));
                }
                match r {
                    Ok(v) => Ok(Block::DefinitionList(v)),
                    Err(e) => Err(e),
                }
            },
            _ => Err(DecodeError::TypeMismatch),
        }
    } else if str_is(tag, "Header") {
        match payload {
            WireValue::Arr(items) => if items.len() != 3 {
                Err(DecodeError::ArityMismatch)
            } else {
                match dec_u64_exec(&items[0]) {
                    Ok(lvl) => if lvl >= 1 {
                        match dec_attr_exec(&items[1]) {
                            Ok(a) => match dec_inline_seq_payload_exec(&items[2]) {
                                Ok(v) => Ok(Block::Header(lvl, a, v)),
                                Err(e) => Err(e),
                            },
                            Err(e) => Err(e),
                        }
                    } else {
                        Err(DecodeError::TypeMismatch)
                    },
                    Err(e) => Err(e),
                }
            },
            _ => Err(DecodeError::TypeMismatch),
        }
    } else if str_is(tag, "HorizontalRule") {
        match unit_payload_check(payload) {
            None => Ok(Block::HorizontalRule),
            Some(e) => Err(e),
        }
    } else if str_is(tag, "Table") {
        match payload {
            WireValue::Arr(items) => if items.len() != 5 {
                Err(DecodeError::ArityMismatch)
            } else {
                dec_table_exec(items)
            },
            _ => Err(DecodeError::TypeMismatch),
        }
    } else if str_is(tag, "Div") {
        match payload {
            WireValue::Arr(items) => if items.len() != 2 {
                Err(DecodeError::ArityMismatch)
            } else {
                match dec_attr_exec(&items[0]) {
                    Ok(a) => match dec_block_seq_payload_exec(&items[1]) {
                        Ok(v) => Ok(Block::Div(a, v)),
                        Err(e) => Err(e),
                    },
                    Err(e) => Err(e),
                }
            },
            _ => Err(DecodeError::TypeMismatch),
        }
    } else if str_is(tag, "Null") {
        match unit_payload_check(payload) {
            None => Ok(Block::Null),
            Some(e) => Err(e),
        }
    } else {
        Err(DecodeError::UnknownTag)
    }
}

#[verifier::rlimit(60)]
fn dec_table_exec(items: &Vec<WireValue>) -> (r: Result<Block, DecodeError>)
    requires
        items@.len() == 5,
    ensures
        r_block(r) == dec_table(view_values(items@)),
    decreases items@, 0int, 1int,
{
    proof {
        assert(view_values(items@)[0] == view_value(items@[0]));
        assert(view_values(items@)[1] == view_value(items@[1]));
        assert(view_values(items@)[2] == view_value(items@[2]));
        assert(view_values(items@)[3] == view_value(items@[3]));
        assert(view_values(items@)[4] == view_value(items@[4]));
    }
    let it1 = &items[1];
    let it2 = &items[2];
    let it3 = &items[3];
    match (it1, it2, it3) {
        (WireValue::Arr(als), WireValue::Arr(ws), WireValue::Arr(hs)) => {
            proof {
                assert(view_value(items@[1]) == SpecValue::Arr(view_values(als@)));
                assert(view_value(items@[2]) == SpecValue::Arr(view_values(ws@)));
                assert(view_value(items@[3]) == SpecValue::Arr(view_values(hs@)));
            }
            if als.len() != ws.len() || ws.len() != hs.len() {
                return Err(DecodeError::ArityMismatch);
            }
            proof {
                assert(view_values(als@).subrange(0, als@.len() as int) =~= view_values(als@));
                assert(view_values(ws@).subrange(0, ws@.len() as int) =~= view_values(ws@));
            }
            match dec_inline_seq_payload_exec(&items[0]) {
                Ok(caption) => match dec_alignments_exec(als, als.len()) {
                    Ok(aligns) => match dec_nums_exec(ws, ws.len()) {
                        Ok(widths) => match dec_blockss_payload_exec(&items[3]) {
                            Ok(headers) => match dec_blocksss_payload_exec(&items[4]) {
                                Ok(rows) => Ok(
                                    Block::Table(caption, aligns, widths, headers, rows),
                                ),
                                Err(e) => Err(e),
                            },
                            Err(e) => Err(e),
                        },
                        Err(e) => Err(e),
                    },
                    Err(e) => Err(e),
                },
                Err(e) => Err(e),
            }
        },
        _ => {
            proof {
                assert(!(view_value(items@[1]) is Arr) || !(view_value(items@[2]) is Arr) || !(
                view_value(items@[3]) is Arr));
            }
            Err(DecodeError::TypeMismatch)
        },
    }
}

fn dec_block_seq_payload_exec(payload: &WireValue) -> (r: Result<Vec<Block>, DecodeError>)
    ensures
        r_blocks(r) == dec_block_seq_payload(view_value(*payload)),
    decreases payload, 0int, 0int,
{
    match payload {
        WireValue::Arr(items) => {
            let r = dec_blocks_exec(items, items.len());
            proof {
                assert(view_values(items@).subrange(0, items@.len() as int) =~= view_values(
                    items@,
                ));
            }
            r
        },
        _ => Err(DecodeError::TypeMismatch),
    }
}

fn dec_blocks_exec(items: &Vec<WireValue>, n: usize) -> (r: Result<Vec<Block>, DecodeError>)
    requires
        n <= items.len(),
    ensures
        r_blocks(r) == dec_blocks(view_values(items@).subrange(0, n as int)),
    decreases items@, n, 0int,
{
    let ghost s = view_values(items@).subrange(0, n as int);
    if n == 0 {
        let out: Vec<Block> = Vec::new();
        proof {
            assert(s =~= Seq::<SpecValue>::empty());
            assert(view_blocks(out@) =~= Seq::<SpecBlock>::empty());
        }
        Ok(out)
    } else {
        proof {
            assert(s.drop_last() =~= view_values(items@).subrange(0, n as int - 1));
            assert(s.last() == view_value(items@[n as int - 1]));
        }
        match dec_blocks_exec(items, n - 1) {
            Ok(mut rest) => match Block::decode(&items[n - 1]) {
                Ok(b) => {
                    let ghost restv = rest@;
                    let ghost bv = view_block(b);
                    rest.push(b);
                    proof {
                        assert(view_blocks(rest@) =~= view_blocks(restv).push(bv));
                    }
                    Ok(rest)
                },
                Err(e) => Err(e),
            },
            Err(e) => Err(e),
        }
    }
}

fn dec_blockss_payload_exec(payload: &WireValue) -> (r: Result<Vec<Vec<Block>>, DecodeError>)
    ensures
        r_blockss(r) == dec_blockss_payload(view_value(*payload)),
    decreases payload, 0int, 0int,
{
    match payload {
        WireValue::Arr(items) => {
            let r = dec_blockss_exec(items, items.len());
            proof {
                assert(view_values(items@).subrange(0, items@.len() as int) =~= view_values(
                    items@,
                ));
            }
            r
        },
        _ => Err(DecodeError::TypeMismatch),
    }
}

fn dec_blockss_exec(items: &Vec<WireValue>, n: usize) -> (r: Result<Vec<Vec<Block>>, DecodeError>)
    requires
        n <= items.len(),
    ensures
        r_blockss(r) == dec_blockss(view_values(items@).subrange(0, n as int)),
    decreases items@, n, 0int,
{
    let ghost s = view_values(items@).subrange(0, n as int);
    if n == 0 {
        let out: Vec<Vec<Block>> = Vec::new();
        proof {
            assert(s =~= Seq::<SpecValue>::empty());
            assert(view_blockss(out@) =~= Seq::<Seq<SpecBlock>>::empty());
        }
        Ok(out)
    } else {
        proof {
            assert(s.drop_last() =~= view_values(items@).subrange(0, n as int - 1));
            assert(s.last() == view_value(items@[n as int - 1]));
        }
        match dec_blockss_exec(items, n - 1) {
            Ok(mut rest) => match dec_block_seq_payload_exec(&items[n - 1]) {
                Ok(b) => {
                    let ghost restv = rest@;
                    let ghost bv = view_blocks(b@);
                    rest.push(b);
                    proof {
                        assert(view_blockss(rest@) =~= view_blockss(restv).push(bv));
                    }
                    Ok(rest)
                },
                Err(e) => Err(e),
            },
            Err(e) => Err(e),
        }
    }
}

fn dec_blocksss_payload_exec(payload: &WireValue) -> (r: Result<Vec<Vec<Vec<Block>>>, DecodeError>)
    ensures
        r_blocksss(r) == dec_blocksss_payload(view_value(*payload)),
    decreases payload, 0int, 0int,
{
    match payload {
        WireValue::Arr(items) => {
            let r = dec_blocksss_exec(items, items.len());
            proof {
                assert(view_values(items@).subrange(0, items@.len() as int) =~= view_values(
                    items@,
                ));
            }
            r
        },
        _ => Err(DecodeError::TypeMismatch),
    }
}

fn dec_blocksss_exec(items: &Vec<WireValue>, n: usize) -> (r: Result<
    Vec<Vec<Vec<Block>>>,
    DecodeError,
>)
    requires
        n <= items.len(),
    ensures
        r_blocksss(r) == dec_blocksss(view_values(items@).subrange(0, n as int)),
    decreases items@, n, 0int,
{
    let ghost s = view_values(items@).subrange(0, n as int);
    if n == 0 {
        let out: Vec<Vec<Vec<Block>>> = Vec::new();
        proof {
            assert(s =~= Seq::<SpecValue>::empty());
            assert(view_blocksss(out@) =~= Seq::<Seq<Seq<SpecBlock>>>::empty());
        }
        Ok(out)
    } else {
        proof {
            assert(s.drop_last() =~= view_values(items@).subrange(0, n as int - 1));
            assert(s.last() == view_value(items@[n as int - 1]));
        }
        match dec_blocksss_exec(items, n - 1) {
            Ok(mut rest) => match dec_blockss_payload_exec(&items[n - 1]) {
                Ok(b) => {
                    let ghost restv = rest@;
                    let ghost bv = view_blockss(b@);
                    rest.push(b);
                    proof {
                        assert(view_blocksss(rest@) =~= view_blocksss(restv).push(bv));
                    }
                    Ok(rest)
                },
                Err(e) => Err(e),
            },
            Err(e) => Err(e),
        }
    }
}

fn dec_defitem_exec(v: &WireValue) -> (r: Result<(Vec<Inline>, Vec<Vec<Block>>), DecodeError>)
    ensures
        (match r {
            Ok(d) => dec_defitem(view_value(*v)) == Ok::<
                (Seq<SpecInline>, Seq<Seq<SpecBlock>>),
                DecodeError,
            >((view_inlines(d.0@), view_blockss(d.1@))),
            Err(e) => dec_defitem(view_value(*v)) == Err::<
                (Seq<SpecInline>, Seq<Seq<SpecBlock>>),
                DecodeError,
            >(e),
        }),
    decreases v, 0int, 2int,
{
    match v {
        WireValue::Arr(items) => if items.len() != 2 {
            Err(DecodeError::ArityMismatch)
        } else {
            match dec_inline_seq_payload_exec(&items[0]) {
                Ok(term) => match dec_blockss_payload_exec(&items[1]) {
                    Ok(defs) => Ok((term, defs)),
                    Err(e) => Err(e),
                },
                Err(e) => Err(e),
            }
        },
        _ => Err(DecodeError::TypeMismatch),
    }
}

fn dec_defitems_exec(items: &Vec<WireValue>, n: usize) -> (r: Result<
    Vec<(Vec<Inline>, Vec<Vec<Block>>)>,
    DecodeError,
>)
    requires
        n <= items.len(),
    ensures
        r_defitems(r) == dec_defitems(view_values(items@).subrange(0, n as int)),
    decreases items@, n, 0int,
{
    let ghost s = view_values(items@).subrange(0, n as int);
    if n == 0 {
        let out: Vec<(Vec<Inline>, Vec<Vec<Block>>)> = Vec::new();
        proof {
            assert(s =~= Seq::<SpecValue>::empty());
            assert(view_defitems(out@) =~= Seq::<
                (Seq<SpecInline>, Seq<Seq<SpecBlock>>),
            >::empty());
        }
        Ok(out)
    } else {
        proof {
            assert(s.drop_last() =~= view_values(items@).subrange(0, n as int - 1));
            assert(s.last() == view_value(items@[n as int - 1]));
        }
        match dec_defitems_exec(items, n - 1) {
            Ok(mut rest) => match dec_defitem_exec(&items[n - 1]) {
                Ok(d) => {
                    let ghost restv = rest@;
                    let ghost dv = (view_inlines(d.0@), view_blockss(d.1@));
                    rest.push(d);
                    proof {
                        assert(view_defitems(rest@) =~= view_defitems(restv).push(dv));
                    }
                    Ok(rest)
                },
                Err(e) => Err(e),
            },
            Err(e) => Err(e),
        }
    }
}

impl MetaValue {
    /// Decodes a metadata value from a wire value.
    pub fn decode(v: &WireValue) -> (r: Result<MetaValue, DecodeError>)
        ensures
            r_meta_value(r) == dec_meta_value(view_value(*v)),
        decreases v, 0int, 3int,
    {
        match v {
            WireValue::Obj(pairs) => if pairs.len() != 1 {
                Err(DecodeError::MissingTag)
            } else {
                dec_meta_value_tagged_exec(&pairs[0].0, &pairs[0].1)
            },
            WireValue::Text(_) => Err(DecodeError::UnknownTag),
            _ => Err(DecodeError::TypeMismatch),
        }
    }
}

fn dec_meta_value_tagged_exec(tag: &String, payload: &WireValue) -> (r: Result<
    MetaValue,
    DecodeError,
>)
    ensures
        r_meta_value(r) == dec_meta_value_tagged(tag@, view_value(*payload)),
    decreases payload, 0int, 2int,
{
    if str_is(tag, "MetaMap") {
        match payload {
            WireValue::Obj(entries) => {
                let r = dec_meta_entries_exec(entries, entries.len());
                proof {
                    assert(view_pairs(entries@).subrange(0, entries@.len() as int) =~= view_pairs(
                        entries@,
                    ));
                }
                match r {
                    Ok(es) => Ok(MetaValue::MetaMap(es)),
                    Err(e) => Err(e),
                }
            },
            _ => Err(DecodeError::TypeMismatch),
        }
    } else if str_is(tag, "MetaList") {
        match payload {
            WireValue::Arr(items) => {
                let r = dec_meta_values_exec(items, items.len());
                proof {
                    assert(view_values(items@).subrange(0, items@.len() as int) =~= view_values(
                        items@,
                    ));
                }
                match r {
                    Ok(vs) => Ok(MetaValue::MetaList(vs)),
                    Err(e) => Err(e),
                }
            },
            _ => Err(DecodeError::TypeMismatch),
        }
    } else if str_is(tag, "MetaBool") {
        match payload {
            WireValue::Bool(b) => Ok(MetaValue::MetaBool(*b)),
            _ => Err(DecodeError::TypeMismatch),
        }
    } else if str_is(tag, "MetaString") {
        match payload {
            WireValue::Text(s) => Ok(MetaValue::MetaString(s.clone())),
            _ => Err(DecodeError::TypeMismatch),
        }
    } else if str_is(tag, "MetaInlines") {
        match dec_inline_seq_payload_exec(payload) {
            Ok(v) => Ok(MetaValue::MetaInlines(v)),
            Err(e) => Err(e),
        }
    } else if str_is(tag, "MetaBlocks") {
        match dec_block_seq_payload_exec(payload) {
            Ok(v) => Ok(MetaValue::MetaBlocks(v)),
            Err(e) => Err(e),
        }
    } else {
        Err(DecodeError::UnknownTag)
    }
}

fn dec_meta_values_exec(items: &Vec<WireValue>, n: usize) -> (r: Result<Vec<MetaValue>, DecodeError>)
    requires
        n <= items.len(),
    ensures
        r_meta_values(r) == dec_meta_values(view_values(items@).subrange(0, n as int)),
    decreases items@, n, 0int,
{
    let ghost s = view_values(items@).subrange(0, n as int);
    if n == 0 {
        let out: Vec<MetaValue> = Vec::new();
        proof {
            assert(s =~= Seq::<SpecValue>::empty());
            assert(view_meta_values(out@) =~= Seq::<SpecMetaValue>::empty());
        }
        Ok(out)
    } else {
        proof {
            assert(s.drop_last() =~= view_values(items@).subrange(0, n as int - 1));
            assert(s.last() == view_value(items@[n as int - 1]));
        }
        match dec_meta_values_exec(items, n - 1) {
            Ok(mut rest) => match MetaValue::decode(&items[n - 1]) {
                Ok(m) => {
                    let ghost restv = rest@;
                    let ghost mv = view_meta_value(m);
                    rest.push(m);
                    proof {
                        assert(view_meta_values(rest@) =~= view_meta_values(restv).push(mv));
                    }
                    Ok(rest)
                },
                Err(e) => Err(e),
            },
            Err(e) => Err(e),
        }
    }
}

fn dec_meta_entries_exec(pairs: &Vec<(String, WireValue)>, n: usize) -> (r: Result<
    Vec<(String, MetaValue)>,
    DecodeError,
>)
    requires
        n <= pairs.len(),
    ensures
        r_meta_entries(r) == dec_meta_entries(view_pairs(pairs@).subrange(0, n as int)),
        (r matches Ok(es) ==> crate::model::entries_sorted(view_meta_entries(es@))),
    decreases pairs@, n, 0int,
{
    let ghost s = view_pairs(pairs@).subrange(0, n as int);
    if n == 0 {
        let out: Vec<(String, MetaValue)> = Vec::new();
        proof {
            assert(s =~= Seq::<(Seq<char>, SpecValue)>::empty());
            assert(view_meta_entries(out@) =~= Seq::<(Seq<char>, SpecMetaValue)>::empty());
        }
        Ok(out)
    } else {
        proof {
            assert(s.drop_last() =~= view_pairs(pairs@).subrange(0, n as int - 1));
            assert(s.last() == (pairs@[n as int - 1].0@, view_value(pairs@[n as int - 1].1)));
        }
        match dec_meta_entries_exec(pairs, n - 1) {
            Ok(mut rest) => match MetaValue::decode(&pairs[n - 1].1) {
                Ok(mv) => {
                    crate::metamap::meta_entries_insert(&mut rest, pairs[n - 1].0.clone(), mv);
                    Ok(rest)
                },
                Err(e) => Err(e),
            },
            Err(e) => Err(e),
        }
    }
}

fn dec_meta_exec(v: &WireValue) -> (r: Result<Meta, DecodeError>)
    ensures
        r_meta(r) == dec_meta(view_value(*v)),
    decreases v, 0int, 0int,
{
    match v {
        WireValue::Obj(pairs) => {
            proof {
                assert(view_value(*v) == SpecValue::Obj(view_pairs(pairs@)));
            }
            if pairs.len() != 1 {
                return Err(DecodeError::MissingTag);
            }
            proof {
                assert(view_pairs(pairs@)[0] == (pairs@[0].0@, view_value(pairs@[0].1)));
            }
            if !str_is(&pairs[0].0, "unMeta") {
                return Err(DecodeError::MissingTag);
            }
            let inner = &pairs[0].1;
            proof {
                assert(*inner == pairs@[0].1);
            }
            match inner {
                WireValue::Obj(entries) => {
                    proof {
                        assert(view_value(pairs@[0].1) == SpecValue::Obj(view_pairs(entries@)));
                    }
                    let r = dec_meta_entries_exec(entries, entries.len());
                    proof {
                        assert(view_pairs(entries@).subrange(0, entries@.len() as int)
                            =~= view_pairs(entries@));
                    }
                    match r {
                        Ok(es) => Ok(Meta { un_meta: es }),
                        Err(e) => Err(e),
                    }
                },
                _ => Err(DecodeError::TypeMismatch),
            }
        },
        _ => Err(DecodeError::TypeMismatch),
    }
}

impl Meta {
    /// Decodes a metadata wrapper object from a wire value.
    pub fn decode(v: &WireValue) -> (r: Result<Meta, DecodeError>)
        ensures
            r_meta(r) == dec_meta(view_value(*v)),
    {
        dec_meta_exec(v)
    }
}

impl Pandoc {
    /// Decodes a document from its wire value: a two-element array of
    /// metadata and blocks. Every malformed value yields the documented
    /// error; decoding never substitutes defaults and never panics.
    pub fn decode(v: &WireValue) -> (r: Result<Pandoc, DecodeError>)
        ensures
            r_pandoc(r) == dec_pandoc(view_value(*v)),
    {
        match v {
            WireValue::Arr(items) => {
                proof {
                    assert(view_value(*v) == SpecValue::Arr(view_values(items@)));
                }
                if items.len() != 2 {
                    return Err(DecodeError::NotAnArray);
                }
                proof {
                    assert(view_values(items@)[0] == view_value(items@[0]));
                    assert(view_values(items@)[1] == view_value(items@[1]));
                }
                let meta = match dec_meta_exec(&items[0]) {
                    Ok(m) => m,
                    Err(e) => {
                        return Err(e);
                    },
                };
                let b1 = &items[1];
                proof {
                    assert(*b1 == items@[1]);
                }
                match b1 {
                    WireValue::Arr(bs) => {
                        proof {
                            assert(view_value(items@[1]) == SpecValue::Arr(view_values(bs@)));
                        }
                        let r = dec_blocks_exec(bs, bs.len());
                        proof {
                            assert(view_values(bs@).subrange(0, bs@.len() as int) =~= view_values(
                                bs@,
                            ));
                        }
                        match r {
                            Ok(blocks) => Ok(Pandoc { meta, blocks }),
                            Err(e) => Err(e),
                        }
                    },
                    _ => Err(DecodeError::TypeMismatch),
                }
            },
            _ => Err(DecodeError::NotAnArray),
        }
    }

    /// Builds a document from the two halves of the wire form — the
    /// metadata value and the block array value — both already in the
    /// single-key form; values in the `t`/`c` form go through
    /// `from_pandoc` first.
    pub fn new_from_json(meta: WireValue, blocks: WireValue) -> (r: Result<Pandoc, DecodeError>)
        ensures
            r_pandoc(r) == dec_pandoc(
                SpecValue::Arr(seq![view_value(meta), view_value(blocks)]),
            ),
    {
        let ghost mv = view_value(meta);
        let ghost bv = view_value(blocks);
        let mut items: Vec<WireValue> = Vec::new();
        items.push(meta);
        items.push(blocks);
        let arr = WireValue::Arr(items);
        proof {
            assert(view_values(items@) =~= seq![mv, bv]);
        }
        Pandoc::decode(&arr)
    }
}

} // verus!
