//! The properties the library guarantees, stated and proved once:
//! decoding inverts encoding on well-formed documents, metadata encoding
//! depends only on the denoted mapping, and walking with an identity
//! transform changes nothing.

use vstd::prelude::*;

use crate::decode::{
    dec_alignment, dec_alignments, dec_attr, dec_block, dec_blocks, dec_blockss, dec_blocksss,
    dec_citation, dec_citation_mode, dec_citations, dec_defitems, dec_inline, dec_inlines,
    dec_list_attributes, dec_list_number_delim, dec_list_number_style, dec_math_type, dec_meta,
    dec_meta_entries, dec_meta_value, dec_meta_values, dec_nums, dec_pandoc, dec_quote_type,
    dec_attr_inlines_target, dec_block_seq_payload, dec_block_tagged, dec_blockss_payload,
    dec_blocksss_payload, dec_citation_fields, dec_defitem, dec_inline_seq_payload,
    dec_inline_tagged, dec_meta_value_tagged, dec_table, dec_target, dec_text_pairs, dec_texts,
    dec_u64, find_idx, DecodeError,
};
use crate::encode::{
    enc_alignment, enc_alignments, enc_attr, enc_block, enc_blocks, enc_blockss, enc_blocksss,
    enc_citation, enc_citation_mode, enc_citations, enc_defitems, enc_inline, enc_inlines,
    enc_list_attributes, enc_list_number_delim, enc_list_number_style, enc_math_type, enc_meta,
    enc_meta_entries, enc_meta_value, enc_meta_values, enc_nums, enc_pandoc, enc_quote_type,
    enc_target, enc_text_pairs, enc_texts,
};
use crate::metamap::{
    canon_entries, insert_entry, lemma_canon_of_map, lemma_canon_sorted_id, to_map,
};
use crate::model::{
    entries_sorted, wf_block, wf_blocks, wf_blockss, wf_blocksss, wf_citation, wf_citations,
    wf_defitems, wf_inline, wf_inlines, wf_meta, wf_meta_entries, wf_meta_value, wf_meta_values,
    wf_pandoc, SpecAttr, SpecBlock, SpecCitation, SpecInline, SpecListAttributes, SpecMeta,
    SpecMetaValue, SpecPandoc, SpecTarget,
};
use crate::json::{
    from_entries, from_pandoc_val, from_vals, spec_filter_block, spec_filter_document,
    spec_filter_inline,
};
use crate::strutil::{lemma_u64_dec_str_val, lex_lt, u64_dec_str};
use crate::types::{Alignment, CitationMode, ListNumberDelim, ListNumberStyle, MathType, QuoteType};
use crate::value::SpecValue;
use crate::walk::{
    walk_block, walk_block_i, walk_block_seq, walk_blocks_i_seq, walk_blockss_i_seq,
    walk_blockss_seq, walk_blocksss_i_seq, walk_blocksss_seq, walk_citation, walk_citation_seq,
    walk_defitem_b, walk_defitem_i, walk_defitems_b_seq, walk_defitems_i_seq, walk_inline,
    walk_inline_seq, walk_meta_b, walk_meta_entries_b_seq, walk_meta_entries_i_seq,
    walk_meta_entries_m_seq, walk_meta_entry_b, walk_meta_entry_i, walk_meta_entry_m,
    walk_meta_i, walk_meta_value_b, walk_meta_value_i, walk_meta_value_m, walk_meta_values_b_seq,
    walk_meta_values_i_seq, walk_meta_values_m_seq, walk_pandoc_b, walk_pandoc_i,
};
use crate::write::write_value;

verus! {

proof fn rt_u64(n: u64)
    ensures
        dec_u64(SpecValue::Num(u64_dec_str(n as int))) == Ok::<u64, DecodeError>(n),
{
    lemma_u64_dec_str_val(n as int);
}

proof fn rt_quote_type(q: QuoteType)
    ensures
        dec_quote_type(enc_quote_type(q)) == Ok::<QuoteType, DecodeError>(q),
{
    reveal_strlit("SingleQuote");
    reveal_strlit("DoubleQuote");
    assert("SingleQuote"@.len() == 11);
    assert("SingleQuote"@[0] == 'S');
    assert("SingleQuote"@[1] == 'i');
    assert("DoubleQuote"@.len() == 11);
    assert("DoubleQuote"@[0] == 'D');
    assert("DoubleQuote"@[1] == 'o');
}

proof fn rt_math_type(m: MathType)
    ensures
        dec_math_type(enc_math_type(m)) == Ok::<MathType, DecodeError>(m),
{
    reveal_strlit("DisplayMath");
    reveal_strlit("InlineMath");
    assert("DisplayMath"@.len() == 11);
    assert("DisplayMath"@[0] == 'D');
    assert("DisplayMath"@[1] == 'i');
    assert("InlineMath"@.len() == 10);
    assert("InlineMath"@[0] == 'I');
    assert("InlineMath"@[1] == 'n');
}

proof fn rt_alignment(a: Alignment)
    ensures
        dec_alignment(enc_alignment(a)) == Ok::<Alignment, DecodeError>(a),
{
    reveal_strlit("AlignLeft");
    reveal_strlit("AlignRight");
    reveal_strlit("AlignCenter");
    reveal_strlit("AlignDefault");
    assert("AlignLeft"@.len() == 9);
    assert("AlignLeft"@[0] == 'A');
    assert("AlignLeft"@[1] == 'l');
    assert("AlignRight"@.len() == 10);
    assert("AlignRight"@[0] == 'A');
    assert("AlignRight"@[1] == 'l');
    assert("AlignCenter"@.len() == 11);
    assert("AlignCenter"@[0] == 'A');
    assert("AlignCenter"@[1] == 'l');
    assert("AlignDefault"@.len() == 12);
    assert("AlignDefault"@[0] == 'A');
    assert("AlignDefault"@[1] == 'l');
}

proof fn rt_style(s: ListNumberStyle)
    ensures
        dec_list_number_style(enc_list_number_style(s)) == Ok::<ListNumberStyle, DecodeError>(s),
{
    reveal_strlit("DefaultStyle");
    reveal_strlit("Example");
    reveal_strlit("Decimal");
    reveal_strlit("LowerRoman");
    reveal_strlit("UpperRoman");
    reveal_strlit("LowerAlpha");
    reveal_strlit("UpperAlpha");
    assert("DefaultStyle"@.len() == 12);
    assert("DefaultStyle"@[0] == 'D');
    assert("DefaultStyle"@[1] == 'e');
    assert("DefaultStyle"@[5] == 'l');
    assert("Example"@.len() == 7);
    assert("Example"@[0] == 'E');
    assert("Example"@[1] == 'x');
    assert("Example"@[5] == 'l');
    assert("Decimal"@.len() == 7);
    assert("Decimal"@[0] == 'D');
    assert("Decimal"@[1] == 'e');
    assert("Decimal"@[5] == 'a');
    assert("LowerRoman"@.len() == 10);
    assert("LowerRoman"@[0] == 'L');
    assert("LowerRoman"@[1] == 'o');
    assert("LowerRoman"@[5] == 'R');
    assert("UpperRoman"@.len() == 10);
    assert("UpperRoman"@[0] == 'U');
    assert("UpperRoman"@[1] == 'p');
    assert("UpperRoman"@[5] == 'R');
    assert("LowerAlpha"@.len() == 10);
    assert("LowerAlpha"@[0] == 'L');
    assert("LowerAlpha"@[1] == 'o');
    assert("LowerAlpha"@[5] == 'A');
    assert("UpperAlpha"@.len() == 10);
    assert("UpperAlpha"@[0] == 'U');
    assert("UpperAlpha"@[1] == 'p');
    assert("UpperAlpha"@[5] == 'A');
}

proof fn rt_delim(d: ListNumberDelim)
    ensures
        dec_list_number_delim(enc_list_number_delim(d)) == Ok::<ListNumberDelim, DecodeError>(d),
{
    reveal_strlit("DefaultDelim");
    reveal_strlit("Period");
    reveal_strlit("OneParen");
    reveal_strlit("TwoParens");
    assert("DefaultDelim"@.len() == 12);
    assert("DefaultDelim"@[0] == 'D');
    assert("DefaultDelim"@[1] == 'e');
    assert("Period"@.len() == 6);
    assert("Period"@[0] == 'P');
    assert("Period"@[1] == 'e');
    assert("OneParen"@.len() == 8);
    assert("OneParen"@[0] == 'O');
    assert("OneParen"@[1] == 'n');
    assert("TwoParens"@.len() == 9);
    assert("TwoParens"@[0] == 'T');
    assert("TwoParens"@[1] == 'w');
}

proof fn rt_citation_mode(m: CitationMode)
    ensures
        dec_citation_mode(enc_citation_mode(m)) == Ok::<CitationMode, DecodeError>(m),
{
    reveal_strlit("AuthorInText");
    reveal_strlit("SuppressAuthor");
    reveal_strlit("NormalCitation");
    assert("AuthorInText"@.len() == 12);
    assert("AuthorInText"@[0] == 'A');
    assert("AuthorInText"@[1] == 'u');
    assert("SuppressAuthor"@.len() == 14);
    assert("SuppressAuthor"@[0] == 'S');
    assert("SuppressAuthor"@[1] == 'u');
    assert("NormalCitation"@.len() == 14);
    assert("NormalCitation"@[0] == 'N');
    assert("NormalCitation"@[1] == 'o');
}

proof fn rt_texts(s: Seq<Seq<char>>)
    ensures
        dec_texts(enc_texts(s)) == Ok::<Seq<Seq<char>>, DecodeError>(s),
    decreases s.len(),
{
    if s.len() == 0 {
        assert(enc_texts(s) =~= Seq::<SpecValue>::empty());
        assert(dec_texts(enc_texts(s)) == Ok::<Seq<Seq<char>>, DecodeError>(Seq::empty()));
        assert(s =~= Seq::<Seq<char>>::empty());
    } else {
        rt_texts(s.drop_last());
        assert(enc_texts(s).drop_last() =~= enc_texts(s.drop_last()));
        assert(enc_texts(s).last() == SpecValue::Text(s.last()));
        assert(s.drop_last().push(s.last()) =~= s);
    }
}

proof fn rt_text_pairs(s: Seq<(Seq<char>, Seq<char>)>)
    ensures
        dec_text_pairs(enc_text_pairs(s)) == Ok::<Seq<(Seq<char>, Seq<char>)>, DecodeError>(s),
    decreases s.len(),
{
    if s.len() == 0 {
        assert(enc_text_pairs(s) =~= Seq::<SpecValue>::empty());
        assert(s =~= Seq::<(Seq<char>, Seq<char>)>::empty());
    } else {
        rt_text_pairs(s.drop_last());
        assert(enc_text_pairs(s).drop_last() =~= enc_text_pairs(s.drop_last()));
        assert(enc_text_pairs(s).last() == SpecValue::Arr(
            seq![SpecValue::Text(s.last().0), SpecValue::Text(s.last().1)],
        ));
        assert(s.drop_last().push(s.last()) =~= s);
    }
}

proof fn rt_nums(s: Seq<Seq<char>>)
    ensures
        dec_nums(enc_nums(s)) == Ok::<Seq<Seq<char>>, DecodeError>(s),
    decreases s.len(),
{
    if s.len() == 0 {
        assert(enc_nums(s) =~= Seq::<SpecValue>::empty());
        assert(s =~= Seq::<Seq<char>>::empty());
    } else {
        rt_nums(s.drop_last());
        assert(enc_nums(s).drop_last() =~= enc_nums(s.drop_last()));
        assert(enc_nums(s).last() == SpecValue::Num(s.last()));
        assert(s.drop_last().push(s.last()) =~= s);
    }
}

proof fn rt_alignments(s: Seq<Alignment>)
    ensures
        dec_alignments(enc_alignments(s)) == Ok::<Seq<Alignment>, DecodeError>(s),
    decreases s.len(),
{
    if s.len() == 0 {
        assert(enc_alignments(s) =~= Seq::<SpecValue>::empty());
        assert(s =~= Seq::<Alignment>::empty());
    } else {
        rt_alignments(s.drop_last());
        rt_alignment(s.last());
        assert(enc_alignments(s).drop_last() =~= enc_alignments(s.drop_last()));
        assert(enc_alignments(s).last() == enc_alignment(s.last()));
        assert(s.drop_last().push(s.last()) =~= s);
    }
}

proof fn rt_attr(a: SpecAttr)
    ensures
        dec_attr(enc_attr(a)) == Ok::<SpecAttr, DecodeError>(a),
{
    rt_texts(a.1);
    rt_text_pairs(a.2);
    assert(dec_attr(enc_attr(a)) == Ok::<SpecAttr, DecodeError>((a.0, a.1, a.2)));
    assert((a.0, a.1, a.2) == a);
}

proof fn rt_target(t: SpecTarget)
    ensures
        dec_target(enc_target(t)) == Ok::<SpecTarget, DecodeError>(t),
{
    assert((t.0, t.1) == t);
}

proof fn rt_list_attributes(la: SpecListAttributes)
    ensures
        dec_list_attributes(enc_list_attributes(la)) == Ok::<SpecListAttributes, DecodeError>(la),
{
    rt_u64(la.0);
    rt_style(la.1);
    rt_delim(la.2);
    assert((la.0, la.1, la.2) == la);
}

#[verifier::rlimit(100)]
#[verifier::spinoff_prover]
proof fn rt_inline(i: SpecInline)
    requires
        wf_inline(i),
    ensures
        dec_inline(enc_inline(i)) == Ok::<SpecInline, DecodeError>(i),
    decreases i, 0int,
{
    reveal_strlit("Str");
    reveal_strlit("Emph");
    reveal_strlit("Strong");
    reveal_strlit("Strikeout");
    reveal_strlit("Superscript");
    reveal_strlit("Subscript");
    reveal_strlit("SmallCaps");
    reveal_strlit("Quoted");
    reveal_strlit("Cite");
    reveal_strlit("Code");
    reveal_strlit("Space");
    reveal_strlit("SoftBreak");
    reveal_strlit("LineBreak");
    reveal_strlit("Math");
    reveal_strlit("RawInline");
    reveal_strlit("Link");
    reveal_strlit("Image");
    reveal_strlit("Span");
    assert("Str"@.len() == 3);
    assert("Str"@[0] == 'S');
    assert("Str"@[1] == 't');
    assert("Emph"@.len() == 4);
    assert("Emph"@[0] == 'E');
    assert("Emph"@[1] == 'm');
    assert("Strong"@.len() == 6);
    assert("Strong"@[0] == 'S');
    assert("Strong"@[1] == 't');
    assert("Strikeout"@.len() == 9);
    assert("Strikeout"@[0] == 'S');
    assert("Strikeout"@[1] == 't');
    assert("Superscript"@.len() == 11);
    assert("Superscript"@[0] == 'S');
    assert("Superscript"@[1] == 'u');
    assert("Subscript"@.len() == 9);
    assert("Subscript"@[0] == 'S');
    assert("Subscript"@[1] == 'u');
    assert("SmallCaps"@.len() == 9);
    assert("SmallCaps"@[0] == 'S');
    assert("SmallCaps"@[1] == 'm');
    assert("Quoted"@.len() == 6);
    assert("Quoted"@[0] == 'Q');
    assert("Quoted"@[1] == 'u');
    assert("Cite"@.len() == 4);
    assert("Cite"@[0] == 'C');
    assert("Cite"@[1] == 'i');
    assert("Code"@.len() == 4);
    assert("Code"@[0] == 'C');
    assert("Code"@[1] == 'o');
    assert("Space"@.len() == 5);
    assert("Space"@[0] == 'S');
    assert("Space"@[1] == 'p');
    assert("SoftBreak"@.len() == 9);
    assert("SoftBreak"@[0] == 'S');
    assert("SoftBreak"@[1] == 'o');
    assert("LineBreak"@.len() == 9);
    assert("LineBreak"@[0] == 'L');
    assert("LineBreak"@[1] == 'i');
    assert("Math"@.len() == 4);
    assert("Math"@[0] == 'M');
    assert("Math"@[1] == 'a');
    assert("RawInline"@.len() == 9);
    assert("RawInline"@[0] == 'R');
    assert("RawInline"@[1] == 'a');
    assert("Link"@.len() == 4);
    assert("Link"@[0] == 'L');
    assert("Link"@[1] == 'i');
    assert("Image"@.len() == 5);
    assert("Image"@[0] == 'I');
    assert("Image"@[1] == 'm');
    assert("Span"@.len() == 4);
    assert("Span"@[0] == 'S');
    assert("Span"@[1] == 'p');
    match i {
        SpecInline::Str(_) => {},
        SpecInline::Emph(v) => {
            rt_inlines(v);
        },
        SpecInline::Strong(v) => {
            rt_inlines(v);
        },
        SpecInline::Strikeout(v) => {
            rt_inlines(v);
        },
        SpecInline::Superscript(v) => {
            rt_inlines(v);
        },
        SpecInline::Subscript(v) => {
            rt_inlines(v);
        },
        SpecInline::SmallCaps(v) => {
            rt_inlines(v);
        },
        SpecInline::Quoted(q, v) => {
            rt_quote_type(q);
            rt_inlines(v);
        },
        SpecInline::Cite(cs, v) => {
            rt_citations(cs);
            rt_inlines(v);
        },
        SpecInline::Code(a, _) => {
            rt_attr(a);
        },
        SpecInline::Space => {},
        SpecInline::SoftBreak => {},
        SpecInline::LineBreak => {},
        SpecInline::Math(m, _) => {
            rt_math_type(m);
        },
        SpecInline::RawInline(_, _) => {},
        SpecInline::Link(a, v, t) => {
            rt_attr(a);
            rt_inlines(v);
            rt_target(t);
        },
        SpecInline::Image(a, v, t) => {
            rt_attr(a);
            rt_inlines(v);
            rt_target(t);
        },
        SpecInline::Span(a, v) => {
            rt_attr(a);
            rt_inlines(v);
        },
    }
}

#[verifier::rlimit(100)]
#[verifier::spinoff_prover]
proof fn rt_inlines(s: Seq<SpecInline>)
    requires
        wf_inlines(s),
    ensures
        dec_inlines(enc_inlines(s)) == Ok::<Seq<SpecInline>, DecodeError>(s),
    decreases s, 1int,
{
    if s.len() == 0 {
        assert(enc_inlines(s) =~= Seq::<SpecValue>::empty());
        assert(s =~= Seq::<SpecInline>::empty());
    } else {
        assert(wf_inlines(s.drop_last())) by {
            assert(forall|j: int| 0 <= j < s.len() - 1 ==> s.drop_last()[j] == #[trigger] s[j]);
        }
        rt_inlines(s.drop_last());
        rt_inline(s.last());
        assert(enc_inlines(s).drop_last() =~= enc_inlines(s.drop_last()));
        assert(enc_inlines(s).last() == enc_inline(s.last()));
        assert(s.drop_last().push(s.last()) =~= s);
    }
}


/// In an object whose six keys stand in the citation's declaration
/// order, each field name is found at its declared position.
#[verifier::rlimit(100)]
#[verifier::spinoff_prover]
proof fn lemma_citation_canonical_idx(s: Seq<(Seq<char>, SpecValue)>)
    requires
        s.len() == 6,
        s[0].0 == "citationId"@,
        s[1].0 == "citationPrefix"@,
        s[2].0 == "citationSuffix"@,
        s[3].0 == "citationMode"@,
        s[4].0 == "citationNoteNum"@,
        s[5].0 == "citationHash"@,
    ensures
        find_idx(s, "citationId"@) == 0,
        find_idx(s, "citationPrefix"@) == 1,
        find_idx(s, "citationSuffix"@) == 2,
        find_idx(s, "citationMode"@) == 3,
        find_idx(s, "citationNoteNum"@) == 4,
        find_idx(s, "citationHash"@) == 5,
{
    reveal_strlit("citationId");
    reveal_strlit("citationPrefix");
    reveal_strlit("citationSuffix");
    reveal_strlit("citationMode");
    reveal_strlit("citationNoteNum");
    reveal_strlit("citationHash");
    assert("citationId"@.len() == 10);
    assert("citationId"@[8] == 'I');
    assert("citationPrefix"@.len() == 14);
    assert("citationPrefix"@[8] == 'P');
    assert("citationSuffix"@.len() == 14);
    assert("citationSuffix"@[8] == 'S');
    assert("citationMode"@.len() == 12);
    assert("citationMode"@[8] == 'M');
    assert("citationNoteNum"@.len() == 15);
    assert("citationNoteNum"@[8] == 'N');
    assert("citationHash"@.len() == 12);
    assert("citationHash"@[8] == 'H');
    let t1 = s.drop_first();
    let t2 = t1.drop_first();
    let t3 = t2.drop_first();
    let t4 = t3.drop_first();
    let t5 = t4.drop_first();
    assert(t1[0] == s[1]);
    assert(t2[0] == s[2]);
    assert(t3[0] == s[3]);
    assert(t4[0] == s[4]);
    assert(t5[0] == s[5]);
    assert(t1.len() == 5);
    assert(t2.len() == 4);
    assert(t3.len() == 3);
    assert(t4.len() == 2);
    assert(t5.len() == 1);
    assert(find_idx(s, "citationId"@) == 0);
    assert(find_idx(t1, "citationPrefix"@) == 0);
    assert(find_idx(s, "citationPrefix"@) == 1);
    assert(find_idx(t2, "citationSuffix"@) == 0);
    assert(find_idx(t1, "citationSuffix"@) == 1);
    assert(find_idx(s, "citationSuffix"@) == 2);
    assert(find_idx(t3, "citationMode"@) == 0);
    assert(find_idx(t2, "citationMode"@) == 1);
    assert(find_idx(t1, "citationMode"@) == 2);
    assert(find_idx(s, "citationMode"@) == 3);
    assert(find_idx(t4, "citationNoteNum"@) == 0);
    assert(find_idx(t3, "citationNoteNum"@) == 1);
    assert(find_idx(t2, "citationNoteNum"@) == 2);
    assert(find_idx(t1, "citationNoteNum"@) == 3);
    assert(find_idx(s, "citationNoteNum"@) == 4);
    assert(find_idx(t5, "citationHash"@) == 0);
    assert(find_idx(t4, "citationHash"@) == 1);
    assert(find_idx(t3, "citationHash"@) == 2);
    assert(find_idx(t2, "citationHash"@) == 3);
    assert(find_idx(t1, "citationHash"@) == 4);
    assert(find_idx(s, "citationHash"@) == 5);
}

#[verifier::rlimit(100)]
#[verifier::spinoff_prover]
proof fn rt_citation(c: SpecCitation)
    requires
        wf_citation(c),
    ensures
        dec_citation(enc_citation(c)) == Ok::<SpecCitation, DecodeError>(c),
    decreases c, 0int,
{
    rt_inlines(c.citation_prefix);
    rt_inlines(c.citation_suffix);
    rt_citation_mode(c.citation_mode);
    rt_u64(c.citation_note_num);
    rt_u64(c.citation_hash);
    let pairs = seq![
        ("citationId"@, SpecValue::Text(c.citation_id)),
        ("citationPrefix"@, SpecValue::Arr(enc_inlines(c.citation_prefix))),
        ("citationSuffix"@, SpecValue::Arr(enc_inlines(c.citation_suffix))),
        ("citationMode"@, enc_citation_mode(c.citation_mode)),
        ("citationNoteNum"@, SpecValue::Num(u64_dec_str(c.citation_note_num as int))),
        ("citationHash"@, SpecValue::Num(u64_dec_str(c.citation_hash as int))),
    ];
    assert(enc_citation(c) == SpecValue::Obj(pairs));
    lemma_citation_canonical_idx(pairs);
    assert(dec_citation_fields(pairs) == Ok::<SpecCitation, DecodeError>(c));
}

#[verifier::rlimit(100)]
#[verifier::spinoff_prover]
proof fn rt_citations(s: Seq<SpecCitation>)
    requires
        wf_citations(s),
    ensures
        dec_citations(enc_citations(s)) == Ok::<Seq<SpecCitation>, DecodeError>(s),
    decreases s, 1int,
{
    if s.len() == 0 {
        assert(enc_citations(s) =~= Seq::<SpecValue>::empty());
        assert(s =~= Seq::<SpecCitation>::empty());
    } else {
        assert(wf_citations(s.drop_last())) by {
            assert(forall|j: int| 0 <= j < s.len() - 1 ==> s.drop_last()[j] == #[trigger] s[j]);
        }
        rt_citations(s.drop_last());
        rt_citation(s.last());
        assert(enc_citations(s).drop_last() =~= enc_citations(s.drop_last()));
        assert(enc_citations(s).last() == enc_citation(s.last()));
        assert(s.drop_last().push(s.last()) =~= s);
    }
}

#[verifier::rlimit(100)]
#[verifier::spinoff_prover]
proof fn rt_block(b: SpecBlock)
    requires
        wf_block(b),
    ensures
        dec_block(enc_block(b)) == Ok::<SpecBlock, DecodeError>(b),
    decreases b, 0int,
{
    reveal_strlit("Plain");
    reveal_strlit("Para");
    reveal_strlit("CodeBlock");
    reveal_strlit("RawBlock");
    reveal_strlit("BlockQuote");
    reveal_strlit("OrderedList");
    reveal_strlit("BulletList");
    reveal_strlit("DefinitionList");
    reveal_strlit("Header");
    reveal_strlit("HorizontalRule");
    reveal_strlit("Table");
    reveal_strlit("Div");
    reveal_strlit("Null");
    assert("Plain"@.len() == 5);
    assert("Plain"@[0] == 'P');
    assert("Plain"@[1] == 'l');
    assert("Para"@.len() == 4);
    assert("Para"@[0] == 'P');
    assert("Para"@[1] == 'a');
    assert("CodeBlock"@.len() == 9);
    assert("CodeBlock"@[0] == 'C');
    assert("CodeBlock"@[1] == 'o');
    assert("RawBlock"@.len() == 8);
    assert("RawBlock"@[0] == 'R');
    assert("RawBlock"@[1] == 'a');
    assert("BlockQuote"@.len() == 10);
    assert("BlockQuote"@[0] == 'B');
    assert("BlockQuote"@[1] == 'l');
    assert("OrderedList"@.len() == 11);
    assert("OrderedList"@[0] == 'O');
    assert("OrderedList"@[1] == 'r');
    assert("BulletList"@.len() == 10);
    assert("BulletList"@[0] == 'B');
    assert("BulletList"@[1] == 'u');
    assert("DefinitionList"@.len() == 14);
    assert("DefinitionList"@[0] == 'D');
    assert("DefinitionList"@[1] == 'e');
    assert("Header"@.len() == 6);
    assert("Header"@[0] == 'H');
    assert("Header"@[1] == 'e');
    assert("HorizontalRule"@.len() == 14);
    assert("HorizontalRule"@[0] == 'H');
    assert("HorizontalRule"@[1] == 'o');
    assert("Table"@.len() == 5);
    assert("Table"@[0] == 'T');
    assert("Table"@[1] == 'a');
    assert("Div"@.len() == 3);
    assert("Div"@[0] == 'D');
    assert("Div"@[1] == 'i');
    assert("Null"@.len() == 4);
    assert("Null"@[0] == 'N');
    assert("Null"@[1] == 'u');
    match b {
        SpecBlock::Plain(v) => {
            rt_inlines(v);
        },
        SpecBlock::Para(v) => {
            rt_inlines(v);
        },
        SpecBlock::CodeBlock(a, _) => {
            rt_attr(a);
        },
        SpecBlock::RawBlock(_, _) => {},
        SpecBlock::BlockQuote(v) => {
            rt_blocks(v);
        },
        SpecBlock::OrderedList(la, v) => {
            rt_list_attributes(la);
            rt_blockss(v);
        },
        SpecBlock::BulletList(v) => {
            rt_blockss(v);
        },
        SpecBlock::DefinitionList(v) => {
            rt_defitems(v);
        },
        SpecBlock::Header(lvl, a, v) => {
            rt_u64(lvl);
            rt_attr(a);
            rt_inlines(v);
        },
        SpecBlock::HorizontalRule => {},
        SpecBlock::Table(cap, al, w, h, r) => {
            rt_inlines(cap);
            rt_alignments(al);
            rt_nums(w);
            rt_blockss(h);
            rt_blocksss(r);
        },
        SpecBlock::Div(a, v) => {
            rt_attr(a);
            rt_blocks(v);
        },
        SpecBlock::Null => {},
    }
}

#[verifier::rlimit(100)]
#[verifier::spinoff_prover]
proof fn rt_blocks(s: Seq<SpecBlock>)
    requires
        wf_blocks(s),
    ensures
        dec_blocks(enc_blocks(s)) == Ok::<Seq<SpecBlock>, DecodeError>(s),
    decreases s, 1int,
{
    if s.len() == 0 {
        assert(enc_blocks(s) =~= Seq::<SpecValue>::empty());
        assert(s =~= Seq::<SpecBlock>::empty());
    } else {
        assert(wf_blocks(s.drop_last())) by {
            assert(forall|j: int| 0 <= j < s.len() - 1 ==> s.drop_last()[j] == #[trigger] s[j]);
        }
        rt_blocks(s.drop_last());
        rt_block(s.last());
        assert(enc_blocks(s).drop_last() =~= enc_blocks(s.drop_last()));
        assert(enc_blocks(s).last() == enc_block(s.last()));
        assert(s.drop_last().push(s.last()) =~= s);
    }
}

#[verifier::rlimit(100)]
#[verifier::spinoff_prover]
proof fn rt_blockss(s: Seq<Seq<SpecBlock>>)
    requires
        wf_blockss(s),
    ensures
        dec_blockss(enc_blockss(s)) == Ok::<Seq<Seq<SpecBlock>>, DecodeError>(s),
    decreases s, 2int,
{
    if s.len() == 0 {
        assert(enc_blockss(s) =~= Seq::<SpecValue>::empty());
        assert(s =~= Seq::<Seq<SpecBlock>>::empty());
    } else {
        assert(wf_blockss(s.drop_last())) by {
            assert(forall|j: int| 0 <= j < s.len() - 1 ==> s.drop_last()[j] == #[trigger] s[j]);
        }
        rt_blockss(s.drop_last());
        rt_blocks(s.last());
        assert(enc_blockss(s).drop_last() =~= enc_blockss(s.drop_last()));
        assert(enc_blockss(s).last() == SpecValue::Arr(enc_blocks(s.last())));
        assert(dec_block_seq_payload(SpecValue::Arr(enc_blocks(s.last()))) == Ok::<
            Seq<SpecBlock>,
            DecodeError,
        >(s.last()));
        assert(s.drop_last().push(s.last()) =~= s);
    }
}

#[verifier::rlimit(100)]
#[verifier::spinoff_prover]
proof fn rt_blocksss(s: Seq<Seq<Seq<SpecBlock>>>)
    requires
        wf_blocksss(s),
    ensures
        dec_blocksss(enc_blocksss(s)) == Ok::<Seq<Seq<Seq<SpecBlock>>>, DecodeError>(s),
    decreases s, 3int,
{
    if s.len() == 0 {
        assert(enc_blocksss(s) =~= Seq::<SpecValue>::empty());
        assert(s =~= Seq::<Seq<Seq<SpecBlock>>>::empty());
    } else {
        assert(wf_blocksss(s.drop_last())) by {
            assert(forall|j: int| 0 <= j < s.len() - 1 ==> s.drop_last()[j] == #[trigger] s[j]);
        }
        rt_blocksss(s.drop_last());
        rt_blockss(s.last());
        assert(enc_blocksss(s).drop_last() =~= enc_blocksss(s.drop_last()));
        assert(enc_blocksss(s).last() == SpecValue::Arr(enc_blockss(s.last())));
        assert(dec_blockss_payload(SpecValue::Arr(enc_blockss(s.last()))) == Ok::<
            Seq<Seq<SpecBlock>>,
            DecodeError,
        >(s.last()));
        assert(s.drop_last().push(s.last()) =~= s);
    }
}

#[verifier::rlimit(100)]
#[verifier::spinoff_prover]
proof fn rt_defitems(s: Seq<(Seq<SpecInline>, Seq<Seq<SpecBlock>>)>)
    requires
        wf_defitems(s),
    ensures
        dec_defitems(enc_defitems(s)) == Ok::<Seq<(Seq<SpecInline>, Seq<Seq<SpecBlock>>)>, DecodeError>(
            s,
        ),
    decreases s, 4int,
{
    if s.len() == 0 {
        assert(enc_defitems(s) =~= Seq::<SpecValue>::empty());
        assert(s =~= Seq::<(Seq<SpecInline>, Seq<Seq<SpecBlock>>)>::empty());
    } else {
        assert(wf_defitems(s.drop_last())) by {
            assert(forall|j: int| 0 <= j < s.len() - 1 ==> s.drop_last()[j] == #[trigger] s[j]);
        }
        rt_defitems(s.drop_last());
        rt_inlines(s.last().0);
        rt_blockss(s.last().1);
        assert(enc_defitems(s).drop_last() =~= enc_defitems(s.drop_last()));
        assert(enc_defitems(s).last() == SpecValue::Arr(
            seq![
                SpecValue::Arr(enc_inlines(s.last().0)),
                SpecValue::Arr(enc_blockss(s.last().1)),
            ],
        ));
        assert(dec_inline_seq_payload(SpecValue::Arr(enc_inlines(s.last().0))) == Ok::<
            Seq<SpecInline>,
            DecodeError,
        >(s.last().0));
        assert(dec_blockss_payload(SpecValue::Arr(enc_blockss(s.last().1))) == Ok::<
            Seq<Seq<SpecBlock>>,
            DecodeError,
        >(s.last().1));
        assert((s.last().0, s.last().1) == s.last());
        assert(dec_defitem(enc_defitems(s).last()) == Ok::<
            (Seq<SpecInline>, Seq<Seq<SpecBlock>>),
            DecodeError,
        >(s.last()));
        assert(s.drop_last().push(s.last()) =~= s);
    }
}

proof fn lemma_enc_entries_sorted(s: Seq<(Seq<char>, SpecMetaValue)>)
    requires
        entries_sorted(s),
    ensures
        entries_sorted(enc_meta_entries(s)),
        canon_entries(enc_meta_entries(s)) == enc_meta_entries(s),
{
    assert(forall|j: int|
        0 <= j < s.len() ==> (#[trigger] enc_meta_entries(s)[j]).0 == s[j].0);
    lemma_canon_sorted_id(enc_meta_entries(s));
}

#[verifier::rlimit(100)]
#[verifier::spinoff_prover]
proof fn rt_meta_value(m: SpecMetaValue)
    requires
        wf_meta_value(m),
    ensures
        dec_meta_value(enc_meta_value(m)) == Ok::<SpecMetaValue, DecodeError>(m),
    decreases m, 0int,
{
    reveal_strlit("MetaMap");
    reveal_strlit("MetaList");
    reveal_strlit("MetaBool");
    reveal_strlit("MetaString");
    reveal_strlit("MetaInlines");
    reveal_strlit("MetaBlocks");
    assert("MetaMap"@.len() == 7);
    assert("MetaMap"@[0] == 'M');
    assert("MetaMap"@[4] == 'M');
    assert("MetaList"@.len() == 8);
    assert("MetaList"@[0] == 'M');
    assert("MetaList"@[4] == 'L');
    assert("MetaBool"@.len() == 8);
    assert("MetaBool"@[0] == 'M');
    assert("MetaBool"@[4] == 'B');
    assert("MetaString"@.len() == 10);
    assert("MetaString"@[0] == 'M');
    assert("MetaString"@[4] == 'S');
    assert("MetaInlines"@.len() == 11);
    assert("MetaInlines"@[0] == 'M');
    assert("MetaInlines"@[4] == 'I');
    assert("MetaBlocks"@.len() == 10);
    assert("MetaBlocks"@[0] == 'M');
    assert("MetaBlocks"@[4] == 'B');
    match m {
        SpecMetaValue::MetaMap(es) => {
            lemma_enc_entries_sorted(es);
            rt_meta_entries(es);
        },
        SpecMetaValue::MetaList(vs) => {
            rt_meta_values(vs);
        },
        SpecMetaValue::MetaBool(_) => {},
        SpecMetaValue::MetaString(_) => {},
        SpecMetaValue::MetaInlines(v) => {
            rt_inlines(v);
        },
        SpecMetaValue::MetaBlocks(v) => {
            rt_blocks(v);
        },
    }
}

#[verifier::rlimit(100)]
#[verifier::spinoff_prover]
proof fn rt_meta_values(s: Seq<SpecMetaValue>)
    requires
        wf_meta_values(s),
    ensures
        dec_meta_values(enc_meta_values(s)) == Ok::<Seq<SpecMetaValue>, DecodeError>(s),
    decreases s, 1int,
{
    if s.len() == 0 {
        assert(enc_meta_values(s) =~= Seq::<SpecValue>::empty());
        assert(s =~= Seq::<SpecMetaValue>::empty());
    } else {
        assert(wf_meta_values(s.drop_last())) by {
            assert(forall|j: int| 0 <= j < s.len() - 1 ==> s.drop_last()[j] == #[trigger] s[j]);
        }
        rt_meta_values(s.drop_last());
        rt_meta_value(s.last());
        assert(enc_meta_values(s).drop_last() =~= enc_meta_values(s.drop_last()));
        assert(enc_meta_values(s).last() == enc_meta_value(s.last()));
        assert(s.drop_last().push(s.last()) =~= s);
    }
}

#[verifier::rlimit(100)]
#[verifier::spinoff_prover]
proof fn rt_meta_entries(s: Seq<(Seq<char>, SpecMetaValue)>)
    requires
        entries_sorted(s),
        wf_meta_entries(s),
    ensures
        dec_meta_entries(enc_meta_entries(s)) == Ok::<Seq<(Seq<char>, SpecMetaValue)>, DecodeError>(
            s,
        ),
    decreases s, 2int,
{
    if s.len() == 0 {
        assert(enc_meta_entries(s) =~= Seq::<(Seq<char>, SpecValue)>::empty());
        assert(s =~= Seq::<(Seq<char>, SpecMetaValue)>::empty());
    } else {
        assert(entries_sorted(s.drop_last()) && wf_meta_entries(s.drop_last())) by {
            assert(forall|j: int| 0 <= j < s.len() - 1 ==> s.drop_last()[j] == #[trigger] s[j]);
        }
        rt_meta_entries(s.drop_last());
        rt_meta_value(s.last().1);
        assert(enc_meta_entries(s).drop_last() =~= enc_meta_entries(s.drop_last()));
        assert(enc_meta_entries(s).last() == (s.last().0, enc_meta_value(s.last().1)));
        assert(forall|j: int|
            0 <= j < s.len() - 1 ==> lex_lt((#[trigger] s.drop_last()[j]).0, s.last().0));
        crate::metamap::lemma_insert_after_all(s.drop_last(), s.last().0, s.last().1);
        assert(insert_entry(s.drop_last(), s.last().0, s.last().1) == s.drop_last().push(
            s.last(),
        ));
        assert(s.drop_last().push(s.last()) =~= s);
    }
}

#[verifier::rlimit(100)]
#[verifier::spinoff_prover]
proof fn rt_meta(m: SpecMeta)
    requires
        wf_meta(m),
    ensures
        dec_meta(enc_meta(m)) == Ok::<SpecMeta, DecodeError>(m),
{
    lemma_enc_entries_sorted(m.un_meta);
    rt_meta_entries(m.un_meta);
    assert(SpecMeta { un_meta: m.un_meta } == m);
}

/// Round trip: decoding the encoding of any well-formed document yields
/// that document again.
pub proof fn lemma_round_trip(d: SpecPandoc)
    requires
        wf_pandoc(d),
    ensures
        dec_pandoc(enc_pandoc(d)) == Ok::<SpecPandoc, DecodeError>(d),
{
    rt_meta(d.meta);
    rt_blocks(d.blocks);
    assert(SpecPandoc { meta: d.meta, blocks: d.blocks } == d);
}

proof fn lemma_to_map_enc(s: Seq<(Seq<char>, SpecMetaValue)>)
    ensures
        to_map(enc_meta_entries(s)) =~= to_map(s).map_values(
            |v: SpecMetaValue| enc_meta_value(v),
        ),
    decreases s.len(),
{
    if s.len() == 0 {
        assert(enc_meta_entries(s) =~= Seq::<(Seq<char>, SpecValue)>::empty());
        assert(to_map(enc_meta_entries(s)) =~= Map::<Seq<char>, SpecValue>::empty());
        assert(to_map(s).map_values(|v: SpecMetaValue| enc_meta_value(v)) =~= Map::<
            Seq<char>,
            SpecValue,
        >::empty());
    } else {
        lemma_to_map_enc(s.drop_last());
        let es = enc_meta_entries(s);
        assert(es.drop_last() =~= enc_meta_entries(s.drop_last()));
        assert(es.last() == (s.last().0, enc_meta_value(s.last().1)));
        assert(to_map(es) == to_map(es.drop_last()).insert(es.last().0, es.last().1));
        assert(to_map(s) == to_map(s.drop_last()).insert(s.last().0, s.last().1));
        assert(to_map(s).map_values(|v: SpecMetaValue| enc_meta_value(v)) =~= to_map(
            s.drop_last(),
        ).map_values(|v: SpecMetaValue| enc_meta_value(v)).insert(
            s.last().0,
            enc_meta_value(s.last().1),
        ));
    }
}

/// Metadata key canonicalization: two metadata mappings that denote the
/// same key-value mapping — in particular, mappings built by inserting the
/// same entries in different orders — encode to the same wire value and
/// therefore to byte-identical text.
pub proof fn lemma_meta_encoding_canonical(m1: SpecMeta, m2: SpecMeta)
    requires
        to_map(m1.un_meta) == to_map(m2.un_meta),
    ensures
        enc_meta(m1) == enc_meta(m2),
        write_value(enc_meta(m1)) == write_value(enc_meta(m2)),
{
    lemma_to_map_enc(m1.un_meta);
    lemma_to_map_enc(m2.un_meta);
    assert(to_map(enc_meta_entries(m1.un_meta)) =~= to_map(enc_meta_entries(m2.un_meta)));
    lemma_canon_of_map(enc_meta_entries(m1.un_meta), enc_meta_entries(m2.un_meta));
}


proof fn id_inline(i: SpecInline, g: spec_fn(SpecInline) -> SpecInline)
    requires
        forall|x: SpecInline| #[trigger] g(x) == x,
    ensures
        walk_inline(i, g) == i,
    decreases i, 0int,
{
    match i {
        SpecInline::Emph(v) => {
            id_inline_seq(v, g);
        },
        SpecInline::Strong(v) => {
            id_inline_seq(v, g);
        },
        SpecInline::Strikeout(v) => {
            id_inline_seq(v, g);
        },
        SpecInline::Superscript(v) => {
            id_inline_seq(v, g);
        },
        SpecInline::Subscript(v) => {
            id_inline_seq(v, g);
        },
        SpecInline::SmallCaps(v) => {
            id_inline_seq(v, g);
        },
        SpecInline::Quoted(_, v) => {
            id_inline_seq(v, g);
        },
        SpecInline::Cite(cs, v) => {
            id_citation_seq(cs, g);
            id_inline_seq(v, g);
        },
        SpecInline::Link(_, v, _) => {
            id_inline_seq(v, g);
        },
        SpecInline::Image(_, v, _) => {
            id_inline_seq(v, g);
        },
        SpecInline::Span(_, v) => {
            id_inline_seq(v, g);
        },
        _ => {},
    }
}


proof fn id_inline_seq(s: Seq<SpecInline>, g: spec_fn(SpecInline) -> SpecInline)
    requires
        forall|x: SpecInline| #[trigger] g(x) == x,
    ensures
        walk_inline_seq(s, g) == s,
    decreases s, 1int,
{
    assert forall|j: int| 0 <= j < s.len() implies walk_inline_seq(s, g)[j] == s[j] by {
        id_inline(s[j], g);
    }
    assert(walk_inline_seq(s, g) =~= s);
}


proof fn id_citation(c: SpecCitation, g: spec_fn(SpecInline) -> SpecInline)
    requires
        forall|x: SpecInline| #[trigger] g(x) == x,
    ensures
        walk_citation(c, g) == c,
    decreases c, 0int,
{
    id_inline_seq(c.citation_prefix, g);
    id_inline_seq(c.citation_suffix, g);
    assert(walk_citation(c, g) == SpecCitation {
        citation_prefix: c.citation_prefix,
        citation_suffix: c.citation_suffix,
        ..c
    });
}


proof fn id_citation_seq(s: Seq<SpecCitation>, g: spec_fn(SpecInline) -> SpecInline)
    requires
        forall|x: SpecInline| #[trigger] g(x) == x,
    ensures
        walk_citation_seq(s, g) == s,
    decreases s, 1int,
{
    assert forall|j: int| 0 <= j < s.len() implies walk_citation_seq(s, g)[j] == s[j] by {
        id_citation(s[j], g);
    }
    assert(walk_citation_seq(s, g) =~= s);
}


proof fn id_block_i(b: SpecBlock, g: spec_fn(SpecInline) -> SpecInline)
    requires
        forall|x: SpecInline| #[trigger] g(x) == x,
    ensures
        walk_block_i(b, g) == b,
    decreases b, 2int,
{
    match b {
        SpecBlock::Plain(v) => {
            id_inline_seq(v, g);
        },
        SpecBlock::Para(v) => {
            id_inline_seq(v, g);
        },
        SpecBlock::BlockQuote(v) => {
            id_blocks_i_seq(v, g);
        },
        SpecBlock::OrderedList(_, v) => {
            id_blockss_i_seq(v, g);
        },
        SpecBlock::BulletList(v) => {
            id_blockss_i_seq(v, g);
        },
        SpecBlock::DefinitionList(v) => {
            id_defitems_i_seq(v, g);
        },
        SpecBlock::Header(_, _, v) => {
            id_inline_seq(v, g);
        },
        SpecBlock::Table(cap, _, _, h, r) => {
            id_inline_seq(cap, g);
            id_blockss_i_seq(h, g);
            id_blocksss_i_seq(r, g);
        },
        SpecBlock::Div(_, v) => {
            id_blocks_i_seq(v, g);
        },
        _ => {},
    }
}


proof fn id_blocks_i_seq(s: Seq<SpecBlock>, g: spec_fn(SpecInline) -> SpecInline)
    requires
        forall|x: SpecInline| #[trigger] g(x) == x,
    ensures
        walk_blocks_i_seq(s, g) == s,
    decreases s, 3int,
{
    assert forall|j: int| 0 <= j < s.len() implies walk_blocks_i_seq(s, g)[j] == s[j] by {
        id_block_i(s[j], g);
    }
    assert(walk_blocks_i_seq(s, g) =~= s);
}


proof fn id_blockss_i_seq(s: Seq<Seq<SpecBlock>>, g: spec_fn(SpecInline) -> SpecInline)
    requires
        forall|x: SpecInline| #[trigger] g(x) == x,
    ensures
        walk_blockss_i_seq(s, g) == s,
    decreases s, 4int,
{
    assert forall|j: int| 0 <= j < s.len() implies walk_blockss_i_seq(s, g)[j] == s[j] by {
        id_blocks_i_seq(s[j], g);
    }
    assert(walk_blockss_i_seq(s, g) =~= s);
}


proof fn id_blocksss_i_seq(s: Seq<Seq<Seq<SpecBlock>>>, g: spec_fn(SpecInline) -> SpecInline)
    requires
        forall|x: SpecInline| #[trigger] g(x) == x,
    ensures
        walk_blocksss_i_seq(s, g) == s,
    decreases s, 5int,
{
    assert forall|j: int| 0 <= j < s.len() implies walk_blocksss_i_seq(s, g)[j] == s[j] by {
        id_blockss_i_seq(s[j], g);
    }
    assert(walk_blocksss_i_seq(s, g) =~= s);
}


proof fn id_defitem_i(d: (Seq<SpecInline>, Seq<Seq<SpecBlock>>), g: spec_fn(SpecInline) -> SpecInline)
    requires
        forall|x: SpecInline| #[trigger] g(x) == x,
    ensures
        walk_defitem_i(d, g) == d,
    decreases d, 5int,
{
    id_inline_seq(d.0, g);
    id_blockss_i_seq(d.1, g);
    assert((d.0, d.1) == d);
}


proof fn id_defitems_i_seq(s: Seq<(Seq<SpecInline>, Seq<Seq<SpecBlock>>)>, g: spec_fn(SpecInline) -> SpecInline)
    requires
        forall|x: SpecInline| #[trigger] g(x) == x,
    ensures
        walk_defitems_i_seq(s, g) == s,
    decreases s, 6int,
{
    assert forall|j: int| 0 <= j < s.len() implies walk_defitems_i_seq(s, g)[j] == s[j] by {
        id_defitem_i(s[j], g);
    }
    assert(walk_defitems_i_seq(s, g) =~= s);
}


proof fn id_meta_value_i(m: SpecMetaValue, g: spec_fn(SpecInline) -> SpecInline)
    requires
        forall|x: SpecInline| #[trigger] g(x) == x,
    ensures
        walk_meta_value_i(m, g) == m,
    decreases m, 0int,
{
    match m {
        SpecMetaValue::MetaMap(es) => {
            id_meta_entries_i_seq(es, g);
        },
        SpecMetaValue::MetaList(vs) => {
            id_meta_values_i_seq(vs, g);
        },
        SpecMetaValue::MetaInlines(v) => {
            id_inline_seq(v, g);
        },
        SpecMetaValue::MetaBlocks(v) => {
            id_blocks_i_seq(v, g);
        },
        _ => {},
    }
}


proof fn id_meta_values_i_seq(s: Seq<SpecMetaValue>, g: spec_fn(SpecInline) -> SpecInline)
    requires
        forall|x: SpecInline| #[trigger] g(x) == x,
    ensures
        walk_meta_values_i_seq(s, g) == s,
    decreases s, 1int,
{
    assert forall|j: int| 0 <= j < s.len() implies walk_meta_values_i_seq(s, g)[j] == s[j] by {
        id_meta_value_i(s[j], g);
    }
    assert(walk_meta_values_i_seq(s, g) =~= s);
}


proof fn id_meta_entry_i(p: (Seq<char>, SpecMetaValue), g: spec_fn(SpecInline) -> SpecInline)
    requires
        forall|x: SpecInline| #[trigger] g(x) == x,
    ensures
        walk_meta_entry_i(p, g) == p,
    decreases p, 1int,
{
    id_meta_value_i(p.1, g);
    assert((p.0, p.1) == p);
}


proof fn id_meta_entries_i_seq(s: Seq<(Seq<char>, SpecMetaValue)>, g: spec_fn(SpecInline) -> SpecInline)
    requires
        forall|x: SpecInline| #[trigger] g(x) == x,
    ensures
        walk_meta_entries_i_seq(s, g) == s,
    decreases s, 2int,
{
    assert forall|j: int| 0 <= j < s.len() implies walk_meta_entries_i_seq(s, g)[j] == s[j] by {
        id_meta_entry_i(s[j], g);
    }
    assert(walk_meta_entries_i_seq(s, g) =~= s);
}


proof fn id_block_b(b: SpecBlock, g: spec_fn(SpecBlock) -> SpecBlock)
    requires
        forall|x: SpecBlock| #[trigger] g(x) == x,
    ensures
        walk_block(b, g) == b,
    decreases b, 0int,
{
    match b {
        SpecBlock::BlockQuote(v) => {
            id_block_seq(v, g);
        },
        SpecBlock::OrderedList(_, v) => {
            id_blockss_seq(v, g);
        },
        SpecBlock::BulletList(v) => {
            id_blockss_seq(v, g);
        },
        SpecBlock::DefinitionList(v) => {
            id_defitems_b_seq(v, g);
        },
        SpecBlock::Table(_, _, _, h, r) => {
            id_blockss_seq(h, g);
            id_blocksss_seq(r, g);
        },
        SpecBlock::Div(_, v) => {
            id_block_seq(v, g);
        },
        _ => {},
    }
}


proof fn id_block_seq(s: Seq<SpecBlock>, g: spec_fn(SpecBlock) -> SpecBlock)
    requires
        forall|x: SpecBlock| #[trigger] g(x) == x,
    ensures
        walk_block_seq(s, g) == s,
    decreases s, 1int,
{
    assert forall|j: int| 0 <= j < s.len() implies walk_block_seq(s, g)[j] == s[j] by {
        id_block_b(s[j], g);
    }
    assert(walk_block_seq(s, g) =~= s);
}


proof fn id_blockss_seq(s: Seq<Seq<SpecBlock>>, g: spec_fn(SpecBlock) -> SpecBlock)
    requires
        forall|x: SpecBlock| #[trigger] g(x) == x,
    ensures
        walk_blockss_seq(s, g) == s,
    decreases s, 2int,
{
    assert forall|j: int| 0 <= j < s.len() implies walk_blockss_seq(s, g)[j] == s[j] by {
        id_block_seq(s[j], g);
    }
    assert(walk_blockss_seq(s, g) =~= s);
}


proof fn id_blocksss_seq(s: Seq<Seq<Seq<SpecBlock>>>, g: spec_fn(SpecBlock) -> SpecBlock)
    requires
        forall|x: SpecBlock| #[trigger] g(x) == x,
    ensures
        walk_blocksss_seq(s, g) == s,
    decreases s, 3int,
{
    assert forall|j: int| 0 <= j < s.len() implies walk_blocksss_seq(s, g)[j] == s[j] by {
        id_blockss_seq(s[j], g);
    }
    assert(walk_blocksss_seq(s, g) =~= s);
}


proof fn id_defitem_b(d: (Seq<SpecInline>, Seq<Seq<SpecBlock>>), g: spec_fn(SpecBlock) -> SpecBlock)
    requires
        forall|x: SpecBlock| #[trigger] g(x) == x,
    ensures
        walk_defitem_b(d, g) == d,
    decreases d, 3int,
{
    id_blockss_seq(d.1, g);
    assert((d.0, d.1) == d);
}


proof fn id_defitems_b_seq(s: Seq<(Seq<SpecInline>, Seq<Seq<SpecBlock>>)>, g: spec_fn(SpecBlock) -> SpecBlock)
    requires
        forall|x: SpecBlock| #[trigger] g(x) == x,
    ensures
        walk_defitems_b_seq(s, g) == s,
    decreases s, 4int,
{
    assert forall|j: int| 0 <= j < s.len() implies walk_defitems_b_seq(s, g)[j] == s[j] by {
        id_defitem_b(s[j], g);
    }
    assert(walk_defitems_b_seq(s, g) =~= s);
}


proof fn id_meta_value_b(m: SpecMetaValue, g: spec_fn(SpecBlock) -> SpecBlock)
    requires
        forall|x: SpecBlock| #[trigger] g(x) == x,
    ensures
        walk_meta_value_b(m, g) == m,
    decreases m, 0int,
{
    match m {
        SpecMetaValue::MetaMap(es) => {
            id_meta_entries_b_seq(es, g);
        },
        SpecMetaValue::MetaList(vs) => {
            id_meta_values_b_seq(vs, g);
        },
        SpecMetaValue::MetaBlocks(v) => {
            id_block_seq(v, g);
        },
        _ => {},
    }
}


proof fn id_meta_values_b_seq(s: Seq<SpecMetaValue>, g: spec_fn(SpecBlock) -> SpecBlock)
    requires
        forall|x: SpecBlock| #[trigger] g(x) == x,
    ensures
        walk_meta_values_b_seq(s, g) == s,
    decreases s, 1int,
{
    assert forall|j: int| 0 <= j < s.len() implies walk_meta_values_b_seq(s, g)[j] == s[j] by {
        id_meta_value_b(s[j], g);
    }
    assert(walk_meta_values_b_seq(s, g) =~= s);
}


proof fn id_meta_entry_b(p: (Seq<char>, SpecMetaValue), g: spec_fn(SpecBlock) -> SpecBlock)
    requires
        forall|x: SpecBlock| #[trigger] g(x) == x,
    ensures
        walk_meta_entry_b(p, g) == p,
    decreases p, 1int,
{
    id_meta_value_b(p.1, g);
    assert((p.0, p.1) == p);
}


proof fn id_meta_entries_b_seq(s: Seq<(Seq<char>, SpecMetaValue)>, g: spec_fn(SpecBlock) -> SpecBlock)
    requires
        forall|x: SpecBlock| #[trigger] g(x) == x,
    ensures
        walk_meta_entries_b_seq(s, g) == s,
    decreases s, 2int,
{
    assert forall|j: int| 0 <= j < s.len() implies walk_meta_entries_b_seq(s, g)[j] == s[j] by {
        id_meta_entry_b(s[j], g);
    }
    assert(walk_meta_entries_b_seq(s, g) =~= s);
}


proof fn id_meta_value_m(m: SpecMetaValue, g: spec_fn(SpecMetaValue) -> SpecMetaValue)
    requires
        forall|x: SpecMetaValue| #[trigger] g(x) == x,
    ensures
        walk_meta_value_m(m, g) == m,
    decreases m, 0int,
{
    match m {
        SpecMetaValue::MetaMap(es) => {
            id_meta_entries_m_seq(es, g);
        },
        SpecMetaValue::MetaList(vs) => {
            id_meta_values_m_seq(vs, g);
        },
        _ => {},
    }
}


proof fn id_meta_values_m_seq(s: Seq<SpecMetaValue>, g: spec_fn(SpecMetaValue) -> SpecMetaValue)
    requires
        forall|x: SpecMetaValue| #[trigger] g(x) == x,
    ensures
        walk_meta_values_m_seq(s, g) == s,
    decreases s, 1int,
{
    assert forall|j: int| 0 <= j < s.len() implies walk_meta_values_m_seq(s, g)[j] == s[j] by {
        id_meta_value_m(s[j], g);
    }
    assert(walk_meta_values_m_seq(s, g) =~= s);
}


proof fn id_meta_entry_m(p: (Seq<char>, SpecMetaValue), g: spec_fn(SpecMetaValue) -> SpecMetaValue)
    requires
        forall|x: SpecMetaValue| #[trigger] g(x) == x,
    ensures
        walk_meta_entry_m(p, g) == p,
    decreases p, 1int,
{
    id_meta_value_m(p.1, g);
    assert((p.0, p.1) == p);
}


proof fn id_meta_entries_m_seq(s: Seq<(Seq<char>, SpecMetaValue)>, g: spec_fn(SpecMetaValue) -> SpecMetaValue)
    requires
        forall|x: SpecMetaValue| #[trigger] g(x) == x,
    ensures
        walk_meta_entries_m_seq(s, g) == s,
    decreases s, 2int,
{
    assert forall|j: int| 0 <= j < s.len() implies walk_meta_entries_m_seq(s, g)[j] == s[j] by {
        id_meta_entry_m(s[j], g);
    }
    assert(walk_meta_entries_m_seq(s, g) =~= s);
}


/// Walk identity for the inline target: walking a whole document with a
/// transform that maps every inline to itself yields the same document.
pub proof fn lemma_walk_identity_inline(p: SpecPandoc, g: spec_fn(SpecInline) -> SpecInline)
    requires
        forall|x: SpecInline| #[trigger] g(x) == x,
    ensures
        walk_pandoc_i(p, g) == p,
{
    id_meta_entries_i_seq(p.meta.un_meta, g);
    id_blocks_i_seq(p.blocks, g);
    assert(walk_meta_i(p.meta, g) == p.meta);
    assert(walk_pandoc_i(p, g) == SpecPandoc { meta: p.meta, blocks: p.blocks });
    assert(SpecPandoc { meta: p.meta, blocks: p.blocks } == p);
}

/// Walk identity for the block target.
pub proof fn lemma_walk_identity_block(p: SpecPandoc, g: spec_fn(SpecBlock) -> SpecBlock)
    requires
        forall|x: SpecBlock| #[trigger] g(x) == x,
    ensures
        walk_pandoc_b(p, g) == p,
{
    id_meta_entries_b_seq(p.meta.un_meta, g);
    id_block_seq(p.blocks, g);
    assert(walk_meta_b(p.meta, g) == p.meta);
    assert(walk_pandoc_b(p, g) == SpecPandoc { meta: p.meta, blocks: p.blocks });
    assert(SpecPandoc { meta: p.meta, blocks: p.blocks } == p);
}

/// Walk identity for the metadata-value target.
pub proof fn lemma_walk_identity_meta_value(m: SpecMetaValue, g: spec_fn(SpecMetaValue) -> SpecMetaValue)
    requires
        forall|x: SpecMetaValue| #[trigger] g(x) == x,
    ensures
        walk_meta_value_m(m, g) == m,
{
    id_meta_value_m(m, g);
}

/// Walk identity for a single inline tree.
pub proof fn lemma_walk_identity_inline_node(i: SpecInline, g: spec_fn(SpecInline) -> SpecInline)
    requires
        forall|x: SpecInline| #[trigger] g(x) == x,
    ensures
        walk_inline(i, g) == i,
{
    id_inline(i, g);
}

/// Walk identity for a single block tree.
pub proof fn lemma_walk_identity_block_node(b: SpecBlock, g: spec_fn(SpecBlock) -> SpecBlock)
    requires
        forall|x: SpecBlock| #[trigger] g(x) == x,
    ensures
        walk_block(b, g) == b,
{
    id_block_b(b, g);
}


proof fn lemma_insert_wf(s: Seq<(Seq<char>, SpecMetaValue)>, k: Seq<char>, v: SpecMetaValue)
    requires
        wf_meta_entries(s),
        wf_meta_value(v),
    ensures
        wf_meta_entries(insert_entry(s, k, v)),
    decreases s.len(),
{
    let r = insert_entry(s, k, v);
    if s.len() == 0 {
        assert(forall|i: int| 0 <= i < r.len() ==> (#[trigger] r[i]).1 == v);
    } else if lex_lt(k, s[0].0) {
        assert forall|i: int| 0 <= i < r.len() implies wf_meta_value((#[trigger] r[i]).1) by {
            if i > 0 {
                assert(r[i] == s[i - 1]);
            }
        }
    } else if k == s[0].0 {
        assert forall|i: int| 0 <= i < r.len() implies wf_meta_value((#[trigger] r[i]).1) by {
            if i > 0 {
                assert(r[i] == s.drop_first()[i - 1]);
                assert(r[i] == s[i]);
            }
        }
    } else {
        assert(wf_meta_entries(s.drop_first())) by {
            assert(forall|i: int|
                0 <= i < s.len() - 1 ==> #[trigger] s.drop_first()[i] == s[i + 1]);
        }
        lemma_insert_wf(s.drop_first(), k, v);
        let inner = insert_entry(s.drop_first(), k, v);
        assert forall|i: int| 0 <= i < r.len() implies wf_meta_value((#[trigger] r[i]).1) by {
            if i > 0 {
                assert(r[i] == inner[i - 1]);
            } else {
                assert(r[0] == s[0]);
            }
        }
    }
}

proof fn wf_dec_inline(v: SpecValue)
    ensures
        (dec_inline(v) matches Ok(i) ==> wf_inline(i)),
    decreases v, 3int,
{
    match v {
        SpecValue::Obj(pairs) => if pairs.len() == 1 {
            wf_dec_inline_tagged(pairs[0].0, pairs[0].1);
        } else {
        },
        _ => {},
    }
}

proof fn wf_dec_inline_tagged(tag: Seq<char>, payload: SpecValue)
    ensures
        (dec_inline_tagged(tag, payload) matches Ok(i) ==> wf_inline(i)),
    decreases payload, 2int,
{
    wf_dec_inline_seq_payload(payload);
    wf_dec_ait(payload);
    match payload {
        SpecValue::Arr(items) => {
            if items.len() > 0 {
                wf_dec_inline_seq_payload(items[0]);
                match items[0] {
                    SpecValue::Arr(cs) => {
                        wf_dec_citations(cs);
                    },
                    _ => {},
                }
            }
            if items.len() > 1 {
                wf_dec_inline_seq_payload(items[1]);
            }
        },
        _ => {},
    }
}

proof fn wf_dec_ait(payload: SpecValue)
    ensures
        (dec_attr_inlines_target(payload) matches Ok(t) ==> wf_inlines(t.1)),
    decreases payload, 1int,
{
    match payload {
        SpecValue::Arr(items) => {
            if items.len() > 1 {
                wf_dec_inline_seq_payload(items[1]);
            }
        },
        _ => {},
    }
}

proof fn wf_dec_inline_seq_payload(payload: SpecValue)
    ensures
        (dec_inline_seq_payload(payload) matches Ok(s) ==> wf_inlines(s)),
    decreases payload, 0int,
{
    match payload {
        SpecValue::Arr(items) => {
            wf_dec_inlines(items);
        },
        _ => {},
    }
}

proof fn wf_dec_inlines(s: Seq<SpecValue>)
    ensures
        (dec_inlines(s) matches Ok(r) ==> wf_inlines(r)),
    decreases s, 3int,
{
    if s.len() > 0 {
        wf_dec_inlines(s.drop_last());
        wf_dec_inline(s.last());
        if dec_inlines(s) is Ok {
            let r = dec_inlines(s)->Ok_0;
            let rest = dec_inlines(s.drop_last())->Ok_0;
            let i = dec_inline(s.last())->Ok_0;
            assert(r == rest.push(i));
            assert forall|j: int| 0 <= j < r.len() implies wf_inline(#[trigger] r[j]) by {
                if j < r.len() - 1 {
                    assert(r[j] == rest[j]);
                }
            }
        }
    }
}

proof fn wf_dec_citation(v: SpecValue)
    ensures
        (dec_citation(v) matches Ok(c) ==> wf_citation(c)),
    decreases v, 2int,
{
    match v {
        SpecValue::Obj(pairs) => {
            let i_pre = find_idx(pairs, "citationPrefix"@);
            let i_suf = find_idx(pairs, "citationSuffix"@);
            if 0 <= i_pre < pairs.len() {
                wf_dec_inline_seq_payload(pairs[i_pre].1);
            }
            if 0 <= i_suf < pairs.len() {
                wf_dec_inline_seq_payload(pairs[i_suf].1);
            }
        },
        _ => {},
    }
}

proof fn wf_dec_citations(s: Seq<SpecValue>)
    ensures
        (dec_citations(s) matches Ok(r) ==> wf_citations(r)),
    decreases s, 3int,
{
    if s.len() > 0 {
        wf_dec_citations(s.drop_last());
        wf_dec_citation(s.last());
        if dec_citations(s) is Ok {
            let r = dec_citations(s)->Ok_0;
            let rest = dec_citations(s.drop_last())->Ok_0;
            let c = dec_citation(s.last())->Ok_0;
            assert(r == rest.push(c));
            assert forall|j: int| 0 <= j < r.len() implies wf_citation(#[trigger] r[j]) by {
                if j < r.len() - 1 {
                    assert(r[j] == rest[j]);
                }
            }
        }
    }
}

proof fn wf_dec_block(v: SpecValue)
    ensures
        (dec_block(v) matches Ok(b) ==> wf_block(b)),
    decreases v, 3int,
{
    match v {
        SpecValue::Obj(pairs) => if pairs.len() == 1 {
            wf_dec_block_tagged(pairs[0].0, pairs[0].1);
        } else {
        },
        _ => {},
    }
}

proof fn lemma_dec_alignments_len(s: Seq<SpecValue>)
    ensures
        (dec_alignments(s) matches Ok(r) ==> r.len() == s.len()),
    decreases s.len(),
{
    if s.len() > 0 {
        lemma_dec_alignments_len(s.drop_last());
    }
}

proof fn lemma_dec_nums_len(s: Seq<SpecValue>)
    ensures
        (dec_nums(s) matches Ok(r) ==> r.len() == s.len()),
    decreases s.len(),
{
    if s.len() > 0 {
        lemma_dec_nums_len(s.drop_last());
    }
}

#[verifier::rlimit(100)]
#[verifier::spinoff_prover]
proof fn wf_dec_block_tagged(tag: Seq<char>, payload: SpecValue)
    ensures
        (dec_block_tagged(tag, payload) matches Ok(b) ==> wf_block(b)),
    decreases payload, 2int,
{
    wf_dec_inline_seq_payload(payload);
    wf_dec_block_seq_payload(payload);
    wf_dec_blockss_payload(payload);
    match payload {
        SpecValue::Arr(items) => {
            wf_dec_defitems(items);
            if items.len() == 5 {
                wf_dec_table(items);
            }
            if items.len() > 0 {
                wf_dec_inline_seq_payload(items[0]);
            }
            if items.len() > 1 {
                wf_dec_inline_seq_payload(items[1]);
                wf_dec_block_seq_payload(items[1]);
                wf_dec_blockss_payload(items[1]);
            }
            if items.len() > 2 {
                wf_dec_inline_seq_payload(items[2]);
            }
        },
        _ => {},
    }
}

proof fn wf_dec_table(items: Seq<SpecValue>)
    requires
        items.len() == 5,
    ensures
        (dec_table(items) matches Ok(b) ==> wf_block(b)),
    decreases items, 1int,
{
    wf_dec_inline_seq_payload(items[0]);
    wf_dec_blockss_payload(items[3]);
    wf_dec_blocksss_payload(items[4]);
    match (items[1], items[2]) {
        (SpecValue::Arr(als), SpecValue::Arr(ws)) => {
            lemma_dec_alignments_len(als);
            lemma_dec_nums_len(ws);
            match items[3] {
                SpecValue::Arr(hs) => {
                    lemma_dec_blockss_len(hs);
                },
                _ => {},
            }
        },
        _ => {},
    }
}

proof fn lemma_dec_blockss_len(s: Seq<SpecValue>)
    ensures
        (dec_blockss(s) matches Ok(r) ==> r.len() == s.len()),
    decreases s.len(),
{
    if s.len() > 0 {
        lemma_dec_blockss_len(s.drop_last());
    }
}

proof fn wf_dec_block_seq_payload(payload: SpecValue)
    ensures
        (dec_block_seq_payload(payload) matches Ok(s) ==> wf_blocks(s)),
    decreases payload, 0int,
{
    match payload {
        SpecValue::Arr(items) => {
            wf_dec_blocks(items);
        },
        _ => {},
    }
}

proof fn wf_dec_blocks(s: Seq<SpecValue>)
    ensures
        (dec_blocks(s) matches Ok(r) ==> wf_blocks(r)),
    decreases s, 3int,
{
    if s.len() > 0 {
        wf_dec_blocks(s.drop_last());
        wf_dec_block(s.last());
        if dec_blocks(s) is Ok {
            let r = dec_blocks(s)->Ok_0;
            let rest = dec_blocks(s.drop_last())->Ok_0;
            let b = dec_block(s.last())->Ok_0;
            assert(r == rest.push(b));
            assert forall|j: int| 0 <= j < r.len() implies wf_block(#[trigger] r[j]) by {
                if j < r.len() - 1 {
                    assert(r[j] == rest[j]);
                }
            }
        }
    }
}

proof fn wf_dec_blockss_payload(payload: SpecValue)
    ensures
        (dec_blockss_payload(payload) matches Ok(s) ==> wf_blockss(s)),
    decreases payload, 0int,
{
    match payload {
        SpecValue::Arr(items) => {
            wf_dec_blockss(items);
        },
        _ => {},
    }
}

proof fn wf_dec_blockss(s: Seq<SpecValue>)
    ensures
        (dec_blockss(s) matches Ok(r) ==> wf_blockss(r)),
    decreases s, 3int,
{
    if s.len() > 0 {
        wf_dec_blockss(s.drop_last());
        wf_dec_block_seq_payload(s.last());
        if dec_blockss(s) is Ok {
            let r = dec_blockss(s)->Ok_0;
            let rest = dec_blockss(s.drop_last())->Ok_0;
            let b = dec_block_seq_payload(s.last())->Ok_0;
            assert(r == rest.push(b));
            assert forall|j: int| 0 <= j < r.len() implies wf_blocks(#[trigger] r[j]) by {
                if j < r.len() - 1 {
                    assert(r[j] == rest[j]);
                }
            }
        }
    }
}

proof fn wf_dec_blocksss_payload(payload: SpecValue)
    ensures
        (dec_blocksss_payload(payload) matches Ok(s) ==> wf_blocksss(s)),
    decreases payload, 0int,
{
    match payload {
        SpecValue::Arr(items) => {
            wf_dec_blocksss(items);
        },
        _ => {},
    }
}

proof fn wf_dec_blocksss(s: Seq<SpecValue>)
    ensures
        (dec_blocksss(s) matches Ok(r) ==> wf_blocksss(r)),
    decreases s, 3int,
{
    if s.len() > 0 {
        wf_dec_blocksss(s.drop_last());
        wf_dec_blockss_payload(s.last());
        if dec_blocksss(s) is Ok {
            let r = dec_blocksss(s)->Ok_0;
            let rest = dec_blocksss(s.drop_last())->Ok_0;
            let b = dec_blockss_payload(s.last())->Ok_0;
            assert(r == rest.push(b));
            assert forall|j: int| 0 <= j < r.len() implies wf_blockss(#[trigger] r[j]) by {
                if j < r.len() - 1 {
                    assert(r[j] == rest[j]);
                }
            }
        }
    }
}

proof fn wf_dec_defitems(s: Seq<SpecValue>)
    ensures
        (dec_defitems(s) matches Ok(r) ==> wf_defitems(r)),
    decreases s, 3int,
{
    if s.len() > 0 {
        wf_dec_defitems(s.drop_last());
        wf_dec_defitem(s.last());
        if dec_defitems(s) is Ok {
            let r = dec_defitems(s)->Ok_0;
            let rest = dec_defitems(s.drop_last())->Ok_0;
            let d = dec_defitem(s.last())->Ok_0;
            assert(r == rest.push(d));
            assert forall|j: int|
                0 <= j < r.len() implies wf_inlines((#[trigger] r[j]).0) && wf_blockss(
                r[j].1,
            ) by {
                if j < r.len() - 1 {
                    assert(r[j] == rest[j]);
                }
            }
        }
    }
}

proof fn wf_dec_defitem(v: SpecValue)
    ensures
        (dec_defitem(v) matches Ok(d) ==> wf_inlines(d.0) && wf_blockss(d.1)),
    decreases v, 2int,
{
    match v {
        SpecValue::Arr(items) => {
            if items.len() > 0 {
                wf_dec_inline_seq_payload(items[0]);
            }
            if items.len() > 1 {
                wf_dec_blockss_payload(items[1]);
            }
        },
        _ => {},
    }
}

proof fn wf_dec_meta_value(v: SpecValue)
    ensures
        (dec_meta_value(v) matches Ok(m) ==> wf_meta_value(m)),
    decreases v, 3int,
{
    match v {
        SpecValue::Obj(pairs) => if pairs.len() == 1 {
            wf_dec_meta_value_tagged(pairs[0].0, pairs[0].1);
        } else {
        },
        _ => {},
    }
}

proof fn wf_dec_meta_value_tagged(tag: Seq<char>, payload: SpecValue)
    ensures
        (dec_meta_value_tagged(tag, payload) matches Ok(m) ==> wf_meta_value(m)),
    decreases payload, 2int,
{
    wf_dec_inline_seq_payload(payload);
    wf_dec_block_seq_payload(payload);
    match payload {
        SpecValue::Obj(entries) => {
            wf_dec_meta_entries(entries);
        },
        SpecValue::Arr(items) => {
            wf_dec_meta_values(items);
        },
        _ => {},
    }
}

proof fn wf_dec_meta_values(s: Seq<SpecValue>)
    ensures
        (dec_meta_values(s) matches Ok(r) ==> wf_meta_values(r)),
    decreases s, 3int,
{
    if s.len() > 0 {
        wf_dec_meta_values(s.drop_last());
        wf_dec_meta_value(s.last());
        if dec_meta_values(s) is Ok {
            let r = dec_meta_values(s)->Ok_0;
            let rest = dec_meta_values(s.drop_last())->Ok_0;
            let m = dec_meta_value(s.last())->Ok_0;
            assert(r == rest.push(m));
            assert forall|j: int| 0 <= j < r.len() implies wf_meta_value(#[trigger] r[j]) by {
                if j < r.len() - 1 {
                    assert(r[j] == rest[j]);
                }
            }
        }
    }
}

proof fn wf_dec_meta_entries(s: Seq<(Seq<char>, SpecValue)>)
    ensures
        (dec_meta_entries(s) matches Ok(r) ==> entries_sorted(r) && wf_meta_entries(r)),
    decreases s, 3int,
{
    if s.len() > 0 {
        wf_dec_meta_entries(s.drop_last());
        wf_dec_meta_value(s.last().1);
        if dec_meta_entries(s) is Ok {
            let r = dec_meta_entries(s)->Ok_0;
            let rest = dec_meta_entries(s.drop_last())->Ok_0;
            let mv = dec_meta_value(s.last().1)->Ok_0;
            crate::metamap::lemma_insert_sorted(rest, s.last().0, mv);
            lemma_insert_wf(rest, s.last().0, mv);
        }
    }
}

proof fn wf_dec_meta(v: SpecValue)
    ensures
        (dec_meta(v) matches Ok(m) ==> wf_meta(m)),
    decreases v, 1int,
{
    match v {
        SpecValue::Obj(pairs) => if pairs.len() == 1 {
            match pairs[0].1 {
                SpecValue::Obj(entries) => {
                    wf_dec_meta_entries(entries);
                },
                _ => {},
            }
        } else {
        },
        _ => {},
    }
}

/// Decoding only ever yields well-formed documents: header levels are
/// positive, table sequences agree in length, and metadata keys are
/// strictly sorted — malformed input is rejected, never patched up.
pub proof fn lemma_decode_well_formed(v: SpecValue)
    ensures
        (dec_pandoc(v) matches Ok(d) ==> wf_pandoc(d)),
{
    match v {
        SpecValue::Arr(items) => if items.len() == 2 {
            wf_dec_meta(items[0]);
            match items[1] {
                SpecValue::Arr(bs) => {
                    wf_dec_blocks(bs);
                },
                _ => {},
            }
        } else {
        },
        _ => {},
    }
}


/// An unrecognized tag on a block position is rejected as `UnknownTag`,
/// whatever its payload is.
pub proof fn lemma_block_unknown_tag(tag: Seq<char>, payload: SpecValue)
    requires
        tag != "Plain"@,
        tag != "Para"@,
        tag != "CodeBlock"@,
        tag != "RawBlock"@,
        tag != "BlockQuote"@,
        tag != "OrderedList"@,
        tag != "BulletList"@,
        tag != "DefinitionList"@,
        tag != "Header"@,
        tag != "HorizontalRule"@,
        tag != "Table"@,
        tag != "Div"@,
        tag != "Null"@,
    ensures
        dec_block_tagged(tag, payload) == Err::<SpecBlock, DecodeError>(DecodeError::UnknownTag),
        dec_block(SpecValue::Obj(seq![(tag, payload)])) == Err::<SpecBlock, DecodeError>(
            DecodeError::UnknownTag,
        ),
{
}

/// An unrecognized tag on an inline position is rejected as
/// `UnknownTag`, whatever its payload is.
pub proof fn lemma_inline_unknown_tag(tag: Seq<char>, payload: SpecValue)
    requires
        tag != "Str"@,
        tag != "Emph"@,
        tag != "Strong"@,
        tag != "Strikeout"@,
        tag != "Superscript"@,
        tag != "Subscript"@,
        tag != "SmallCaps"@,
        tag != "Quoted"@,
        tag != "Cite"@,
        tag != "Code"@,
        tag != "Space"@,
        tag != "SoftBreak"@,
        tag != "LineBreak"@,
        tag != "Math"@,
        tag != "RawInline"@,
        tag != "Link"@,
        tag != "Image"@,
        tag != "Span"@,
    ensures
        dec_inline_tagged(tag, payload) == Err::<SpecInline, DecodeError>(DecodeError::UnknownTag),
        dec_inline(SpecValue::Obj(seq![(tag, payload)])) == Err::<SpecInline, DecodeError>(
            DecodeError::UnknownTag,
        ),
{
}

/// A tuple-variant payload of the wrong length is rejected as
/// `ArityMismatch`, for every tuple variant of the block union and every
/// wrong length.
#[verifier::rlimit(100)]
#[verifier::spinoff_prover]
pub proof fn lemma_block_tuple_arity(items: Seq<SpecValue>)
    ensures
        items.len() != 2 ==> dec_block_tagged("CodeBlock"@, SpecValue::Arr(items)) == Err::<
            SpecBlock,
            DecodeError,
        >(DecodeError::ArityMismatch),
        items.len() != 2 ==> dec_block_tagged("RawBlock"@, SpecValue::Arr(items)) == Err::<
            SpecBlock,
            DecodeError,
        >(DecodeError::ArityMismatch),
        items.len() != 2 ==> dec_block_tagged("OrderedList"@, SpecValue::Arr(items)) == Err::<
            SpecBlock,
            DecodeError,
        >(DecodeError::ArityMismatch),
        items.len() != 3 ==> dec_block_tagged("Header"@, SpecValue::Arr(items)) == Err::<
            SpecBlock,
            DecodeError,
        >(DecodeError::ArityMismatch),
        items.len() != 5 ==> dec_block_tagged("Table"@, SpecValue::Arr(items)) == Err::<
            SpecBlock,
            DecodeError,
        >(DecodeError::ArityMismatch),
        items.len() != 2 ==> dec_block_tagged("Div"@, SpecValue::Arr(items)) == Err::<
            SpecBlock,
            DecodeError,
        >(DecodeError::ArityMismatch),
{
    reveal_strlit("Plain");
    reveal_strlit("Para");
    reveal_strlit("CodeBlock");
    reveal_strlit("RawBlock");
    reveal_strlit("BlockQuote");
    reveal_strlit("OrderedList");
    reveal_strlit("BulletList");
    reveal_strlit("DefinitionList");
    reveal_strlit("Header");
    reveal_strlit("HorizontalRule");
    reveal_strlit("Table");
    reveal_strlit("Div");
    reveal_strlit("Null");
    assert("Plain"@.len() == 5);
    assert("Plain"@[0] == 'P');
    assert("Plain"@[1] == 'l');
    assert("Para"@.len() == 4);
    assert("Para"@[0] == 'P');
    assert("Para"@[1] == 'a');
    assert("CodeBlock"@.len() == 9);
    assert("CodeBlock"@[0] == 'C');
    assert("CodeBlock"@[1] == 'o');
    assert("RawBlock"@.len() == 8);
    assert("RawBlock"@[0] == 'R');
    assert("RawBlock"@[1] == 'a');
    assert("BlockQuote"@.len() == 10);
    assert("BlockQuote"@[0] == 'B');
    assert("BlockQuote"@[1] == 'l');
    assert("OrderedList"@.len() == 11);
    assert("OrderedList"@[0] == 'O');
    assert("OrderedList"@[1] == 'r');
    assert("BulletList"@.len() == 10);
    assert("BulletList"@[0] == 'B');
    assert("BulletList"@[1] == 'u');
    assert("DefinitionList"@.len() == 14);
    assert("DefinitionList"@[0] == 'D');
    assert("DefinitionList"@[1] == 'e');
    assert("Header"@.len() == 6);
    assert("Header"@[0] == 'H');
    assert("Header"@[1] == 'e');
    assert("HorizontalRule"@.len() == 14);
    assert("HorizontalRule"@[0] == 'H');
    assert("HorizontalRule"@[1] == 'o');
    assert("Table"@.len() == 5);
    assert("Table"@[0] == 'T');
    assert("Table"@[1] == 'a');
    assert("Div"@.len() == 3);
    assert("Div"@[0] == 'D');
    assert("Div"@[1] == 'i');
    assert("Null"@.len() == 4);
    assert("Null"@[0] == 'N');
    assert("Null"@[1] == 'u');
}

proof fn lemma_dec_blocks_all_ok(s: Seq<SpecValue>)
    requires
        forall|j: int| 0 <= j < s.len() ==> dec_block(#[trigger] s[j]) is Ok,
    ensures
        dec_blocks(s) is Ok,
    decreases s.len(),
{
    if s.len() > 0 {
        assert(forall|j: int|
            0 <= j < s.len() - 1 ==> #[trigger] s.drop_last()[j] == s[j]);
        lemma_dec_blocks_all_ok(s.drop_last());
    }
}

/// A malformed block is reported from any position of a block sequence:
/// if the blocks before position `i` decode and the block at `i` fails
/// with `e`, the whole sequence fails with `e` — never a panic, never a
/// silent default.
pub proof fn lemma_block_error_at_any_position(s: Seq<SpecValue>, i: int, e: DecodeError)
    requires
        0 <= i < s.len(),
        forall|j: int| 0 <= j < i ==> dec_block(#[trigger] s[j]) is Ok,
        dec_block(s[i]) == Err::<SpecBlock, DecodeError>(e),
    ensures
        dec_blocks(s) == Err::<Seq<SpecBlock>, DecodeError>(e),
    decreases s.len(),
{
    let t = s.drop_last();
    assert(forall|j: int| 0 <= j < s.len() - 1 ==> #[trigger] t[j] == s[j]);
    if i == s.len() - 1 {
        lemma_dec_blocks_all_ok(t);
    } else {
        lemma_block_error_at_any_position(t, i, e);
    }
}


/// The decoded value of each entry of a metadata object, keys kept.
pub open spec fn dec_entry_vals(s: Seq<(Seq<char>, SpecValue)>) -> Seq<
    (Seq<char>, SpecMetaValue),
> {
    Seq::new(s.len(), |i: int| (s[i].0, dec_meta_value(s[i].1)->Ok_0))
}

proof fn lemma_dec_entries_canon(s: Seq<(Seq<char>, SpecValue)>)
    requires
        forall|i: int| 0 <= i < s.len() ==> dec_meta_value((#[trigger] s[i]).1) is Ok,
    ensures
        dec_meta_entries(s) == Ok::<Seq<(Seq<char>, SpecMetaValue)>, DecodeError>(
            canon_entries(dec_entry_vals(s)),
        ),
    decreases s.len(),
{
    if s.len() == 0 {
        assert(dec_entry_vals(s) =~= Seq::<(Seq<char>, SpecMetaValue)>::empty());
        assert(canon_entries(dec_entry_vals(s)) =~= Seq::<(Seq<char>, SpecMetaValue)>::empty());
    } else {
        let t = s.drop_last();
        assert(forall|j: int| 0 <= j < s.len() - 1 ==> #[trigger] t[j] == s[j]);
        lemma_dec_entries_canon(t);
        assert(dec_entry_vals(s).drop_last() =~= dec_entry_vals(t));
        assert(dec_entry_vals(s).last() == (s.last().0, dec_meta_value(s.last().1)->Ok_0));
        assert(canon_entries(dec_entry_vals(s)) == insert_entry(
            canon_entries(dec_entry_vals(t)),
            s.last().0,
            dec_meta_value(s.last().1)->Ok_0,
        ));
    }
}

proof fn lemma_to_map_dec_vals(s: Seq<(Seq<char>, SpecValue)>)
    ensures
        to_map(dec_entry_vals(s)) =~= to_map(s).map_values(
            |x: SpecValue| dec_meta_value(x)->Ok_0,
        ),
    decreases s.len(),
{
    if s.len() == 0 {
        assert(dec_entry_vals(s) =~= Seq::<(Seq<char>, SpecMetaValue)>::empty());
        assert(to_map(dec_entry_vals(s)) =~= Map::<Seq<char>, SpecMetaValue>::empty());
        assert(to_map(s).map_values(|x: SpecValue| dec_meta_value(x)->Ok_0) =~= Map::<
            Seq<char>,
            SpecMetaValue,
        >::empty());
    } else {
        lemma_to_map_dec_vals(s.drop_last());
        let ds = dec_entry_vals(s);
        assert(ds.drop_last() =~= dec_entry_vals(s.drop_last()));
        assert(ds.last() == (s.last().0, dec_meta_value(s.last().1)->Ok_0));
        assert(to_map(ds) == to_map(ds.drop_last()).insert(ds.last().0, ds.last().1));
        assert(to_map(s) == to_map(s.drop_last()).insert(s.last().0, s.last().1));
        assert(to_map(s).map_values(|x: SpecValue| dec_meta_value(x)->Ok_0) =~= to_map(
            s.drop_last(),
        ).map_values(|x: SpecValue| dec_meta_value(x)->Ok_0).insert(
            s.last().0,
            dec_meta_value(s.last().1)->Ok_0,
        ));
    }
}

/// Decoding canonicalizes metadata entry order: two metadata objects
/// that denote the same key-value mapping, all of whose values decode,
/// decode to the same canonical entries — equal metadata from
/// differently-ordered sources.
pub proof fn lemma_decode_meta_order_insensitive(
    e1: Seq<(Seq<char>, SpecValue)>,
    e2: Seq<(Seq<char>, SpecValue)>,
)
    requires
        to_map(e1) == to_map(e2),
        forall|i: int| 0 <= i < e1.len() ==> dec_meta_value((#[trigger] e1[i]).1) is Ok,
        forall|i: int| 0 <= i < e2.len() ==> dec_meta_value((#[trigger] e2[i]).1) is Ok,
    ensures
        dec_meta_entries(e1) == dec_meta_entries(e2),
{
    lemma_dec_entries_canon(e1);
    lemma_dec_entries_canon(e2);
    lemma_to_map_dec_vals(e1);
    lemma_to_map_dec_vals(e2);
    assert(to_map(dec_entry_vals(e1)) =~= to_map(dec_entry_vals(e2)));
    lemma_canon_of_map(dec_entry_vals(e1), dec_entry_vals(e2));
}


/// The converted value of each entry of a metadata object, keys kept.
pub open spec fn from_entry_vals(s: Seq<(Seq<char>, SpecValue)>) -> Seq<(Seq<char>, SpecValue)> {
    Seq::new(s.len(), |i: int| (s[i].0, from_pandoc_val(s[i].1)->Ok_0))
}

proof fn lemma_from_entries_vals(s: Seq<(Seq<char>, SpecValue)>)
    requires
        forall|i: int| 0 <= i < s.len() ==> from_pandoc_val((#[trigger] s[i]).1) is Ok,
    ensures
        from_entries(s) == Ok::<Seq<(Seq<char>, SpecValue)>, DecodeError>(from_entry_vals(s)),
    decreases s.len(),
{
    if s.len() == 0 {
        assert(from_entry_vals(s) =~= Seq::<(Seq<char>, SpecValue)>::empty());
    } else {
        let t = s.drop_last();
        assert(forall|j: int| 0 <= j < s.len() - 1 ==> #[trigger] t[j] == s[j]);
        lemma_from_entries_vals(t);
        assert(from_entry_vals(s) =~= from_entry_vals(t).push(
            (s.last().0, from_pandoc_val(s.last().1)->Ok_0),
        ));
    }
}

proof fn lemma_to_map_from_vals(s: Seq<(Seq<char>, SpecValue)>)
    ensures
        to_map(from_entry_vals(s)) =~= to_map(s).map_values(
            |x: SpecValue| from_pandoc_val(x)->Ok_0,
        ),
    decreases s.len(),
{
    if s.len() == 0 {
        assert(from_entry_vals(s) =~= Seq::<(Seq<char>, SpecValue)>::empty());
        assert(to_map(from_entry_vals(s)) =~= Map::<Seq<char>, SpecValue>::empty());
        assert(to_map(s).map_values(|x: SpecValue| from_pandoc_val(x)->Ok_0) =~= Map::<
            Seq<char>,
            SpecValue,
        >::empty());
    } else {
        lemma_to_map_from_vals(s.drop_last());
        let fs = from_entry_vals(s);
        assert(fs.drop_last() =~= from_entry_vals(s.drop_last()));
        assert(fs.last() == (s.last().0, from_pandoc_val(s.last().1)->Ok_0));
        assert(to_map(fs) == to_map(fs.drop_last()).insert(fs.last().0, fs.last().1));
        assert(to_map(s) == to_map(s.drop_last()).insert(s.last().0, s.last().1));
        assert(to_map(s).map_values(|x: SpecValue| from_pandoc_val(x)->Ok_0) =~= to_map(
            s.drop_last(),
        ).map_values(|x: SpecValue| from_pandoc_val(x)->Ok_0).insert(
            s.last().0,
            from_pandoc_val(s.last().1)->Ok_0,
        ));
    }
}

/// The metadata wrapper object over given entries.
pub open spec fn meta_wrapped(e: Seq<(Seq<char>, SpecValue)>) -> SpecValue {
    SpecValue::Obj(seq![("unMeta"@, SpecValue::Obj(e))])
}

/// A document wire value over given metadata entries and a blocks value.
pub open spec fn doc_value(e: Seq<(Seq<char>, SpecValue)>, blocks: SpecValue) -> SpecValue {
    SpecValue::Arr(seq![meta_wrapped(e), blocks])
}

/// Filter runs are insensitive to metadata entry order: two wire
/// documents that differ only in how their metadata object's entries are
/// ordered give the same pipeline result for every target kind and
/// every transform — and hence byte-identical output text.
#[verifier::rlimit(100)]
#[verifier::spinoff_prover]
pub proof fn lemma_filter_meta_order_insensitive(
    e1: Seq<(Seq<char>, SpecValue)>,
    e2: Seq<(Seq<char>, SpecValue)>,
    blocks: SpecValue,
)
    requires
        to_map(e1) == to_map(e2),
        forall|i: int| 0 <= i < e1.len() ==> from_pandoc_val((#[trigger] e1[i]).1) is Ok,
        forall|i: int|
            0 <= i < e1.len() ==> dec_meta_value(from_pandoc_val((#[trigger] e1[i]).1)->Ok_0)
                is Ok,
        forall|i: int| 0 <= i < e2.len() ==> from_pandoc_val((#[trigger] e2[i]).1) is Ok,
        forall|i: int|
            0 <= i < e2.len() ==> dec_meta_value(from_pandoc_val((#[trigger] e2[i]).1)->Ok_0)
                is Ok,
    ensures
        forall|g: spec_fn(SpecBlock) -> SpecBlock| #[trigger] spec_filter_block(
            doc_value(e1, blocks),
            g,
        ) == spec_filter_block(doc_value(e2, blocks), g),
        forall|g: spec_fn(SpecInline) -> SpecInline| #[trigger] spec_filter_inline(
            doc_value(e1, blocks),
            g,
        ) == spec_filter_inline(doc_value(e2, blocks), g),
        forall|g: spec_fn(SpecPandoc) -> SpecPandoc| #[trigger] spec_filter_document(
            doc_value(e1, blocks),
            g,
        ) == spec_filter_document(doc_value(e2, blocks), g),
{
    lemma_from_entries_vals(e1);
    lemma_from_entries_vals(e2);
    let fe1 = from_entry_vals(e1);
    let fe2 = from_entry_vals(e2);
    reveal_strlit("unMeta");
    reveal_strlit("t");
    reveal_strlit("c");
    assert("unMeta"@.len() == 6);
    assert(from_pandoc_val(meta_wrapped(e1)) == Ok::<SpecValue, DecodeError>(meta_wrapped(fe1)));
    assert(from_pandoc_val(meta_wrapped(e2)) == Ok::<SpecValue, DecodeError>(meta_wrapped(fe2)));
    let d1 = doc_value(e1, blocks);
    let d2 = doc_value(e2, blocks);
    assert(seq![meta_wrapped(e1), blocks].drop_last() =~= seq![meta_wrapped(e1)]);
    assert(seq![meta_wrapped(e2), blocks].drop_last() =~= seq![meta_wrapped(e2)]);
    assert(seq![meta_wrapped(e1)].drop_last() =~= Seq::<SpecValue>::empty());
    assert(seq![meta_wrapped(e2)].drop_last() =~= Seq::<SpecValue>::empty());
    assert(from_vals(Seq::<SpecValue>::empty()) == Ok::<Seq<SpecValue>, DecodeError>(
        Seq::empty(),
    ));
    assert(from_vals(seq![meta_wrapped(e1)]) == Ok::<Seq<SpecValue>, DecodeError>(
        Seq::<SpecValue>::empty().push(meta_wrapped(fe1)),
    ));
    assert(from_vals(seq![meta_wrapped(e2)]) == Ok::<Seq<SpecValue>, DecodeError>(
        Seq::<SpecValue>::empty().push(meta_wrapped(fe2)),
    ));
    assert(d1 == SpecValue::Arr(seq![meta_wrapped(e1), blocks]));
    assert(d2 == SpecValue::Arr(seq![meta_wrapped(e2), blocks]));
    assert(seq![meta_wrapped(e1), blocks].last() == blocks);
    assert(seq![meta_wrapped(e2), blocks].last() == blocks);
    match from_pandoc_val(blocks) {
        Ok(cb) => {
            let w1 = SpecValue::Arr(Seq::<SpecValue>::empty().push(meta_wrapped(fe1)).push(cb));
            let w2 = SpecValue::Arr(Seq::<SpecValue>::empty().push(meta_wrapped(fe2)).push(cb));
            assert(from_vals(seq![meta_wrapped(e1), blocks]) == Ok::<Seq<SpecValue>, DecodeError>(
                Seq::<SpecValue>::empty().push(meta_wrapped(fe1)).push(cb),
            ));
            assert(from_vals(seq![meta_wrapped(e2), blocks]) == Ok::<Seq<SpecValue>, DecodeError>(
                Seq::<SpecValue>::empty().push(meta_wrapped(fe2)).push(cb),
            ));
            assert(from_pandoc_val(d1) == Ok::<SpecValue, DecodeError>(w1));
            assert(from_pandoc_val(d2) == Ok::<SpecValue, DecodeError>(w2));
            assert(forall|i: int|
                0 <= i < fe1.len() ==> dec_meta_value((#[trigger] fe1[i]).1) is Ok);
            assert(forall|i: int|
                0 <= i < fe2.len() ==> dec_meta_value((#[trigger] fe2[i]).1) is Ok);
            lemma_to_map_from_vals(e1);
            lemma_to_map_from_vals(e2);
            assert(to_map(fe1) =~= to_map(fe2));
            lemma_decode_meta_order_insensitive(fe1, fe2);
            assert(dec_meta(meta_wrapped(fe1)) == dec_meta(meta_wrapped(fe2)));
            let items1 = Seq::<SpecValue>::empty().push(meta_wrapped(fe1)).push(cb);
            let items2 = Seq::<SpecValue>::empty().push(meta_wrapped(fe2)).push(cb);
            assert(items1.len() == 2 && items2.len() == 2);
            assert(items1[0] == meta_wrapped(fe1) && items1[1] == cb);
            assert(items2[0] == meta_wrapped(fe2) && items2[1] == cb);
            assert(dec_pandoc(w1) == dec_pandoc(w2));
        },
        Err(e) => {
            assert(from_pandoc_val(d1) == Err::<SpecValue, DecodeError>(e));
            assert(from_pandoc_val(d2) == Err::<SpecValue, DecodeError>(e));
        },
    }
}

} // verus!
