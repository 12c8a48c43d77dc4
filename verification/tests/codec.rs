use pandoc_filters::decode::DecodeError;
use pandoc_filters::examples::{behead, to_upper};
use pandoc_filters::json::{filter_block, filter_document, filter_inline, from_pandoc, to_pandoc};
use pandoc_filters::types::{
    Alignment, Block, Citation, CitationMode, Inline, ListNumberDelim, ListNumberStyle, MathType,
    Meta, MetaValue, Pandoc, QuoteType,
};
use pandoc_filters::value::WireValue;
use pandoc_filters::write::write_json;

fn rich_doc() -> Pandoc {
    let mut meta = Meta::new();
    meta.insert(String::from("flag"), MetaValue::MetaBool(true));
    meta.insert(
        String::from("title"),
        MetaValue::MetaInlines(vec![Inline::Str(String::from("T"))]),
    );
    meta.insert(
        String::from("nested"),
        MetaValue::MetaMap(vec![(
            String::from("k"),
            MetaValue::MetaList(vec![MetaValue::MetaString(String::from("v"))]),
        )]),
    );
    Pandoc {
        meta,
        blocks: vec![
            Block::Header(2, (String::from("h"), vec![String::from("c")], vec![]), vec![
                Inline::Str(String::from("Head")),
            ]),
            Block::Para(vec![
                Inline::Emph(vec![Inline::Str(String::from("e"))]),
                Inline::Space,
                Inline::Quoted(QuoteType::DoubleQuote, vec![Inline::Str(String::from("q"))]),
                Inline::Math(MathType::InlineMath, String::from("x+y")),
                Inline::Link(
                    (String::from(""), vec![], vec![]),
                    vec![Inline::Str(String::from("l"))],
                    (String::from("https://host"), String::from("t")),
                ),
                Inline::Cite(
                    vec![Citation {
                        citation_id: String::from("c1"),
                        citation_prefix: vec![Inline::Str(String::from("see"))],
                        citation_suffix: vec![],
                        citation_mode: CitationMode::SuppressAuthor,
                        citation_note_num: 3,
                        citation_hash: 9,
                    }],
                    vec![Inline::Str(String::from("ref"))],
                ),
            ]),
            Block::OrderedList(
                (7, ListNumberStyle::Decimal, ListNumberDelim::Period),
                vec![vec![Block::Plain(vec![Inline::Str(String::from("one"))])]],
            ),
            Block::Table(
                vec![Inline::Str(String::from("cap"))],
                vec![Alignment::AlignDefault],
                vec![String::from("0")],
                vec![vec![Block::Plain(vec![Inline::Str(String::from("h1"))])]],
                vec![vec![vec![Block::Null]]],
            ),
            Block::HorizontalRule,
        ],
    }
}

#[test]
fn round_trip_rich_document() {
    let doc = rich_doc();
    let encoded = doc.encode();
    assert_eq!(Pandoc::decode(&encoded), Ok(rich_doc()));
}

#[test]
fn round_trip_empty_document() {
    let doc = Pandoc { meta: Meta::new(), blocks: vec![] };
    let encoded = doc.encode();
    assert_eq!(Pandoc::decode(&encoded), Ok(Pandoc { meta: Meta::new(), blocks: vec![] }));
}

#[test]
fn metadata_permutations_encode_identically() {
    let mut m1 = Meta::new();
    m1.insert(String::from("beta"), MetaValue::MetaBool(false));
    m1.insert(String::from("alpha"), MetaValue::MetaString(String::from("a")));
    m1.insert(String::from("gamma"), MetaValue::MetaBool(true));
    let mut m2 = Meta::new();
    m2.insert(String::from("gamma"), MetaValue::MetaBool(true));
    m2.insert(String::from("alpha"), MetaValue::MetaString(String::from("a")));
    m2.insert(String::from("beta"), MetaValue::MetaBool(false));
    assert_eq!(m1, m2);
    assert_eq!(write_json(&m1.encode()), write_json(&m2.encode()));
    assert_eq!(
        write_json(&m1.encode()),
        r#"{"unMeta":{"alpha":{"MetaString":"a"},"beta":{"MetaBool":false},"gamma":{"MetaBool":true}}}"#
    );
}

#[test]
fn metadata_insert_replaces_existing_key() {
    let mut m = Meta::new();
    m.insert(String::from("k"), MetaValue::MetaBool(false));
    m.insert(String::from("k"), MetaValue::MetaBool(true));
    assert_eq!(m.un_meta.len(), 1);
    assert_eq!(write_json(&m.encode()), r#"{"unMeta":{"k":{"MetaBool":true}}}"#);
}

#[test]
fn decode_rejects_object_at_top_level() {
    let v = WireValue::Obj(vec![(String::from("unMeta"), WireValue::Obj(vec![]))]);
    assert_eq!(Pandoc::decode(&v), Err(DecodeError::NotAnArray));
}

#[test]
fn decode_rejects_unknown_tag() {
    let v = WireValue::Obj(vec![(String::from("Bogus"), WireValue::Arr(vec![]))]);
    assert_eq!(Block::decode(&v), Err(DecodeError::UnknownTag));
    assert_eq!(Inline::decode(&v), Err(DecodeError::UnknownTag));
}

#[test]
fn decode_rejects_wrong_arity() {
    let v = WireValue::Obj(vec![(
        String::from("RawBlock"),
        WireValue::Arr(vec![WireValue::Text(String::from("html"))]),
    )]);
    assert_eq!(Block::decode(&v), Err(DecodeError::ArityMismatch));
}

#[test]
fn decode_rejects_missing_tag() {
    let v = WireValue::Obj(vec![
        (String::from("a"), WireValue::Null),
        (String::from("b"), WireValue::Null),
    ]);
    assert_eq!(Block::decode(&v), Err(DecodeError::MissingTag));
}

#[test]
fn decode_rejects_bad_numbers() {
    let zero = WireValue::Obj(vec![(
        String::from("Header"),
        WireValue::Arr(vec![
            WireValue::Num(String::from("0")),
            WireValue::Arr(vec![
                WireValue::Text(String::from("")),
                WireValue::Arr(vec![]),
                WireValue::Arr(vec![]),
            ]),
            WireValue::Arr(vec![]),
        ]),
    )]);
    assert_eq!(Block::decode(&zero), Err(DecodeError::TypeMismatch));
    let frac = WireValue::Obj(vec![(
        String::from("Header"),
        WireValue::Arr(vec![
            WireValue::Num(String::from("1.5")),
            WireValue::Arr(vec![
                WireValue::Text(String::from("")),
                WireValue::Arr(vec![]),
                WireValue::Arr(vec![]),
            ]),
            WireValue::Arr(vec![]),
        ]),
    )]);
    assert_eq!(Block::decode(&frac), Err(DecodeError::TypeMismatch));
}

#[test]
fn decode_accepts_bare_nullary_form() {
    assert_eq!(Inline::decode(&WireValue::Text(String::from("Space"))), Ok(Inline::Space));
    assert_eq!(
        Block::decode(&WireValue::Obj(vec![(
            String::from("HorizontalRule"),
            WireValue::Arr(vec![]),
        )])),
        Ok(Block::HorizontalRule)
    );
}

#[test]
fn json_test_convert_entry_object() {
    let object = WireValue::Obj(vec![
        (String::from("t"), WireValue::Text(String::from("Str"))),
        (String::from("c"), WireValue::Text(String::from("Test"))),
    ]);
    let expected = WireValue::Obj(vec![(
        String::from("Str"),
        WireValue::Text(String::from("Test")),
    )]);
    assert_eq!(from_pandoc(&object), Ok(expected));
}

#[test]
fn json_test_convert_entry_array() {
    let array = WireValue::Arr(vec![
        WireValue::Text(String::from("Test")),
        WireValue::Text(String::from("string")),
    ]);
    let expected = WireValue::Arr(vec![
        WireValue::Text(String::from("Test")),
        WireValue::Text(String::from("string")),
    ]);
    assert_eq!(from_pandoc(&array), Ok(expected));
}

#[test]
fn to_pandoc_restores_tag_form() {
    let single = WireValue::Obj(vec![(
        String::from("Str"),
        WireValue::Text(String::from("Test")),
    )]);
    let expected = WireValue::Obj(vec![
        (String::from("c"), WireValue::Text(String::from("Test"))),
        (String::from("t"), WireValue::Text(String::from("Str"))),
    ]);
    assert_eq!(to_pandoc(&single), expected);
}

#[test]
fn filter_demotes_header_in_wire_text() {
    let input = r#"[{"unMeta":{}},[{"t":"Header","c":[3,["",[],[]],[{"t":"Str","c":"Sub"}]]}]]"#;
    let out = filter_block(input, &behead).unwrap();
    assert_eq!(
        out,
        r#"[{"unMeta":{}},[{"c":[{"c":[{"c":"Sub","t":"Str"}],"t":"Emph"}],"t":"Para"}]]"#
    );
}

#[test]
fn filter_rejects_invalid_json() {
    assert_eq!(filter_block("not json", &behead), Err(DecodeError::NotAnArray));
}

#[test]
fn filter_rejects_unknown_tag_text() {
    let input = r#"[{"unMeta":{}},[{"t":"Bogus","c":[]}]]"#;
    assert_eq!(filter_block(input, &behead), Err(DecodeError::UnknownTag));
}

#[test]
fn filter_document_runs_whole_document_transform() {
    let input = r#"[{"unMeta":{}},[{"t":"HorizontalRule","c":[]}]]"#;
    let drop_blocks = |p: Pandoc| Pandoc { meta: p.meta, blocks: vec![] };
    let out = filter_document(input, &drop_blocks).unwrap();
    assert_eq!(out, r#"[{"unMeta":{}},[]]"#);
}

#[test]
fn filter_inline_uppercases_wire_text() {
    let input = r#"[{"unMeta":{}},[{"t":"Para","c":[{"t":"Str","c":"hi"}]}]]"#;
    let out = filter_inline(input, &to_upper).unwrap();
    assert_eq!(out, r#"[{"unMeta":{}},[{"c":[{"c":"HI","t":"Str"}],"t":"Para"}]]"#);
}

#[test]
fn decode_citation_fields_in_any_order() {
    let sorted = WireValue::Obj(vec![
        (String::from("citationHash"), WireValue::Num(String::from("9"))),
        (String::from("citationId"), WireValue::Text(String::from("test"))),
        (String::from("citationMode"), WireValue::Text(String::from("SuppressAuthor"))),
        (String::from("citationNoteNum"), WireValue::Num(String::from("3"))),
        (String::from("citationPrefix"), WireValue::Arr(vec![])),
        (
            String::from("citationSuffix"),
            WireValue::Arr(vec![WireValue::Obj(vec![(
                String::from("Str"),
                WireValue::Text(String::from("s")),
            )])]),
        ),
    ]);
    assert_eq!(
        Citation::decode(&sorted),
        Ok(Citation {
            citation_id: String::from("test"),
            citation_prefix: vec![],
            citation_suffix: vec![Inline::Str(String::from("s"))],
            citation_mode: CitationMode::SuppressAuthor,
            citation_note_num: 3,
            citation_hash: 9,
        })
    );
    let missing_field = WireValue::Obj(vec![
        (String::from("citationHash"), WireValue::Num(String::from("9"))),
        (String::from("citationID"), WireValue::Text(String::from("test"))),
        (String::from("citationMode"), WireValue::Text(String::from("SuppressAuthor"))),
        (String::from("citationNoteNum"), WireValue::Num(String::from("3"))),
        (String::from("citationPrefix"), WireValue::Arr(vec![])),
        (String::from("citationSuffix"), WireValue::Arr(vec![])),
    ]);
    assert_eq!(Citation::decode(&missing_field), Err(DecodeError::MissingTag));
}

#[test]
fn filter_preserves_citations_in_wire_text() {
    let input = r#"[{"unMeta":{}},[{"t":"Para","c":[{"t":"Cite","c":[[{"citationHash":0,"citationId":"x","citationMode":"AuthorInText","citationNoteNum":0,"citationPrefix":[],"citationSuffix":[]}],[{"t":"Str","c":"r"}]]}]}]]"#;
    let out = filter_inline(input, &to_upper).unwrap();
    assert_eq!(
        out,
        r#"[{"unMeta":{}},[{"c":[{"c":[[{"citationId":"x","citationPrefix":[],"citationSuffix":[],"citationMode":"AuthorInText","citationNoteNum":0,"citationHash":0}],[{"c":"R","t":"Str"}]],"t":"Cite"}],"t":"Para"}]]"#
    );
}
