use pandoc_filters::types::{
    Alignment, Attr, Block, Citation, CitationMode, Inline, ListAttributes, ListNumberDelim,
    ListNumberStyle, MathType, MetaValue, QuoteType,
};
use pandoc_filters::write::write_json;

fn inline_base_val() -> Inline {
    Inline::Str(String::from("test"))
}

fn meta_base_val() -> MetaValue {
    MetaValue::MetaString(String::from("test"))
}

fn block_base_val() -> Block {
    Block::Plain(vec![inline_base_val()])
}

fn attr_base_val() -> Attr {
    (
        String::from("test"),
        vec![String::from("test")],
        vec![(String::from("test"), String::from("test"))],
    )
}

fn list_attributes_base_val() -> ListAttributes {
    (0, ListNumberStyle::DefaultStyle, ListNumberDelim::DefaultDelim)
}

fn citation_base_val() -> Citation {
    Citation {
        citation_id: String::from("test"),
        citation_prefix: vec![inline_base_val()],
        citation_suffix: vec![inline_base_val()],
        citation_mode: CitationMode::AuthorInText,
        citation_note_num: 0,
        citation_hash: 0,
    }
}

#[test]
fn serialize_meta_value() {
    let map = vec![(String::from("test"), meta_base_val())];
    assert_eq!(
        write_json(&MetaValue::MetaMap(map).encode()),
        r#"{"MetaMap":{"test":{"MetaString":"test"}}}"#
    );
    assert_eq!(
        write_json(&MetaValue::MetaList(vec![meta_base_val()]).encode()),
        r#"{"MetaList":[{"MetaString":"test"}]}"#
    );
    assert_eq!(write_json(&MetaValue::MetaBool(true).encode()), r#"{"MetaBool":true}"#);
    assert_eq!(write_json(&meta_base_val().encode()), r#"{"MetaString":"test"}"#);
    assert_eq!(
        write_json(&MetaValue::MetaInlines(vec![inline_base_val()]).encode()),
        r#"{"MetaInlines":[{"Str":"test"}]}"#
    );
    assert_eq!(
        write_json(&MetaValue::MetaBlocks(vec![block_base_val()]).encode()),
        r#"{"MetaBlocks":[{"Plain":[{"Str":"test"}]}]}"#
    );
}

#[test]
fn serialize_block() {
    assert_eq!(write_json(&block_base_val().encode()), r#"{"Plain":[{"Str":"test"}]}"#);
    assert_eq!(
        write_json(&Block::Para(vec![inline_base_val()]).encode()),
        r#"{"Para":[{"Str":"test"}]}"#
    );
    assert_eq!(
        write_json(&Block::CodeBlock(attr_base_val(), String::from("test")).encode()),
        r#"{"CodeBlock":[["test",["test"],[["test","test"]]],"test"]}"#
    );
    assert_eq!(
        write_json(&Block::RawBlock(String::from("test"), String::from("test")).encode()),
        r#"{"RawBlock":["test","test"]}"#
    );
    assert_eq!(
        write_json(&Block::BlockQuote(vec![block_base_val()]).encode()),
        r#"{"BlockQuote":[{"Plain":[{"Str":"test"}]}]}"#
    );
    assert_eq!(
        write_json(
            &Block::OrderedList(list_attributes_base_val(), vec![vec![block_base_val()]]).encode()
        ),
        r#"{"OrderedList":[[0,{"DefaultStyle":[]},{"DefaultDelim":[]}],[[{"Plain":[{"Str":"test"}]}]]]}"#
    );
    assert_eq!(
        write_json(&Block::BulletList(vec![vec![block_base_val()]]).encode()),
        r#"{"BulletList":[[{"Plain":[{"Str":"test"}]}]]}"#
    );
    assert_eq!(
        write_json(
            &Block::DefinitionList(vec![(vec![inline_base_val()], vec![vec![block_base_val()]])])
                .encode()
        ),
        r#"{"DefinitionList":[[[{"Str":"test"}],[[{"Plain":[{"Str":"test"}]}]]]]}"#
    );
    assert_eq!(
        write_json(&Block::Header(0, attr_base_val(), vec![inline_base_val()]).encode()),
        r#"{"Header":[0,["test",["test"],[["test","test"]]],[{"Str":"test"}]]}"#
    );
    assert_eq!(write_json(&Block::HorizontalRule.encode()), "\"HorizontalRule\"");
    assert_eq!(
        write_json(
            &Block::Table(
                vec![inline_base_val()],
                vec![Alignment::AlignLeft],
                vec![String::from("0.0")],
                vec![vec![block_base_val()]],
                vec![vec![vec![block_base_val()]]],
            )
            .encode()
        ),
        r#"{"Table":[[{"Str":"test"}],[{"AlignLeft":[]}],[0.0],[[{"Plain":[{"Str":"test"}]}]],[[[{"Plain":[{"Str":"test"}]}]]]]}"#
    );
    assert_eq!(
        write_json(&Block::Div(attr_base_val(), vec![block_base_val()]).encode()),
        r#"{"Div":[["test",["test"],[["test","test"]]],[{"Plain":[{"Str":"test"}]}]]}"#
    );
    assert_eq!(write_json(&Block::Null.encode()), "\"Null\"");
}

#[test]
fn serialize_inline() {
    assert_eq!(write_json(&Inline::Space.encode()), r#"{"Space":[]}"#);
    assert_eq!(write_json(&Inline::SoftBreak.encode()), r#"{"SoftBreak":[]}"#);
    assert_eq!(write_json(&Inline::LineBreak.encode()), r#"{"LineBreak":[]}"#);
    assert_eq!(write_json(&inline_base_val().encode()), r#"{"Str":"test"}"#);
    assert_eq!(
        write_json(&Inline::Emph(vec![inline_base_val()]).encode()),
        r#"{"Emph":[{"Str":"test"}]}"#
    );
    assert_eq!(
        write_json(&Inline::Strong(vec![inline_base_val()]).encode()),
        r#"{"Strong":[{"Str":"test"}]}"#
    );
    assert_eq!(
        write_json(&Inline::Strikeout(vec![inline_base_val()]).encode()),
        r#"{"Strikeout":[{"Str":"test"}]}"#
    );
    assert_eq!(
        write_json(&Inline::Superscript(vec![inline_base_val()]).encode()),
        r#"{"Superscript":[{"Str":"test"}]}"#
    );
    assert_eq!(
        write_json(&Inline::Subscript(vec![inline_base_val()]).encode()),
        r#"{"Subscript":[{"Str":"test"}]}"#
    );
    assert_eq!(
        write_json(&Inline::SmallCaps(vec![inline_base_val()]).encode()),
        r#"{"SmallCaps":[{"Str":"test"}]}"#
    );
    assert_eq!(
        write_json(&Inline::Quoted(QuoteType::SingleQuote, vec![inline_base_val()]).encode()),
        r#"{"Quoted":[{"SingleQuote":[]},[{"Str":"test"}]]}"#
    );
    assert_eq!(
        write_json(&Inline::Cite(vec![citation_base_val()], vec![inline_base_val()]).encode()),
        r#"{"Cite":[[{"citationId":"test","citationPrefix":[{"Str":"test"}],"citationSuffix":[{"Str":"test"}],"citationMode":"AuthorInText","citationNoteNum":0,"citationHash":0}],[{"Str":"test"}]]}"#
    );
    assert_eq!(
        write_json(&Inline::Code(attr_base_val(), String::from("test")).encode()),
        r#"{"Code":[["test",["test"],[["test","test"]]],"test"]}"#
    );
    assert_eq!(
        write_json(&Inline::Math(MathType::DisplayMath, String::from("test")).encode()),
        r#"{"Math":[{"DisplayMath":[]},"test"]}"#
    );
    assert_eq!(
        write_json(&Inline::RawInline(String::from("test"), String::from("test")).encode()),
        r#"{"RawInline":["test","test"]}"#
    );
    assert_eq!(
        write_json(
            &Inline::Link(
                attr_base_val(),
                vec![inline_base_val()],
                (String::from("test"), String::from("test")),
            )
            .encode()
        ),
        r#"{"Link":[["test",["test"],[["test","test"]]],[{"Str":"test"}],["test","test"]]}"#
    );
    assert_eq!(
        write_json(
            &Inline::Image(
                attr_base_val(),
                vec![inline_base_val()],
                (String::from("test"), String::from("test")),
            )
            .encode()
        ),
        r#"{"Image":[["test",["test"],[["test","test"]]],[{"Str":"test"}],["test","test"]]}"#
    );
    assert_eq!(
        write_json(&Inline::Span(attr_base_val(), vec![inline_base_val()]).encode()),
        r#"{"Span":[["test",["test"],[["test","test"]]],[{"Str":"test"}]]}"#
    );
}

#[test]
fn serialize_quotetype() {
    assert_eq!(write_json(&QuoteType::SingleQuote.encode()), r#"{"SingleQuote":[]}"#);
    assert_eq!(write_json(&QuoteType::DoubleQuote.encode()), r#"{"DoubleQuote":[]}"#);
}

#[test]
fn serialize_mathtype() {
    assert_eq!(write_json(&MathType::DisplayMath.encode()), r#"{"DisplayMath":[]}"#);
    assert_eq!(write_json(&MathType::InlineMath.encode()), r#"{"InlineMath":[]}"#);
}

#[test]
fn serialize_citation_mode() {
    assert_eq!(write_json(&CitationMode::AuthorInText.encode()), "\"AuthorInText\"");
    assert_eq!(write_json(&CitationMode::SuppressAuthor.encode()), "\"SuppressAuthor\"");
    assert_eq!(write_json(&CitationMode::NormalCitation.encode()), "\"NormalCitation\"");
}

#[test]
fn serialize_alignment() {
    assert_eq!(write_json(&Alignment::AlignLeft.encode()), r#"{"AlignLeft":[]}"#);
    assert_eq!(write_json(&Alignment::AlignRight.encode()), r#"{"AlignRight":[]}"#);
    assert_eq!(write_json(&Alignment::AlignCenter.encode()), r#"{"AlignCenter":[]}"#);
    assert_eq!(write_json(&Alignment::AlignDefault.encode()), r#"{"AlignDefault":[]}"#);
}

#[test]
fn serialize_list_number_delim() {
    assert_eq!(write_json(&ListNumberDelim::DefaultDelim.encode()), r#"{"DefaultDelim":[]}"#);
    assert_eq!(write_json(&ListNumberDelim::Period.encode()), r#"{"Period":[]}"#);
    assert_eq!(write_json(&ListNumberDelim::OneParen.encode()), r#"{"OneParen":[]}"#);
    assert_eq!(write_json(&ListNumberDelim::TwoParens.encode()), r#"{"TwoParens":[]}"#);
}

#[test]
fn serialize_list_number_style() {
    assert_eq!(write_json(&ListNumberStyle::DefaultStyle.encode()), r#"{"DefaultStyle":[]}"#);
    assert_eq!(write_json(&ListNumberStyle::Example.encode()), r#"{"Example":[]}"#);
    assert_eq!(write_json(&ListNumberStyle::Decimal.encode()), r#"{"Decimal":[]}"#);
    assert_eq!(write_json(&ListNumberStyle::LowerRoman.encode()), r#"{"LowerRoman":[]}"#);
    assert_eq!(write_json(&ListNumberStyle::UpperRoman.encode()), r#"{"UpperRoman":[]}"#);
    assert_eq!(write_json(&ListNumberStyle::LowerAlpha.encode()), r#"{"LowerAlpha":[]}"#);
    assert_eq!(write_json(&ListNumberStyle::UpperAlpha.encode()), r#"{"UpperAlpha":[]}"#);
}

#[test]
fn serialize_escapes_strings() {
    assert_eq!(
        write_json(&Inline::Str(String::from("a\"b\\c\nd")).encode()),
        "{\"Str\":\"a\\\"b\\\\c\\nd\"}"
    );
}

#[test]
fn serialize_header_level_decimal() {
    let attr = (String::from(""), vec![], vec![]);
    assert_eq!(
        write_json(&Block::Header(12, attr, vec![]).encode()),
        r#"{"Header":[12,["",[],[]],[]]}"#
    );
}
