use pandoc_filters::examples::{behead, to_upper};
use pandoc_filters::types::{
    Alignment, Block, Citation, CitationMode, Inline, Meta, MetaValue, Pandoc,
};
use pandoc_filters::walk::Walkable;

fn attr() -> (String, Vec<String>, Vec<(String, String)>) {
    (String::from("id"), vec![], vec![])
}

/// A document with inlines nested at every structural position the
/// grammar offers: bullet lists, definition items, table cells and
/// caption, citation affixes, and metadata inline and block values.
fn nested_doc() -> Pandoc {
    let mut meta = Meta::new();
    meta.insert(
        String::from("mi"),
        MetaValue::MetaInlines(vec![Inline::Str(String::from("m"))]),
    );
    meta.insert(
        String::from("mb"),
        MetaValue::MetaBlocks(vec![Block::Plain(vec![Inline::Str(String::from("mb"))])]),
    );
    Pandoc {
        meta,
        blocks: vec![
            Block::BulletList(vec![vec![Block::Plain(vec![Inline::Str(String::from("a"))])]]),
            Block::DefinitionList(vec![(
                vec![Inline::Str(String::from("term"))],
                vec![vec![Block::Plain(vec![Inline::Str(String::from("def"))])]],
            )]),
            Block::Table(
                vec![Inline::Str(String::from("cap"))],
                vec![Alignment::AlignLeft],
                vec![String::from("0")],
                vec![vec![Block::Plain(vec![Inline::Str(String::from("h"))])]],
                vec![vec![vec![Block::Plain(vec![Inline::Str(String::from("c"))])]]],
            ),
            Block::Para(vec![Inline::Cite(
                vec![Citation {
                    citation_id: String::from("id"),
                    citation_prefix: vec![Inline::Str(String::from("p"))],
                    citation_suffix: vec![Inline::Str(String::from("s"))],
                    citation_mode: CitationMode::NormalCitation,
                    citation_note_num: 1,
                    citation_hash: 2,
                }],
                vec![Inline::Str(String::from("x"))],
            )]),
        ],
    }
}

fn tag_str(i: Inline) -> Inline {
    match i {
        Inline::Str(s) => Inline::Str(s + "!"),
        other => other,
    }
}

#[test]
fn test_walk_inline() {
    let inline_str = Inline::Str(String::from("a"));
    let emph = inline_str.walk(&(|s| Inline::Emph(vec![s])));
    let expected = Inline::Emph(vec![Inline::Str(String::from("a"))]);
    assert_eq!(emph, expected);
}

#[test]
fn walk_identity_is_identity() {
    let doc = nested_doc();
    let walked_inline = nested_doc().walk(&(|i: Inline| i));
    assert_eq!(walked_inline, doc);
    let walked_block: Pandoc = nested_doc().walk(&(|b: Block| b));
    assert_eq!(walked_block, doc);
    let mv = MetaValue::MetaList(vec![MetaValue::MetaBool(true)]);
    let walked_mv: MetaValue = MetaValue::MetaList(vec![MetaValue::MetaBool(true)]).walk(
        &(|m: MetaValue| m),
    );
    assert_eq!(walked_mv, mv);
}

#[test]
fn walk_reaches_every_position() {
    let walked = nested_doc().walk(&tag_str);
    let mut meta = Meta::new();
    meta.insert(
        String::from("mi"),
        MetaValue::MetaInlines(vec![Inline::Str(String::from("m!"))]),
    );
    meta.insert(
        String::from("mb"),
        MetaValue::MetaBlocks(vec![Block::Plain(vec![Inline::Str(String::from("mb!"))])]),
    );
    let expected = Pandoc {
        meta,
        blocks: vec![
            Block::BulletList(vec![vec![Block::Plain(vec![Inline::Str(String::from("a!"))])]]),
            Block::DefinitionList(vec![(
                vec![Inline::Str(String::from("term!"))],
                vec![vec![Block::Plain(vec![Inline::Str(String::from("def!"))])]],
            )]),
            Block::Table(
                vec![Inline::Str(String::from("cap!"))],
                vec![Alignment::AlignLeft],
                vec![String::from("0")],
                vec![vec![Block::Plain(vec![Inline::Str(String::from("h!"))])]],
                vec![vec![vec![Block::Plain(vec![Inline::Str(String::from("c!"))])]]],
            ),
            Block::Para(vec![Inline::Cite(
                vec![Citation {
                    citation_id: String::from("id"),
                    citation_prefix: vec![Inline::Str(String::from("p!"))],
                    citation_suffix: vec![Inline::Str(String::from("s!"))],
                    citation_mode: CitationMode::NormalCitation,
                    citation_note_num: 1,
                    citation_hash: 2,
                }],
                vec![Inline::Str(String::from("x!"))],
            )]),
        ],
    };
    assert_eq!(walked, expected);
}

#[test]
fn behead_keeps_level_one_header() {
    let doc = Pandoc {
        meta: Meta::new(),
        blocks: vec![Block::Header(1, attr(), vec![Inline::Str(String::from("Title"))])],
    };
    let walked = Pandoc {
        meta: Meta::new(),
        blocks: vec![Block::Header(1, attr(), vec![Inline::Str(String::from("Title"))])],
    }
    .walk(&behead);
    assert_eq!(walked, doc);
}

#[test]
fn behead_demotes_level_three_header() {
    let doc = Pandoc {
        meta: Meta::new(),
        blocks: vec![Block::Header(3, attr(), vec![Inline::Str(String::from("Sub"))])],
    };
    let walked = doc.walk(&behead);
    let expected = Pandoc {
        meta: Meta::new(),
        blocks: vec![Block::Para(vec![Inline::Emph(vec![Inline::Str(String::from("Sub"))])])],
    };
    assert_eq!(walked, expected);
}

#[test]
fn uppercase_reaches_nested_str() {
    let upper = |i: Inline| match i {
        Inline::Str(s) => Inline::Str(s.to_uppercase()),
        other => other,
    };
    let walked = Inline::Emph(vec![Inline::Str(String::from("hi"))]).walk(&upper);
    assert_eq!(walked, Inline::Emph(vec![Inline::Str(String::from("HI"))]));
}

#[test]
fn walk_block_rewrites_nested_blocks() {
    let promote = |b: Block| match b {
        Block::Plain(v) => Block::Para(v),
        other => other,
    };
    let walked = Block::BlockQuote(vec![Block::Plain(vec![Inline::Str(String::from("q"))])])
        .walk(&promote);
    assert_eq!(
        walked,
        Block::BlockQuote(vec![Block::Para(vec![Inline::Str(String::from("q"))])])
    );
}

#[test]
fn to_upper_uppercases_nested_str() {
    let walked = Inline::Emph(vec![Inline::Str(String::from("hi"))]).walk(&to_upper);
    assert_eq!(walked, Inline::Emph(vec![Inline::Str(String::from("HI"))]));
}

#[test]
fn walk_document_applies_transform_once() {
    let doc = Pandoc {
        meta: Meta::new(),
        blocks: vec![Block::HorizontalRule],
    };
    let drop_blocks = |p: Pandoc| Pandoc { meta: p.meta, blocks: vec![] };
    let walked = doc.walk(&drop_blocks);
    assert_eq!(walked, Pandoc { meta: Meta::new(), blocks: vec![] });
}
