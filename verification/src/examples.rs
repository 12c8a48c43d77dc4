//! Ready-made transforms for common filters.

use vstd::prelude::*;

use crate::model::{view_block, view_inline, view_inlines, SpecBlock, SpecInline};
use crate::types::{Block, Inline};

verus! {

/// The heading-demotion rule: a header of level 2 or more becomes a
/// paragraph holding its inlines emphasized; a level-1 header and every
/// other block are unchanged.
pub open spec fn spec_behead(b: SpecBlock) -> SpecBlock {
    match b {
        SpecBlock::Header(lvl, _, v) => if lvl >= 2 {
            SpecBlock::Para(seq![SpecInline::Emph(v)])
        } else {
            b
        },
        _ => b,
    }
}

/// The name of what `str::to_uppercase` returns for given characters.
pub uninterp spec fn upper_of(s: Seq<char>) -> Seq<char>;

/// Relies on str::to_uppercase: the result depends on the characters
/// alone, so it bears a name; an empty string stays empty.
#[verifier::external_body]
fn uppercase(s: &str) -> (r: String)
    ensures
        r@ == upper_of(s@),
        s@.len() == 0 ==> r@.len() == 0,
{
    s.to_uppercase()
}

/// The uppercasing rule: a string inline becomes its uppercase form;
/// every other inline is unchanged.
pub open spec fn spec_to_upper(i: SpecInline) -> SpecInline {
    match i {
        SpecInline::Str(s) => SpecInline::Str(upper_of(s)),
        _ => i,
    }
}

/// Uppercases a string inline; other inlines are unchanged.
pub fn to_upper(i: Inline) -> (r: Inline)
    ensures
        view_inline(r) == spec_to_upper(view_inline(i)),
{
    match i {
        Inline::Str(s) => Inline::Str(uppercase(s.as_str())),
        other => other,
    }
}

/// Demotes headers of level 2 or more to emphasized paragraphs.
pub fn behead(b: Block) -> (r: Block)
    ensures
        view_block(r) == spec_behead(view_block(b)),
{
    let ghost orig = view_block(b);
    match b {
        Block::Header(lvl, a, v) => {
            if lvl >= 2 {
                let ghost vv = view_inlines(v@);
                let mut em: Vec<Inline> = Vec::new();
                em.push(Inline::Emph(v));
                let r = Block::Para(em);
                proof {
                    assert(view_inlines(em@) =~= seq![SpecInline::Emph(vv)]);
                }
                r
            } else {
                Block::Header(lvl, a, v)
            }
        },
        other => other,
    }
}

} // verus!
