//! The walk engine: a generic bottom-up rewrite over the document tree.
//!
//! A walk is parameterized by a target kind; the caller's transform is
//! applied to every node of that kind — composite nodes included — after
//! the node's own children have been walked. Nodes of other kinds are
//! rebuilt with their children walked but are not themselves transformed.
//!
//! The transform is an ordinary closure. Its contract enters through the
//! `..._abs` predicates: whenever a spec-level function `g` abstracts the
//! closure (every result the closure may return agrees with `g`), the
//! walk's result is exactly the spec-level walk under `g`.

use vstd::prelude::*;

use crate::model::{
    view_attr, view_block, view_blocks, view_blockss, view_blocksss, view_citation,
    view_citations, view_defitems, view_inline, view_inlines, view_meta, view_meta_entries,
    view_meta_value, view_meta_values, view_pandoc, view_strings, view_target, SpecBlock,
    SpecCitation, SpecInline, SpecMeta, SpecMetaValue, SpecPandoc,
};
use crate::types::{Block, Citation, Inline, Meta, MetaValue, Pandoc};

verus! {

/// `g` abstracts an inline transform `f`: every result `f` may return is
/// the one `g` gives.
pub open spec fn inline_abs<F: Fn(Inline) -> Inline>(
    f: F,
    g: spec_fn(SpecInline) -> SpecInline,
) -> bool {
    forall|a: Inline, b: Inline| #[trigger] call_ensures(f, (a,), b) ==> view_inline(b) == g(
        view_inline(a),
    )
}

/// The bottom-up walk of one inline node under `g`.
pub open spec fn walk_inline(i: SpecInline, g: spec_fn(SpecInline) -> SpecInline) -> SpecInline
    decreases i, 0int,
{
    match i {
        SpecInline::Str(_) => g(i),
        SpecInline::Emph(v) => g(SpecInline::Emph(walk_inline_seq(v, g))),
        SpecInline::Strong(v) => g(SpecInline::Strong(walk_inline_seq(v, g))),
        SpecInline::Strikeout(v) => g(SpecInline::Strikeout(walk_inline_seq(v, g))),
        SpecInline::Superscript(v) => g(SpecInline::Superscript(walk_inline_seq(v, g))),
        SpecInline::Subscript(v) => g(SpecInline::Subscript(walk_inline_seq(v, g))),
        SpecInline::SmallCaps(v) => g(SpecInline::SmallCaps(walk_inline_seq(v, g))),
        SpecInline::Quoted(q, v) => g(SpecInline::Quoted(q, walk_inline_seq(v, g))),
        SpecInline::Cite(cs, v) => g(
            SpecInline::Cite(walk_citation_seq(cs, g), walk_inline_seq(v, g)),
        ),
        SpecInline::Code(_, _) => g(i),
        SpecInline::Space => g(i),
        SpecInline::SoftBreak => g(i),
        SpecInline::LineBreak => g(i),
        SpecInline::Math(_, _) => g(i),
        SpecInline::RawInline(_, _) => g(i),
        SpecInline::Link(a, v, t) => g(SpecInline::Link(a, walk_inline_seq(v, g), t)),
        SpecInline::Image(a, v, t) => g(SpecInline::Image(a, walk_inline_seq(v, g), t)),
        SpecInline::Span(a, v) => g(SpecInline::Span(a, walk_inline_seq(v, g))),
    }
}

pub open spec fn walk_inline_seq(
    s: Seq<SpecInline>,
    g: spec_fn(SpecInline) -> SpecInline,
) -> Seq<SpecInline>
    decreases s, 1int,
{
    Seq::new(
        s.len(),
        |i: int| if 0 <= i < s.len() {
            walk_inline(s[i], g)
        } else {
            SpecInline::Space
        },
    )
}

/// Walking a citation for the inline target rewrites its prefix and
/// suffix.
pub open spec fn walk_citation(
    c: SpecCitation,
    g: spec_fn(SpecInline) -> SpecInline,
) -> SpecCitation
    decreases c, 0int,
{
    SpecCitation {
        citation_prefix: walk_inline_seq(c.citation_prefix, g),
        citation_suffix: walk_inline_seq(c.citation_suffix, g),
        ..c
    }
}

pub open spec fn walk_citation_seq(
    s: Seq<SpecCitation>,
    g: spec_fn(SpecInline) -> SpecInline,
) -> Seq<SpecCitation>
    decreases s, 1int,
{
    Seq::new(
        s.len(),
        |i: int| if 0 <= i < s.len() {
            walk_citation(s[i], g)
        } else {
            s[i]
        },
    )
}

impl Inline {
    /// Applies `f` to every inline node of this tree, bottom up,
    /// composites included.
    pub fn walk_inline<F: Fn(Inline) -> Inline>(self, f: &F) -> (r: Inline)
        requires
            forall|a: Inline| #[trigger] call_requires(*f, (a,)),
        ensures
            forall|g: spec_fn(SpecInline) -> SpecInline|
                inline_abs(*f, g) ==> view_inline(r) == #[trigger] walk_inline(
                    view_inline(self),
                    g,
                ),
        decreases self, 0int,
    {
        let ghost orig = view_inline(self);
        match self {
            Inline::Str(s) => {
                let ghost sv = s@;
                let m = Inline::Str(s);
                let r = (f)(m);
                proof {
                    assert forall|g: spec_fn(SpecInline) -> SpecInline|
                        inline_abs(*f, g) implies view_inline(r) == #[trigger] walk_inline(
                        orig,
                        g,
                    ) by {
                        assert(view_inline(r) == g(orig));
                        assert(walk_inline(orig, g) == g(orig));
                    }
                }
                r
            },
            Inline::Emph(v) => {
                let ghost vv = view_inlines(v@);
                let w = walk_inlines_vec(v, f);
                let ghost wv = view_inlines(w@);
                let m = Inline::Emph(w);
                let ghost mv = view_inline(m);
                let r = (f)(m);
                proof {
                    assert forall|g: spec_fn(SpecInline) -> SpecInline|
                        inline_abs(*f, g) implies view_inline(r) == #[trigger] walk_inline(
                        orig,
                        g,
                    ) by {
                        assert(orig == SpecInline::Emph(vv));
                        assert(wv == walk_inline_seq(vv, g));
                        assert(mv == SpecInline::Emph(wv));
                        assert(view_inline(r) == g(mv));
                        assert(walk_inline(orig, g) == g(SpecInline::Emph(walk_inline_seq(vv, g))));
                    }
                }
                r
            },
            Inline::Strong(v) => {
                let ghost vv = view_inlines(v@);
                let w = walk_inlines_vec(v, f);
                let ghost wv = view_inlines(w@);
                let m = Inline::Strong(w);
                let ghost mv = view_inline(m);
                let r = (f)(m);
                proof {
                    assert forall|g: spec_fn(SpecInline) -> SpecInline|
                        inline_abs(*f, g) implies view_inline(r) == #[trigger] walk_inline(
                        orig,
                        g,
                    ) by {
                        assert(orig == SpecInline::Strong(vv));
                        assert(wv == walk_inline_seq(vv, g));
                        assert(mv == SpecInline::Strong(wv));
                        assert(view_inline(r) == g(mv));
                        assert(walk_inline(orig, g) == g(SpecInline::Strong(walk_inline_seq(vv, g))));
                    }
                }
                r
            },
            Inline::Strikeout(v) => {
                let ghost vv = view_inlines(v@);
                let w = walk_inlines_vec(v, f);
                let ghost wv = view_inlines(w@);
                let m = Inline::Strikeout(w);
                let ghost mv = view_inline(m);
                let r = (f)(m);
                proof {
                    assert forall|g: spec_fn(SpecInline) -> SpecInline|
                        inline_abs(*f, g) implies view_inline(r) == #[trigger] walk_inline(
                        orig,
                        g,
                    ) by {
                        assert(orig == SpecInline::Strikeout(vv));
                        assert(wv == walk_inline_seq(vv, g));
                        assert(mv == SpecInline::Strikeout(wv));
                        assert(view_inline(r) == g(mv));
                        assert(walk_inline(orig, g) == g(SpecInline::Strikeout(walk_inline_seq(vv, g))));
                    }
                }
                r
            },
            Inline::Superscript(v) => {
                let ghost vv = view_inlines(v@);
                let w = walk_inlines_vec(v, f);
                let ghost wv = view_inlines(w@);
                let m = Inline::Superscript(w);
                let ghost mv = view_inline(m);
                let r = (f)(m);
                proof {
                    assert forall|g: spec_fn(SpecInline) -> SpecInline|
                        inline_abs(*f, g) implies view_inline(r) == #[trigger] walk_inline(
                        orig,
                        g,
                    ) by {
                        assert(orig == SpecInline::Superscript(vv));
                        assert(wv == walk_inline_seq(vv, g));
                        assert(mv == SpecInline::Superscript(wv));
                        assert(view_inline(r) == g(mv));
                        assert(walk_inline(orig, g) == g(SpecInline::Superscript(walk_inline_seq(vv, g))));
                    }
                }
                r
            },
            Inline::Subscript(v) => {
                let ghost vv = view_inlines(v@);
                let w = walk_inlines_vec(v, f);
                let ghost wv = view_inlines(w@);
                let m = Inline::Subscript(w);
                let ghost mv = view_inline(m);
                let r = (f)(m);
                proof {
                    assert forall|g: spec_fn(SpecInline) -> SpecInline|
                        inline_abs(*f, g) implies view_inline(r) == #[trigger] walk_inline(
                        orig,
                        g,
                    ) by {
                        assert(orig == SpecInline::Subscript(vv));
                        assert(wv == walk_inline_seq(vv, g));
                        assert(mv == SpecInline::Subscript(wv));
                        assert(view_inline(r) == g(mv));
                        assert(walk_inline(orig, g) == g(SpecInline::Subscript(walk_inline_seq(vv, g))));
                    }
                }
                r
            },
            Inline::SmallCaps(v) => {
                let ghost vv = view_inlines(v@);
                let w = walk_inlines_vec(v, f);
                let ghost wv = view_inlines(w@);
                let m = Inline::SmallCaps(w);
                let ghost mv = view_inline(m);
                let r = (f)(m);
                proof {
                    assert forall|g: spec_fn(SpecInline) -> SpecInline|
                        inline_abs(*f, g) implies view_inline(r) == #[trigger] walk_inline(
                        orig,
                        g,
                    ) by {
                        assert(orig == SpecInline::SmallCaps(vv));
                        assert(wv == walk_inline_seq(vv, g));
                        assert(mv == SpecInline::SmallCaps(wv));
                        assert(view_inline(r) == g(mv));
                        assert(walk_inline(orig, g) == g(SpecInline::SmallCaps(walk_inline_seq(vv, g))));
                    }
                }
                r
            },
            Inline::Quoted(q, v) => {
                let ghost vv = view_inlines(v@);
                let w = walk_inlines_vec(v, f);
                let ghost wv = view_inlines(w@);
                let m = Inline::Quoted(q, w);
                let ghost mv = view_inline(m);
                let r = (f)(m);
                proof {
                    assert forall|g: spec_fn(SpecInline) -> SpecInline|
                        inline_abs(*f, g) implies view_inline(r) == #[trigger] walk_inline(
                        orig,
                        g,
                    ) by {
                        assert(orig == SpecInline::Quoted(q, vv));
                        assert(wv == walk_inline_seq(vv, g));
                        assert(mv == SpecInline::Quoted(q, wv));
                        assert(view_inline(r) == g(mv));
                        assert(walk_inline(orig, g) == g(
                            SpecInline::Quoted(q, walk_inline_seq(vv, g)),
                        ));
                    }
                }
                r
            },
            Inline::Cite(cs, v) => {
                let ghost csv = view_citations(cs@);
                let ghost vv = view_inlines(v@);
                let ds = walk_citations_vec(cs, f);
                let w = walk_inlines_vec(v, f);
                let ghost dsv = view_citations(ds@);
                let ghost wv = view_inlines(w@);
                let m = Inline::Cite(ds, w);
                let ghost mv = view_inline(m);
                let r = (f)(m);
                proof {
                    assert forall|g: spec_fn(SpecInline) -> SpecInline|
                        inline_abs(*f, g) implies view_inline(r) == #[trigger] walk_inline(
                        orig,
                        g,
                    ) by {
                        assert(orig == SpecInline::Cite(csv, vv));
                        assert(dsv == walk_citation_seq(csv, g));
                        assert(wv == walk_inline_seq(vv, g));
                        assert(mv == SpecInline::Cite(dsv, wv));
                        assert(view_inline(r) == g(mv));
                        assert(walk_inline(orig, g) == g(
                            SpecInline::Cite(walk_citation_seq(csv, g), walk_inline_seq(vv, g)),
                        ));
                    }
                }
                r
            },
            Inline::Link(a, v, t) => {
                let ghost av = view_attr(a);
                let ghost tv = view_target(t);
                let ghost vv = view_inlines(v@);
                let w = walk_inlines_vec(v, f);
                let ghost wv = view_inlines(w@);
                let m = Inline::Link(a, w, t);
                let ghost mv = view_inline(m);
                let r = (f)(m);
                proof {
                    assert forall|g: spec_fn(SpecInline) -> SpecInline|
                        inline_abs(*f, g) implies view_inline(r) == #[trigger] walk_inline(
                        orig,
                        g,
                    ) by {
                        assert(orig == SpecInline::Link(av, vv, tv));
                        assert(wv == walk_inline_seq(vv, g));
                        assert(mv == SpecInline::Link(av, wv, tv));
                        assert(view_inline(r) == g(mv));
                        assert(walk_inline(orig, g) == g(
                            SpecInline::Link(av, walk_inline_seq(vv, g), tv),
                        ));
                    }
                }
                r
            },
            Inline::Image(a, v, t) => {
                let ghost av = view_attr(a);
                let ghost tv = view_target(t);
                let ghost vv = view_inlines(v@);
                let w = walk_inlines_vec(v, f);
                let ghost wv = view_inlines(w@);
                let m = Inline::Image(a, w, t);
                let ghost mv = view_inline(m);
                let r = (f)(m);
                proof {
                    assert forall|g: spec_fn(SpecInline) -> SpecInline|
                        inline_abs(*f, g) implies view_inline(r) == #[trigger] walk_inline(
                        orig,
                        g,
                    ) by {
                        assert(orig == SpecInline::Image(av, vv, tv));
                        assert(wv == walk_inline_seq(vv, g));
                        assert(mv == SpecInline::Image(av, wv, tv));
                        assert(view_inline(r) == g(mv));
                        assert(walk_inline(orig, g) == g(
                            SpecInline::Image(av, walk_inline_seq(vv, g), tv),
                        ));
                    }
                }
                r
            },
            Inline::Span(a, v) => {
                let ghost av = view_attr(a);
                let ghost vv = view_inlines(v@);
                let w = walk_inlines_vec(v, f);
                let ghost wv = view_inlines(w@);
                let m = Inline::Span(a, w);
                let ghost mv = view_inline(m);
                let r = (f)(m);
                proof {
                    assert forall|g: spec_fn(SpecInline) -> SpecInline|
                        inline_abs(*f, g) implies view_inline(r) == #[trigger] walk_inline(
                        orig,
                        g,
                    ) by {
                        assert(orig == SpecInline::Span(av, vv));
                        assert(wv == walk_inline_seq(vv, g));
                        assert(mv == SpecInline::Span(av, wv));
                        assert(view_inline(r) == g(mv));
                        assert(walk_inline(orig, g) == g(
                            SpecInline::Span(av, walk_inline_seq(vv, g)),
                        ));
                    }
                }
                r
            },
            leaf => {
                let r = (f)(leaf);
                proof {
                    assert forall|g: spec_fn(SpecInline) -> SpecInline|
                        inline_abs(*f, g) implies view_inline(r) == #[trigger] walk_inline(
                        orig,
                        g,
                    ) by {
                        assert(view_inline(r) == g(orig));
                        assert(walk_inline(orig, g) == g(orig));
                    }
                }
                r
            },
        }
    }
}

#[verifier::loop_isolation(false)]
fn walk_inlines_vec<F: Fn(Inline) -> Inline>(v: Vec<Inline>, f: &F) -> (r: Vec<Inline>)
    requires
        forall|a: Inline| #[trigger] call_requires(*f, (a,)),
    ensures
        forall|g: spec_fn(SpecInline) -> SpecInline|
            inline_abs(*f, g) ==> view_inlines(r@) == #[trigger] walk_inline_seq(
                view_inlines(v@),
                g,
            ),
    decreases v, 1int,
{
    let ghost orig = v@;
    let mut rem = v;
    let mut out: Vec<Inline> = Vec::new();
    while rem.len() > 0
        invariant
            out@.len() + rem@.len() == orig.len(),
            rem@ == orig.subrange(out@.len() as int, orig.len() as int),
            forall|g: spec_fn(SpecInline) -> SpecInline|
                inline_abs(*f, g) ==> view_inlines(out@) == #[trigger] walk_inline_seq(
                    view_inlines(orig.subrange(0, out@.len() as int)),
                    g,
                ),
        decreases rem.len(),
    {
        let ghost k = out@.len() as int;
        let x = rem.remove(0);
        proof {
            assert(x == orig[k]);
            assert(rem@ =~= orig.subrange(k + 1, orig.len() as int));
        }
        let y = x.walk_inline(f);
        let ghost yv = view_inline(y);
        let ghost outpre = out@;
        out.push(y);
        proof {
            assert forall|g: spec_fn(SpecInline) -> SpecInline|
                inline_abs(*f, g) implies view_inlines(out@) == #[trigger] walk_inline_seq(
                view_inlines(orig.subrange(0, k + 1)),
                g,
            ) by {
                let lhs = view_inlines(out@);
                let rhs = walk_inline_seq(view_inlines(orig.subrange(0, k + 1)), g);
                assert(view_inlines(outpre) == walk_inline_seq(
                    view_inlines(orig.subrange(0, k)),
                    g,
                ));
                assert(yv == walk_inline(view_inline(orig[k]), g));
                assert forall|j: int| 0 <= j < k + 1 implies lhs[j] == rhs[j] by {
                    assert(view_inlines(orig.subrange(0, k + 1))[j] == view_inline(orig[j]));
                    assert(rhs[j] == walk_inline(view_inline(orig[j]), g));
                    if j < k {
                        assert(out@[j] == outpre[j]);
                        assert(lhs[j] == view_inline(outpre[j]));
                        assert(view_inlines(outpre)[j] == view_inline(outpre[j]));
                        assert(view_inlines(orig.subrange(0, k))[j] == view_inline(orig[j]));
                        assert(view_inlines(outpre)[j] == walk_inline_seq(
                            view_inlines(orig.subrange(0, k)),
                            g,
                        )[j]);
                        assert(walk_inline_seq(view_inlines(orig.subrange(0, k)), g)[j]
                            == walk_inline(view_inlines(orig.subrange(0, k))[j], g));
                    } else {
                        assert(out@[j] == outpre.push(out@[k])[j]);
                        assert(lhs[j] == yv);
                    }
                }
                assert(lhs =~= rhs);
            }
        }
    }
    proof {
        assert(orig.subrange(0, orig.len() as int) =~= orig);
    }
    out
}

#[verifier::loop_isolation(false)]
fn walk_citations_vec<F: Fn(Inline) -> Inline>(v: Vec<Citation>, f: &F) -> (r: Vec<Citation>)
    requires
        forall|a: Inline| #[trigger] call_requires(*f, (a,)),
    ensures
        forall|g: spec_fn(SpecInline) -> SpecInline|
            inline_abs(*f, g) ==> view_citations(r@) == #[trigger] walk_citation_seq(
                view_citations(v@),
                g,
            ),
    decreases v, 2int,
{
    let ghost orig = v@;
    let mut rem = v;
    let mut out: Vec<Citation> = Vec::new();
    while rem.len() > 0
        invariant
            out@.len() + rem@.len() == orig.len(),
            rem@ == orig.subrange(out@.len() as int, orig.len() as int),
            forall|g: spec_fn(SpecInline) -> SpecInline|
                inline_abs(*f, g) ==> view_citations(out@) == #[trigger] walk_citation_seq(
                    view_citations(orig.subrange(0, out@.len() as int)),
                    g,
                ),
        decreases rem.len(),
    {
        let ghost k = out@.len() as int;
        let x = rem.remove(0);
        proof {
            assert(x == orig[k]);
            assert(rem@ =~= orig.subrange(k + 1, orig.len() as int));
        }
        let y = x.walk_inline(f);
        let ghost yv = view_citation(y);
        let ghost outpre = out@;
        out.push(y);
        proof {
            assert forall|g: spec_fn(SpecInline) -> SpecInline|
                inline_abs(*f, g) implies view_citations(out@) == #[trigger] walk_citation_seq(
                view_citations(orig.subrange(0, k + 1)),
                g,
            ) by {
                let lhs = view_citations(out@);
                let rhs = walk_citation_seq(view_citations(orig.subrange(0, k + 1)), g);
                assert(view_citations(outpre) == walk_citation_seq(
                    view_citations(orig.subrange(0, k)),
                    g,
                ));
                assert(yv == walk_citation(view_citation(orig[k]), g));
                assert forall|j: int| 0 <= j < k + 1 implies lhs[j] == rhs[j] by {
                    assert(view_citations(orig.subrange(0, k + 1))[j] == view_citation(orig[j]));
                    assert(rhs[j] == walk_citation(view_citation(orig[j]), g));
                    if j < k {
                        assert(out@[j] == outpre[j]);
                        assert(lhs[j] == view_citation(outpre[j]));
                        assert(view_citations(outpre)[j] == view_citation(outpre[j]));
                        assert(view_citations(orig.subrange(0, k))[j] == view_citation(orig[j]));
                        assert(view_citations(outpre)[j] == walk_citation_seq(
                            view_citations(orig.subrange(0, k)),
                            g,
                        )[j]);
                        assert(walk_citation_seq(view_citations(orig.subrange(0, k)), g)[j]
                            == walk_citation(view_citations(orig.subrange(0, k))[j], g));
                    } else {
                        assert(out@[j] == outpre.push(out@[k])[j]);
                        assert(lhs[j] == yv);
                    }
                }
                assert(lhs =~= rhs);
            }
        }
    }
    proof {
        assert(orig.subrange(0, orig.len() as int) =~= orig);
    }
    out
}

impl Citation {
    /// Applies `f` to every inline node in this citation's prefix and
    /// suffix, bottom up.
    pub fn walk_inline<F: Fn(Inline) -> Inline>(self, f: &F) -> (r: Citation)
        requires
            forall|a: Inline| #[trigger] call_requires(*f, (a,)),
        ensures
            forall|g: spec_fn(SpecInline) -> SpecInline|
                inline_abs(*f, g) ==> view_citation(r) == #[trigger] walk_citation(
                    view_citation(self),
                    g,
                ),
        decreases self, 0int,
    {
        let ghost orig = view_citation(self);
        let Citation {
            citation_id,
            citation_prefix,
            citation_suffix,
            citation_mode,
            citation_note_num,
            citation_hash,
        } = self;
        let ghost pv = view_inlines(citation_prefix@);
        let ghost sv = view_inlines(citation_suffix@);
        let prefix = walk_inlines_vec(citation_prefix, f);
        let suffix = walk_inlines_vec(citation_suffix, f);
        let ghost pwv = view_inlines(prefix@);
        let ghost swv = view_inlines(suffix@);
        let r = Citation {
            citation_id,
            citation_prefix: prefix,
            citation_suffix: suffix,
            citation_mode,
            citation_note_num,
            citation_hash,
        };
        proof {
            assert forall|g: spec_fn(SpecInline) -> SpecInline|
                inline_abs(*f, g) implies view_citation(r) == #[trigger] walk_citation(
                orig,
                g,
            ) by {
                assert(orig.citation_prefix == pv);
                assert(orig.citation_suffix == sv);
                assert(pwv == walk_inline_seq(pv, g));
                assert(swv == walk_inline_seq(sv, g));
                assert(view_citation(r).citation_prefix == pwv);
                assert(view_citation(r).citation_suffix == swv);
                assert(walk_citation(orig, g).citation_prefix == walk_inline_seq(pv, g));
                assert(walk_citation(orig, g).citation_suffix == walk_inline_seq(sv, g));
                assert(view_citation(r) == walk_citation(orig, g));
            }
        }
        r
    }
}


/// `g` abstracts a block transform `f`.
pub open spec fn block_abs<F: Fn(Block) -> Block>(f: F, g: spec_fn(SpecBlock) -> SpecBlock) -> bool {
    forall|a: Block, b: Block| #[trigger] call_ensures(f, (a,), b) ==> view_block(b) == g(
        view_block(a),
    )
}

/// `g` abstracts a metadata-value transform `f`.
pub open spec fn meta_value_abs<F: Fn(MetaValue) -> MetaValue>(f: F, g: spec_fn(SpecMetaValue) -> SpecMetaValue) -> bool {
    forall|a: MetaValue, b: MetaValue| #[trigger] call_ensures(f, (a,), b) ==> view_meta_value(b)
        == g(view_meta_value(a))
}

/// The bottom-up walk of one block node under a block transform `g`.
pub open spec fn walk_block(b: SpecBlock, g: spec_fn(SpecBlock) -> SpecBlock) -> SpecBlock
    decreases b, 0int,
{
    match b {
        SpecBlock::BlockQuote(v) => g(SpecBlock::BlockQuote(walk_block_seq(v, g))),
        SpecBlock::OrderedList(la, v) => g(SpecBlock::OrderedList(la, walk_blockss_seq(v, g))),
        SpecBlock::BulletList(v) => g(SpecBlock::BulletList(walk_blockss_seq(v, g))),
        SpecBlock::DefinitionList(v) => g(SpecBlock::DefinitionList(walk_defitems_b_seq(v, g))),
        SpecBlock::Table(cap, al, w, h, r) => g(
            SpecBlock::Table(cap, al, w, walk_blockss_seq(h, g), walk_blocksss_seq(r, g)),
        ),
        SpecBlock::Div(a, v) => g(SpecBlock::Div(a, walk_block_seq(v, g))),
        _ => g(b),
    }
}

pub open spec fn walk_block_seq(s: Seq<SpecBlock>, g: spec_fn(SpecBlock) -> SpecBlock) -> Seq<SpecBlock>
    decreases s, 1int,
{
    Seq::new(s.len(), |i: int| if 0 <= i < s.len() { walk_block(s[i], g) } else { SpecBlock::Null })
}

pub open spec fn walk_blockss_seq(s: Seq<Seq<SpecBlock>>, g: spec_fn(SpecBlock) -> SpecBlock) -> Seq<Seq<SpecBlock>>
    decreases s, 2int,
{
    Seq::new(s.len(), |i: int| if 0 <= i < s.len() { walk_block_seq(s[i], g) } else { s[i] })
}

pub open spec fn walk_blocksss_seq(
    s: Seq<Seq<Seq<SpecBlock>>>,
    g: spec_fn(SpecBlock) -> SpecBlock,
) -> Seq<Seq<Seq<SpecBlock>>>
    decreases s, 3int,
{
    Seq::new(s.len(), |i: int| if 0 <= i < s.len() { walk_blockss_seq(s[i], g) } else { s[i] })
}

/// For the block target, a definition item's term is kept and its
/// definitions are walked.
pub open spec fn walk_defitem_b(
    d: (Seq<SpecInline>, Seq<Seq<SpecBlock>>),
    g: spec_fn(SpecBlock) -> SpecBlock,
) -> (Seq<SpecInline>, Seq<Seq<SpecBlock>>)
    decreases d, 3int,
{
    (d.0, walk_blockss_seq(d.1, g))
}

pub open spec fn walk_defitems_b_seq(
    s: Seq<(Seq<SpecInline>, Seq<Seq<SpecBlock>>)>,
    g: spec_fn(SpecBlock) -> SpecBlock,
) -> Seq<(Seq<SpecInline>, Seq<Seq<SpecBlock>>)>
    decreases s, 4int,
{
    Seq::new(s.len(), |i: int| if 0 <= i < s.len() { walk_defitem_b(s[i], g) } else { s[i] })
}

/// For the block target, metadata values are traversed; only embedded
/// blocks are rewritten.
pub open spec fn walk_meta_value_b(m: SpecMetaValue, g: spec_fn(SpecBlock) -> SpecBlock) -> SpecMetaValue
    decreases m, 0int,
{
    match m {
        SpecMetaValue::MetaMap(es) => SpecMetaValue::MetaMap(walk_meta_entries_b_seq(es, g)),
        SpecMetaValue::MetaList(vs) => SpecMetaValue::MetaList(walk_meta_values_b_seq(vs, g)),
        SpecMetaValue::MetaBlocks(v) => SpecMetaValue::MetaBlocks(walk_block_seq(v, g)),
        _ => m,
    }
}

pub open spec fn walk_meta_values_b_seq(s: Seq<SpecMetaValue>, g: spec_fn(SpecBlock) -> SpecBlock) -> Seq<SpecMetaValue>
    decreases s, 1int,
{
    Seq::new(s.len(), |i: int| if 0 <= i < s.len() { walk_meta_value_b(s[i], g) } else { s[i] })
}

pub open spec fn walk_meta_entry_b(
    p: (Seq<char>, SpecMetaValue),
    g: spec_fn(SpecBlock) -> SpecBlock,
) -> (Seq<char>, SpecMetaValue)
    decreases p, 1int,
{
    (p.0, walk_meta_value_b(p.1, g))
}

pub open spec fn walk_meta_entries_b_seq(
    s: Seq<(Seq<char>, SpecMetaValue)>,
    g: spec_fn(SpecBlock) -> SpecBlock,
) -> Seq<(Seq<char>, SpecMetaValue)>
    decreases s, 2int,
{
    Seq::new(s.len(), |i: int| if 0 <= i < s.len() { walk_meta_entry_b(s[i], g) } else { s[i] })
}

pub open spec fn walk_meta_b(m: SpecMeta, g: spec_fn(SpecBlock) -> SpecBlock) -> SpecMeta {
    SpecMeta { un_meta: walk_meta_entries_b_seq(m.un_meta, g) }
}

pub open spec fn walk_pandoc_b(p: SpecPandoc, g: spec_fn(SpecBlock) -> SpecBlock) -> SpecPandoc {
    SpecPandoc { meta: walk_meta_b(p.meta, g), blocks: walk_block_seq(p.blocks, g) }
}

/// For the inline target, blocks are traversed; only embedded inlines are
/// rewritten.
pub open spec fn walk_block_i(b: SpecBlock, g: spec_fn(SpecInline) -> SpecInline) -> SpecBlock
    decreases b, 2int,
{
    match b {
        SpecBlock::Plain(v) => SpecBlock::Plain(walk_inline_seq(v, g)),
        SpecBlock::Para(v) => SpecBlock::Para(walk_inline_seq(v, g)),
        SpecBlock::BlockQuote(v) => SpecBlock::BlockQuote(walk_blocks_i_seq(v, g)),
        SpecBlock::OrderedList(la, v) => SpecBlock::OrderedList(la, walk_blockss_i_seq(v, g)),
        SpecBlock::BulletList(v) => SpecBlock::BulletList(walk_blockss_i_seq(v, g)),
        SpecBlock::DefinitionList(v) => SpecBlock::DefinitionList(walk_defitems_i_seq(v, g)),
        SpecBlock::Header(lvl, a, v) => SpecBlock::Header(lvl, a, walk_inline_seq(v, g)),
        SpecBlock::Table(cap, al, w, h, r) => SpecBlock::Table(
            walk_inline_seq(cap, g),
            al,
            w,
            walk_blockss_i_seq(h, g),
            walk_blocksss_i_seq(r, g),
        ),
        SpecBlock::Div(a, v) => SpecBlock::Div(a, walk_blocks_i_seq(v, g)),
        _ => b,
    }
}

pub open spec fn walk_blocks_i_seq(s: Seq<SpecBlock>, g: spec_fn(SpecInline) -> SpecInline) -> Seq<SpecBlock>
    decreases s, 3int,
{
    Seq::new(s.len(), |i: int| if 0 <= i < s.len() { walk_block_i(s[i], g) } else { s[i] })
}

pub open spec fn walk_blockss_i_seq(s: Seq<Seq<SpecBlock>>, g: spec_fn(SpecInline) -> SpecInline) -> Seq<Seq<SpecBlock>>
    decreases s, 4int,
{
    Seq::new(s.len(), |i: int| if 0 <= i < s.len() { walk_blocks_i_seq(s[i], g) } else { s[i] })
}

pub open spec fn walk_blocksss_i_seq(
    s: Seq<Seq<Seq<SpecBlock>>>,
    g: spec_fn(SpecInline) -> SpecInline,
) -> Seq<Seq<Seq<SpecBlock>>>
    decreases s, 5int,
{
    Seq::new(s.len(), |i: int| if 0 <= i < s.len() { walk_blockss_i_seq(s[i], g) } else { s[i] })
}

pub open spec fn walk_defitem_i(
    d: (Seq<SpecInline>, Seq<Seq<SpecBlock>>),
    g: spec_fn(SpecInline) -> SpecInline,
) -> (Seq<SpecInline>, Seq<Seq<SpecBlock>>)
    decreases d, 5int,
{
    (walk_inline_seq(d.0, g), walk_blockss_i_seq(d.1, g))
}

pub open spec fn walk_defitems_i_seq(
    s: Seq<(Seq<SpecInline>, Seq<Seq<SpecBlock>>)>,
    g: spec_fn(SpecInline) -> SpecInline,
) -> Seq<(Seq<SpecInline>, Seq<Seq<SpecBlock>>)>
    decreases s, 6int,
{
    Seq::new(s.len(), |i: int| if 0 <= i < s.len() { walk_defitem_i(s[i], g) } else { s[i] })
}

pub open spec fn walk_meta_value_i(m: SpecMetaValue, g: spec_fn(SpecInline) -> SpecInline) -> SpecMetaValue
    decreases m, 0int,
{
    match m {
        SpecMetaValue::MetaMap(es) => SpecMetaValue::MetaMap(walk_meta_entries_i_seq(es, g)),
        SpecMetaValue::MetaList(vs) => SpecMetaValue::MetaList(walk_meta_values_i_seq(vs, g)),
        SpecMetaValue::MetaInlines(v) => SpecMetaValue::MetaInlines(walk_inline_seq(v, g)),
        SpecMetaValue::MetaBlocks(v) => SpecMetaValue::MetaBlocks(walk_blocks_i_seq(v, g)),
        _ => m,
    }
}

pub open spec fn walk_meta_values_i_seq(s: Seq<SpecMetaValue>, g: spec_fn(SpecInline) -> SpecInline) -> Seq<SpecMetaValue>
    decreases s, 1int,
{
    Seq::new(s.len(), |i: int| if 0 <= i < s.len() { walk_meta_value_i(s[i], g) } else { s[i] })
}

pub open spec fn walk_meta_entry_i(
    p: (Seq<char>, SpecMetaValue),
    g: spec_fn(SpecInline) -> SpecInline,
) -> (Seq<char>, SpecMetaValue)
    decreases p, 1int,
{
    (p.0, walk_meta_value_i(p.1, g))
}

pub open spec fn walk_meta_entries_i_seq(
    s: Seq<(Seq<char>, SpecMetaValue)>,
    g: spec_fn(SpecInline) -> SpecInline,
) -> Seq<(Seq<char>, SpecMetaValue)>
    decreases s, 2int,
{
    Seq::new(s.len(), |i: int| if 0 <= i < s.len() { walk_meta_entry_i(s[i], g) } else { s[i] })
}

pub open spec fn walk_meta_i(m: SpecMeta, g: spec_fn(SpecInline) -> SpecInline) -> SpecMeta {
    SpecMeta { un_meta: walk_meta_entries_i_seq(m.un_meta, g) }
}

pub open spec fn walk_pandoc_i(p: SpecPandoc, g: spec_fn(SpecInline) -> SpecInline) -> SpecPandoc {
    SpecPandoc { meta: walk_meta_i(p.meta, g), blocks: walk_blocks_i_seq(p.blocks, g) }
}

/// The bottom-up walk of one metadata value under a metadata-value
/// transform `g`: every metadata value node, leaves included, passes
/// through `g` after its children have been walked.
pub open spec fn walk_meta_value_m(m: SpecMetaValue, g: spec_fn(SpecMetaValue) -> SpecMetaValue) -> SpecMetaValue
    decreases m, 0int,
{
    match m {
        SpecMetaValue::MetaMap(es) => g(SpecMetaValue::MetaMap(walk_meta_entries_m_seq(es, g))),
        SpecMetaValue::MetaList(vs) => g(SpecMetaValue::MetaList(walk_meta_values_m_seq(vs, g))),
        _ => g(m),
    }
}

pub open spec fn walk_meta_values_m_seq(s: Seq<SpecMetaValue>, g: spec_fn(SpecMetaValue) -> SpecMetaValue) -> Seq<SpecMetaValue>
    decreases s, 1int,
{
    Seq::new(s.len(), |i: int| if 0 <= i < s.len() { walk_meta_value_m(s[i], g) } else { s[i] })
}

pub open spec fn walk_meta_entry_m(
    p: (Seq<char>, SpecMetaValue),
    g: spec_fn(SpecMetaValue) -> SpecMetaValue,
) -> (Seq<char>, SpecMetaValue)
    decreases p, 1int,
{
    (p.0, walk_meta_value_m(p.1, g))
}

pub open spec fn walk_meta_entries_m_seq(
    s: Seq<(Seq<char>, SpecMetaValue)>,
    g: spec_fn(SpecMetaValue) -> SpecMetaValue,
) -> Seq<(Seq<char>, SpecMetaValue)>
    decreases s, 2int,
{
    Seq::new(s.len(), |i: int| if 0 <= i < s.len() { walk_meta_entry_m(s[i], g) } else { s[i] })
}


impl Block {
    /// Applies `f` to every block node of this tree, bottom up,
    /// composites included.
    pub fn walk_block<F: Fn(Block) -> Block>(self, f: &F) -> (r: Block)
        requires
            forall|a: Block| #[trigger] call_requires(*f, (a,)),
        ensures
            forall|g: spec_fn(SpecBlock) -> SpecBlock|
                block_abs(*f, g) ==> view_block(r) == #[trigger] walk_block(view_block(self), g),
        decreases self, 0int,
    {
        let ghost orig = view_block(self);
        match self {
            Block::BlockQuote(v) => {
                let ghost vv = view_blocks(v@);
                let w = walk_blocks_vec_b(v, f);
                let ghost wv = view_blocks(w@);
                let m = Block::BlockQuote(w);
                let ghost mv = view_block(m);
                let r = (f)(m);
                proof {
                    assert forall|g: spec_fn(SpecBlock) -> SpecBlock|
                        block_abs(*f, g) implies view_block(r) == #[trigger] walk_block(
                        orig,
                        g,
                    ) by {
                        assert(orig == SpecBlock::BlockQuote(vv));
                        assert(wv == walk_block_seq(vv, g));
                        assert(mv == SpecBlock::BlockQuote(wv));
                        assert(view_block(r) == g(mv));
                        assert(walk_block(orig, g) == g(SpecBlock::BlockQuote(walk_block_seq(vv, g))));
                    }
                }
                r
            },
            Block::OrderedList(la, v) => {
                let ghost vv = view_blockss(v@);
                let w = walk_blockss_vec_b(v, f);
                let ghost wv = view_blockss(w@);
                let m = Block::OrderedList(la, w);
                let ghost mv = view_block(m);
                let r = (f)(m);
                proof {
                    assert forall|g: spec_fn(SpecBlock) -> SpecBlock|
                        block_abs(*f, g) implies view_block(r) == #[trigger] walk_block(
                        orig,
                        g,
                    ) by {
                        assert(orig == SpecBlock::OrderedList((la.0, la.1, la.2), vv));
                        assert(wv == walk_blockss_seq(vv, g));
                        assert(mv == SpecBlock::OrderedList((la.0, la.1, la.2), wv));
                        assert(view_block(r) == g(mv));
                        assert(walk_block(orig, g) == g(SpecBlock::OrderedList((la.0, la.1, la.2), walk_blockss_seq(vv, g))));
                    }
                }
                r
            },
            Block::BulletList(v) => {
                let ghost vv = view_blockss(v@);
                let w = walk_blockss_vec_b(v, f);
                let ghost wv = view_blockss(w@);
                let m = Block::BulletList(w);
                let ghost mv = view_block(m);
                let r = (f)(m);
                proof {
                    assert forall|g: spec_fn(SpecBlock) -> SpecBlock|
                        block_abs(*f, g) implies view_block(r) == #[trigger] walk_block(
                        orig,
                        g,
                    ) by {
                        assert(orig == SpecBlock::BulletList(vv));
                        assert(wv == walk_blockss_seq(vv, g));
                        assert(mv == SpecBlock::BulletList(wv));
                        assert(view_block(r) == g(mv));
                        assert(walk_block(orig, g) == g(SpecBlock::BulletList(walk_blockss_seq(vv, g))));
                    }
                }
                r
            },
            Block::DefinitionList(v) => {
                let ghost vv = view_defitems(v@);
                let w = walk_defitems_vec_b(v, f);
                let ghost wv = view_defitems(w@);
                let m = Block::DefinitionList(w);
                let ghost mv = view_block(m);
                let r = (f)(m);
                proof {
                    assert forall|g: spec_fn(SpecBlock) -> SpecBlock|
                        block_abs(*f, g) implies view_block(r) == #[trigger] walk_block(
                        orig,
                        g,
                    ) by {
                        assert(orig == SpecBlock::DefinitionList(vv));
                        assert(wv == walk_defitems_b_seq(vv, g));
                        assert(mv == SpecBlock::DefinitionList(wv));
                        assert(view_block(r) == g(mv));
                        assert(walk_block(orig, g) == g(SpecBlock::DefinitionList(walk_defitems_b_seq(vv, g))));
                    }
                }
                r
            },
            Block::Table(cap, al, wid, h, rows) => {
                let ghost capv = view_inlines(cap@);
                let ghost alv = al@;
                let ghost widv = view_strings(wid@);
                let ghost hv = view_blockss(h@);
                let ghost rv = view_blocksss(rows@);
                let wh = walk_blockss_vec_b(h, f);
                let ghost whv = view_blockss(wh@);
                let wr = walk_blocksss_vec_b(rows, f);
                let ghost wrv = view_blocksss(wr@);
                let m = Block::Table(cap, al, wid, wh, wr);
                let ghost mv = view_block(m);
                let r = (f)(m);
                proof {
                    assert forall|g: spec_fn(SpecBlock) -> SpecBlock|
                        block_abs(*f, g) implies view_block(r) == #[trigger] walk_block(
                        orig,
                        g,
                    ) by {
                        assert(orig == SpecBlock::Table(capv, alv, widv, hv, rv));
                        assert(whv == walk_blockss_seq(hv, g));
                        assert(wrv == walk_blocksss_seq(rv, g));
                        assert(mv == SpecBlock::Table(capv, alv, widv, whv, wrv));
                        assert(view_block(r) == g(mv));
                        assert(walk_block(orig, g) == g(SpecBlock::Table(capv, alv, widv, walk_blockss_seq(hv, g), walk_blocksss_seq(rv, g))));
                    }
                }
                r
            },
            Block::Div(a, v) => {
                let ghost av = view_attr(a);
                let ghost vv = view_blocks(v@);
                let w = walk_blocks_vec_b(v, f);
                let ghost wv = view_blocks(w@);
                let m = Block::Div(a, w);
                let ghost mv = view_block(m);
                let r = (f)(m);
                proof {
                    assert forall|g: spec_fn(SpecBlock) -> SpecBlock|
                        block_abs(*f, g) implies view_block(r) == #[trigger] walk_block(
                        orig,
                        g,
                    ) by {
                        assert(orig == SpecBlock::Div(av, vv));
                        assert(wv == walk_block_seq(vv, g));
                        assert(mv == SpecBlock::Div(av, wv));
                        assert(view_block(r) == g(mv));
                        assert(walk_block(orig, g) == g(SpecBlock::Div(av, walk_block_seq(vv, g))));
                    }
                }
                r
            },
            leaf => {
                let r = (f)(leaf);
                proof {
                    assert forall|g: spec_fn(SpecBlock) -> SpecBlock|
                        block_abs(*f, g) implies view_block(r) == #[trigger] walk_block(
                        orig,
                        g,
                    ) by {
                        assert(view_block(r) == g(orig));
                        assert(walk_block(orig, g) == g(orig));
                    }
                }
                r
            },
        }
    }
}

impl Block {
    /// Applies `f` to every inline node inside this block, bottom up; the
    /// block structure itself is preserved.
    pub fn walk_inline<F: Fn(Inline) -> Inline>(self, f: &F) -> (r: Block)
        requires
            forall|a: Inline| #[trigger] call_requires(*f, (a,)),
        ensures
            forall|g: spec_fn(SpecInline) -> SpecInline|
                inline_abs(*f, g) ==> view_block(r) == #[trigger] walk_block_i(
                    view_block(self),
                    g,
                ),
        decreases self, 2int,
    {
        let ghost orig = view_block(self);
        match self {
            Block::Plain(v) => {
                let ghost vv = view_inlines(v@);
                let w = walk_inlines_vec(v, f);
                let ghost wv = view_inlines(w@);
                let r = Block::Plain(w);
                proof {
                    assert forall|g: spec_fn(SpecInline) -> SpecInline|
                        inline_abs(*f, g) implies view_block(r) == #[trigger] walk_block_i(
                        orig,
                        g,
                    ) by {
                        assert(orig == SpecBlock::Plain(vv));
                        assert(wv == walk_inline_seq(vv, g));
                        assert(view_block(r) == SpecBlock::Plain(wv));
                        assert(walk_block_i(orig, g) == SpecBlock::Plain(walk_inline_seq(vv, g)));
                    }
                }
                r
            },
            Block::Para(v) => {
                let ghost vv = view_inlines(v@);
                let w = walk_inlines_vec(v, f);
                let ghost wv = view_inlines(w@);
                let r = Block::Para(w);
                proof {
                    assert forall|g: spec_fn(SpecInline) -> SpecInline|
                        inline_abs(*f, g) implies view_block(r) == #[trigger] walk_block_i(
                        orig,
                        g,
                    ) by {
                        assert(orig == SpecBlock::Para(vv));
                        assert(wv == walk_inline_seq(vv, g));
                        assert(view_block(r) == SpecBlock::Para(wv));
                        assert(walk_block_i(orig, g) == SpecBlock::Para(walk_inline_seq(vv, g)));
                    }
                }
                r
            },
            Block::BlockQuote(v) => {
                let ghost vv = view_blocks(v@);
                let w = walk_blocks_vec_i(v, f);
                let ghost wv = view_blocks(w@);
                let r = Block::BlockQuote(w);
                proof {
                    assert forall|g: spec_fn(SpecInline) -> SpecInline|
                        inline_abs(*f, g) implies view_block(r) == #[trigger] walk_block_i(
                        orig,
                        g,
                    ) by {
                        assert(orig == SpecBlock::BlockQuote(vv));
                        assert(wv == walk_blocks_i_seq(vv, g));
                        assert(view_block(r) == SpecBlock::BlockQuote(wv));
                        assert(walk_block_i(orig, g) == SpecBlock::BlockQuote(walk_blocks_i_seq(vv, g)));
                    }
                }
                r
            },
            Block::OrderedList(la, v) => {
                let ghost vv = view_blockss(v@);
                let w = walk_blockss_vec_i(v, f);
                let ghost wv = view_blockss(w@);
                let r = Block::OrderedList(la, w);
                proof {
                    assert forall|g: spec_fn(SpecInline) -> SpecInline|
                        inline_abs(*f, g) implies view_block(r) == #[trigger] walk_block_i(
                        orig,
                        g,
                    ) by {
                        assert(orig == SpecBlock::OrderedList((la.0, la.1, la.2), vv));
                        assert(wv == walk_blockss_i_seq(vv, g));
                        assert(view_block(r) == SpecBlock::OrderedList((la.0, la.1, la.2), wv));
                        assert(walk_block_i(orig, g) == SpecBlock::OrderedList((la.0, la.1, la.2), walk_blockss_i_seq(vv, g)));
                    }
                }
                r
            },
            Block::BulletList(v) => {
                let ghost vv = view_blockss(v@);
                let w = walk_blockss_vec_i(v, f);
                let ghost wv = view_blockss(w@);
                let r = Block::BulletList(w);
                proof {
                    assert forall|g: spec_fn(SpecInline) -> SpecInline|
                        inline_abs(*f, g) implies view_block(r) == #[trigger] walk_block_i(
                        orig,
                        g,
                    ) by {
                        assert(orig == SpecBlock::BulletList(vv));
                        assert(wv == walk_blockss_i_seq(vv, g));
                        assert(view_block(r) == SpecBlock::BulletList(wv));
                        assert(walk_block_i(orig, g) == SpecBlock::BulletList(walk_blockss_i_seq(vv, g)));
                    }
                }
                r
            },
            Block::DefinitionList(v) => {
                let ghost vv = view_defitems(v@);
                let w = walk_defitems_vec_i(v, f);
                let ghost wv = view_defitems(w@);
                let r = Block::DefinitionList(w);
                proof {
                    assert forall|g: spec_fn(SpecInline) -> SpecInline|
                        inline_abs(*f, g) implies view_block(r) == #[trigger] walk_block_i(
                        orig,
                        g,
                    ) by {
                        assert(orig == SpecBlock::DefinitionList(vv));
                        assert(wv == walk_defitems_i_seq(vv, g));
                        assert(view_block(r) == SpecBlock::DefinitionList(wv));
                        assert(walk_block_i(orig, g) == SpecBlock::DefinitionList(walk_defitems_i_seq(vv, g)));
                    }
                }
                r
            },
            Block::Header(lvl, a, v) => {
                let ghost av = view_attr(a);
                let ghost vv = view_inlines(v@);
                let w = walk_inlines_vec(v, f);
                let ghost wv = view_inlines(w@);
                let r = Block::Header(lvl, a, w);
                proof {
                    assert forall|g: spec_fn(SpecInline) -> SpecInline|
                        inline_abs(*f, g) implies view_block(r) == #[trigger] walk_block_i(
                        orig,
                        g,
                    ) by {
                        assert(orig == SpecBlock::Header(lvl, av, vv));
                        assert(wv == walk_inline_seq(vv, g));
                        assert(view_block(r) == SpecBlock::Header(lvl, av, wv));
                        assert(walk_block_i(orig, g) == SpecBlock::Header(lvl, av, walk_inline_seq(vv, g)));
                    }
                }
                r
            },
            Block::Table(cap, al, wid, h, rows) => {
                let ghost capv = view_inlines(cap@);
                let ghost alv = al@;
                let ghost widv = view_strings(wid@);
                let ghost hv = view_blockss(h@);
                let ghost rv = view_blocksss(rows@);
                let wc = walk_inlines_vec(cap, f);
                let ghost wcv = view_inlines(wc@);
                let wh = walk_blockss_vec_i(h, f);
                let ghost whv = view_blockss(wh@);
                let wr = walk_blocksss_vec_i(rows, f);
                let ghost wrv = view_blocksss(wr@);
                let r = Block::Table(wc, al, wid, wh, wr);
                proof {
                    assert forall|g: spec_fn(SpecInline) -> SpecInline|
                        inline_abs(*f, g) implies view_block(r) == #[trigger] walk_block_i(
                        orig,
                        g,
                    ) by {
                        assert(orig == SpecBlock::Table(capv, alv, widv, hv, rv));
                        assert(wcv == walk_inline_seq(capv, g));
                        assert(whv == walk_blockss_i_seq(hv, g));
                        assert(wrv == walk_blocksss_i_seq(rv, g));
                        assert(view_block(r) == SpecBlock::Table(wcv, alv, widv, whv, wrv));
                        assert(walk_block_i(orig, g) == SpecBlock::Table(walk_inline_seq(capv, g), alv, widv, walk_blockss_i_seq(hv, g), walk_blocksss_i_seq(rv, g)));
                    }
                }
                r
            },
            Block::Div(a, v) => {
                let ghost av = view_attr(a);
                let ghost vv = view_blocks(v@);
                let w = walk_blocks_vec_i(v, f);
                let ghost wv = view_blocks(w@);
                let r = Block::Div(a, w);
                proof {
                    assert forall|g: spec_fn(SpecInline) -> SpecInline|
                        inline_abs(*f, g) implies view_block(r) == #[trigger] walk_block_i(
                        orig,
                        g,
                    ) by {
                        assert(orig == SpecBlock::Div(av, vv));
                        assert(wv == walk_blocks_i_seq(vv, g));
                        assert(view_block(r) == SpecBlock::Div(av, wv));
                        assert(walk_block_i(orig, g) == SpecBlock::Div(av, walk_blocks_i_seq(vv, g)));
                    }
                }
                r
            },
            leaf => {
                let r = leaf;
                proof {
                    assert forall|g: spec_fn(SpecInline) -> SpecInline|
                        inline_abs(*f, g) implies view_block(r) == #[trigger] walk_block_i(
                        orig,
                        g,
                    ) by {
                        assert(walk_block_i(orig, g) == orig);
                    }
                }
                r
            },
        }
    }
}

impl MetaValue {
    /// Applies `f` to every block node inside this metadata value.
    pub fn walk_block<F: Fn(Block) -> Block>(self, f: &F) -> (r: MetaValue)
        requires
            forall|a: Block| #[trigger] call_requires(*f, (a,)),
        ensures
            forall|g: spec_fn(SpecBlock) -> SpecBlock|
                block_abs(*f, g) ==> view_meta_value(r) == #[trigger] walk_meta_value_b(
                    view_meta_value(self),
                    g,
                ),
        decreases self, 0int,
    {
        let ghost orig = view_meta_value(self);
        match self {
            MetaValue::MetaMap(es) => {
                let ghost ev = view_meta_entries(es@);
                let w = walk_meta_entries_vec_b(es, f);
                let ghost wv = view_meta_entries(w@);
                let r = MetaValue::MetaMap(w);
                proof {
                    assert forall|g: spec_fn(SpecBlock) -> SpecBlock|
                        block_abs(*f, g) implies view_meta_value(r) == #[trigger] walk_meta_value_b(
                        orig,
                        g,
                    ) by {
                        assert(orig == SpecMetaValue::MetaMap(ev));
                        assert(wv == walk_meta_entries_b_seq(ev, g));
                        assert(view_meta_value(r) == SpecMetaValue::MetaMap(wv));
                        assert(walk_meta_value_b(orig, g) == SpecMetaValue::MetaMap(walk_meta_entries_b_seq(ev, g)));
                    }
                }
                r
            },
            MetaValue::MetaList(vs) => {
                let ghost vv = view_meta_values(vs@);
                let w = walk_meta_values_vec_b(vs, f);
                let ghost wv = view_meta_values(w@);
                let r = MetaValue::MetaList(w);
                proof {
                    assert forall|g: spec_fn(SpecBlock) -> SpecBlock|
                        block_abs(*f, g) implies view_meta_value(r) == #[trigger] walk_meta_value_b(
                        orig,
                        g,
                    ) by {
                        assert(orig == SpecMetaValue::MetaList(vv));
                        assert(wv == walk_meta_values_b_seq(vv, g));
                        assert(view_meta_value(r) == SpecMetaValue::MetaList(wv));
                        assert(walk_meta_value_b(orig, g) == SpecMetaValue::MetaList(walk_meta_values_b_seq(vv, g)));
                    }
                }
                r
            },
            MetaValue::MetaBlocks(v) => {
                let ghost vv = view_blocks(v@);
                let w = walk_blocks_vec_b(v, f);
                let ghost wv = view_blocks(w@);
                let r = MetaValue::MetaBlocks(w);
                proof {
                    assert forall|g: spec_fn(SpecBlock) -> SpecBlock|
                        block_abs(*f, g) implies view_meta_value(r) == #[trigger] walk_meta_value_b(
                        orig,
                        g,
                    ) by {
                        assert(orig == SpecMetaValue::MetaBlocks(vv));
                        assert(wv == walk_block_seq(vv, g));
                        assert(view_meta_value(r) == SpecMetaValue::MetaBlocks(wv));
                        assert(walk_meta_value_b(orig, g) == SpecMetaValue::MetaBlocks(walk_block_seq(vv, g)));
                    }
                }
                r
            },
            leaf => {
                let r = leaf;
                proof {
                    assert forall|g: spec_fn(SpecBlock) -> SpecBlock|
                        block_abs(*f, g) implies view_meta_value(r) == #[trigger] walk_meta_value_b(
                        orig,
                        g,
                    ) by {
                        assert(walk_meta_value_b(orig, g) == orig);
                    }
                }
                r
            },
        }
    }

    /// Applies `f` to every inline node inside this metadata value.
    pub fn walk_inline<F: Fn(Inline) -> Inline>(self, f: &F) -> (r: MetaValue)
        requires
            forall|a: Inline| #[trigger] call_requires(*f, (a,)),
        ensures
            forall|g: spec_fn(SpecInline) -> SpecInline|
                inline_abs(*f, g) ==> view_meta_value(r) == #[trigger] walk_meta_value_i(
                    view_meta_value(self),
                    g,
                ),
        decreases self, 0int,
    {
        let ghost orig = view_meta_value(self);
        match self {
            MetaValue::MetaMap(es) => {
                let ghost ev = view_meta_entries(es@);
                let w = walk_meta_entries_vec_i(es, f);
                let ghost wv = view_meta_entries(w@);
                let r = MetaValue::MetaMap(w);
                proof {
                    assert forall|g: spec_fn(SpecInline) -> SpecInline|
                        inline_abs(*f, g) implies view_meta_value(r) == #[trigger] walk_meta_value_i(
                        orig,
                        g,
                    ) by {
                        assert(orig == SpecMetaValue::MetaMap(ev));
                        assert(wv == walk_meta_entries_i_seq(ev, g));
                        assert(view_meta_value(r) == SpecMetaValue::MetaMap(wv));
                        assert(walk_meta_value_i(orig, g) == SpecMetaValue::MetaMap(walk_meta_entries_i_seq(ev, g)));
                    }
                }
                r
            },
            MetaValue::MetaList(vs) => {
                let ghost vv = view_meta_values(vs@);
                let w = walk_meta_values_vec_i(vs, f);
                let ghost wv = view_meta_values(w@);
                let r = MetaValue::MetaList(w);
                proof {
                    assert forall|g: spec_fn(SpecInline) -> SpecInline|
                        inline_abs(*f, g) implies view_meta_value(r) == #[trigger] walk_meta_value_i(
                        orig,
                        g,
                    ) by {
                        assert(orig == SpecMetaValue::MetaList(vv));
                        assert(wv == walk_meta_values_i_seq(vv, g));
                        assert(view_meta_value(r) == SpecMetaValue::MetaList(wv));
                        assert(walk_meta_value_i(orig, g) == SpecMetaValue::MetaList(walk_meta_values_i_seq(vv, g)));
                    }
                }
                r
            },
            MetaValue::MetaInlines(v) => {
                let ghost vv = view_inlines(v@);
                let w = walk_inlines_vec(v, f);
                let ghost wv = view_inlines(w@);
                let r = MetaValue::MetaInlines(w);
                proof {
                    assert forall|g: spec_fn(SpecInline) -> SpecInline|
                        inline_abs(*f, g) implies view_meta_value(r) == #[trigger] walk_meta_value_i(
                        orig,
                        g,
                    ) by {
                        assert(orig == SpecMetaValue::MetaInlines(vv));
                        assert(wv == walk_inline_seq(vv, g));
                        assert(view_meta_value(r) == SpecMetaValue::MetaInlines(wv));
                        assert(walk_meta_value_i(orig, g) == SpecMetaValue::MetaInlines(walk_inline_seq(vv, g)));
                    }
                }
                r
            },
            MetaValue::MetaBlocks(v) => {
                let ghost vv = view_blocks(v@);
                let w = walk_blocks_vec_i(v, f);
                let ghost wv = view_blocks(w@);
                let r = MetaValue::MetaBlocks(w);
                proof {
                    assert forall|g: spec_fn(SpecInline) -> SpecInline|
                        inline_abs(*f, g) implies view_meta_value(r) == #[trigger] walk_meta_value_i(
                        orig,
                        g,
                    ) by {
                        assert(orig == SpecMetaValue::MetaBlocks(vv));
                        assert(wv == walk_blocks_i_seq(vv, g));
                        assert(view_meta_value(r) == SpecMetaValue::MetaBlocks(wv));
                        assert(walk_meta_value_i(orig, g) == SpecMetaValue::MetaBlocks(walk_blocks_i_seq(vv, g)));
                    }
                }
                r
            },
            leaf => {
                let r = leaf;
                proof {
                    assert forall|g: spec_fn(SpecInline) -> SpecInline|
                        inline_abs(*f, g) implies view_meta_value(r) == #[trigger] walk_meta_value_i(
                        orig,
                        g,
                    ) by {
                        assert(walk_meta_value_i(orig, g) == orig);
                    }
                }
                r
            },
        }
    }

    /// Applies `f` to every metadata value node of this tree, bottom up,
    /// leaves included.
    pub fn walk_meta_value<F: Fn(MetaValue) -> MetaValue>(self, f: &F) -> (r: MetaValue)
        requires
            forall|a: MetaValue| #[trigger] call_requires(*f, (a,)),
        ensures
            forall|g: spec_fn(SpecMetaValue) -> SpecMetaValue|
                meta_value_abs(*f, g) ==> view_meta_value(r) == #[trigger] walk_meta_value_m(
                    view_meta_value(self),
                    g,
                ),
        decreases self, 0int,
    {
        let ghost orig = view_meta_value(self);
        match self {
            MetaValue::MetaMap(es) => {
                let ghost ev = view_meta_entries(es@);
                let w = walk_meta_entries_vec_m(es, f);
                let ghost wv = view_meta_entries(w@);
                let m = MetaValue::MetaMap(w);
                let ghost mv = view_meta_value(m);
                let r = (f)(m);
                proof {
                    assert forall|g: spec_fn(SpecMetaValue) -> SpecMetaValue|
                        meta_value_abs(*f, g) implies view_meta_value(r) == #[trigger] walk_meta_value_m(
                        orig,
                        g,
                    ) by {
                        assert(orig == SpecMetaValue::MetaMap(ev));
                        assert(wv == walk_meta_entries_m_seq(ev, g));
                        assert(mv == SpecMetaValue::MetaMap(wv));
                        assert(view_meta_value(r) == g(mv));
                        assert(walk_meta_value_m(orig, g) == g(SpecMetaValue::MetaMap(walk_meta_entries_m_seq(ev, g))));
                    }
                }
                r
            },
            MetaValue::MetaList(vs) => {
                let ghost vv = view_meta_values(vs@);
                let w = walk_meta_values_vec_m(vs, f);
                let ghost wv = view_meta_values(w@);
                let m = MetaValue::MetaList(w);
                let ghost mv = view_meta_value(m);
                let r = (f)(m);
                proof {
                    assert forall|g: spec_fn(SpecMetaValue) -> SpecMetaValue|
                        meta_value_abs(*f, g) implies view_meta_value(r) == #[trigger] walk_meta_value_m(
                        orig,
                        g,
                    ) by {
                        assert(orig == SpecMetaValue::MetaList(vv));
                        assert(wv == walk_meta_values_m_seq(vv, g));
                        assert(mv == SpecMetaValue::MetaList(wv));
                        assert(view_meta_value(r) == g(mv));
                        assert(walk_meta_value_m(orig, g) == g(SpecMetaValue::MetaList(walk_meta_values_m_seq(vv, g))));
                    }
                }
                r
            },
            leaf => {
                let r = (f)(leaf);
                proof {
                    assert forall|g: spec_fn(SpecMetaValue) -> SpecMetaValue|
                        meta_value_abs(*f, g) implies view_meta_value(r)
                        == #[trigger] walk_meta_value_m(orig, g) by {
                        assert(view_meta_value(r) == g(orig));
                        assert(walk_meta_value_m(orig, g) == g(orig));
                    }
                }
                r
            },
        }
    }
}

#[verifier::loop_isolation(false)]
fn walk_blocks_vec_b<F: Fn(Block) -> Block>(v: Vec<Block>, f: &F) -> (r: Vec<Block>)
    requires
        forall|a: Block| #[trigger] call_requires(*f, (a,)),
    ensures
        forall|g: spec_fn(SpecBlock) -> SpecBlock|
            block_abs(*f, g) ==> view_blocks(r@) == #[trigger] walk_block_seq(view_blocks(v@), g),
    decreases v, 1int,
{
    let ghost orig = v@;
    let mut rem = v;
    let mut out: Vec<Block> = Vec::new();
    while rem.len() > 0
        invariant
            out@.len() + rem@.len() == orig.len(),
            rem@ == orig.subrange(out@.len() as int, orig.len() as int),
            forall|g: spec_fn(SpecBlock) -> SpecBlock|
                block_abs(*f, g) ==> view_blocks(out@) == #[trigger] walk_block_seq(
                    view_blocks(orig.subrange(0, out@.len() as int)),
                    g,
                ),
        decreases rem.len(),
    {
        let ghost k = out@.len() as int;
        let x = rem.remove(0);
        proof {
            assert(x == orig[k]);
            assert(rem@ =~= orig.subrange(k + 1, orig.len() as int));
        }
        let y = x.walk_block(f);
        let ghost yv = view_block(y);
        let ghost outpre = out@;
        out.push(y);
        proof {
            assert forall|g: spec_fn(SpecBlock) -> SpecBlock|
                block_abs(*f, g) implies view_blocks(out@) == #[trigger] walk_block_seq(
                view_blocks(orig.subrange(0, k + 1)),
                g,
            ) by {
                let lhs = view_blocks(out@);
                let rhs = walk_block_seq(view_blocks(orig.subrange(0, k + 1)), g);
                assert(view_blocks(outpre) == walk_block_seq(view_blocks(orig.subrange(0, k)), g));

                assert(yv == walk_block(view_block(orig[k]), g));
                assert forall|j: int| 0 <= j < k + 1 implies lhs[j] == rhs[j] by {
                    assert(view_blocks(orig.subrange(0, k + 1))[j] == view_block(orig[j]));
                    assert(rhs[j] == walk_block(view_block(orig[j]), g));
                    if j < k {
                        assert(out@[j] == outpre[j]);
                        assert(lhs[j] == view_block(outpre[j]));
                        assert(view_blocks(outpre)[j] == view_block(outpre[j]));
                        assert(view_blocks(orig.subrange(0, k))[j] == view_block(orig[j]));
                        assert(view_blocks(outpre)[j] == walk_block_seq(
                            view_blocks(orig.subrange(0, k)),
                            g,
                        )[j]);
                        assert(walk_block_seq(view_blocks(orig.subrange(0, k)), g)[j]
                            == walk_block(view_blocks(orig.subrange(0, k))[j], g));
                    } else {
                        assert(lhs[j] == yv);
                    }
                }
                assert(lhs =~= rhs);
            }
        }
    }
    proof {
        assert(orig.subrange(0, orig.len() as int) =~= orig);
    }
    out
}


#[verifier::loop_isolation(false)]
fn walk_blockss_vec_b<F: Fn(Block) -> Block>(v: Vec<Vec<Block>>, f: &F) -> (r: Vec<Vec<Block>>)
    requires
        forall|a: Block| #[trigger] call_requires(*f, (a,)),
    ensures
        forall|g: spec_fn(SpecBlock) -> SpecBlock|
            block_abs(*f, g) ==> view_blockss(r@) == #[trigger] walk_blockss_seq(view_blockss(v@), g),
    decreases v, 2int,
{
    let ghost orig = v@;
    let mut rem = v;
    let mut out: Vec<Vec<Block>> = Vec::new();
    while rem.len() > 0
        invariant
            out@.len() + rem@.len() == orig.len(),
            rem@ == orig.subrange(out@.len() as int, orig.len() as int),
            forall|g: spec_fn(SpecBlock) -> SpecBlock|
                block_abs(*f, g) ==> view_blockss(out@) == #[trigger] walk_blockss_seq(
                    view_blockss(orig.subrange(0, out@.len() as int)),
                    g,
                ),
        decreases rem.len(),
    {
        let ghost k = out@.len() as int;
        let x = rem.remove(0);
        proof {
            assert(x == orig[k]);
            assert(rem@ =~= orig.subrange(k + 1, orig.len() as int));
        }
        let y = walk_blocks_vec_b(x, f);
        let ghost yv = view_blocks(y@);
        let ghost outpre = out@;
        out.push(y);
        proof {
            assert forall|g: spec_fn(SpecBlock) -> SpecBlock|
                block_abs(*f, g) implies view_blockss(out@) == #[trigger] walk_blockss_seq(
                view_blockss(orig.subrange(0, k + 1)),
                g,
            ) by {
                let lhs = view_blockss(out@);
                let rhs = walk_blockss_seq(view_blockss(orig.subrange(0, k + 1)), g);
                assert(view_blockss(outpre) == walk_blockss_seq(view_blockss(orig.subrange(0, k)), g));

                assert(yv == walk_block_seq(view_blocks(orig[k]@), g));
                assert forall|j: int| 0 <= j < k + 1 implies lhs[j] == rhs[j] by {
                    assert(view_blockss(orig.subrange(0, k + 1))[j] == view_blocks(orig[j]@));
                    assert(rhs[j] == walk_block_seq(view_blocks(orig[j]@), g));
                    if j < k {
                        assert(out@[j] == outpre[j]);
                        assert(lhs[j] == view_blocks(outpre[j]@));
                        assert(view_blockss(outpre)[j] == view_blocks(outpre[j]@));
                        assert(view_blockss(orig.subrange(0, k))[j] == view_blocks(orig[j]@));
                        assert(view_blockss(outpre)[j] == walk_blockss_seq(
                            view_blockss(orig.subrange(0, k)),
                            g,
                        )[j]);
                        assert(walk_blockss_seq(view_blockss(orig.subrange(0, k)), g)[j]
                            == walk_block_seq(view_blockss(orig.subrange(0, k))[j], g));
                    } else {
                        assert(lhs[j] == yv);
                    }
                }
                assert(lhs =~= rhs);
            }
        }
    }
    proof {
        assert(orig.subrange(0, orig.len() as int) =~= orig);
    }
    out
}


#[verifier::loop_isolation(false)]
fn walk_blocksss_vec_b<F: Fn(Block) -> Block>(v: Vec<Vec<Vec<Block>>>, f: &F) -> (r: Vec<Vec<Vec<Block>>>)
    requires
        forall|a: Block| #[trigger] call_requires(*f, (a,)),
    ensures
        forall|g: spec_fn(SpecBlock) -> SpecBlock|
            block_abs(*f, g) ==> view_blocksss(r@) == #[trigger] walk_blocksss_seq(view_blocksss(v@), g),
    decreases v, 3int,
{
    let ghost orig = v@;
    let mut rem = v;
    let mut out: Vec<Vec<Vec<Block>>> = Vec::new();
    while rem.len() > 0
        invariant
            out@.len() + rem@.len() == orig.len(),
            rem@ == orig.subrange(out@.len() as int, orig.len() as int),
            forall|g: spec_fn(SpecBlock) -> SpecBlock|
                block_abs(*f, g) ==> view_blocksss(out@) == #[trigger] walk_blocksss_seq(
                    view_blocksss(orig.subrange(0, out@.len() as int)),
                    g,
                ),
        decreases rem.len(),
    {
        let ghost k = out@.len() as int;
        let x = rem.remove(0);
        proof {
            assert(x == orig[k]);
            assert(rem@ =~= orig.subrange(k + 1, orig.len() as int));
        }
        let y = walk_blockss_vec_b(x, f);
        let ghost yv = view_blockss(y@);
        let ghost outpre = out@;
        out.push(y);
        proof {
            assert forall|g: spec_fn(SpecBlock) -> SpecBlock|
                block_abs(*f, g) implies view_blocksss(out@) == #[trigger] walk_blocksss_seq(
                view_blocksss(orig.subrange(0, k + 1)),
                g,
            ) by {
                let lhs = view_blocksss(out@);
                let rhs = walk_blocksss_seq(view_blocksss(orig.subrange(0, k + 1)), g);
                assert(view_blocksss(outpre) == walk_blocksss_seq(view_blocksss(orig.subrange(0, k)), g));

                assert(yv == walk_blockss_seq(view_blockss(orig[k]@), g));
                assert forall|j: int| 0 <= j < k + 1 implies lhs[j] == rhs[j] by {
                    assert(view_blocksss(orig.subrange(0, k + 1))[j] == view_blockss(orig[j]@));
                    assert(rhs[j] == walk_blockss_seq(view_blockss(orig[j]@), g));
                    if j < k {
                        assert(out@[j] == outpre[j]);
                        assert(lhs[j] == view_blockss(outpre[j]@));
                        assert(view_blocksss(outpre)[j] == view_blockss(outpre[j]@));
                        assert(view_blocksss(orig.subrange(0, k))[j] == view_blockss(orig[j]@));
                        assert(view_blocksss(outpre)[j] == walk_blocksss_seq(
                            view_blocksss(orig.subrange(0, k)),
                            g,
                        )[j]);
                        assert(walk_blocksss_seq(view_blocksss(orig.subrange(0, k)), g)[j]
                            == walk_blockss_seq(view_blocksss(orig.subrange(0, k))[j], g));
                    } else {
                        assert(lhs[j] == yv);
                    }
                }
                assert(lhs =~= rhs);
            }
        }
    }
    proof {
        assert(orig.subrange(0, orig.len() as int) =~= orig);
    }
    out
}


#[verifier::loop_isolation(false)]
fn walk_defitems_vec_b<F: Fn(Block) -> Block>(v: Vec<(Vec<Inline>, Vec<Vec<Block>>)>, f: &F) -> (r: Vec<(Vec<Inline>, Vec<Vec<Block>>)>)
    requires
        forall|a: Block| #[trigger] call_requires(*f, (a,)),
    ensures
        forall|g: spec_fn(SpecBlock) -> SpecBlock|
            block_abs(*f, g) ==> view_defitems(r@) == #[trigger] walk_defitems_b_seq(view_defitems(v@), g),
    decreases v, 4int,
{
    let ghost orig = v@;
    let mut rem = v;
    let mut out: Vec<(Vec<Inline>, Vec<Vec<Block>>)> = Vec::new();
    while rem.len() > 0
        invariant
            out@.len() + rem@.len() == orig.len(),
            rem@ == orig.subrange(out@.len() as int, orig.len() as int),
            forall|g: spec_fn(SpecBlock) -> SpecBlock|
                block_abs(*f, g) ==> view_defitems(out@) == #[trigger] walk_defitems_b_seq(
                    view_defitems(orig.subrange(0, out@.len() as int)),
                    g,
                ),
        decreases rem.len(),
    {
        let ghost k = out@.len() as int;
        let x = rem.remove(0);
        proof {
            assert(x == orig[k]);
            assert(rem@ =~= orig.subrange(k + 1, orig.len() as int));
        }
        let (term, defs) = x;
        let ghost termv = view_inlines(term@);
        let ghost defsv = view_blockss(defs@);
        let wd = walk_blockss_vec_b(defs, f);
        let ghost wdv = view_blockss(wd@);
        let y = (term, wd);
        let ghost yv = (view_inlines(y.0@), view_blockss(y.1@));
        let ghost outpre = out@;
        out.push(y);
        proof {
            assert forall|g: spec_fn(SpecBlock) -> SpecBlock|
                block_abs(*f, g) implies view_defitems(out@) == #[trigger] walk_defitems_b_seq(
                view_defitems(orig.subrange(0, k + 1)),
                g,
            ) by {
                let lhs = view_defitems(out@);
                let rhs = walk_defitems_b_seq(view_defitems(orig.subrange(0, k + 1)), g);
                assert(view_defitems(outpre) == walk_defitems_b_seq(view_defitems(orig.subrange(0, k)), g));

                assert(termv == view_inlines(orig[k].0@));
                assert(defsv == view_blockss(orig[k].1@));
                assert(wdv == walk_blockss_seq(defsv, g));
                assert(yv == (termv, wdv));
                assert(yv == walk_defitem_b((view_inlines(orig[k].0@), view_blockss(orig[k].1@)), g));
                assert forall|j: int| 0 <= j < k + 1 implies lhs[j] == rhs[j] by {
                    assert(view_defitems(orig.subrange(0, k + 1))[j] == (view_inlines(orig[j].0@), view_blockss(orig[j].1@)));
                    assert(rhs[j] == walk_defitem_b((view_inlines(orig[j].0@), view_blockss(orig[j].1@)), g));
                    if j < k {
                        assert(out@[j] == outpre[j]);
                        assert(lhs[j] == (view_inlines(outpre[j].0@), view_blockss(outpre[j].1@)));
                        assert(view_defitems(outpre)[j] == (view_inlines(outpre[j].0@), view_blockss(outpre[j].1@)));
                        assert(view_defitems(orig.subrange(0, k))[j] == (view_inlines(orig[j].0@), view_blockss(orig[j].1@)));
                        assert(view_defitems(outpre)[j] == walk_defitems_b_seq(
                            view_defitems(orig.subrange(0, k)),
                            g,
                        )[j]);
                        assert(walk_defitems_b_seq(view_defitems(orig.subrange(0, k)), g)[j]
                            == walk_defitem_b(view_defitems(orig.subrange(0, k))[j], g));
                    } else {
                        assert(lhs[j] == yv);
                    }
                }
                assert(lhs =~= rhs);
            }
        }
    }
    proof {
        assert(orig.subrange(0, orig.len() as int) =~= orig);
    }
    out
}


#[verifier::loop_isolation(false)]
fn walk_meta_values_vec_b<F: Fn(Block) -> Block>(v: Vec<MetaValue>, f: &F) -> (r: Vec<MetaValue>)
    requires
        forall|a: Block| #[trigger] call_requires(*f, (a,)),
    ensures
        forall|g: spec_fn(SpecBlock) -> SpecBlock|
            block_abs(*f, g) ==> view_meta_values(r@) == #[trigger] walk_meta_values_b_seq(view_meta_values(v@), g),
    decreases v, 1int,
{
    let ghost orig = v@;
    let mut rem = v;
    let mut out: Vec<MetaValue> = Vec::new();
    while rem.len() > 0
        invariant
            out@.len() + rem@.len() == orig.len(),
            rem@ == orig.subrange(out@.len() as int, orig.len() as int),
            forall|g: spec_fn(SpecBlock) -> SpecBlock|
                block_abs(*f, g) ==> view_meta_values(out@) == #[trigger] walk_meta_values_b_seq(
                    view_meta_values(orig.subrange(0, out@.len() as int)),
                    g,
                ),
        decreases rem.len(),
    {
        let ghost k = out@.len() as int;
        let x = rem.remove(0);
        proof {
            assert(x == orig[k]);
            assert(rem@ =~= orig.subrange(k + 1, orig.len() as int));
        }
        let y = x.walk_block(f);
        let ghost yv = view_meta_value(y);
        let ghost outpre = out@;
        out.push(y);
        proof {
            assert forall|g: spec_fn(SpecBlock) -> SpecBlock|
                block_abs(*f, g) implies view_meta_values(out@) == #[trigger] walk_meta_values_b_seq(
                view_meta_values(orig.subrange(0, k + 1)),
                g,
            ) by {
                let lhs = view_meta_values(out@);
                let rhs = walk_meta_values_b_seq(view_meta_values(orig.subrange(0, k + 1)), g);
                assert(view_meta_values(outpre) == walk_meta_values_b_seq(view_meta_values(orig.subrange(0, k)), g));

                assert(yv == walk_meta_value_b(view_meta_value(orig[k]), g));
                assert forall|j: int| 0 <= j < k + 1 implies lhs[j] == rhs[j] by {
                    assert(view_meta_values(orig.subrange(0, k + 1))[j] == view_meta_value(orig[j]));
                    assert(rhs[j] == walk_meta_value_b(view_meta_value(orig[j]), g));
                    if j < k {
                        assert(out@[j] == outpre[j]);
                        assert(lhs[j] == view_meta_value(outpre[j]));
                        assert(view_meta_values(outpre)[j] == view_meta_value(outpre[j]));
                        assert(view_meta_values(orig.subrange(0, k))[j] == view_meta_value(orig[j]));
                        assert(view_meta_values(outpre)[j] == walk_meta_values_b_seq(
                            view_meta_values(orig.subrange(0, k)),
                            g,
                        )[j]);
                        assert(walk_meta_values_b_seq(view_meta_values(orig.subrange(0, k)), g)[j]
                            == walk_meta_value_b(view_meta_values(orig.subrange(0, k))[j], g));
                    } else {
                        assert(lhs[j] == yv);
                    }
                }
                assert(lhs =~= rhs);
            }
        }
    }
    proof {
        assert(orig.subrange(0, orig.len() as int) =~= orig);
    }
    out
}


#[verifier::loop_isolation(false)]
fn walk_meta_entries_vec_b<F: Fn(Block) -> Block>(v: Vec<(String, MetaValue)>, f: &F) -> (r: Vec<(String, MetaValue)>)
    requires
        forall|a: Block| #[trigger] call_requires(*f, (a,)),
    ensures
        forall|g: spec_fn(SpecBlock) -> SpecBlock|
            block_abs(*f, g) ==> view_meta_entries(r@) == #[trigger] walk_meta_entries_b_seq(view_meta_entries(v@), g),
    decreases v, 2int,
{
    let ghost orig = v@;
    let mut rem = v;
    let mut out: Vec<(String, MetaValue)> = Vec::new();
    while rem.len() > 0
        invariant
            out@.len() + rem@.len() == orig.len(),
            rem@ == orig.subrange(out@.len() as int, orig.len() as int),
            forall|g: spec_fn(SpecBlock) -> SpecBlock|
                block_abs(*f, g) ==> view_meta_entries(out@) == #[trigger] walk_meta_entries_b_seq(
                    view_meta_entries(orig.subrange(0, out@.len() as int)),
                    g,
                ),
        decreases rem.len(),
    {
        let ghost k = out@.len() as int;
        let x = rem.remove(0);
        proof {
            assert(x == orig[k]);
            assert(rem@ =~= orig.subrange(k + 1, orig.len() as int));
        }
        let (key, val) = x;
        let ghost keyv = key@;
        let ghost valv = view_meta_value(val);
        let wv2 = val.walk_block(f);
        let ghost w2v = view_meta_value(wv2);
        let y = (key, wv2);
        let ghost yv = (y.0@, view_meta_value(y.1));
        let ghost outpre = out@;
        out.push(y);
        proof {
            assert forall|g: spec_fn(SpecBlock) -> SpecBlock|
                block_abs(*f, g) implies view_meta_entries(out@) == #[trigger] walk_meta_entries_b_seq(
                view_meta_entries(orig.subrange(0, k + 1)),
                g,
            ) by {
                let lhs = view_meta_entries(out@);
                let rhs = walk_meta_entries_b_seq(view_meta_entries(orig.subrange(0, k + 1)), g);
                assert(view_meta_entries(outpre) == walk_meta_entries_b_seq(view_meta_entries(orig.subrange(0, k)), g));

                assert(keyv == orig[k].0@);
                assert(valv == view_meta_value(orig[k].1));
                assert(w2v == walk_meta_value_b(valv, g));
                assert(yv == (keyv, w2v));
                assert(yv == walk_meta_entry_b((orig[k].0@, view_meta_value(orig[k].1)), g));
                assert forall|j: int| 0 <= j < k + 1 implies lhs[j] == rhs[j] by {
                    assert(view_meta_entries(orig.subrange(0, k + 1))[j] == (orig[j].0@, view_meta_value(orig[j].1)));
                    assert(rhs[j] == walk_meta_entry_b((orig[j].0@, view_meta_value(orig[j].1)), g));
                    if j < k {
                        assert(out@[j] == outpre[j]);
                        assert(lhs[j] == (outpre[j].0@, view_meta_value(outpre[j].1)));
                        assert(view_meta_entries(outpre)[j] == (outpre[j].0@, view_meta_value(outpre[j].1)));
                        assert(view_meta_entries(orig.subrange(0, k))[j] == (orig[j].0@, view_meta_value(orig[j].1)));
                        assert(view_meta_entries(outpre)[j] == walk_meta_entries_b_seq(
                            view_meta_entries(orig.subrange(0, k)),
                            g,
                        )[j]);
                        assert(walk_meta_entries_b_seq(view_meta_entries(orig.subrange(0, k)), g)[j]
                            == walk_meta_entry_b(view_meta_entries(orig.subrange(0, k))[j], g));
                    } else {
                        assert(lhs[j] == yv);
                    }
                }
                assert(lhs =~= rhs);
            }
        }
    }
    proof {
        assert(orig.subrange(0, orig.len() as int) =~= orig);
    }
    out
}


#[verifier::loop_isolation(false)]
fn walk_blocks_vec_i<F: Fn(Inline) -> Inline>(v: Vec<Block>, f: &F) -> (r: Vec<Block>)
    requires
        forall|a: Inline| #[trigger] call_requires(*f, (a,)),
    ensures
        forall|g: spec_fn(SpecInline) -> SpecInline|
            inline_abs(*f, g) ==> view_blocks(r@) == #[trigger] walk_blocks_i_seq(view_blocks(v@), g),
    decreases v, 3int,
{
    let ghost orig = v@;
    let mut rem = v;
    let mut out: Vec<Block> = Vec::new();
    while rem.len() > 0
        invariant
            out@.len() + rem@.len() == orig.len(),
            rem@ == orig.subrange(out@.len() as int, orig.len() as int),
            forall|g: spec_fn(SpecInline) -> SpecInline|
                inline_abs(*f, g) ==> view_blocks(out@) == #[trigger] walk_blocks_i_seq(
                    view_blocks(orig.subrange(0, out@.len() as int)),
                    g,
                ),
        decreases rem.len(),
    {
        let ghost k = out@.len() as int;
        let x = rem.remove(0);
        proof {
            assert(x == orig[k]);
            assert(rem@ =~= orig.subrange(k + 1, orig.len() as int));
        }
        let y = x.walk_inline(f);
        let ghost yv = view_block(y);
        let ghost outpre = out@;
        out.push(y);
        proof {
            assert forall|g: spec_fn(SpecInline) -> SpecInline|
                inline_abs(*f, g) implies view_blocks(out@) == #[trigger] walk_blocks_i_seq(
                view_blocks(orig.subrange(0, k + 1)),
                g,
            ) by {
                let lhs = view_blocks(out@);
                let rhs = walk_blocks_i_seq(view_blocks(orig.subrange(0, k + 1)), g);
                assert(view_blocks(outpre) == walk_blocks_i_seq(view_blocks(orig.subrange(0, k)), g));

                assert(yv == walk_block_i(view_block(orig[k]), g));
                assert forall|j: int| 0 <= j < k + 1 implies lhs[j] == rhs[j] by {
                    assert(view_blocks(orig.subrange(0, k + 1))[j] == view_block(orig[j]));
                    assert(rhs[j] == walk_block_i(view_block(orig[j]), g));
                    if j < k {
                        assert(out@[j] == outpre[j]);
                        assert(lhs[j] == view_block(outpre[j]));
                        assert(view_blocks(outpre)[j] == view_block(outpre[j]));
                        assert(view_blocks(orig.subrange(0, k))[j] == view_block(orig[j]));
                        assert(view_blocks(outpre)[j] == walk_blocks_i_seq(
                            view_blocks(orig.subrange(0, k)),
                            g,
                        )[j]);
                        assert(walk_blocks_i_seq(view_blocks(orig.subrange(0, k)), g)[j]
                            == walk_block_i(view_blocks(orig.subrange(0, k))[j], g));
                    } else {
                        assert(lhs[j] == yv);
                    }
                }
                assert(lhs =~= rhs);
            }
        }
    }
    proof {
        assert(orig.subrange(0, orig.len() as int) =~= orig);
    }
    out
}


#[verifier::loop_isolation(false)]
fn walk_blockss_vec_i<F: Fn(Inline) -> Inline>(v: Vec<Vec<Block>>, f: &F) -> (r: Vec<Vec<Block>>)
    requires
        forall|a: Inline| #[trigger] call_requires(*f, (a,)),
    ensures
        forall|g: spec_fn(SpecInline) -> SpecInline|
            inline_abs(*f, g) ==> view_blockss(r@) == #[trigger] walk_blockss_i_seq(view_blockss(v@), g),
    decreases v, 4int,
{
    let ghost orig = v@;
    let mut rem = v;
    let mut out: Vec<Vec<Block>> = Vec::new();
    while rem.len() > 0
        invariant
            out@.len() + rem@.len() == orig.len(),
            rem@ == orig.subrange(out@.len() as int, orig.len() as int),
            forall|g: spec_fn(SpecInline) -> SpecInline|
                inline_abs(*f, g) ==> view_blockss(out@) == #[trigger] walk_blockss_i_seq(
                    view_blockss(orig.subrange(0, out@.len() as int)),
                    g,
                ),
        decreases rem.len(),
    {
        let ghost k = out@.len() as int;
        let x = rem.remove(0);
        proof {
            assert(x == orig[k]);
            assert(rem@ =~= orig.subrange(k + 1, orig.len() as int));
        }
        let y = walk_blocks_vec_i(x, f);
        let ghost yv = view_blocks(y@);
        let ghost outpre = out@;
        out.push(y);
        proof {
            assert forall|g: spec_fn(SpecInline) -> SpecInline|
                inline_abs(*f, g) implies view_blockss(out@) == #[trigger] walk_blockss_i_seq(
                view_blockss(orig.subrange(0, k + 1)),
                g,
            ) by {
                let lhs = view_blockss(out@);
                let rhs = walk_blockss_i_seq(view_blockss(orig.subrange(0, k + 1)), g);
                assert(view_blockss(outpre) == walk_blockss_i_seq(view_blockss(orig.subrange(0, k)), g));

                assert(yv == walk_blocks_i_seq(view_blocks(orig[k]@), g));
                assert forall|j: int| 0 <= j < k + 1 implies lhs[j] == rhs[j] by {
                    assert(view_blockss(orig.subrange(0, k + 1))[j] == view_blocks(orig[j]@));
                    assert(rhs[j] == walk_blocks_i_seq(view_blocks(orig[j]@), g));
                    if j < k {
                        assert(out@[j] == outpre[j]);
                        assert(lhs[j] == view_blocks(outpre[j]@));
                        assert(view_blockss(outpre)[j] == view_blocks(outpre[j]@));
                        assert(view_blockss(orig.subrange(0, k))[j] == view_blocks(orig[j]@));
                        assert(view_blockss(outpre)[j] == walk_blockss_i_seq(
                            view_blockss(orig.subrange(0, k)),
                            g,
                        )[j]);
                        assert(walk_blockss_i_seq(view_blockss(orig.subrange(0, k)), g)[j]
                            == walk_blocks_i_seq(view_blockss(orig.subrange(0, k))[j], g));
                    } else {
                        assert(lhs[j] == yv);
                    }
                }
                assert(lhs =~= rhs);
            }
        }
    }
    proof {
        assert(orig.subrange(0, orig.len() as int) =~= orig);
    }
    out
}


#[verifier::loop_isolation(false)]
fn walk_blocksss_vec_i<F: Fn(Inline) -> Inline>(v: Vec<Vec<Vec<Block>>>, f: &F) -> (r: Vec<Vec<Vec<Block>>>)
    requires
        forall|a: Inline| #[trigger] call_requires(*f, (a,)),
    ensures
        forall|g: spec_fn(SpecInline) -> SpecInline|
            inline_abs(*f, g) ==> view_blocksss(r@) == #[trigger] walk_blocksss_i_seq(view_blocksss(v@), g),
    decreases v, 5int,
{
    let ghost orig = v@;
    let mut rem = v;
    let mut out: Vec<Vec<Vec<Block>>> = Vec::new();
    while rem.len() > 0
        invariant
            out@.len() + rem@.len() == orig.len(),
            rem@ == orig.subrange(out@.len() as int, orig.len() as int),
            forall|g: spec_fn(SpecInline) -> SpecInline|
                inline_abs(*f, g) ==> view_blocksss(out@) == #[trigger] walk_blocksss_i_seq(
                    view_blocksss(orig.subrange(0, out@.len() as int)),
                    g,
                ),
        decreases rem.len(),
    {
        let ghost k = out@.len() as int;
        let x = rem.remove(0);
        proof {
            assert(x == orig[k]);
            assert(rem@ =~= orig.subrange(k + 1, orig.len() as int));
        }
        let y = walk_blockss_vec_i(x, f);
        let ghost yv = view_blockss(y@);
        let ghost outpre = out@;
        out.push(y);
        proof {
            assert forall|g: spec_fn(SpecInline) -> SpecInline|
                inline_abs(*f, g) implies view_blocksss(out@) == #[trigger] walk_blocksss_i_seq(
                view_blocksss(orig.subrange(0, k + 1)),
                g,
            ) by {
                let lhs = view_blocksss(out@);
                let rhs = walk_blocksss_i_seq(view_blocksss(orig.subrange(0, k + 1)), g);
                assert(view_blocksss(outpre) == walk_blocksss_i_seq(view_blocksss(orig.subrange(0, k)), g));

                assert(yv == walk_blockss_i_seq(view_blockss(orig[k]@), g));
                assert forall|j: int| 0 <= j < k + 1 implies lhs[j] == rhs[j] by {
                    assert(view_blocksss(orig.subrange(0, k + 1))[j] == view_blockss(orig[j]@));
                    assert(rhs[j] == walk_blockss_i_seq(view_blockss(orig[j]@), g));
                    if j < k {
                        assert(out@[j] == outpre[j]);
                        assert(lhs[j] == view_blockss(outpre[j]@));
                        assert(view_blocksss(outpre)[j] == view_blockss(outpre[j]@));
                        assert(view_blocksss(orig.subrange(0, k))[j] == view_blockss(orig[j]@));
                        assert(view_blocksss(outpre)[j] == walk_blocksss_i_seq(
                            view_blocksss(orig.subrange(0, k)),
                            g,
                        )[j]);
                        assert(walk_blocksss_i_seq(view_blocksss(orig.subrange(0, k)), g)[j]
                            == walk_blockss_i_seq(view_blocksss(orig.subrange(0, k))[j], g));
                    } else {
                        assert(lhs[j] == yv);
                    }
                }
                assert(lhs =~= rhs);
            }
        }
    }
    proof {
        assert(orig.subrange(0, orig.len() as int) =~= orig);
    }
    out
}


#[verifier::loop_isolation(false)]
fn walk_defitems_vec_i<F: Fn(Inline) -> Inline>(v: Vec<(Vec<Inline>, Vec<Vec<Block>>)>, f: &F) -> (r: Vec<(Vec<Inline>, Vec<Vec<Block>>)>)
    requires
        forall|a: Inline| #[trigger] call_requires(*f, (a,)),
    ensures
        forall|g: spec_fn(SpecInline) -> SpecInline|
            inline_abs(*f, g) ==> view_defitems(r@) == #[trigger] walk_defitems_i_seq(view_defitems(v@), g),
    decreases v, 6int,
{
    let ghost orig = v@;
    let mut rem = v;
    let mut out: Vec<(Vec<Inline>, Vec<Vec<Block>>)> = Vec::new();
    while rem.len() > 0
        invariant
            out@.len() + rem@.len() == orig.len(),
            rem@ == orig.subrange(out@.len() as int, orig.len() as int),
            forall|g: spec_fn(SpecInline) -> SpecInline|
                inline_abs(*f, g) ==> view_defitems(out@) == #[trigger] walk_defitems_i_seq(
                    view_defitems(orig.subrange(0, out@.len() as int)),
                    g,
                ),
        decreases rem.len(),
    {
        let ghost k = out@.len() as int;
        let x = rem.remove(0);
        proof {
            assert(x == orig[k]);
            assert(rem@ =~= orig.subrange(k + 1, orig.len() as int));
        }
        let (term, defs) = x;
        let ghost termv = view_inlines(term@);
        let ghost defsv = view_blockss(defs@);
        let wt = walk_inlines_vec(term, f);
        let ghost wtv = view_inlines(wt@);
        let wd = walk_blockss_vec_i(defs, f);
        let ghost wdv = view_blockss(wd@);
        let y = (wt, wd);
        let ghost yv = (view_inlines(y.0@), view_blockss(y.1@));
        let ghost outpre = out@;
        out.push(y);
        proof {
            assert forall|g: spec_fn(SpecInline) -> SpecInline|
                inline_abs(*f, g) implies view_defitems(out@) == #[trigger] walk_defitems_i_seq(
                view_defitems(orig.subrange(0, k + 1)),
                g,
            ) by {
                let lhs = view_defitems(out@);
                let rhs = walk_defitems_i_seq(view_defitems(orig.subrange(0, k + 1)), g);
                assert(view_defitems(outpre) == walk_defitems_i_seq(view_defitems(orig.subrange(0, k)), g));

                assert(termv == view_inlines(orig[k].0@));
                assert(defsv == view_blockss(orig[k].1@));
                assert(wtv == walk_inline_seq(termv, g));
                assert(wdv == walk_blockss_i_seq(defsv, g));
                assert(yv == (wtv, wdv));
                assert(yv == walk_defitem_i((view_inlines(orig[k].0@), view_blockss(orig[k].1@)), g));
                assert forall|j: int| 0 <= j < k + 1 implies lhs[j] == rhs[j] by {
                    assert(view_defitems(orig.subrange(0, k + 1))[j] == (view_inlines(orig[j].0@), view_blockss(orig[j].1@)));
                    assert(rhs[j] == walk_defitem_i((view_inlines(orig[j].0@), view_blockss(orig[j].1@)), g));
                    if j < k {
                        assert(out@[j] == outpre[j]);
                        assert(lhs[j] == (view_inlines(outpre[j].0@), view_blockss(outpre[j].1@)));
                        assert(view_defitems(outpre)[j] == (view_inlines(outpre[j].0@), view_blockss(outpre[j].1@)));
                        assert(view_defitems(orig.subrange(0, k))[j] == (view_inlines(orig[j].0@), view_blockss(orig[j].1@)));
                        assert(view_defitems(outpre)[j] == walk_defitems_i_seq(
                            view_defitems(orig.subrange(0, k)),
                            g,
                        )[j]);
                        assert(walk_defitems_i_seq(view_defitems(orig.subrange(0, k)), g)[j]
                            == walk_defitem_i(view_defitems(orig.subrange(0, k))[j], g));
                    } else {
                        assert(lhs[j] == yv);
                    }
                }
                assert(lhs =~= rhs);
            }
        }
    }
    proof {
        assert(orig.subrange(0, orig.len() as int) =~= orig);
    }
    out
}


#[verifier::loop_isolation(false)]
fn walk_meta_values_vec_i<F: Fn(Inline) -> Inline>(v: Vec<MetaValue>, f: &F) -> (r: Vec<MetaValue>)
    requires
        forall|a: Inline| #[trigger] call_requires(*f, (a,)),
    ensures
        forall|g: spec_fn(SpecInline) -> SpecInline|
            inline_abs(*f, g) ==> view_meta_values(r@) == #[trigger] walk_meta_values_i_seq(view_meta_values(v@), g),
    decreases v, 1int,
{
    let ghost orig = v@;
    let mut rem = v;
    let mut out: Vec<MetaValue> = Vec::new();
    while rem.len() > 0
        invariant
            out@.len() + rem@.len() == orig.len(),
            rem@ == orig.subrange(out@.len() as int, orig.len() as int),
            forall|g: spec_fn(SpecInline) -> SpecInline|
                inline_abs(*f, g) ==> view_meta_values(out@) == #[trigger] walk_meta_values_i_seq(
                    view_meta_values(orig.subrange(0, out@.len() as int)),
                    g,
                ),
        decreases rem.len(),
    {
        let ghost k = out@.len() as int;
        let x = rem.remove(0);
        proof {
            assert(x == orig[k]);
            assert(rem@ =~= orig.subrange(k + 1, orig.len() as int));
        }
        let y = x.walk_inline(f);
        let ghost yv = view_meta_value(y);
        let ghost outpre = out@;
        out.push(y);
        proof {
            assert forall|g: spec_fn(SpecInline) -> SpecInline|
                inline_abs(*f, g) implies view_meta_values(out@) == #[trigger] walk_meta_values_i_seq(
                view_meta_values(orig.subrange(0, k + 1)),
                g,
            ) by {
                let lhs = view_meta_values(out@);
                let rhs = walk_meta_values_i_seq(view_meta_values(orig.subrange(0, k + 1)), g);
                assert(view_meta_values(outpre) == walk_meta_values_i_seq(view_meta_values(orig.subrange(0, k)), g));

                assert(yv == walk_meta_value_i(view_meta_value(orig[k]), g));
                assert forall|j: int| 0 <= j < k + 1 implies lhs[j] == rhs[j] by {
                    assert(view_meta_values(orig.subrange(0, k + 1))[j] == view_meta_value(orig[j]));
                    assert(rhs[j] == walk_meta_value_i(view_meta_value(orig[j]), g));
                    if j < k {
                        assert(out@[j] == outpre[j]);
                        assert(lhs[j] == view_meta_value(outpre[j]));
                        assert(view_meta_values(outpre)[j] == view_meta_value(outpre[j]));
                        assert(view_meta_values(orig.subrange(0, k))[j] == view_meta_value(orig[j]));
                        assert(view_meta_values(outpre)[j] == walk_meta_values_i_seq(
                            view_meta_values(orig.subrange(0, k)),
                            g,
                        )[j]);
                        assert(walk_meta_values_i_seq(view_meta_values(orig.subrange(0, k)), g)[j]
                            == walk_meta_value_i(view_meta_values(orig.subrange(0, k))[j], g));
                    } else {
                        assert(lhs[j] == yv);
                    }
                }
                assert(lhs =~= rhs);
            }
        }
    }
    proof {
        assert(orig.subrange(0, orig.len() as int) =~= orig);
    }
    out
}


#[verifier::loop_isolation(false)]
fn walk_meta_entries_vec_i<F: Fn(Inline) -> Inline>(v: Vec<(String, MetaValue)>, f: &F) -> (r: Vec<(String, MetaValue)>)
    requires
        forall|a: Inline| #[trigger] call_requires(*f, (a,)),
    ensures
        forall|g: spec_fn(SpecInline) -> SpecInline|
            inline_abs(*f, g) ==> view_meta_entries(r@) == #[trigger] walk_meta_entries_i_seq(view_meta_entries(v@), g),
    decreases v, 2int,
{
    let ghost orig = v@;
    let mut rem = v;
    let mut out: Vec<(String, MetaValue)> = Vec::new();
    while rem.len() > 0
        invariant
            out@.len() + rem@.len() == orig.len(),
            rem@ == orig.subrange(out@.len() as int, orig.len() as int),
            forall|g: spec_fn(SpecInline) -> SpecInline|
                inline_abs(*f, g) ==> view_meta_entries(out@) == #[trigger] walk_meta_entries_i_seq(
                    view_meta_entries(orig.subrange(0, out@.len() as int)),
                    g,
                ),
        decreases rem.len(),
    {
        let ghost k = out@.len() as int;
        let x = rem.remove(0);
        proof {
            assert(x == orig[k]);
            assert(rem@ =~= orig.subrange(k + 1, orig.len() as int));
        }
        let (key, val) = x;
        let ghost keyv = key@;
        let ghost valv = view_meta_value(val);
        let wv2 = val.walk_inline(f);
        let ghost w2v = view_meta_value(wv2);
        let y = (key, wv2);
        let ghost yv = (y.0@, view_meta_value(y.1));
        let ghost outpre = out@;
        out.push(y);
        proof {
            assert forall|g: spec_fn(SpecInline) -> SpecInline|
                inline_abs(*f, g) implies view_meta_entries(out@) == #[trigger] walk_meta_entries_i_seq(
                view_meta_entries(orig.subrange(0, k + 1)),
                g,
            ) by {
                let lhs = view_meta_entries(out@);
                let rhs = walk_meta_entries_i_seq(view_meta_entries(orig.subrange(0, k + 1)), g);
                assert(view_meta_entries(outpre) == walk_meta_entries_i_seq(view_meta_entries(orig.subrange(0, k)), g));

                assert(keyv == orig[k].0@);
                assert(valv == view_meta_value(orig[k].1));
                assert(w2v == walk_meta_value_i(valv, g));
                assert(yv == (keyv, w2v));
                assert(yv == walk_meta_entry_i((orig[k].0@, view_meta_value(orig[k].1)), g));
                assert forall|j: int| 0 <= j < k + 1 implies lhs[j] == rhs[j] by {
                    assert(view_meta_entries(orig.subrange(0, k + 1))[j] == (orig[j].0@, view_meta_value(orig[j].1)));
                    assert(rhs[j] == walk_meta_entry_i((orig[j].0@, view_meta_value(orig[j].1)), g));
                    if j < k {
                        assert(out@[j] == outpre[j]);
                        assert(lhs[j] == (outpre[j].0@, view_meta_value(outpre[j].1)));
                        assert(view_meta_entries(outpre)[j] == (outpre[j].0@, view_meta_value(outpre[j].1)));
                        assert(view_meta_entries(orig.subrange(0, k))[j] == (orig[j].0@, view_meta_value(orig[j].1)));
                        assert(view_meta_entries(outpre)[j] == walk_meta_entries_i_seq(
                            view_meta_entries(orig.subrange(0, k)),
                            g,
                        )[j]);
                        assert(walk_meta_entries_i_seq(view_meta_entries(orig.subrange(0, k)), g)[j]
                            == walk_meta_entry_i(view_meta_entries(orig.subrange(0, k))[j], g));
                    } else {
                        assert(lhs[j] == yv);
                    }
                }
                assert(lhs =~= rhs);
            }
        }
    }
    proof {
        assert(orig.subrange(0, orig.len() as int) =~= orig);
    }
    out
}


#[verifier::loop_isolation(false)]
fn walk_meta_values_vec_m<F: Fn(MetaValue) -> MetaValue>(v: Vec<MetaValue>, f: &F) -> (r: Vec<MetaValue>)
    requires
        forall|a: MetaValue| #[trigger] call_requires(*f, (a,)),
    ensures
        forall|g: spec_fn(SpecMetaValue) -> SpecMetaValue|
            meta_value_abs(*f, g) ==> view_meta_values(r@) == #[trigger] walk_meta_values_m_seq(view_meta_values(v@), g),
    decreases v, 1int,
{
    let ghost orig = v@;
    let mut rem = v;
    let mut out: Vec<MetaValue> = Vec::new();
    while rem.len() > 0
        invariant
            out@.len() + rem@.len() == orig.len(),
            rem@ == orig.subrange(out@.len() as int, orig.len() as int),
            forall|g: spec_fn(SpecMetaValue) -> SpecMetaValue|
                meta_value_abs(*f, g) ==> view_meta_values(out@) == #[trigger] walk_meta_values_m_seq(
                    view_meta_values(orig.subrange(0, out@.len() as int)),
                    g,
                ),
        decreases rem.len(),
    {
        let ghost k = out@.len() as int;
        let x = rem.remove(0);
        proof {
            assert(x == orig[k]);
            assert(rem@ =~= orig.subrange(k + 1, orig.len() as int));
        }
        let y = x.walk_meta_value(f);
        let ghost yv = view_meta_value(y);
        let ghost outpre = out@;
        out.push(y);
        proof {
            assert forall|g: spec_fn(SpecMetaValue) -> SpecMetaValue|
                meta_value_abs(*f, g) implies view_meta_values(out@) == #[trigger] walk_meta_values_m_seq(
                view_meta_values(orig.subrange(0, k + 1)),
                g,
            ) by {
                let lhs = view_meta_values(out@);
                let rhs = walk_meta_values_m_seq(view_meta_values(orig.subrange(0, k + 1)), g);
                assert(view_meta_values(outpre) == walk_meta_values_m_seq(view_meta_values(orig.subrange(0, k)), g));

                assert(yv == walk_meta_value_m(view_meta_value(orig[k]), g));
                assert forall|j: int| 0 <= j < k + 1 implies lhs[j] == rhs[j] by {
                    assert(view_meta_values(orig.subrange(0, k + 1))[j] == view_meta_value(orig[j]));
                    assert(rhs[j] == walk_meta_value_m(view_meta_value(orig[j]), g));
                    if j < k {
                        assert(out@[j] == outpre[j]);
                        assert(lhs[j] == view_meta_value(outpre[j]));
                        assert(view_meta_values(outpre)[j] == view_meta_value(outpre[j]));
                        assert(view_meta_values(orig.subrange(0, k))[j] == view_meta_value(orig[j]));
                        assert(view_meta_values(outpre)[j] == walk_meta_values_m_seq(
                            view_meta_values(orig.subrange(0, k)),
                            g,
                        )[j]);
                        assert(walk_meta_values_m_seq(view_meta_values(orig.subrange(0, k)), g)[j]
                            == walk_meta_value_m(view_meta_values(orig.subrange(0, k))[j], g));
                    } else {
                        assert(lhs[j] == yv);
                    }
                }
                assert(lhs =~= rhs);
            }
        }
    }
    proof {
        assert(orig.subrange(0, orig.len() as int) =~= orig);
    }
    out
}


#[verifier::loop_isolation(false)]
fn walk_meta_entries_vec_m<F: Fn(MetaValue) -> MetaValue>(v: Vec<(String, MetaValue)>, f: &F) -> (r: Vec<(String, MetaValue)>)
    requires
        forall|a: MetaValue| #[trigger] call_requires(*f, (a,)),
    ensures
        forall|g: spec_fn(SpecMetaValue) -> SpecMetaValue|
            meta_value_abs(*f, g) ==> view_meta_entries(r@) == #[trigger] walk_meta_entries_m_seq(view_meta_entries(v@), g),
    decreases v, 2int,
{
    let ghost orig = v@;
    let mut rem = v;
    let mut out: Vec<(String, MetaValue)> = Vec::new();
    while rem.len() > 0
        invariant
            out@.len() + rem@.len() == orig.len(),
            rem@ == orig.subrange(out@.len() as int, orig.len() as int),
            forall|g: spec_fn(SpecMetaValue) -> SpecMetaValue|
                meta_value_abs(*f, g) ==> view_meta_entries(out@) == #[trigger] walk_meta_entries_m_seq(
                    view_meta_entries(orig.subrange(0, out@.len() as int)),
                    g,
                ),
        decreases rem.len(),
    {
        let ghost k = out@.len() as int;
        let x = rem.remove(0);
        proof {
            assert(x == orig[k]);
            assert(rem@ =~= orig.subrange(k + 1, orig.len() as int));
        }
        let (key, val) = x;
        let ghost keyv = key@;
        let ghost valv = view_meta_value(val);
        let wv2 = val.walk_meta_value(f);
        let ghost w2v = view_meta_value(wv2);
        let y = (key, wv2);
        let ghost yv = (y.0@, view_meta_value(y.1));
        let ghost outpre = out@;
        out.push(y);
        proof {
            assert forall|g: spec_fn(SpecMetaValue) -> SpecMetaValue|
                meta_value_abs(*f, g) implies view_meta_entries(out@) == #[trigger] walk_meta_entries_m_seq(
                view_meta_entries(orig.subrange(0, k + 1)),
                g,
            ) by {
                let lhs = view_meta_entries(out@);
                let rhs = walk_meta_entries_m_seq(view_meta_entries(orig.subrange(0, k + 1)), g);
                assert(view_meta_entries(outpre) == walk_meta_entries_m_seq(view_meta_entries(orig.subrange(0, k)), g));

                assert(keyv == orig[k].0@);
                assert(valv == view_meta_value(orig[k].1));
                assert(w2v == walk_meta_value_m(valv, g));
                assert(yv == (keyv, w2v));
                assert(yv == walk_meta_entry_m((orig[k].0@, view_meta_value(orig[k].1)), g));
                assert forall|j: int| 0 <= j < k + 1 implies lhs[j] == rhs[j] by {
                    assert(view_meta_entries(orig.subrange(0, k + 1))[j] == (orig[j].0@, view_meta_value(orig[j].1)));
                    assert(rhs[j] == walk_meta_entry_m((orig[j].0@, view_meta_value(orig[j].1)), g));
                    if j < k {
                        assert(out@[j] == outpre[j]);
                        assert(lhs[j] == (outpre[j].0@, view_meta_value(outpre[j].1)));
                        assert(view_meta_entries(outpre)[j] == (outpre[j].0@, view_meta_value(outpre[j].1)));
                        assert(view_meta_entries(orig.subrange(0, k))[j] == (orig[j].0@, view_meta_value(orig[j].1)));
                        assert(view_meta_entries(outpre)[j] == walk_meta_entries_m_seq(
                            view_meta_entries(orig.subrange(0, k)),
                            g,
                        )[j]);
                        assert(walk_meta_entries_m_seq(view_meta_entries(orig.subrange(0, k)), g)[j]
                            == walk_meta_entry_m(view_meta_entries(orig.subrange(0, k))[j], g));
                    } else {
                        assert(lhs[j] == yv);
                    }
                }
                assert(lhs =~= rhs);
            }
        }
    }
    proof {
        assert(orig.subrange(0, orig.len() as int) =~= orig);
    }
    out
}

/// `g` abstracts a whole-metadata transform `f`.
pub open spec fn meta_abs<F: Fn(Meta) -> Meta>(f: F, g: spec_fn(SpecMeta) -> SpecMeta) -> bool {
    forall|a: Meta, b: Meta| #[trigger] call_ensures(f, (a,), b) ==> view_meta(b) == g(
        view_meta(a),
    )
}

/// `g` abstracts a whole-document transform `f`.
pub open spec fn pandoc_abs<F: Fn(Pandoc) -> Pandoc>(
    f: F,
    g: spec_fn(SpecPandoc) -> SpecPandoc,
) -> bool {
    forall|a: Pandoc, b: Pandoc| #[trigger] call_ensures(f, (a,), b) ==> view_pandoc(b) == g(
        view_pandoc(a),
    )
}

impl Meta {
    /// Applies `f` to every block node inside the metadata values.
    pub fn walk_block<F: Fn(Block) -> Block>(self, f: &F) -> (r: Meta)
        requires
            forall|a: Block| #[trigger] call_requires(*f, (a,)),
        ensures
            forall|g: spec_fn(SpecBlock) -> SpecBlock|
                block_abs(*f, g) ==> view_meta(r) == #[trigger] walk_meta_b(view_meta(self), g),
    {
        let ghost orig = view_meta(self);
        let Meta { un_meta } = self;
        let ghost ev = view_meta_entries(un_meta@);
        let w = walk_meta_entries_vec_b(un_meta, f);
        let ghost wv = view_meta_entries(w@);
        let r = Meta { un_meta: w };
        proof {
            assert forall|g: spec_fn(SpecBlock) -> SpecBlock|
                block_abs(*f, g) implies view_meta(r) == #[trigger] walk_meta_b(orig, g) by {
                assert(orig.un_meta == ev);
                assert(wv == walk_meta_entries_b_seq(ev, g));
                assert(view_meta(r) == SpecMeta { un_meta: wv });
            }
        }
        r
    }

    /// Applies `f` to every inline node inside the metadata values.
    pub fn walk_inline<F: Fn(Inline) -> Inline>(self, f: &F) -> (r: Meta)
        requires
            forall|a: Inline| #[trigger] call_requires(*f, (a,)),
        ensures
            forall|g: spec_fn(SpecInline) -> SpecInline|
                inline_abs(*f, g) ==> view_meta(r) == #[trigger] walk_meta_i(view_meta(self), g),
    {
        let ghost orig = view_meta(self);
        let Meta { un_meta } = self;
        let ghost ev = view_meta_entries(un_meta@);
        let w = walk_meta_entries_vec_i(un_meta, f);
        let ghost wv = view_meta_entries(w@);
        let r = Meta { un_meta: w };
        proof {
            assert forall|g: spec_fn(SpecInline) -> SpecInline|
                inline_abs(*f, g) implies view_meta(r) == #[trigger] walk_meta_i(orig, g) by {
                assert(orig.un_meta == ev);
                assert(wv == walk_meta_entries_i_seq(ev, g));
                assert(view_meta(r) == SpecMeta { un_meta: wv });
            }
        }
        r
    }

    /// The degenerate metadata walk: applies `f` once to the whole
    /// metadata mapping.
    pub fn walk_meta<F: Fn(Meta) -> Meta>(self, f: &F) -> (r: Meta)
        requires
            forall|a: Meta| #[trigger] call_requires(*f, (a,)),
        ensures
            forall|g: spec_fn(SpecMeta) -> SpecMeta|
                meta_abs(*f, g) ==> view_meta(r) == #[trigger] g(view_meta(self)),
    {
        let ghost orig = view_meta(self);
        let r = (f)(self);
        proof {
            assert forall|g: spec_fn(SpecMeta) -> SpecMeta|
                meta_abs(*f, g) implies view_meta(r) == #[trigger] g(orig) by {}
        }
        r
    }
}

impl Pandoc {
    /// Applies `f` to every block node of the document, metadata
    /// included, bottom up.
    pub fn walk_block<F: Fn(Block) -> Block>(self, f: &F) -> (r: Pandoc)
        requires
            forall|a: Block| #[trigger] call_requires(*f, (a,)),
        ensures
            forall|g: spec_fn(SpecBlock) -> SpecBlock|
                block_abs(*f, g) ==> view_pandoc(r) == #[trigger] walk_pandoc_b(
                    view_pandoc(self),
                    g,
                ),
    {
        let ghost orig = view_pandoc(self);
        let Pandoc { meta, blocks } = self;
        let ghost mv = view_meta(meta);
        let ghost bv = view_blocks(blocks@);
        let wm = meta.walk_block(f);
        let wb = walk_blocks_vec_b(blocks, f);
        let ghost wmv = view_meta(wm);
        let ghost wbv = view_blocks(wb@);
        let r = Pandoc { meta: wm, blocks: wb };
        proof {
            assert forall|g: spec_fn(SpecBlock) -> SpecBlock|
                block_abs(*f, g) implies view_pandoc(r) == #[trigger] walk_pandoc_b(orig, g) by {
                assert(orig.meta == mv && orig.blocks == bv);
                assert(wmv == walk_meta_b(mv, g));
                assert(wbv == walk_block_seq(bv, g));
                assert(view_pandoc(r) == SpecPandoc { meta: wmv, blocks: wbv });
            }
        }
        r
    }

    /// Applies `f` to every inline node of the document, metadata
    /// included, bottom up.
    pub fn walk_inline<F: Fn(Inline) -> Inline>(self, f: &F) -> (r: Pandoc)
        requires
            forall|a: Inline| #[trigger] call_requires(*f, (a,)),
        ensures
            forall|g: spec_fn(SpecInline) -> SpecInline|
                inline_abs(*f, g) ==> view_pandoc(r) == #[trigger] walk_pandoc_i(
                    view_pandoc(self),
                    g,
                ),
    {
        let ghost orig = view_pandoc(self);
        let Pandoc { meta, blocks } = self;
        let ghost mv = view_meta(meta);
        let ghost bv = view_blocks(blocks@);
        let wm = meta.walk_inline(f);
        let wb = walk_blocks_vec_i(blocks, f);
        let ghost wmv = view_meta(wm);
        let ghost wbv = view_blocks(wb@);
        let r = Pandoc { meta: wm, blocks: wb };
        proof {
            assert forall|g: spec_fn(SpecInline) -> SpecInline|
                inline_abs(*f, g) implies view_pandoc(r) == #[trigger] walk_pandoc_i(orig, g) by {
                assert(orig.meta == mv && orig.blocks == bv);
                assert(wmv == walk_meta_i(mv, g));
                assert(wbv == walk_blocks_i_seq(bv, g));
                assert(view_pandoc(r) == SpecPandoc { meta: wmv, blocks: wbv });
            }
        }
        r
    }

    /// The degenerate document walk: applies `f` once to the whole
    /// document.
    pub fn walk_document<F: Fn(Pandoc) -> Pandoc>(self, f: &F) -> (r: Pandoc)
        requires
            forall|a: Pandoc| #[trigger] call_requires(*f, (a,)),
        ensures
            forall|g: spec_fn(SpecPandoc) -> SpecPandoc|
                pandoc_abs(*f, g) ==> view_pandoc(r) == #[trigger] g(view_pandoc(self)),
    {
        let ghost orig = view_pandoc(self);
        let r = (f)(self);
        proof {
            assert forall|g: spec_fn(SpecPandoc) -> SpecPandoc|
                pandoc_abs(*f, g) implies view_pandoc(r) == #[trigger] g(orig) by {}
        }
        r
    }
}


/// The generic walk interface of the library: one implementation per
/// (container, target-kind) pair. The per-kind inherent methods carry the
/// exact contracts; this trait only promises that a walk never panics
/// when the transform accepts every node.
pub trait Walkable<T>: Sized {
    fn walk<F: Fn(T) -> T>(self, f: &F) -> Self
        requires
            forall|a: T| #[trigger] call_requires(*f, (a,)),
    ;
}

impl Walkable<Inline> for Inline {
    fn walk<F: Fn(Inline) -> Inline>(self, f: &F) -> Self {
        self.walk_inline(f)
    }
}

impl Walkable<Inline> for Citation {
    fn walk<F: Fn(Inline) -> Inline>(self, f: &F) -> Self {
        self.walk_inline(f)
    }
}

impl Walkable<Inline> for Block {
    fn walk<F: Fn(Inline) -> Inline>(self, f: &F) -> Self {
        self.walk_inline(f)
    }
}

impl Walkable<Block> for Block {
    fn walk<F: Fn(Block) -> Block>(self, f: &F) -> Self {
        self.walk_block(f)
    }
}

impl Walkable<Inline> for MetaValue {
    fn walk<F: Fn(Inline) -> Inline>(self, f: &F) -> Self {
        self.walk_inline(f)
    }
}

impl Walkable<Block> for MetaValue {
    fn walk<F: Fn(Block) -> Block>(self, f: &F) -> Self {
        self.walk_block(f)
    }
}

impl Walkable<MetaValue> for MetaValue {
    fn walk<F: Fn(MetaValue) -> MetaValue>(self, f: &F) -> Self {
        self.walk_meta_value(f)
    }
}

impl Walkable<Inline> for Meta {
    fn walk<F: Fn(Inline) -> Inline>(self, f: &F) -> Self {
        self.walk_inline(f)
    }
}

impl Walkable<Block> for Meta {
    fn walk<F: Fn(Block) -> Block>(self, f: &F) -> Self {
        self.walk_block(f)
    }
}

impl Walkable<Meta> for Meta {
    fn walk<F: Fn(Meta) -> Meta>(self, f: &F) -> Self {
        self.walk_meta(f)
    }
}

impl Walkable<Inline> for Pandoc {
    fn walk<F: Fn(Inline) -> Inline>(self, f: &F) -> Self {
        self.walk_inline(f)
    }
}

impl Walkable<Block> for Pandoc {
    fn walk<F: Fn(Block) -> Block>(self, f: &F) -> Self {
        self.walk_block(f)
    }
}

impl Walkable<Pandoc> for Pandoc {
    fn walk<F: Fn(Pandoc) -> Pandoc>(self, f: &F) -> Self {
        self.walk_document(f)
    }
}

} // verus!
