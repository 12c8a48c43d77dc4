//! The text-level filter pipeline, and conversion between the two tagged
//! object shapes: the single-key form the codec reads and writes, and the
//! `t`/`c` form some converters produce, where a tagged value is an object
//! with the tag under `t` and the payload under `c`.
//!
//! Parsing JSON text is delegated to serde_json behind a trusted wrapper;
//! everything after the parse — conversion, decoding, walking, encoding
//! and writing — is verified against the parsed value.

use vstd::prelude::*;

use crate::decode::{dec_pandoc, r_pandoc, DecodeError};
use crate::encode::enc_pandoc;
use crate::model::{view_pandoc, SpecBlock, SpecInline, SpecPandoc};
use crate::strutil::str_is;
use crate::types::{Block, Inline, Pandoc};
use crate::value::{view_pairs, view_value, view_values, SpecValue, WireValue};
use crate::walk::{block_abs, inline_abs, pandoc_abs, walk_pandoc_b, walk_pandoc_i};
use crate::write::{write_json, write_value};

verus! {

/// Conversion from the `t`/`c` form to the single-key form. The metadata
/// wrapper keeps its `unMeta` key and has only its entry values
/// converted; an object with exactly the keys `t` (a tag string) and `c`
/// becomes the single-key object; any other object keeps its keys and has
/// its values converted.
pub open spec fn from_pandoc_val(v: SpecValue) -> Result<SpecValue, DecodeError>
    decreases v, 1int,
{
    match v {
        SpecValue::Obj(pairs) => if pairs.len() == 1 && pairs[0].0 == "unMeta"@ {
            match pairs[0].1 {
                SpecValue::Obj(inner) => match from_entries(inner) {
                    Ok(es) => Ok(
                        SpecValue::Obj(seq![("unMeta"@, SpecValue::Obj(es))]),
                    ),
                    Err(e) => Err(e),
                },
                _ => Err(DecodeError::TypeMismatch),
            }
        } else if pairs.len() == 2 && pairs[0].0 == "t"@ && pairs[1].0 == "c"@ {
            match pairs[0].1 {
                SpecValue::Text(tag) => match from_pandoc_val(pairs[1].1) {
                    Ok(c) => Ok(SpecValue::Obj(seq![(tag, c)])),
                    Err(e) => Err(e),
                },
                _ => Err(DecodeError::TypeMismatch),
            }
        } else if pairs.len() == 2 && pairs[0].0 == "c"@ && pairs[1].0 == "t"@ {
            match pairs[1].1 {
                SpecValue::Text(tag) => match from_pandoc_val(pairs[0].1) {
                    Ok(c) => Ok(SpecValue::Obj(seq![(tag, c)])),
                    Err(e) => Err(e),
                },
                _ => Err(DecodeError::TypeMismatch),
            }
        } else {
            match from_entries(pairs) {
                Ok(es) => Ok(SpecValue::Obj(es)),
                Err(e) => Err(e),
            }
        },
        SpecValue::Arr(items) => match from_vals(items) {
            Ok(vs) => Ok(SpecValue::Arr(vs)),
            Err(e) => Err(e),
        },
        _ => Ok(v),
    }
}

pub open spec fn from_vals(s: Seq<SpecValue>) -> Result<Seq<SpecValue>, DecodeError>
    decreases s, 0int,
{
    if s.len() == 0 {
        Ok(Seq::empty())
    } else {
        match from_vals(s.drop_last()) {
            Ok(rest) => match from_pandoc_val(s.last()) {
                Ok(v) => Ok(rest.push(v)),
                Err(e) => Err(e),
            },
            Err(e) => Err(e),
        }
    }
}

pub open spec fn from_entries(s: Seq<(Seq<char>, SpecValue)>) -> Result<
    Seq<(Seq<char>, SpecValue)>,
    DecodeError,
>
    decreases s, 0int,
{
    if s.len() == 0 {
        Ok(Seq::empty())
    } else {
        match from_entries(s.drop_last()) {
            Ok(rest) => match from_pandoc_val(s.last().1) {
                Ok(v) => Ok(rest.push((s.last().0, v))),
                Err(e) => Err(e),
            },
            Err(e) => Err(e),
        }
    }
}

/// Conversion from the single-key form back to the `t`/`c` form: the
/// inverse direction, total. The metadata wrapper keeps its `unMeta` key;
/// a single-key object becomes `{"c": payload, "t": tag}`; any other
/// object keeps its keys and has its values converted.
pub open spec fn to_pandoc_val(v: SpecValue) -> SpecValue
    decreases v, 1int,
{
    match v {
        SpecValue::Obj(pairs) => if pairs.len() == 1 && pairs[0].0 == "unMeta"@ {
            match pairs[0].1 {
                SpecValue::Obj(inner) => SpecValue::Obj(
                    seq![("unMeta"@, SpecValue::Obj(to_entries(inner)))],
                ),
                _ => SpecValue::Obj(seq![("unMeta"@, to_pandoc_val(pairs[0].1))]),
            }
        } else if pairs.len() == 1 {
            SpecValue::Obj(
                seq![
                    ("c"@, to_pandoc_val(pairs[0].1)),
                    ("t"@, SpecValue::Text(pairs[0].0)),
                ],
            )
        } else {
            SpecValue::Obj(to_entries(pairs))
        },
        SpecValue::Arr(items) => SpecValue::Arr(to_vals(items)),
        _ => v,
    }
}

pub open spec fn to_vals(s: Seq<SpecValue>) -> Seq<SpecValue>
    decreases s, 0int,
{
    Seq::new(s.len(), |i: int| if 0 <= i < s.len() { to_pandoc_val(s[i]) } else { SpecValue::Null })
}

pub open spec fn to_entries(s: Seq<(Seq<char>, SpecValue)>) -> Seq<(Seq<char>, SpecValue)>
    decreases s, 0int,
{
    Seq::new(
        s.len(),
        |i: int|
            if 0 <= i < s.len() {
                (s[i].0, to_pandoc_val(s[i].1))
            } else {
                (Seq::<char>::empty(), SpecValue::Null)
            },
    )
}

pub open spec fn r_value(r: Result<WireValue, DecodeError>) -> Result<SpecValue, DecodeError> {
    match r {
        Ok(v) => Ok(view_value(v)),
        Err(e) => Err(e),
    }
}

/// Converts a value in the `t`/`c` form to the single-key form.
pub fn from_pandoc(v: &WireValue) -> (r: Result<WireValue, DecodeError>)
    ensures
        r_value(r) == from_pandoc_val(view_value(*v)),
    decreases v, 1int,
{
    match v {
        WireValue::Obj(pairs) => {
            proof {
                assert(view_value(*v) == SpecValue::Obj(view_pairs(pairs@)));
            }
            if pairs.len() == 1 {
                proof {
                    assert(view_pairs(pairs@)[0] == (pairs@[0].0@, view_value(pairs@[0].1)));
                }
                if str_is(&pairs[0].0, "unMeta") {
                    let inner = &pairs[0].1;
                    proof {
                        assert(*inner == pairs@[0].1);
                    }
                    match inner {
                        WireValue::Obj(entries) => {
                            proof {
                                assert(view_value(pairs@[0].1) == SpecValue::Obj(
                                    view_pairs(entries@),
                                ));
                            }
                            let r0 = from_entries_exec(entries, entries.len());
                            proof {
                                assert(view_pairs(entries@).subrange(0, entries@.len() as int)
                                    =~= view_pairs(entries@));
                            }
                            match r0 {
                                Ok(es) => {
                                    let mut wrap: Vec<(String, WireValue)> = Vec::new();
                                    wrap.push((pairs[0].0.clone(), WireValue::Obj(es)));
                                    let out = WireValue::Obj(wrap);
                                    proof {
                                        assert(view_pairs(wrap@) =~= seq![
                                            ("unMeta"@, view_value(wrap@[0].1)),
                                        ]);
                                    }
                                    return Ok(out);
                                },
                                Err(e) => {
                                    return Err(e);
                                },
                            }
                        },
                        _ => {
                            return Err(DecodeError::TypeMismatch);
                        },
                    }
                }
            }
            if pairs.len() == 2 {
                proof {
                    assert(view_pairs(pairs@)[0] == (pairs@[0].0@, view_value(pairs@[0].1)));
                    assert(view_pairs(pairs@)[1] == (pairs@[1].0@, view_value(pairs@[1].1)));
                }
                let tc = str_is(&pairs[0].0, "t") && str_is(&pairs[1].0, "c");
                let ct = str_is(&pairs[0].0, "c") && str_is(&pairs[1].0, "t");
                if tc || ct {
                    let ti: usize = if tc {
                        0
                    } else {
                        1
                    };
                    let ci: usize = if tc {
                        1
                    } else {
                        0
                    };
                    let tv = &pairs[ti].1;
                    proof {
                        assert(*tv == pairs@[ti as int].1);
                    }
                    match tv {
                        WireValue::Text(tag) => {
                            proof {
                                assert(view_value(pairs@[ti as int].1) == SpecValue::Text(tag@));
                            }
                            match from_pandoc(&pairs[ci].1) {
                                Ok(c) => {
                                    let ghost cv = view_value(c);
                                    let mut one: Vec<(String, WireValue)> = Vec::new();
                                    one.push((tag.clone(), c));
                                    let out = WireValue::Obj(one);
                                    proof {
                                        assert(view_pairs(one@) =~= seq![(tag@, cv)]);
                                    }
                                    return Ok(out);
                                },
                                Err(e) => {
                                    return Err(e);
                                },
                            }
                        },
                        _ => {
                            return Err(DecodeError::TypeMismatch);
                        },
                    }
                }
            }
            let r0 = from_entries_exec(pairs, pairs.len());
            proof {
                assert(view_pairs(pairs@).subrange(0, pairs@.len() as int) =~= view_pairs(
                    pairs@,
                ));
            }
            match r0 {
                Ok(es) => Ok(WireValue::Obj(es)),
                Err(e) => Err(e),
            }
        },
        WireValue::Arr(items) => {
            proof {
                assert(view_value(*v) == SpecValue::Arr(view_values(items@)));
            }
            let r0 = from_vals_exec(items, items.len());
            proof {
                assert(view_values(items@).subrange(0, items@.len() as int) =~= view_values(
                    items@,
                ));
            }
            match r0 {
                Ok(vs) => Ok(WireValue::Arr(vs)),
                Err(e) => Err(e),
            }
        },
        WireValue::Null => Ok(WireValue::Null),
        WireValue::Bool(b) => Ok(WireValue::Bool(*b)),
        WireValue::Num(s) => Ok(WireValue::Num(s.clone())),
        WireValue::Text(s) => Ok(WireValue::Text(s.clone())),
    }
}

fn from_vals_exec(items: &Vec<WireValue>, n: usize) -> (r: Result<Vec<WireValue>, DecodeError>)
    requires
        n <= items.len(),
    ensures
        (match r {
            Ok(vs) => from_vals(view_values(items@).subrange(0, n as int)) == Ok::<
                Seq<SpecValue>,
                DecodeError,
            >(view_values(vs@)),
            Err(e) => from_vals(view_values(items@).subrange(0, n as int)) == Err::<
                Seq<SpecValue>,
                DecodeError,
            >(e),
        }),
    decreases items@, n, 0int,
{
    let ghost s = view_values(items@).subrange(0, n as int);
    if n == 0 {
        let out: Vec<WireValue> = Vec::new();
        proof {
            assert(s =~= Seq::<SpecValue>::empty());
            assert(view_values(out@) =~= Seq::<SpecValue>::empty());
        }
        Ok(out)
    } else {
        proof {
            assert(s.drop_last() =~= view_values(items@).subrange(0, n as int - 1));
            assert(s.last() == view_value(items@[n as int - 1]));
        }
        match from_vals_exec(items, n - 1) {
            Ok(mut rest) => match from_pandoc(&items[n - 1]) {
                Ok(x) => {
                    let ghost restv = view_values(rest@);
                    let ghost xv = view_value(x);
                    rest.push(x);
                    proof {
                        assert(view_values(rest@) =~= restv.push(xv));
                    }
                    Ok(rest)
                },
                Err(e) => Err(e),
            },
            Err(e) => Err(e),
        }
    }
}

fn from_entries_exec(pairs: &Vec<(String, WireValue)>, n: usize) -> (r: Result<
    Vec<(String, WireValue)>,
    DecodeError,
>)
    requires
        n <= pairs.len(),
    ensures
        (match r {
            Ok(es) => from_entries(view_pairs(pairs@).subrange(0, n as int)) == Ok::<
                Seq<(Seq<char>, SpecValue)>,
                DecodeError,
            >(view_pairs(es@)),
            Err(e) => from_entries(view_pairs(pairs@).subrange(0, n as int)) == Err::<
                Seq<(Seq<char>, SpecValue)>,
                DecodeError,
            >(e),
        }),
    decreases pairs@, n, 0int,
{
    let ghost s = view_pairs(pairs@).subrange(0, n as int);
    if n == 0 {
        let out: Vec<(String, WireValue)> = Vec::new();
        proof {
            assert(s =~= Seq::<(Seq<char>, SpecValue)>::empty());
            assert(view_pairs(out@) =~= Seq::<(Seq<char>, SpecValue)>::empty());
        }
        Ok(out)
    } else {
        proof {
            assert(s.drop_last() =~= view_pairs(pairs@).subrange(0, n as int - 1));
            assert(s.last() == (pairs@[n as int - 1].0@, view_value(pairs@[n as int - 1].1)));
        }
        match from_entries_exec(pairs, n - 1) {
            Ok(mut rest) => match from_pandoc(&pairs[n - 1].1) {
                Ok(x) => {
                    let ghost restv = view_pairs(rest@);
                    let ghost xv = view_value(x);
                    let key = pairs[n - 1].0.clone();
                    let ghost keyv = key@;
                    rest.push((key, x));
                    proof {
                        assert(view_pairs(rest@) =~= restv.push((keyv, xv)));
                    }
                    Ok(rest)
                },
                Err(e) => Err(e),
            },
            Err(e) => Err(e),
        }
    }
}

/// Converts a value in the single-key form back to the `t`/`c` form.
pub fn to_pandoc(v: &WireValue) -> (r: WireValue)
    ensures
        view_value(r) == to_pandoc_val(view_value(*v)),
    decreases v, 1int,
{
    match v {
        WireValue::Obj(pairs) => {
            proof {
                assert(view_value(*v) == SpecValue::Obj(view_pairs(pairs@)));
            }
            if pairs.len() == 1 {
                proof {
                    assert(view_pairs(pairs@)[0] == (pairs@[0].0@, view_value(pairs@[0].1)));
                }
                if str_is(&pairs[0].0, "unMeta") {
                    let inner = &pairs[0].1;
                    proof {
                        assert(*inner == pairs@[0].1);
                    }
                    match inner {
                        WireValue::Obj(entries) => {
                            proof {
                                assert(view_value(pairs@[0].1) == SpecValue::Obj(
                                    view_pairs(entries@),
                                ));
                            }
                            let es = to_entries_exec(entries, entries.len());
                            proof {
                                assert(view_pairs(entries@).subrange(0, entries@.len() as int)
                                    =~= view_pairs(entries@));
                            }
                            let mut wrap: Vec<(String, WireValue)> = Vec::new();
                            wrap.push((pairs[0].0.clone(), WireValue::Obj(es)));
                            let out = WireValue::Obj(wrap);
                            proof {
                                assert(view_pairs(wrap@) =~= seq![
                                    ("unMeta"@, view_value(wrap@[0].1)),
                                ]);
                            }
                            return out;
                        },
                        _ => {
                            let c = to_pandoc(&pairs[0].1);
                            let ghost cv = view_value(c);
                            let mut wrap: Vec<(String, WireValue)> = Vec::new();
                            wrap.push((pairs[0].0.clone(), c));
                            let out = WireValue::Obj(wrap);
                            proof {
                                assert(view_pairs(wrap@) =~= seq![("unMeta"@, cv)]);
                            }
                            return out;
                        },
                    }
                }
                let c = to_pandoc(&pairs[0].1);
                let ghost cv = view_value(c);
                let mut two: Vec<(String, WireValue)> = Vec::new();
                two.push(("c".to_owned(), c));
                two.push(("t".to_owned(), WireValue::Text(pairs[0].0.clone())));
                let out = WireValue::Obj(two);
                proof {
                    assert(view_pairs(two@) =~= seq![
                        ("c"@, cv),
                        ("t"@, SpecValue::Text(pairs@[0].0@)),
                    ]);
                }
                return out;
            }
            let es = to_entries_exec(pairs, pairs.len());
            proof {
                assert(view_pairs(pairs@).subrange(0, pairs@.len() as int) =~= view_pairs(
                    pairs@,
                ));
            }
            WireValue::Obj(es)
        },
        WireValue::Arr(items) => {
            proof {
                assert(view_value(*v) == SpecValue::Arr(view_values(items@)));
            }
            let vs = to_vals_exec(items, items.len());
            proof {
                assert(view_values(items@).subrange(0, items@.len() as int) =~= view_values(
                    items@,
                ));
            }
            WireValue::Arr(vs)
        },
        WireValue::Null => WireValue::Null,
        WireValue::Bool(b) => WireValue::Bool(*b),
        WireValue::Num(s) => WireValue::Num(s.clone()),
        WireValue::Text(s) => WireValue::Text(s.clone()),
    }
}

fn to_vals_exec(items: &Vec<WireValue>, n: usize) -> (r: Vec<WireValue>)
    requires
        n <= items.len(),
    ensures
        view_values(r@) == to_vals(view_values(items@).subrange(0, n as int)),
    decreases items@, n, 0int,
{
    let ghost s = view_values(items@).subrange(0, n as int);
    if n == 0 {
        let out: Vec<WireValue> = Vec::new();
        proof {
            assert(s =~= Seq::<SpecValue>::empty());
            assert(view_values(out@) =~= to_vals(s));
        }
        out
    } else {
        proof {
            assert(s.drop_last() =~= view_values(items@).subrange(0, n as int - 1));
            assert(s.last() == view_value(items@[n as int - 1]));
        }
        let mut rest = to_vals_exec(items, n - 1);
        let x = to_pandoc(&items[n - 1]);
        let ghost restv = view_values(rest@);
        let ghost xv = view_value(x);
        rest.push(x);
        proof {
            assert(view_values(rest@) =~= restv.push(xv));
            assert(view_values(rest@) =~= to_vals(s)) by {
                let pre = view_values(items@).subrange(0, n as int - 1);
                assert(restv == to_vals(pre));
                assert forall|j: int| 0 <= j < n implies view_values(rest@)[j] == to_vals(
                    s,
                )[j] by {
                    assert(to_vals(s)[j] == to_pandoc_val(s[j]));
                    if j < n - 1 {
                        assert(pre[j] == s[j]);
                        assert(view_values(rest@)[j] == restv[j]);
                        assert(restv[j] == to_vals(pre)[j]);
                        assert(to_vals(pre)[j] == to_pandoc_val(pre[j]));
                    } else {
                        assert(view_values(rest@)[j] == xv);
                        assert(xv == to_pandoc_val(s.last()));
                    }
                }
            }
        }
        rest
    }
}

fn to_entries_exec(pairs: &Vec<(String, WireValue)>, n: usize) -> (r: Vec<(String, WireValue)>)
    requires
        n <= pairs.len(),
    ensures
        view_pairs(r@) == to_entries(view_pairs(pairs@).subrange(0, n as int)),
    decreases pairs@, n, 0int,
{
    let ghost s = view_pairs(pairs@).subrange(0, n as int);
    if n == 0 {
        let out: Vec<(String, WireValue)> = Vec::new();
        proof {
            assert(s =~= Seq::<(Seq<char>, SpecValue)>::empty());
            assert(view_pairs(out@) =~= to_entries(s));
        }
        out
    } else {
        proof {
            assert(s.drop_last() =~= view_pairs(pairs@).subrange(0, n as int - 1));
            assert(s.last() == (pairs@[n as int - 1].0@, view_value(pairs@[n as int - 1].1)));
        }
        let mut rest = to_entries_exec(pairs, n - 1);
        let x = to_pandoc(&pairs[n - 1].1);
        let key = pairs[n - 1].0.clone();
        let ghost restv = view_pairs(rest@);
        let ghost xv = view_value(x);
        let ghost keyv = key@;
        rest.push((key, x));
        proof {
            assert(view_pairs(rest@) =~= restv.push((keyv, xv)));
            assert(view_pairs(rest@) =~= to_entries(s)) by {
                let pre = view_pairs(pairs@).subrange(0, n as int - 1);
                assert(restv == to_entries(pre));
                assert forall|j: int| 0 <= j < n implies view_pairs(rest@)[j] == to_entries(
                    s,
                )[j] by {
                    assert(to_entries(s)[j] == (s[j].0, to_pandoc_val(s[j].1)));
                    if j < n - 1 {
                        assert(pre[j] == s[j]);
                        assert(view_pairs(rest@)[j] == restv[j]);
                        assert(restv[j] == to_entries(pre)[j]);
                        assert(to_entries(pre)[j] == (pre[j].0, to_pandoc_val(pre[j].1)));
                    } else {
                        assert(view_pairs(rest@)[j] == (keyv, xv));
                        assert(keyv == s.last().0);
                        assert(xv == to_pandoc_val(s.last().1));
                    }
                }
            }
        }
        rest
    }
}

/// Declares serde_json's value type so that the trusted conversion below
/// can take it; the library never looks inside such a value.
#[verifier::external_type_specification]
#[verifier::external_body]
pub struct ExSerdeValue(serde_json::Value);

/// Relies on the variants of serde_json::Value: each is carried over one
/// for one — null, booleans and strings directly, numbers as their
/// decimal text, arrays and objects element by element. Nothing is
/// assumed of the result.
#[verifier::external_body]
fn value_from_serde(v: serde_json::Value) -> WireValue {
    match v {
        serde_json::Value::Null => WireValue::Null,
        serde_json::Value::Bool(b) => WireValue::Bool(b),
        serde_json::Value::Number(n) => WireValue::Num(n.to_string()),
        serde_json::Value::String(s) => WireValue::Text(s),
        serde_json::Value::Array(a) => WireValue::Arr(a.into_iter().map(value_from_serde).collect()),
        serde_json::Value::Object(m) => WireValue::Obj(
            m.into_iter().map(|(k, x)| (k, value_from_serde(x))).collect(),
        ),
    }
}

/// The name of the parse result: what serde_json's from_str yields for
/// given text, carried over into the library's wire value. The parse
/// depends on the text alone — from_str is deterministic and its objects
/// iterate in sorted key order — so the result is a function of the text
/// in every process and on every machine.
pub uninterp spec fn parse_of(s: Seq<char>) -> Option<SpecValue>;

/// Relies on serde_json::from_str: parses JSON text, `None` exactly when
/// the text is not valid JSON. The result is named `parse_of`; nothing
/// more is assumed of the parsed value — decoding validates it
/// afterwards.
#[verifier::external_body]
fn parse_json(s: &str) -> (r: Option<WireValue>)
    ensures
        (match r {
            Some(v) => parse_of(s@) == Some(view_value(v)),
            None => parse_of(s@) is None,
        }),
{
    serde_json::from_str::<serde_json::Value>(s).ok().map(value_from_serde)
}

/// The value-level filter pipeline for a block transform under `g`:
/// convert from the `t`/`c` form, decode, walk, encode, convert back.
pub open spec fn spec_filter_block(v: SpecValue, g: spec_fn(SpecBlock) -> SpecBlock) -> Result<
    SpecValue,
    DecodeError,
> {
    match from_pandoc_val(v) {
        Ok(w) => match dec_pandoc(w) {
            Ok(d) => Ok(to_pandoc_val(enc_pandoc(walk_pandoc_b(d, g)))),
            Err(e) => Err(e),
        },
        Err(e) => Err(e),
    }
}

/// The value-level filter pipeline for an inline transform under `g`.
pub open spec fn spec_filter_inline(v: SpecValue, g: spec_fn(SpecInline) -> SpecInline) -> Result<
    SpecValue,
    DecodeError,
> {
    match from_pandoc_val(v) {
        Ok(w) => match dec_pandoc(w) {
            Ok(d) => Ok(to_pandoc_val(enc_pandoc(walk_pandoc_i(d, g)))),
            Err(e) => Err(e),
        },
        Err(e) => Err(e),
    }
}

/// The value-level filter pipeline for a whole-document transform under
/// `g`: the degenerate walk applies `g` once to the decoded document.
pub open spec fn spec_filter_document(
    v: SpecValue,
    g: spec_fn(SpecPandoc) -> SpecPandoc,
) -> Result<SpecValue, DecodeError> {
    match from_pandoc_val(v) {
        Ok(w) => match dec_pandoc(w) {
            Ok(d) => Ok(to_pandoc_val(enc_pandoc(g(d)))),
            Err(e) => Err(e),
        },
        Err(e) => Err(e),
    }
}

/// Relates a value-level pipeline result to a text-level one: success
/// writes exactly the resulting value, and failure carries the same
/// error.
pub open spec fn matches_filtered(
    sr: Result<SpecValue, DecodeError>,
    r: Result<String, DecodeError>,
) -> bool {
    match sr {
        Ok(w) => r matches Ok(out) && out@ == write_value(w),
        Err(e) => r matches Err(e2) && e2 == e,
    }
}

/// Runs a block transform over a wire value in the `t`/`c` form.
pub fn filter_value_block<F: Fn(Block) -> Block>(v: &WireValue, f: &F) -> (r: Result<
    WireValue,
    DecodeError,
>)
    requires
        forall|a: Block| #[trigger] call_requires(*f, (a,)),
    ensures
        forall|g: spec_fn(SpecBlock) -> SpecBlock|
            block_abs(*f, g) ==> r_value(r) == #[trigger] spec_filter_block(view_value(*v), g),
{
    let converted = match from_pandoc(v) {
        Ok(w) => w,
        Err(e) => {
            return Err(e);
        },
    };
    let d = match Pandoc::decode(&converted) {
        Ok(d) => d,
        Err(e) => {
            return Err(e);
        },
    };
    let ghost dv = view_pandoc(d);
    let walked = d.walk_block(f);
    let encoded = walked.encode();
    let out = to_pandoc(&encoded);
    proof {
        assert forall|g: spec_fn(SpecBlock) -> SpecBlock|
            block_abs(*f, g) implies r_value(Ok::<WireValue, DecodeError>(out))
            == #[trigger] spec_filter_block(view_value(*v), g) by {
            assert(view_pandoc(walked) == walk_pandoc_b(dv, g));
        }
    }
    Ok(out)
}

/// Runs an inline transform over a wire value in the `t`/`c` form.
pub fn filter_value_inline<F: Fn(Inline) -> Inline>(v: &WireValue, f: &F) -> (r: Result<
    WireValue,
    DecodeError,
>)
    requires
        forall|a: Inline| #[trigger] call_requires(*f, (a,)),
    ensures
        forall|g: spec_fn(SpecInline) -> SpecInline|
            inline_abs(*f, g) ==> r_value(r) == #[trigger] spec_filter_inline(view_value(*v), g),
{
    let converted = match from_pandoc(v) {
        Ok(w) => w,
        Err(e) => {
            return Err(e);
        },
    };
    let d = match Pandoc::decode(&converted) {
        Ok(d) => d,
        Err(e) => {
            return Err(e);
        },
    };
    let ghost dv = view_pandoc(d);
    let walked = d.walk_inline(f);
    let encoded = walked.encode();
    let out = to_pandoc(&encoded);
    proof {
        assert forall|g: spec_fn(SpecInline) -> SpecInline|
            inline_abs(*f, g) implies r_value(Ok::<WireValue, DecodeError>(out))
            == #[trigger] spec_filter_inline(view_value(*v), g) by {
            assert(view_pandoc(walked) == walk_pandoc_i(dv, g));
        }
    }
    Ok(out)
}

/// Runs a whole-document transform over a wire value in the `t`/`c`
/// form.
pub fn filter_value_document<F: Fn(Pandoc) -> Pandoc>(v: &WireValue, f: &F) -> (r: Result<
    WireValue,
    DecodeError,
>)
    requires
        forall|a: Pandoc| #[trigger] call_requires(*f, (a,)),
    ensures
        forall|g: spec_fn(SpecPandoc) -> SpecPandoc|
            pandoc_abs(*f, g) ==> r_value(r) == #[trigger] spec_filter_document(
                view_value(*v),
                g,
            ),
{
    let converted = match from_pandoc(v) {
        Ok(w) => w,
        Err(e) => {
            return Err(e);
        },
    };
    let d = match Pandoc::decode(&converted) {
        Ok(d) => d,
        Err(e) => {
            return Err(e);
        },
    };
    let ghost dv = view_pandoc(d);
    let walked = d.walk_document(f);
    let encoded = walked.encode();
    let out = to_pandoc(&encoded);
    proof {
        assert forall|g: spec_fn(SpecPandoc) -> SpecPandoc|
            pandoc_abs(*f, g) implies r_value(Ok::<WireValue, DecodeError>(out))
            == #[trigger] spec_filter_document(view_value(*v), g) by {
            assert(view_pandoc(walked) == g(dv));
        }
    }
    Ok(out)
}

/// Runs a block transform over an already parsed wire value and writes
/// the result.
fn filter_parsed_block<F: Fn(Block) -> Block>(v: &WireValue, f: &F) -> (r: Result<
    String,
    DecodeError,
>)
    requires
        forall|a: Block| #[trigger] call_requires(*f, (a,)),
    ensures
        forall|g: spec_fn(SpecBlock) -> SpecBlock|
            block_abs(*f, g) ==> matches_filtered(
                #[trigger] spec_filter_block(view_value(*v), g),
                r,
            ),
{
    let ghost pv = view_value(*v);
    match filter_value_block(v, f) {
        Ok(w) => {
            let text = write_json(&w);
            proof {
                assert forall|g: spec_fn(SpecBlock) -> SpecBlock|
                    block_abs(*f, g) implies matches_filtered(
                    #[trigger] spec_filter_block(pv, g),
                    Ok::<String, DecodeError>(text),
                ) by {
                    assert(r_value(Ok::<WireValue, DecodeError>(w)) == spec_filter_block(pv, g));
                }
            }
            Ok(text)
        },
        Err(e) => {
            proof {
                assert forall|g: spec_fn(SpecBlock) -> SpecBlock|
                    block_abs(*f, g) implies matches_filtered(
                    #[trigger] spec_filter_block(pv, g),
                    Err::<String, DecodeError>(e),
                ) by {
                    assert(r_value(Err::<WireValue, DecodeError>(e)) == spec_filter_block(pv, g));
                }
            }
            Err(e)
        },
    }
}

/// Runs an inline transform over an already parsed wire value and
/// writes the result.
fn filter_parsed_inline<F: Fn(Inline) -> Inline>(v: &WireValue, f: &F) -> (r: Result<
    String,
    DecodeError,
>)
    requires
        forall|a: Inline| #[trigger] call_requires(*f, (a,)),
    ensures
        forall|g: spec_fn(SpecInline) -> SpecInline|
            inline_abs(*f, g) ==> matches_filtered(
                #[trigger] spec_filter_inline(view_value(*v), g),
                r,
            ),
{
    let ghost pv = view_value(*v);
    match filter_value_inline(v, f) {
        Ok(w) => {
            let text = write_json(&w);
            proof {
                assert forall|g: spec_fn(SpecInline) -> SpecInline|
                    inline_abs(*f, g) implies matches_filtered(
                    #[trigger] spec_filter_inline(pv, g),
                    Ok::<String, DecodeError>(text),
                ) by {
                    assert(r_value(Ok::<WireValue, DecodeError>(w)) == spec_filter_inline(pv, g));
                }
            }
            Ok(text)
        },
        Err(e) => {
            proof {
                assert forall|g: spec_fn(SpecInline) -> SpecInline|
                    inline_abs(*f, g) implies matches_filtered(
                    #[trigger] spec_filter_inline(pv, g),
                    Err::<String, DecodeError>(e),
                ) by {
                    assert(r_value(Err::<WireValue, DecodeError>(e)) == spec_filter_inline(pv, g));
                }
            }
            Err(e)
        },
    }
}

/// Runs a whole-document transform over an already parsed wire value and
/// writes the result.
fn filter_parsed_document<F: Fn(Pandoc) -> Pandoc>(v: &WireValue, f: &F) -> (r: Result<
    String,
    DecodeError,
>)
    requires
        forall|a: Pandoc| #[trigger] call_requires(*f, (a,)),
    ensures
        forall|g: spec_fn(SpecPandoc) -> SpecPandoc|
            pandoc_abs(*f, g) ==> matches_filtered(
                #[trigger] spec_filter_document(view_value(*v), g),
                r,
            ),
{
    let ghost pv = view_value(*v);
    match filter_value_document(v, f) {
        Ok(w) => {
            let text = write_json(&w);
            proof {
                assert forall|g: spec_fn(SpecPandoc) -> SpecPandoc|
                    pandoc_abs(*f, g) implies matches_filtered(
                    #[trigger] spec_filter_document(pv, g),
                    Ok::<String, DecodeError>(text),
                ) by {
                    assert(r_value(Ok::<WireValue, DecodeError>(w)) == spec_filter_document(
                        pv,
                        g,
                    ));
                }
            }
            Ok(text)
        },
        Err(e) => {
            proof {
                assert forall|g: spec_fn(SpecPandoc) -> SpecPandoc|
                    pandoc_abs(*f, g) implies matches_filtered(
                    #[trigger] spec_filter_document(pv, g),
                    Err::<String, DecodeError>(e),
                ) by {
                    assert(r_value(Err::<WireValue, DecodeError>(e)) == spec_filter_document(
                        pv,
                        g,
                    ));
                }
            }
            Err(e)
        },
    }
}

/// Runs a block transform over wire text in the `t`/`c` form: parse,
/// convert, decode, walk, encode, convert back, write. Text that does not
/// parse is reported as `NotAnArray`, like any other non-document
/// top-level value; on parsed text the result is exactly the value-level
/// pipeline on the parsed value, written out.
pub fn filter_block<F: Fn(Block) -> Block>(json: &str, f: &F) -> (r: Result<String, DecodeError>)
    requires
        forall|a: Block| #[trigger] call_requires(*f, (a,)),
    ensures
        (parse_of(json@) is None ==> (r matches Err(e) && e == DecodeError::NotAnArray)),
        forall|g: spec_fn(SpecBlock) -> SpecBlock|
            block_abs(*f, g) && parse_of(json@) is Some ==> matches_filtered(
                #[trigger] spec_filter_block(parse_of(json@)->Some_0, g),
                r,
            ),
{
    match parse_json(json) {
        Some(parsed) => {
            let r0 = filter_parsed_block(&parsed, f);
            proof {
                assert(parse_of(json@) == Some(view_value(parsed)));
                assert forall|g: spec_fn(SpecBlock) -> SpecBlock|
                    block_abs(*f, g) && parse_of(json@) is Some implies matches_filtered(
                    #[trigger] spec_filter_block(parse_of(json@)->Some_0, g),
                    r0,
                ) by {
                    assert(matches_filtered(spec_filter_block(view_value(parsed), g), r0));
                }
            }
            r0
        },
        None => Err(DecodeError::NotAnArray),
    }
}

/// Runs an inline transform over wire text in the `t`/`c` form, with the
/// same contract shape as `filter_block`.
pub fn filter_inline<F: Fn(Inline) -> Inline>(json: &str, f: &F) -> (r: Result<
    String,
    DecodeError,
>)
    requires
        forall|a: Inline| #[trigger] call_requires(*f, (a,)),
    ensures
        (parse_of(json@) is None ==> (r matches Err(e) && e == DecodeError::NotAnArray)),
        forall|g: spec_fn(SpecInline) -> SpecInline|
            inline_abs(*f, g) && parse_of(json@) is Some ==> matches_filtered(
                #[trigger] spec_filter_inline(parse_of(json@)->Some_0, g),
                r,
            ),
{
    match parse_json(json) {
        Some(parsed) => {
            let r0 = filter_parsed_inline(&parsed, f);
            proof {
                assert(parse_of(json@) == Some(view_value(parsed)));
                assert forall|g: spec_fn(SpecInline) -> SpecInline|
                    inline_abs(*f, g) && parse_of(json@) is Some implies matches_filtered(
                    #[trigger] spec_filter_inline(parse_of(json@)->Some_0, g),
                    r0,
                ) by {
                    assert(matches_filtered(spec_filter_inline(view_value(parsed), g), r0));
                }
            }
            r0
        },
        None => Err(DecodeError::NotAnArray),
    }
}

/// Runs a whole-document transform over wire text in the `t`/`c` form,
/// with the same contract shape as `filter_block`.
pub fn filter_document<F: Fn(Pandoc) -> Pandoc>(json: &str, f: &F) -> (r: Result<
    String,
    DecodeError,
>)
    requires
        forall|a: Pandoc| #[trigger] call_requires(*f, (a,)),
    ensures
        (parse_of(json@) is None ==> (r matches Err(e) && e == DecodeError::NotAnArray)),
        forall|g: spec_fn(SpecPandoc) -> SpecPandoc|
            pandoc_abs(*f, g) && parse_of(json@) is Some ==> matches_filtered(
                #[trigger] spec_filter_document(parse_of(json@)->Some_0, g),
                r,
            ),
{
    match parse_json(json) {
        Some(parsed) => {
            let r0 = filter_parsed_document(&parsed, f);
            proof {
                assert(parse_of(json@) == Some(view_value(parsed)));
                assert forall|g: spec_fn(SpecPandoc) -> SpecPandoc|
                    pandoc_abs(*f, g) && parse_of(json@) is Some implies matches_filtered(
                    #[trigger] spec_filter_document(parse_of(json@)->Some_0, g),
                    r0,
                ) by {
                    assert(matches_filtered(spec_filter_document(view_value(parsed), g), r0));
                }
            }
            r0
        },
        None => Err(DecodeError::NotAnArray),
    }
}

} // verus!
