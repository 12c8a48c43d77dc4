//! The tagged JSON-like wire value: the generic representation that the
//! codec reads documents from and writes documents to.
//!
//! Numbers are carried as their decimal text so that a value round-trips
//! through the writer without loss; the codec parses the text where it
//! expects an unsigned integer.

use vstd::prelude::*;

verus! {

/// A JSON-like value: object, array, string, number (as its literal text),
/// boolean or null. Object entries keep their order.
#[derive(Debug, PartialEq)]
pub enum WireValue {
    Null,
    Bool(bool),
    Num(String),
    Text(String),
    Arr(Vec<WireValue>),
    Obj(Vec<(String, WireValue)>),
}

/// Mathematical model of a `WireValue`.
#[verifier::ext_equal]
pub enum SpecValue {
    Null,
    Bool(bool),
    Num(Seq<char>),
    Text(Seq<char>),
    Arr(Seq<SpecValue>),
    Obj(Seq<(Seq<char>, SpecValue)>),
}

pub open spec fn view_value(v: WireValue) -> SpecValue
    decreases v,
{
    match v {
        WireValue::Null => SpecValue::Null,
        WireValue::Bool(b) => SpecValue::Bool(b),
        WireValue::Num(s) => SpecValue::Num(s@),
        WireValue::Text(s) => SpecValue::Text(s@),
        WireValue::Arr(items) => SpecValue::Arr(view_values(items@)),
        WireValue::Obj(pairs) => SpecValue::Obj(view_pairs(pairs@)),
    }
}

pub open spec fn view_values(s: Seq<WireValue>) -> Seq<SpecValue>
    decreases s,
{
    Seq::new(s.len(), |i: int| if 0 <= i < s.len() { view_value(s[i]) } else { SpecValue::Null })
}

pub open spec fn view_pairs(s: Seq<(String, WireValue)>) -> Seq<(Seq<char>, SpecValue)>
    decreases s,
{
    Seq::new(
        s.len(),
        |i: int|
            if 0 <= i < s.len() {
                (s[i].0@, view_value(s[i].1))
            } else {
                (Seq::<char>::empty(), SpecValue::Null)
            },
    )
}

} // verus!
