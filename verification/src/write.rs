//! Writing wire values as JSON text.
//!
//! The text form is canonical: compact (no whitespace), object entries in
//! stored order, strings escaped with the standard short escapes and
//! `\u00XX` for other control characters, numbers written as their stored
//! literal text.

use vstd::prelude::*;

use crate::strutil::{str_chars, string_from_chars};
use crate::value::{view_value, view_values, view_pairs, SpecValue, WireValue};

verus! {

pub open spec fn hex_digit(d: int) -> char {
    if d == 0 {
        '0'
    } else if d == 1 {
        '1'
    } else if d == 2 {
        '2'
    } else if d == 3 {
        '3'
    } else if d == 4 {
        '4'
    } else if d == 5 {
        '5'
    } else if d == 6 {
        '6'
    } else if d == 7 {
        '7'
    } else if d == 8 {
        '8'
    } else if d == 9 {
        '9'
    } else if d == 10 {
        'a'
    } else if d == 11 {
        'b'
    } else if d == 12 {
        'c'
    } else if d == 13 {
        'd'
    } else if d == 14 {
        'e'
    } else {
        'f'
    }
}

/// The JSON escape of one string character.
pub open spec fn esc_char(c: char) -> Seq<char> {
    if c == '"' {
        seq!['\\', '"']
    } else if c == '\\' {
        seq!['\\', '\\']
    } else if c == '\u{8}' {
        seq!['\\', 'b']
    } else if c == '\t' {
        seq!['\\', 't']
    } else if c == '\n' {
        seq!['\\', 'n']
    } else if c == '\u{c}' {
        seq!['\\', 'f']
    } else if c == '\r' {
        seq!['\\', 'r']
    } else if (c as u32) < 32 {
        seq!['\\', 'u', '0', '0', hex_digit((c as u32) as int / 16), hex_digit((c as u32) as int % 16)]
    } else {
        seq![c]
    }
}

pub open spec fn esc_string(s: Seq<char>) -> Seq<char>
    decreases s.len(),
{
    if s.len() == 0 {
        Seq::empty()
    } else {
        esc_string(s.drop_last()) + esc_char(s.last())
    }
}

/// A JSON string literal: quotes around the escaped characters.
pub open spec fn quoted(s: Seq<char>) -> Seq<char> {
    seq!['"'] + esc_string(s) + seq!['"']
}

/// The canonical JSON text of a wire value.
pub open spec fn write_value(v: SpecValue) -> Seq<char>
    decreases v, 0int,
{
    match v {
        SpecValue::Null => "null"@,
        SpecValue::Bool(b) => if b {
            "true"@
        } else {
            "false"@
        },
        SpecValue::Num(s) => s,
        SpecValue::Text(s) => quoted(s),
        SpecValue::Arr(items) => seq!['['] + write_items(items) + seq![']'],
        SpecValue::Obj(pairs) => seq!['{'] + write_entries(pairs) + seq!['}'],
    }
}

pub open spec fn write_items(s: Seq<SpecValue>) -> Seq<char>
    decreases s, 1int,
{
    if s.len() == 0 {
        Seq::empty()
    } else if s.len() == 1 {
        write_value(s[0])
    } else {
        write_items(s.drop_last()) + seq![','] + write_value(s.last())
    }
}

pub open spec fn write_entries(s: Seq<(Seq<char>, SpecValue)>) -> Seq<char>
    decreases s, 1int,
{
    if s.len() == 0 {
        Seq::empty()
    } else if s.len() == 1 {
        quoted(s[0].0) + seq![':'] + write_value(s[0].1)
    } else {
        write_entries(s.drop_last()) + seq![','] + quoted(s.last().0) + seq![':'] + write_value(
            s.last().1,
        )
    }
}

fn push_escaped(out: &mut Vec<char>, c: char)
    ensures
        final(out)@ == old(out)@ + esc_char(c),
{
    let ghost before = out@;
    if c == '"' {
        out.push('\\');
        out.push('"');
    } else if c == '\\' {
        out.push('\\');
        out.push('\\');
    } else if c == '\u{8}' {
        out.push('\\');
        out.push('b');
    } else if c == '\t' {
        out.push('\\');
        out.push('t');
    } else if c == '\n' {
        out.push('\\');
        out.push('n');
    } else if c == '\u{c}' {
        out.push('\\');
        out.push('f');
    } else if c == '\r' {
        out.push('\\');
        out.push('r');
    } else if (c as u32) < 32 {
        let cu = c as u32;
        let hi = cu / 16;
        let lo = cu % 16;
        out.push('\\');
        out.push('u');
        out.push('0');
        out.push('0');
        out.push(hex_digit_exec(hi));
        out.push(hex_digit_exec(lo));
    } else {
        out.push(c);
    }
    proof {
        assert(out@ =~= before + esc_char(c));
    }
}

fn hex_digit_exec(d: u32) -> (c: char)
    requires
        d <= 15,
    ensures
        c == hex_digit(d as int),
{
    if d == 0 {
        '0'
    } else if d == 1 {
        '1'
    } else if d == 2 {
        '2'
    } else if d == 3 {
        '3'
    } else if d == 4 {
        '4'
    } else if d == 5 {
        '5'
    } else if d == 6 {
        '6'
    } else if d == 7 {
        '7'
    } else if d == 8 {
        '8'
    } else if d == 9 {
        '9'
    } else if d == 10 {
        'a'
    } else if d == 11 {
        'b'
    } else if d == 12 {
        'c'
    } else if d == 13 {
        'd'
    } else if d == 14 {
        'e'
    } else {
        'f'
    }
}

fn push_quoted(out: &mut Vec<char>, s: &String)
    ensures
        final(out)@ == old(out)@ + quoted(s@),
{
    let ghost before = out@;
    out.push('"');
    let cs = str_chars(s.as_str());
    let mut i: usize = 0;
    while i < cs.len()
        invariant
            0 <= i <= cs.len(),
            cs@ == s@,
            out@ == before + seq!['"'] + esc_string(s@.subrange(0, i as int)),
        decreases cs.len() - i,
    {
        let ghost pre = s@.subrange(0, i as int);
        let ghost cur = s@.subrange(0, i as int + 1);
        push_escaped(out, cs[i]);
        proof {
            assert(cur.drop_last() =~= pre);
            assert(cur.last() == s@[i as int]);
        }
        i = i + 1;
    }
    out.push('"');
    proof {
        assert(s@.subrange(0, s@.len() as int) =~= s@);
        assert(out@ =~= before + quoted(s@));
    }
}

fn push_str_chars(out: &mut Vec<char>, s: &str)
    ensures
        final(out)@ == old(out)@ + s@,
{
    let ghost before = out@;
    let cs = str_chars(s);
    let mut i: usize = 0;
    while i < cs.len()
        invariant
            0 <= i <= cs.len(),
            cs@ == s@,
            out@ == before + s@.subrange(0, i as int),
        decreases cs.len() - i,
    {
        out.push(cs[i]);
        proof {
            assert(before + s@.subrange(0, i as int + 1) =~= (before + s@.subrange(
                0,
                i as int,
            )).push(s@[i as int]));
        }
        i = i + 1;
    }
    proof {
        assert(s@.subrange(0, s@.len() as int) =~= s@);
    }
}

#[verifier::loop_isolation(false)]
fn write_value_into(out: &mut Vec<char>, v: &WireValue)
    ensures
        final(out)@ == old(out)@ + write_value(view_value(*v)),
    decreases v, 0int,
{
    let ghost before = out@;
    match v {
        WireValue::Null => {
            push_str_chars(out, "null");
        },
        WireValue::Bool(b) => {
            if *b {
                push_str_chars(out, "true");
            } else {
                push_str_chars(out, "false");
            }
        },
        WireValue::Num(s) => {
            push_str_chars(out, s.as_str());
        },
        WireValue::Text(s) => {
            push_quoted(out, s);
        },
        WireValue::Arr(items) => {
            let ghost sv = view_values(items@);
            out.push('[');
            let mut i: usize = 0;
            while i < items.len()
                invariant
                    0 <= i <= items.len(),
                    sv == view_values(items@),
                    sv.len() == items@.len(),
                    out@ == before + seq!['['] + write_items(sv.subrange(0, i as int)),
                decreases items@, 1int, items.len() - i,
            {
                if i > 0 {
                    out.push(',');
                }
                write_value_into(out, &items[i]);
                proof {
                    let pre = sv.subrange(0, i as int);
                    let cur = sv.subrange(0, i as int + 1);
                    assert(cur.drop_last() =~= pre);
                    assert(cur.last() == sv[i as int]);
                    assert(sv[i as int] == view_value(items@[i as int]));
                    if i == 0 {
                        assert(out@ =~= before + seq!['['] + write_items(cur));
                    } else {
                        assert(out@ =~= before + seq!['['] + write_items(cur));
                    }
                }
                i = i + 1;
            }
            out.push(']');
            proof {
                assert(sv.subrange(0, sv.len() as int) =~= sv);
                assert(out@ =~= before + write_value(view_value(*v)));
            }
        },
        WireValue::Obj(pairs) => {
            let ghost sv = view_pairs(pairs@);
            out.push('{');
            let mut i: usize = 0;
            while i < pairs.len()
                invariant
                    0 <= i <= pairs.len(),
                    sv == view_pairs(pairs@),
                    sv.len() == pairs@.len(),
                    out@ == before + seq!['{'] + write_entries(sv.subrange(0, i as int)),
                decreases pairs@, 1int, pairs.len() - i,
            {
                if i > 0 {
                    out.push(',');
                }
                push_quoted(out, &pairs[i].0);
                out.push(':');
                write_value_into(out, &pairs[i].1);
                proof {
                    let pre = sv.subrange(0, i as int);
                    let cur = sv.subrange(0, i as int + 1);
                    assert(cur.drop_last() =~= pre);
                    assert(cur.last() == sv[i as int]);
                    assert(sv[i as int] == (pairs@[i as int].0@, view_value(pairs@[i as int].1)));
                    assert(out@ =~= before + seq!['{'] + write_entries(cur));
                }
                i = i + 1;
            }
            out.push('}');
            proof {
                assert(sv.subrange(0, sv.len() as int) =~= sv);
                assert(out@ =~= before + write_value(view_value(*v)));
            }
        },
    }
}

/// The canonical JSON text of a wire value.
pub fn write_json(v: &WireValue) -> (s: String)
    ensures
        s@ == write_value(view_value(*v)),
{
    let mut out: Vec<char> = Vec::new();
    write_value_into(&mut out, v);
    proof {
        assert(out@ =~= write_value(view_value(*v)));
    }
    string_from_chars(out)
}

} // verus!
