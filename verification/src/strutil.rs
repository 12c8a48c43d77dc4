//! String helpers: lexicographic key order, decimal number text, and the
//! character-level bridge between `String` and `Vec<char>`.

use vstd::prelude::*;

verus! {

/// Strict lexicographic order on character sequences, by code point.
pub open spec fn lex_lt(a: Seq<char>, b: Seq<char>) -> bool
    decreases a.len(),
{
    if b.len() == 0 {
        false
    } else if a.len() == 0 {
        true
    } else if (a[0] as u32) < (b[0] as u32) {
        true
    } else if (a[0] as u32) > (b[0] as u32) {
        false
    } else {
        lex_lt(a.drop_first(), b.drop_first())
    }
}

proof fn lemma_char_cast_injective(c1: char, c2: char)
    requires
        c1 as u32 == c2 as u32,
    ensures
        c1 == c2,
{
}

/// Exactly one of `lex_lt(a, b)`, `lex_lt(b, a)` and `a == b` holds.
pub proof fn lemma_lex_trichotomy(a: Seq<char>, b: Seq<char>)
    ensures
        lex_lt(a, b) || lex_lt(b, a) || a == b,
        lex_lt(a, b) ==> !lex_lt(b, a) && a != b,
        lex_lt(b, a) ==> !lex_lt(a, b) && a != b,
    decreases a.len(),
{
    if a.len() == 0 || b.len() == 0 {
        if a.len() == 0 && b.len() == 0 {
            assert(a =~= b);
        }
    } else {
        lemma_lex_trichotomy(a.drop_first(), b.drop_first());
        if (a[0] as u32) == (b[0] as u32) {
            lemma_char_cast_injective(a[0], b[0]);
            if a.drop_first() == b.drop_first() {
                assert(a =~= b) by {
                    assert(forall|i: int|
                        1 <= i < a.len() ==> #[trigger] a[i] == a.drop_first()[i - 1]);
                    assert(forall|i: int|
                        1 <= i < b.len() ==> #[trigger] b[i] == b.drop_first()[i - 1]);
                }
            }
        }
    }
}

/// Lexicographic order is transitive.
pub proof fn lemma_lex_transitive(a: Seq<char>, b: Seq<char>, c: Seq<char>)
    requires
        lex_lt(a, b),
        lex_lt(b, c),
    ensures
        lex_lt(a, c),
    decreases a.len(),
{
    if a.len() != 0 && b.len() != 0 && c.len() != 0 {
        if (a[0] as u32) == (b[0] as u32) && (b[0] as u32) == (c[0] as u32) {
            lemma_lex_transitive(a.drop_first(), b.drop_first(), c.drop_first());
        }
    }
}

/// Relies on str::chars: it yields the characters of the string in order,
/// which is exactly the string's view.
#[verifier::external_body]
pub fn str_chars(s: &str) -> (r: Vec<char>)
    ensures
        r@ == s@,
{
    s.chars().collect()
}

/// Relies on String's FromIterator: collecting characters builds the string
/// with exactly those characters in order.
#[verifier::external_body]
pub fn string_from_chars(v: Vec<char>) -> (r: String)
    ensures
        r@ == v@,
{
    v.into_iter().collect()
}

/// True when the string's characters are `t`'s characters.
pub fn str_is(s: &String, t: &str) -> (r: bool)
    ensures
        r == (s@ == t@),
{
    s.eq(&t.to_owned())
}

fn lex_lt_from(a: &Vec<char>, b: &Vec<char>, i: usize) -> (r: bool)
    requires
        i <= a.len(),
        i <= b.len(),
    ensures
        r == lex_lt(a@.skip(i as int), b@.skip(i as int)),
    decreases a.len() - i,
{
    if i == b.len() {
        false
    } else if i == a.len() {
        true
    } else if (a[i] as u32) < (b[i] as u32) {
        true
    } else if (a[i] as u32) > (b[i] as u32) {
        false
    } else {
        let r = lex_lt_from(a, b, i + 1);
        proof {
            assert(a@.skip(i as int).drop_first() =~= a@.skip(i as int + 1));
            assert(b@.skip(i as int).drop_first() =~= b@.skip(i as int + 1));
        }
        r
    }
}

/// True when `a` is strictly before `b` in lexicographic order.
pub fn lex_lt_exec(a: &String, b: &String) -> (r: bool)
    ensures
        r == lex_lt(a@, b@),
{
    let av = str_chars(a.as_str());
    let bv = str_chars(b.as_str());
    let r = lex_lt_from(&av, &bv, 0);
    proof {
        assert(av@.skip(0) =~= a@);
        assert(bv@.skip(0) =~= b@);
    }
    r
}

/// True for the characters `'0'` through `'9'`.
pub open spec fn is_digit(c: char) -> bool {
    48 <= (c as u32) <= 57
}

pub open spec fn all_digits(s: Seq<char>) -> bool {
    forall|i: int| 0 <= i < s.len() ==> is_digit(s[i])
}

/// The integer a sequence of decimal digits denotes.
pub open spec fn dec_val(s: Seq<char>) -> int
    decreases s.len(),
{
    if s.len() == 0 {
        0
    } else {
        dec_val(s.drop_last()) * 10 + ((s.last() as u32) - 48)
    }
}

/// Nonempty decimal digit text whose value fits in a `u64`.
pub open spec fn is_u64_text(s: Seq<char>) -> bool {
    s.len() > 0 && all_digits(s) && dec_val(s) <= u64::MAX
}

/// The digit character for a value between 0 and 9.
pub open spec fn digit_char(d: int) -> char {
    if d == 0 {
        '0'
    } else if d == 1 {
        '1'
    } else if d == 2 {
        '2'
    } else if d == 3 {
        '3'
    } else if d == 4 {
        '4'
    } else if d == 5 {
        '5'
    } else if d == 6 {
        '6'
    } else if d == 7 {
        '7'
    } else if d == 8 {
        '8'
    } else {
        '9'
    }
}

/// Canonical decimal text of a nonnegative integer: no leading zeros.
pub open spec fn u64_dec_str(n: int) -> Seq<char>
    decreases n,
{
    if n <= 9 {
        seq![digit_char(n)]
    } else {
        u64_dec_str(n / 10).push(digit_char(n % 10))
    }
}

proof fn lemma_digit_char_val(d: int)
    requires
        0 <= d <= 9,
    ensures
        is_digit(digit_char(d)),
        (digit_char(d) as u32) - 48 == d,
{
}

/// A nonnegative integer's canonical decimal text is made of digits and
/// denotes the integer itself.
pub proof fn lemma_u64_dec_str_val(n: int)
    requires
        0 <= n,
    ensures
        u64_dec_str(n).len() >= 1,
        all_digits(u64_dec_str(n)),
        dec_val(u64_dec_str(n)) == n,
    decreases n,
{
    if n <= 9 {
        lemma_digit_char_val(n);
        assert(dec_val(Seq::<char>::empty()) == 0);
        assert(u64_dec_str(n).drop_last() =~= Seq::<char>::empty());
        assert(u64_dec_str(n).last() == digit_char(n));
    } else {
        lemma_u64_dec_str_val(n / 10);
        lemma_digit_char_val(n % 10);
        let s = u64_dec_str(n);
        assert(s.drop_last() =~= u64_dec_str(n / 10));
        assert(forall|i: int|
            0 <= i < s.len() ==> is_digit(
                #[trigger] s[i],
            )) by {
            assert(forall|i: int|
                0 <= i < s.len() - 1 ==> s[i] == u64_dec_str(n / 10)[i] && is_digit(
                    #[trigger] s[i],
                ));
            assert(s[s.len() - 1] == digit_char(n % 10));
        }
    }
}

/// The digits denote a nonnegative value.
pub proof fn lemma_dec_val_nonneg(s: Seq<char>)
    requires
        all_digits(s),
    ensures
        dec_val(s) >= 0,
    decreases s.len(),
{
    if s.len() > 0 {
        assert(all_digits(s.drop_last()));
        lemma_dec_val_nonneg(s.drop_last());
    }
}

fn digit_char_exec(d: u64) -> (c: char)
    requires
        d <= 9,
    ensures
        c == digit_char(d as int),
{
    if d == 0 {
        '0'
    } else if d == 1 {
        '1'
    } else if d == 2 {
        '2'
    } else if d == 3 {
        '3'
    } else if d == 4 {
        '4'
    } else if d == 5 {
        '5'
    } else if d == 6 {
        '6'
    } else if d == 7 {
        '7'
    } else if d == 8 {
        '8'
    } else {
        '9'
    }
}

fn u64_chars(n: u64) -> (r: Vec<char>)
    ensures
        r@ == u64_dec_str(n as int),
    decreases n,
{
    if n <= 9 {
        let mut v: Vec<char> = Vec::new();
        v.push(digit_char_exec(n));
        proof {
            assert(v@ =~= u64_dec_str(n as int));
        }
        v
    } else {
        let mut v = u64_chars(n / 10);
        v.push(digit_char_exec(n % 10));
        v
    }
}

/// The canonical decimal text of `n`.
pub fn u64_to_string(n: u64) -> (s: String)
    ensures
        s@ == u64_dec_str(n as int),
{
    string_from_chars(u64_chars(n))
}

/// Parses decimal digit text as a `u64`; `None` exactly when the text is
/// not nonempty all-digit text whose value fits.
pub fn parse_u64(s: &String) -> (r: Option<u64>)
    ensures
        match r {
            Some(n) => is_u64_text(s@) && n as int == dec_val(s@),
            None => !is_u64_text(s@),
        },
{
    let v = str_chars(s.as_str());
    if v.len() == 0 {
        return None;
    }
    let mut acc: u64 = 0;
    let mut i: usize = 0;
    while i < v.len()
        invariant
            0 <= i <= v.len(),
            v@ == s@,
            v.len() > 0,
            all_digits(v@.subrange(0, i as int)),
            acc as int == dec_val(v@.subrange(0, i as int)),
        decreases v.len() - i,
    {
        let c = v[i];
        let cu = c as u32;
        if cu < 48 || cu > 57 {
            assert(!is_digit(v@[i as int]));
            return None;
        }
        let d = (cu - 48) as u64;
        let ghost pre = v@.subrange(0, i as int);
        let ghost cur = v@.subrange(0, i as int + 1);
        proof {
            assert(cur.drop_last() =~= pre);
            assert(cur.last() == v@[i as int]);
            assert(dec_val(cur) == dec_val(pre) * 10 + d);
        }
        if acc > (u64::MAX - d) / 10 {
            proof {
                lemma_overflow(v@, i as int + 1);
            }
            return None;
        }
        proof {
            assert(acc * 10 + d <= u64::MAX) by {
                assert(acc <= (u64::MAX - d) / 10);
                assert(acc * 10 <= ((u64::MAX - d) / 10) * 10) by (nonlinear_arith)
                    requires
                        acc <= (u64::MAX - d) / 10,
                ;
                assert(((u64::MAX - d) as u64 / 10) * 10 <= (u64::MAX - d));
            }
        }
        acc = acc * 10 + d;
        i = i + 1;
    }
    proof {
        assert(v@.subrange(0, v.len() as int) =~= s@);
    }
    Some(acc)
}

/// If some prefix of all-digit text already denotes more than fits in a
/// `u64`, the whole text does too.
proof fn lemma_overflow(s: Seq<char>, i: int)
    requires
        0 < i <= s.len(),
        all_digits(s.subrange(0, i)),
        dec_val(s.subrange(0, i)) > u64::MAX,
    ensures
        !is_u64_text(s),
    decreases s.len() - i,
{
    if !all_digits(s) {
    } else if i == s.len() {
        assert(s.subrange(0, i) =~= s);
    } else {
        let pre = s.subrange(0, i);
        let nxt = s.subrange(0, i + 1);
        assert(nxt.drop_last() =~= pre);
        lemma_dec_val_nonneg(pre);
        assert(dec_val(nxt) == dec_val(pre) * 10 + ((nxt.last() as u32) - 48));
        assert(dec_val(pre) * 10 >= dec_val(pre)) by (nonlinear_arith)
            requires
                dec_val(pre) >= 0,
        ;
        assert(all_digits(nxt));
        lemma_overflow(s, i + 1);
    }
}

} // verus!
