//! Text building blocks: the decimal text of integers, as it appears in
//! proof-of-work guesses and in the canonical encoding of blocks, and JSON
//! string literals.

use vstd::prelude::*;
use vstd::string::*;

verus! {

/// The character of a single decimal digit.
pub open spec fn digit_char(d: nat) -> char
    recommends
        d < 10,
{
    if d == 0 {
        '0'
    } else if d == 1 {
        '1'
    } else if d == 2 {
        '2'
    } else if d == 3 {
        '3'
    } else if d == 4 {
        '4'
    } else if d == 5 {
        '5'
    } else if d == 6 {
        '6'
    } else if d == 7 {
        '7'
    } else if d == 8 {
        '8'
    } else {
        '9'
    }
}

/// The decimal text of a natural number: no sign, no leading zeros, and
/// `"0"` for zero.
pub open spec fn decimal_text(n: nat) -> Seq<char>
    decreases n,
{
    if n < 10 {
        seq![digit_char(n)]
    } else {
        decimal_text(n / 10).push(digit_char(n % 10))
    }
}

/// The decimal text of an integer: a minus sign in front of the text of the
/// magnitude when the value is negative.
pub open spec fn signed_decimal_text(v: int) -> Seq<char> {
    if v < 0 {
        seq!['-'] + decimal_text((-v) as nat)
    } else {
        decimal_text(v as nat)
    }
}

fn digit_str(d: u64) -> (r: &'static str)
    requires
        d < 10,
    ensures
        r@ == seq![digit_char(d as nat)],
{
    proof {
        reveal_strlit("0");
        reveal_strlit("1");
        reveal_strlit("2");
        reveal_strlit("3");
        reveal_strlit("4");
        reveal_strlit("5");
        reveal_strlit("6");
        reveal_strlit("7");
        reveal_strlit("8");
        reveal_strlit("9");
    }
    if d == 0 {
        "0"
    } else if d == 1 {
        "1"
    } else if d == 2 {
        "2"
    } else if d == 3 {
        "3"
    } else if d == 4 {
        "4"
    } else if d == 5 {
        "5"
    } else if d == 6 {
        "6"
    } else if d == 7 {
        "7"
    } else if d == 8 {
        "8"
    } else {
        "9"
    }
}

/// Appends the decimal text of `n` to `out`.
pub fn push_decimal(out: &mut String, n: u64)
    ensures
        final(out)@ == old(out)@ + decimal_text(n as nat),
    decreases n,
{
    if n >= 10 {
        push_decimal(out, n / 10);
    }
    out.append(digit_str(n % 10));
}

/// Appends the decimal text of the signed value `v` to `out`.
pub fn push_signed_decimal(out: &mut String, v: i64)
    ensures
        final(out)@ == old(out)@ + signed_decimal_text(v as int),
{
    if v < 0 {
        proof {
            reveal_strlit("-");
        }
        out.append("-");
        let magnitude: u64 = ((-(v + 1)) as u64) + 1;
        push_decimal(out, magnitude);
    } else {
        push_decimal(out, v as u64);
    }
}

/// The character of a single hexadecimal digit, in lower case.
pub open spec fn hex_char(d: nat) -> char
    recommends
        d < 16,
{
    if d < 10 {
        digit_char(d)
    } else if d == 10 {
        'a'
    } else if d == 11 {
        'b'
    } else if d == 12 {
        'c'
    } else if d == 13 {
        'd'
    } else if d == 14 {
        'e'
    } else {
        'f'
    }
}

/// How one character stands inside a JSON string literal: the quote, the
/// backslash and the control characters below U+0020 are written as
/// escapes, the short ones where JSON has one and `\u00xx` otherwise; every
/// other character stands for itself.
pub open spec fn json_escape(c: char) -> Seq<char> {
    if c == '"' {
        seq!['\\', '"']
    } else if c == '\\' {
        seq!['\\', '\\']
    } else if c == '\u{8}' {
        seq!['\\', 'b']
    } else if c == '\t' {
        seq!['\\', 't']
    } else if c == '\n' {
        seq!['\\', 'n']
    } else if c == '\u{c}' {
        seq!['\\', 'f']
    } else if c == '\r' {
        seq!['\\', 'r']
    } else if (c as u32) < 0x20 {
        seq![
            '\\',
            'u',
            '0',
            '0',
            hex_char((c as u32 / 16) as nat),
            hex_char((c as u32 % 16) as nat),
        ]
    } else {
        seq![c]
    }
}

/// The characters of `s`, each as it stands inside a JSON string literal.
pub open spec fn json_escaped(s: Seq<char>) -> Seq<char>
    decreases s.len(),
{
    if s.len() == 0 {
        Seq::empty()
    } else {
        json_escape(s[0]) + json_escaped(s.drop_first())
    }
}

/// The JSON string literal for `s`: the escaped characters of `s` between
/// double quotes.
pub open spec fn json_string_text(s: Seq<char>) -> Seq<char> {
    seq!['"'] + json_escaped(s) + seq!['"']
}

/// Whether `c` is a decimal digit.
pub open spec fn is_digit(c: char) -> bool {
    '0' <= c && c <= '9'
}

/// A text that is not empty and does not begin with a decimal digit: what
/// can stand behind a number.
pub open spec fn ends_a_number(rest: Seq<char>) -> bool {
    rest.len() > 0 && !is_digit(rest[0])
}

/// Two texts with the same beginning are equal where their ends are.
pub proof fn lemma_same_prefix(prefix: Seq<char>, a: Seq<char>, b: Seq<char>)
    requires
        prefix + a == prefix + b,
    ensures
        a == b,
{
    let n = prefix.len() as int;
    assert((prefix + a).len() == prefix.len() + a.len());
    assert((prefix + b).len() == prefix.len() + b.len());
    assert(a.len() == b.len());
    assert forall|i: int| 0 <= i < a.len() implies a[i] == b[i] by {
        assert((prefix + a)[n + i] == a[i]);
        assert((prefix + b)[n + i] == b[i]);
    }
    assert(a =~= b);
}

/// The decimal text of a number holds digits only, and at least one.
pub proof fn lemma_decimal_digits(n: nat)
    ensures
        decimal_text(n).len() > 0,
        forall|i: int| 0 <= i < decimal_text(n).len() ==> is_digit(#[trigger] decimal_text(n)[i]),
    decreases n,
{
    if n >= 10 {
        lemma_decimal_digits(n / 10);
    }
}

/// The number that a decimal text stands for.
pub open spec fn decimal_value(text: Seq<char>) -> nat
    decreases text.len(),
{
    if text.len() == 0 {
        0
    } else {
        decimal_value(text.drop_last()) * 10 + (text.last() as u32 - '0' as u32) as nat
    }
}

/// A decimal text stands for the number that it was made of.
pub proof fn lemma_decimal_value(n: nat)
    ensures
        decimal_value(decimal_text(n)) == n,
    decreases n,
{
    if n < 10 {
        let text = decimal_text(n);
        assert(text.drop_last() =~= Seq::<char>::empty());
        assert(decimal_value(text.drop_last()) == 0);
        assert(text.last() == digit_char(n));
    } else {
        lemma_decimal_value(n / 10);
        let text = decimal_text(n);
        assert(text.drop_last() =~= decimal_text(n / 10));
        assert(text.last() == digit_char(n % 10));
    }
}

/// A number can be read back from the text that it begins: where two
/// decimal texts, each followed by something that is no digit, make the
/// same text, the numbers are equal, and so is what follows them.
pub proof fn lemma_decimal_unique(n: nat, r1: Seq<char>, m: nat, r2: Seq<char>)
    requires
        decimal_text(n) + r1 == decimal_text(m) + r2,
        ends_a_number(r1),
        ends_a_number(r2),
    ensures
        n == m,
        r1 == r2,
{
    let a = decimal_text(n);
    let b = decimal_text(m);
    let whole = a + r1;
    lemma_decimal_digits(n);
    lemma_decimal_digits(m);
    if a.len() < b.len() {
        assert(whole[a.len() as int] == r1[0]);
        assert((b + r2)[a.len() as int] == b[a.len() as int]);
        assert(false);
    }
    if b.len() < a.len() {
        assert((b + r2)[b.len() as int] == r2[0]);
        assert(whole[b.len() as int] == a[b.len() as int]);
        assert(false);
    }
    assert(a =~= whole.subrange(0, a.len() as int));
    assert(b =~= (b + r2).subrange(0, b.len() as int));
    lemma_decimal_value(n);
    lemma_decimal_value(m);
    lemma_same_prefix(a, r1, r2);
}

/// A signed number can be read back from the text that it begins.
pub proof fn lemma_signed_decimal_unique(v: int, r1: Seq<char>, w: int, r2: Seq<char>)
    requires
        signed_decimal_text(v) + r1 == signed_decimal_text(w) + r2,
        ends_a_number(r1),
        ends_a_number(r2),
    ensures
        v == w,
        r1 == r2,
{
    let minus = seq!['-'];
    let whole = signed_decimal_text(v) + r1;
    if v >= 0 {
        lemma_decimal_digits(v as nat);
        assert(whole[0] == decimal_text(v as nat)[0]);
    } else {
        lemma_decimal_digits((-v) as nat);
        assert(whole[0] == '-');
    }
    if w >= 0 {
        lemma_decimal_digits(w as nat);
        assert((signed_decimal_text(w) + r2)[0] == decimal_text(w as nat)[0]);
    } else {
        lemma_decimal_digits((-w) as nat);
        assert((signed_decimal_text(w) + r2)[0] == '-');
    }
    if v >= 0 {
        assert(w >= 0);
        lemma_decimal_unique(v as nat, r1, w as nat, r2);
    } else {
        assert(w < 0);
        let a = decimal_text((-v) as nat);
        let b = decimal_text((-w) as nat);
        assert(minus + a + r1 =~= minus + (a + r1));
        assert(minus + b + r2 =~= minus + (b + r2));
        lemma_same_prefix(minus, a + r1, b + r2);
        lemma_decimal_unique((-v) as nat, r1, (-w) as nat, r2);
    }
}

/// The escape of a character never begins with a quote.
pub proof fn lemma_escape_is_no_quote(c: char)
    ensures
        json_escape(c).len() > 0,
        json_escape(c)[0] != '"',
{
}

/// A character can be read back from its escape: where the escapes of two
/// characters, each followed by some text, make the same text, the
/// characters are equal, and so is what follows them.
pub proof fn lemma_escape_unique(c1: char, r1: Seq<char>, c2: char, r2: Seq<char>)
    requires
        json_escape(c1) + r1 == json_escape(c2) + r2,
    ensures
        c1 == c2,
        r1 == r2,
{
    let e1 = json_escape(c1);
    let e2 = json_escape(c2);
    let whole = e1 + r1;
    assert(whole[0] == e1[0]);
    assert((e2 + r2)[0] == e2[0]);
    if e1[0] == '\\' {
        assert(e1.len() >= 2 && e2.len() >= 2);
        assert(whole[1] == e1[1]);
        assert((e2 + r2)[1] == e2[1]);
        if e1[1] == 'u' {
            assert(e1.len() == 6 && e2.len() == 6);
            assert(whole[4] == e1[4]);
            assert((e2 + r2)[4] == e2[4]);
            assert(whole[5] == e1[5]);
            assert((e2 + r2)[5] == e2[5]);
            let h1 = (c1 as u32 / 16) as nat;
            let h2 = (c2 as u32 / 16) as nat;
            let l1 = (c1 as u32 % 16) as nat;
            let l2 = (c2 as u32 % 16) as nat;
            assert(hex_char(h1) == hex_char(h2));
            assert(hex_char(l1) == hex_char(l2));
            assert(h1 == h2);
            assert(l1 == l2);
            assert(c1 as u32 == c2 as u32);
        }
    }
    assert(c1 == c2);
    lemma_same_prefix(e1, r1, r2);
}

/// A text can be read back from its escaped form and the quote that closes
/// it.
pub proof fn lemma_escaped_unique(s1: Seq<char>, r1: Seq<char>, s2: Seq<char>, r2: Seq<char>)
    requires
        json_escaped(s1) + seq!['"'] + r1 == json_escaped(s2) + seq!['"'] + r2,
    ensures
        s1 == s2,
        r1 == r2,
    decreases s1.len(),
{
    let quote = seq!['"'];
    let left = json_escaped(s1) + quote + r1;
    let right = json_escaped(s2) + quote + r2;
    if s1.len() == 0 {
        assert(left =~= quote + r1);
        if s2.len() == 0 {
            assert(right =~= quote + r2);
            lemma_same_prefix(quote, r1, r2);
            assert(s1 =~= s2);
        } else {
            lemma_escape_is_no_quote(s2[0]);
            assert(right[0] == json_escape(s2[0])[0]);
            assert(left[0] == '"');
            assert(false);
        }
    } else {
        let tail1 = json_escaped(s1.drop_first()) + quote + r1;
        assert(left =~= json_escape(s1[0]) + tail1);
        if s2.len() == 0 {
            assert(right =~= quote + r2);
            lemma_escape_is_no_quote(s1[0]);
            assert(left[0] == json_escape(s1[0])[0]);
            assert(right[0] == '"');
            assert(false);
        } else {
            let tail2 = json_escaped(s2.drop_first()) + quote + r2;
            assert(right =~= json_escape(s2[0]) + tail2);
            lemma_escape_unique(s1[0], tail1, s2[0], tail2);
            lemma_escaped_unique(s1.drop_first(), r1, s2.drop_first(), r2);
            assert(s1 =~= seq![s1[0]] + s1.drop_first());
            assert(s2 =~= seq![s2[0]] + s2.drop_first());
        }
    }
}

/// A text can be read back from the JSON string literal that it begins:
/// where the literals of two texts, each followed by some text, make the
/// same text, the two are equal, and so is what follows them.
pub proof fn lemma_json_string_unique(s1: Seq<char>, r1: Seq<char>, s2: Seq<char>, r2: Seq<char>)
    requires
        json_string_text(s1) + r1 == json_string_text(s2) + r2,
    ensures
        s1 == s2,
        r1 == r2,
{
    let quote = seq!['"'];
    let rest1 = json_escaped(s1) + quote + r1;
    let rest2 = json_escaped(s2) + quote + r2;
    assert(json_string_text(s1) + r1 =~= quote + rest1);
    assert(json_string_text(s2) + r2 =~= quote + rest2);
    lemma_same_prefix(quote, rest1, rest2);
    lemma_escaped_unique(s1, r1, s2, r2);
}

#[verifier::external_type_specification]
#[verifier::external_body]
pub struct ExJsonError(serde_json::Error);

/// Calls `serde_json::to_string` on a string slice.
///
/// Trusted: the call succeeds, and the text returned is the JSON string
/// literal for `s`. The serializer writes into a byte vector, whose writes
/// do not fail, and a string slice has no other way to an error. It puts
/// the text between double quotes and escapes, by its table of 256 bytes,
/// the quote, the backslash and the bytes below 0x20: `\b`, `\t`, `\n`,
/// `\f` and `\r` for the five that have a short form, `\u00` and two
/// lower-case hexadecimal digits for the others. Every other byte, and so
/// every character of more than one byte, is written as it is.
#[verifier::external_body]
pub(crate) fn json_string(s: &str) -> (r: Result<String, serde_json::Error>)
    ensures
        r is Ok,
        r matches Ok(t) ==> t@ == json_string_text(s@),
{
    serde_json::to_string(s)
}

/// Appends the JSON string literal for `s` to `out`.
pub fn push_json_string(out: &mut String, s: &str)
    ensures
        final(out)@ == old(out)@ + json_string_text(s@),
{
    match json_string(s) {
        Ok(t) => {
            out.append(t.as_str());
        },
        Err(_) => {},
    }
}

} // verus!
