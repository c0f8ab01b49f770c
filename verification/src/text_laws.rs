//! What holds of text: order, case, numbers, lines.

use crate::text::{
    at, bytes_lt, dec, digits_value, ends_with, find, is_digit, is_space, law_find_is_first, lines,
    lower, parse_number, starts_with, upper,
};
use crate::bytes::{
    get16, group_le_len, le16, lemma_le16_round_trip, lemma_units_le_len, units_le, utf16,
    utf16_char, utf16_nul_bytes,
};
use vstd::prelude::*;

verus! {

/// The first difference decides the order; a text comes before every longer one
/// that begins with it.
pub proof fn law_first_difference_decides(a: Seq<u8>, b: Seq<u8>, k: int)
    requires
        0 <= k <= a.len(),
        k <= b.len(),
        forall|i: int| 0 <= i < k ==> #[trigger] a[i] == b[i],
    ensures
        k < a.len() && k < b.len() && a[k] < b[k] ==> bytes_lt(a, b) && !bytes_lt(b, a),
        k == a.len() && k < b.len() ==> bytes_lt(a, b) && !bytes_lt(b, a),
        k == a.len() && k == b.len() ==> !bytes_lt(a, b),
    decreases k,
{
    if k > 0 {
        let x = a.drop_first();
        let y = b.drop_first();
        assert(a[0] == b[0]);
        assert forall|i: int| 0 <= i < k - 1 implies #[trigger] x[i] == y[i] by {
            assert(a[i + 1] == b[i + 1]);
        }
        law_first_difference_decides(x, y, k - 1);
    }
}

/// Lower and upper case change letters of ASCII, by 32, and nothing else.
pub proof fn law_case(s: Seq<char>, i: int)
    requires
        0 <= i < s.len(),
    ensures
        lower(s).len() == s.len(),
        upper(s).len() == s.len(),
        'A' <= s[i] <= 'Z' ==> lower(s)[i] as int == s[i] as int + 32,
        !('A' <= s[i] <= 'Z') ==> lower(s)[i] == s[i],
        'a' <= s[i] <= 'z' ==> upper(s)[i] as int == s[i] as int - 32,
        !('a' <= s[i] <= 'z') ==> upper(s)[i] == s[i],
{
}

/// What is read as a number: digits, of which each further one counts a tenth of
/// those in front of it, with or without a plus sign; nothing above the limit.
#[verifier::rlimit(40)]
pub proof fn law_numbers(s: Seq<char>, c: char, limit: int)
    ensures
        parse_number(seq![], limit) is None,
        s.len() > 0 && s[0] != '+' ==> parse_number(seq!['+'] + s, limit) == parse_number(s, limit),
        is_digit(c) && c as int - 48 <= limit ==> parse_number(seq![c], limit) == Some(
            c as int - 48,
        ),
        is_digit(c) && parse_number(s, limit) is Some ==> {
            let n = 10 * parse_number(s, limit)->0 + (c as int - 48);
            &&& n <= limit ==> parse_number(s.push(c), limit) == Some(n)
            &&& n > limit ==> parse_number(s.push(c), limit) is None
        },
        !is_digit(c) && s.len() > 0 ==> parse_number(s.push(c), limit) is None,
{
    let e = Seq::<char>::empty();
    if s.len() > 0 {
        let p = seq!['+'] + s;
        assert(p.drop_first() =~= s);
    }
    assert(seq![c].drop_last() =~= e);
    assert(digits_value(e) == 0);
    if is_digit(c) {
        assert(seq![c][0] != '+');
        assert(digits_value(seq![c]) == c as int - 48);
    }
    let t = s.push(c);
    if s.len() > 0 {
        assert(t[0] == s[0]);
        assert(t[s.len() as int] == c);
        if s[0] == '+' {
            let d = s.drop_first();
            assert(t.drop_first() =~= d.push(c));
            assert(d.push(c).drop_last() =~= d);
            assert(d.push(c)[d.len() as int] == c);
            assert forall|i: int| 0 <= i < d.len() implies #[trigger] d.push(c)[i] == d[i] by {}
        } else {
            assert(t.drop_last() =~= s);
        }
    }
}

/// What is read as no number stays none when digits are added, unless it is a
/// plus sign; a single character is a number only if it is a digit.
pub proof fn law_no_numbers(s: Seq<char>, c: char, limit: int)
    requires
        0 <= limit,
    ensures
        is_digit(c) <==> 48 <= c as int <= 57,
        !is_digit(c) ==> parse_number(seq![c], limit) is None,
        s.len() > 0 && s != seq!['+'] && parse_number(s, limit) is None ==> parse_number(
            s.push(c),
            limit,
        ) is None,
{
    let one = seq![c];
    assert(one[0] == c);
    assert(one.drop_first().len() == 0);
    let t = s.push(c);
    if s.len() > 0 && s != seq!['+'] && parse_number(s, limit) is None {
        assert(t[0] == s[0]);
        let d = if s[0] == '+' {
            s.drop_first()
        } else {
            s
        };
        if s[0] == '+' {
            if s.len() == 1 {
                assert(s =~= seq!['+']);
            }
            assert(t.drop_first() =~= d.push(c));
        } else {
            assert(t == d.push(c));
        }
        assert(d.len() > 0);
        assert(d.push(c).drop_last() =~= d);
        assert(d.push(c)[d.len() as int] == c);
        if crate::text::all_digits(d.push(c)) {
            assert forall|i: int| 0 <= i < d.len() implies is_digit(#[trigger] d[i]) by {
                assert(d.push(c)[i] == d[i]);
            }
            assert(is_digit(c));
            assert(digits_value(d) > limit);
        }
    }
}

/// The decimal digits of a number: those of a tenth of it, and one more.
pub proof fn law_decimal(n: nat, d: nat)
    requires
        d < 10,
    ensures
        dec(d).len() == 1 && dec(d)[0] as int == 48 + d,
        n > 0 ==> dec(10 * n + d) == dec(n) + dec(d),
{
    if n > 0 {
        let m = (10 * n + d) as nat;
        assert(m / 10 == n);
        assert(m % 10 == d);
        assert(dec(m) =~= dec(n) + dec(d));
    }
}

/// White space is what Unicode calls so.
pub proof fn law_white_space(c: char)
    ensures
        is_space(c) <==> {
            let v = c as int;
            ||| 9 <= v <= 13
            ||| v == 32
            ||| v == 0x85
            ||| v == 0xA0
            ||| v == 0x1680
            ||| 0x2000 <= v <= 0x200A
            ||| v == 0x2028
            ||| v == 0x2029
            ||| v == 0x202F
            ||| v == 0x205F
            ||| v == 0x3000
        },
{
}

/// A text begins with its prefix and ends with its suffix.
pub proof fn law_begins_and_ends(s: Seq<char>, part: Seq<char>)
    ensures
        starts_with(s, part) <==> exists|rest: Seq<char>| s == part + rest,
        ends_with(s, part) <==> exists|front: Seq<char>| s == front + part,
{
    let n = part.len() as int;
    if starts_with(s, part) {
        assert(s =~= part + s.skip(n));
    }
    if exists|rest: Seq<char>| s == part + rest {
        let rest = choose|rest: Seq<char>| s == part + rest;
        assert((part + rest).subrange(0, n) =~= part);
    }
    let k = s.len() - n;
    if ends_with(s, part) {
        assert(s =~= s.take(k) + part);
    }
    if exists|front: Seq<char>| s == front + part {
        let front = choose|front: Seq<char>| s == front + part;
        assert((front + part).subrange(k, s.len() as int) =~= part);
    }
}

/// Lines end in a line feed, with or without a carriage return in front of it;
/// the last one needs no ending, and an empty text has no line.
#[verifier::rlimit(40)]
pub proof fn law_lines(line: Seq<char>, rest: Seq<char>)
    requires
        !line.contains('\n'),
    ensures
        lines(seq![]).len() == 0,
        line.len() > 0 ==> lines(line) == seq![line],
        line.len() == 0 || line.last() != '\r' ==> lines(line + seq!['\n'] + rest) == seq![line]
            + lines(rest),
        lines(line + seq!['\r', '\n'] + rest) == seq![line] + lines(rest),
{
    let nl = seq!['\n'];
    let a = line + seq!['\n'] + rest;
    let b = line + seq!['\r', '\n'] + rest;
    let n = line.len() as int;
    lemma_find_newline(a, n);
    lemma_find_newline(b, n + 1);
    assert(a.take(n) =~= line);
    assert(a.skip(n + 1) =~= rest);
    assert(b.take(n + 1) =~= line.push('\r'));
    assert(line.push('\r').drop_last() =~= line);
    assert(b.skip(n + 2) =~= rest);
    law_find_is_first(line, nl);
    if find(line, nl) is Some {
        let k = find(line, nl)->0;
        assert(line.subrange(k, k + 1)[0] == '\n');
        assert(line[k] == '\n');
    }
}

proof fn lemma_find_newline(s: Seq<char>, n: int)
    requires
        0 <= n < s.len(),
        s[n] == '\n',
        forall|i: int| 0 <= i < n ==> #[trigger] s[i] != '\n',
    ensures
        find(s, seq!['\n']) == Some(n),
{
    let nl = seq!['\n'];
    law_find_is_first(s, nl);
    assert(s.subrange(n, n + 1) =~= nl);
    assert(at(s, nl, n));
    let k = find(s, nl)->0;
    assert(s.subrange(k, k + 1)[0] == '\n');
    assert(s[k] == '\n');
    if k > n {
        assert(!at(s, nl, n));
    }
}

// ---- UTF-16 ------------------------------------------------------------------------

/// The code units of a character: itself, or a pair that gives its code point.
pub proof fn law_code_units(s: Seq<char>, c: char)
    ensures
        utf16(Seq::<char>::empty()).len() == 0,
        utf16(s.push(c)).take(utf16(s).len() as int) == utf16(s),
        (c as int) < 0x1_0000 ==> utf16(s.push(c)).len() == utf16(s).len() + 1 && utf16(
            s.push(c),
        ).last() == c as int,
        (c as int) >= 0x1_0000 ==> {
            let u = utf16(s.push(c));
            let hi = u[u.len() - 2];
            let lo = u[u.len() - 1];
            &&& u.len() == utf16(s).len() + 2
            &&& 0xD800 <= hi < 0xDC00
            &&& 0xDC00 <= lo < 0xE000
            &&& 0x1_0000 + (hi - 0xD800) * 0x400 + (lo - 0xDC00) == c as int
        },
{
    crate::bytes::lemma_char_range(c);
    assert(s.push(c).drop_last() =~= s);
    let u = utf16(s.push(c));
    assert(u == utf16(s) + utf16_char(c));
    assert(u.take(utf16(s).len() as int) =~= utf16(s));
}

/// Text as bytes: every code unit little-endian, and a zero behind the last.
pub proof fn law_utf16_bytes(s: Seq<char>, i: int)
    ensures
        ({
            let b = utf16_nul_bytes(s);
            let u = utf16(s);
            &&& b.len() == 2 * u.len() + 2
            &&& 0 <= i < u.len() ==> get16(b, 2 * i) == u[i]
            &&& get16(b, 2 * u.len() as int) == 0
        }),
{
    lemma_units_le_len(utf16(s));
    if 0 <= i < utf16(s).len() {
        lemma_unit(utf16(s), i);
    }
}

proof fn lemma_unit(u: Seq<u16>, i: int)
    requires
        0 <= i < u.len(),
    ensures
        get16(units_le(u), 2 * i) == u[i],
    decreases u.len(),
{
    broadcast use group_le_len;
    lemma_units_le_len(u);
    lemma_units_le_len(u.drop_last());
    let last = u.last() as int;
    if i < u.len() - 1 {
        lemma_unit(u.drop_last(), i);
        assert(units_le(u)[2 * i] == units_le(u.drop_last())[2 * i]);
        assert(units_le(u)[2 * i + 1] == units_le(u.drop_last())[2 * i + 1]);
    } else {
        lemma_le16_round_trip(last);
        assert(units_le(u)[2 * i] == le16(last)[0]);
        assert(units_le(u)[2 * i + 1] == le16(last)[1]);
    }
}

} // verus!
