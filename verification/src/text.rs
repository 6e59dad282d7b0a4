//! Small text-building blocks shared by the renderers and parsers: appending
//! single characters and decimal digits to a `String`, joining parts with a
//! separator, and the substring predicate the redaction statements use.

use vstd::prelude::*;

verus! {

/// Relies on `String::push`: appends exactly the one given character.
#[verifier::external_body]
pub(crate) fn push_char(s: &mut String, c: char)
    ensures
        final(s)@ == old(s)@.push(c),
{
    s.push(c);
}

/// True when `needle` occurs contiguously inside `hay`.
pub open spec fn contains_seq(hay: Seq<char>, needle: Seq<char>) -> bool {
    exists|i: int|
        0 <= i && i + needle.len() <= hay.len() && #[trigger] hay.subrange(i, i + needle.len())
            == needle
}

/// The character for a single decimal digit.
pub open spec fn digit_char(d: nat) -> char {
    if d == 0 {
        '0'
    } else if d == 1 {
        '1'
    } else if d == 2 {
        '2'
    } else if d == 3 {
        '3'
    } else if d == 4 {
        '4'
    } else if d == 5 {
        '5'
    } else if d == 6 {
        '6'
    } else if d == 7 {
        '7'
    } else if d == 8 {
        '8'
    } else {
        '9'
    }
}

pub(crate) fn digit_char_of(d: u64) -> (c: char)
    requires
        d < 10,
    ensures
        c == digit_char(d as nat),
{
    if d == 0 {
        '0'
    } else if d == 1 {
        '1'
    } else if d == 2 {
        '2'
    } else if d == 3 {
        '3'
    } else if d == 4 {
        '4'
    } else if d == 5 {
        '5'
    } else if d == 6 {
        '6'
    } else if d == 7 {
        '7'
    } else if d == 8 {
        '8'
    } else {
        '9'
    }
}

/// The character for a single hexadecimal digit, lowercase.
pub open spec fn hex_char(d: nat) -> char {
    if d < 10 {
        digit_char(d)
    } else if d == 10 {
        'a'
    } else if d == 11 {
        'b'
    } else if d == 12 {
        'c'
    } else if d == 13 {
        'd'
    } else if d == 14 {
        'e'
    } else {
        'f'
    }
}

pub(crate) fn hex_char_of(d: u64) -> (c: char)
    requires
        d < 16,
    ensures
        c == hex_char(d as nat),
{
    if d < 10 {
        digit_char_of(d)
    } else if d == 10 {
        'a'
    } else if d == 11 {
        'b'
    } else if d == 12 {
        'c'
    } else if d == 13 {
        'd'
    } else if d == 14 {
        'e'
    } else {
        'f'
    }
}

/// The decimal digits of `n`, most significant first, without leading zeros
/// (the single digit `0` for zero).
pub open spec fn nat_digits(n: nat) -> Seq<char>
    decreases n,
{
    if n < 10 {
        seq![digit_char(n)]
    } else {
        nat_digits(n / 10).push(digit_char(n % 10))
    }
}

/// Appends the decimal rendering of `n` to `s`.
pub(crate) fn append_u64(s: &mut String, n: u64)
    ensures
        final(s)@ == old(s)@ + nat_digits(n as nat),
    decreases n,
{
    if n < 10 {
        push_char(s, digit_char_of(n));
        proof {
            assert(s@ =~= old(s)@ + nat_digits(n as nat));
        }
    } else {
        append_u64(s, n / 10);
        push_char(s, digit_char_of(n % 10));
        proof {
            assert(s@ =~= old(s)@ + nat_digits(n as nat));
        }
    }
}

/// Character-for-character string equality.
pub(crate) fn str_eq(a: &str, b: &str) -> (r: bool)
    ensures
        r == (a@ == b@),
{
    let n = a.unicode_len();
    if n != b.unicode_len() {
        return false;
    }
    for i in 0..n
        invariant
            n == a@.len(),
            n == b@.len(),
            forall|j: int| 0 <= j < i ==> a@[j] == #[trigger] b@[j],
    {
        if a.get_char(i) != b.get_char(i) {
            return false;
        }
    }
    proof {
        assert(a@ =~= b@);
    }
    true
}

/// The parts joined with `sep` between neighbours; empty for no parts.
pub open spec fn join_texts(parts: Seq<Seq<char>>, sep: Seq<char>) -> Seq<char>
    decreases parts.len(),
{
    if parts.len() == 0 {
        Seq::empty()
    } else if parts.len() == 1 {
        parts[0]
    } else {
        join_texts(parts.drop_last(), sep) + sep + parts.last()
    }
}

/// The views of a vector of strings.
pub open spec fn views_of(parts: Seq<String>) -> Seq<Seq<char>> {
    parts.map_values(|p: String| p@)
}

/// Joins the given strings with `sep` between neighbours.
pub(crate) fn join_with(parts: &Vec<String>, sep: &str) -> (r: String)
    ensures
        r@ == join_texts(views_of(parts@), sep@),
{
    let mut acc = String::new();
    let n = parts.len();
    for i in 0..n
        invariant
            n == parts@.len(),
            acc@ == join_texts(views_of(parts@).take(i as int), sep@),
    {
        if i > 0 {
            acc.append(sep);
        }
        acc.append(parts[i].as_str());
        proof {
            let vs = views_of(parts@);
            assert(vs.take(i + 1).drop_last() =~= vs.take(i as int));
            assert(vs.take(i + 1).last() == vs[i as int]);
        }
    }
    proof {
        assert(views_of(parts@).take(n as int) =~= views_of(parts@));
    }
    acc
}

/// The JSON string-escape of one character: quote and backslash get a
/// backslash, control characters become `\u00XX`, everything else stands
/// as it is.
pub open spec fn esc_char(c: char) -> Seq<char> {
    if c == '"' {
        seq!['\\', '"']
    } else if c == '\\' {
        seq!['\\', '\\']
    } else if (c as u32) < 32 {
        seq!['\\', 'u', '0', '0', hex_char((c as u32 / 16) as nat), hex_char((c as u32 % 16) as nat)]
    } else {
        seq![c]
    }
}

/// The JSON string-escape of a whole text.
pub open spec fn json_escaped(s: Seq<char>) -> Seq<char>
    decreases s.len(),
{
    if s.len() == 0 {
        Seq::empty()
    } else {
        json_escaped(s.drop_last()) + esc_char(s.last())
    }
}

/// Appends the JSON string-escape of `raw` to `out`.
pub(crate) fn append_escaped(out: &mut String, raw: &str)
    ensures
        final(out)@ == old(out)@ + json_escaped(raw@),
{
    let n = raw.unicode_len();
    proof {
        assert(raw@.take(0) =~= Seq::<char>::empty());
        assert(out@ =~= out@ + json_escaped(raw@.take(0)));
    }
    for i in 0..n
        invariant
            n == raw@.len(),
            out@ == old(out)@ + json_escaped(raw@.take(i as int)),
    {
        let c = raw.get_char(i);
        proof {
            assert(raw@.take(i + 1).drop_last() =~= raw@.take(i as int));
            assert(raw@.take(i + 1).last() == c);
        }
        if c == '"' {
            out.append("\\\"");
        } else if c == '\\' {
            out.append("\\\\");
        } else if (c as u32) < 32 {
            out.append("\\u00");
            push_char(out, hex_char_of((c as u32 / 16) as u64));
            push_char(out, hex_char_of((c as u32 % 16) as u64));
        } else {
            push_char(out, c);
        }
        proof {
            if c == '"' {
                reveal_strlit("\\\"");
                assert("\\\""@ =~= esc_char(c));
            }
            if c == '\\' {
                reveal_strlit("\\\\");
                assert("\\\\"@ =~= esc_char(c));
            }
            if c != '"' && c != '\\' && (c as u32) < 32 {
                reveal_strlit("\\u00");
            }
            assert(out@ =~= old(out)@ + json_escaped(raw@.take(i + 1)));
        }
    }
    proof {
        assert(raw@.take(n as int) =~= raw@);
    }
}

/// Strict lexicographic order on texts, by character scalar value.
pub open spec fn lex_lt(a: Seq<char>, b: Seq<char>) -> bool
    decreases a.len() + b.len(),
{
    if b.len() == 0 {
        false
    } else if a.len() == 0 {
        true
    } else if a[0] != b[0] {
        (a[0] as u32) < (b[0] as u32)
    } else {
        lex_lt(a.drop_first(), b.drop_first())
    }
}

/// Strict lexicographic comparison of two strings.
pub(crate) fn str_lt(a: &str, b: &str) -> (r: bool)
    ensures
        r == lex_lt(a@, b@),
{
    let an = a.unicode_len();
    let bn = b.unicode_len();
    let min = if an < bn {
        an
    } else {
        bn
    };
    proof {
        assert(a@.skip(0) =~= a@);
        assert(b@.skip(0) =~= b@);
    }
    for i in 0..min
        invariant
            an == a@.len(),
            bn == b@.len(),
            min == if an < bn {
                an
            } else {
                bn
            },
            lex_lt(a@, b@) == lex_lt(a@.skip(i as int), b@.skip(i as int)),
    {
        let ca = a.get_char(i);
        let cb = b.get_char(i);
        proof {
            assert(a@.skip(i as int)[0] == ca);
            assert(b@.skip(i as int)[0] == cb);
            assert(a@.skip(i as int).drop_first() =~= a@.skip(i + 1));
            assert(b@.skip(i as int).drop_first() =~= b@.skip(i + 1));
        }
        if ca != cb {
            return (ca as u32) < (cb as u32);
        }
    }
    proof {
        if an < bn {
            assert(a@.skip(min as int).len() == 0);
        } else {
            assert(b@.skip(min as int).len() == 0);
        }
    }
    an < bn
}

} // verus!
