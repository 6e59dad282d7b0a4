//! The price parser. The remote service sends fees as formatted decimal
//! strings that may contain thousands-separator commas (`"1,234.50"`). The
//! parser strips every comma and reads the rest as a plain base-10 decimal
//! literal into an exact fixed-point amount; anything else is refused with
//! the raw string carried in the error.

use crate::text::digit_char_of;
use crate::ParseError;
use vstd::prelude::*;

verus! {

/// An exact decimal amount: all digits of the amount read as one integer,
/// with the lowest `scale` digits behind the decimal point.
#[derive(Debug, Clone, Copy, PartialEq, Eq, Structural)]
pub struct Price {
    /// Every decimal digit of the amount, read as an integer.
    pub mantissa: u64,
    /// How many of the mantissa's low digits lie behind the decimal point.
    pub scale: usize,
}

/// True for the ten decimal digit characters.
pub open spec fn is_digit(c: char) -> bool {
    '0' <= c && c <= '9'
}

/// The numeric value of a decimal digit character.
pub open spec fn digit_val(c: char) -> nat {
    (c as u32 - '0' as u32) as nat
}

/// `s` with every comma removed.
pub open spec fn strip_commas(s: Seq<char>) -> Seq<char>
    decreases s.len(),
{
    if s.len() == 0 {
        Seq::empty()
    } else {
        let rest = strip_commas(s.drop_last());
        if s.last() == ',' {
            rest
        } else {
            rest.push(s.last())
        }
    }
}

/// Every character is a digit or a decimal point.
pub open spec fn all_price_chars(s: Seq<char>) -> bool {
    forall|i: int| 0 <= i < s.len() ==> is_digit(#[trigger] s[i]) || s[i] == '.'
}

/// How many decimal points `s` holds.
pub open spec fn dot_count(s: Seq<char>) -> nat
    decreases s.len(),
{
    if s.len() == 0 {
        0
    } else {
        dot_count(s.drop_last()) + (if s.last() == '.' {
            1nat
        } else {
            0
        })
    }
}

/// The digit characters of `s`, in order.
pub open spec fn price_digits(s: Seq<char>) -> Seq<char>
    decreases s.len(),
{
    if s.len() == 0 {
        Seq::empty()
    } else {
        let rest = price_digits(s.drop_last());
        if is_digit(s.last()) {
            rest.push(s.last())
        } else {
            rest
        }
    }
}

/// The number a digit string denotes in base 10.
pub open spec fn digits_value(ds: Seq<char>) -> nat
    decreases ds.len(),
{
    if ds.len() == 0 {
        0
    } else {
        digits_value(ds.drop_last()) * 10 + digit_val(ds.last())
    }
}

/// How many characters stand strictly after the first decimal point.
pub open spec fn frac_len(s: Seq<char>) -> nat
    decreases s.len(),
{
    if s.len() == 0 {
        0
    } else if dot_count(s.drop_last()) > 0 {
        frac_len(s.drop_last()) + 1
    } else {
        0
    }
}

/// A well-formed decimal literal, after comma stripping: only digits and at
/// most one decimal point, with at least one digit.
pub open spec fn is_price_literal(s: Seq<char>) -> bool {
    all_price_chars(s) && dot_count(s) <= 1 && price_digits(s).len() >= 1
}

/// The mantissa a well-formed literal denotes.
pub open spec fn price_mantissa(s: Seq<char>) -> nat {
    digits_value(price_digits(s))
}

/// The scale a well-formed literal denotes.
pub open spec fn price_scale(s: Seq<char>) -> nat {
    frac_len(s)
}

/// True when the raw string parses as a price the library can hold.
pub open spec fn price_ok(s: Seq<char>) -> bool {
    is_price_literal(strip_commas(s)) && price_mantissa(strip_commas(s)) <= u64::MAX
}

/// True when `p` is exactly the amount the raw string denotes.
pub open spec fn price_matches(s: Seq<char>, p: Price) -> bool {
    p.mantissa == price_mantissa(strip_commas(s)) && p.scale == price_scale(strip_commas(s))
}

proof fn lemma_strip_take_prefix(s: Seq<char>, k: int)
    requires
        0 <= k <= s.len(),
    ensures
        strip_commas(s.take(k)).is_prefix_of(strip_commas(s)),
    decreases s.len() - k,
{
    if k == s.len() {
        assert(s.take(k) =~= s);
    } else {
        lemma_strip_take_prefix(s, k + 1);
        assert(s.take(k + 1).drop_last() =~= s.take(k));
        let a = strip_commas(s.take(k));
        let b = strip_commas(s.take(k + 1));
        let c = strip_commas(s);
        assert(a.is_prefix_of(b));
        assert(a =~= c.subrange(0, a.len() as int));
    }
}

proof fn lemma_price_parts_prefix(a: Seq<char>, b: Seq<char>)
    requires
        a.is_prefix_of(b),
    ensures
        dot_count(a) <= dot_count(b),
        price_digits(a).is_prefix_of(price_digits(b)),
        a.len() > 0 && !(is_digit(a.last()) || a.last() == '.') ==> !all_price_chars(b),
    decreases b.len(),
{
    if a.len() == b.len() {
        assert(a =~= b);
        assert(price_digits(a).is_prefix_of(price_digits(a)));
        if a.len() > 0 && !(is_digit(a.last()) || a.last() == '.') {
            assert(b[b.len() - 1] == a.last());
        }
    } else {
        assert(a.is_prefix_of(b.drop_last())) by {
            assert(a =~= b.drop_last().subrange(0, a.len() as int));
        }
        lemma_price_parts_prefix(a, b.drop_last());
        let pa = price_digits(a);
        let pb = price_digits(b);
        assert(pa =~= pb.subrange(0, pa.len() as int));
        if a.len() > 0 && !(is_digit(a.last()) || a.last() == '.') {
            let i = a.len() - 1;
            assert(b[i] == a.last());
        }
    }
}

proof fn lemma_digits_value_prefix(a: Seq<char>, b: Seq<char>)
    requires
        a.is_prefix_of(b),
    ensures
        digits_value(a) <= digits_value(b),
    decreases b.len(),
{
    if a.len() == b.len() {
        assert(a =~= b);
    } else {
        assert(a.is_prefix_of(b.drop_last())) by {
            assert(a =~= b.drop_last().subrange(0, a.len() as int));
        }
        lemma_digits_value_prefix(a, b.drop_last());
    }
}

/// Parses a formatted price string: strips every comma, then reads the rest
/// as a base-10 decimal literal, exactly. Fails with [`ParseError`] carrying
/// the raw string if and only if the stripped string is not a well-formed
/// literal (empty, several decimal points, a stray character) or its digits
/// exceed what a `u64` mantissa can hold.
pub fn parse_price(raw: &str) -> (r: Result<Price, ParseError>)
    ensures
        r is Ok <==> is_price_literal(strip_commas(raw@)) && price_mantissa(strip_commas(raw@))
            <= u64::MAX,
        r matches Ok(p) ==> p.mantissa == price_mantissa(strip_commas(raw@)) && p.scale
            == price_scale(strip_commas(raw@)),
        r matches Err(e) ==> e.raw@ == raw@,
{
    let n = raw.unicode_len();
    let mut mantissa: u64 = 0;
    let mut scale: usize = 0;
    let mut seen_dot = false;
    let mut ndigits: usize = 0;
    let ghost full = raw@;
    proof {
        assert(full.take(0) =~= Seq::<char>::empty());
    }
    for i in 0..n
        invariant
            n == full.len(),
            full == raw@,
            scale <= i,
            ndigits <= i,
            all_price_chars(strip_commas(full.take(i as int))),
            dot_count(strip_commas(full.take(i as int))) == if seen_dot {
                1nat
            } else {
                0nat
            },
            price_digits(strip_commas(full.take(i as int))).len() == ndigits,
            digits_value(price_digits(strip_commas(full.take(i as int)))) == mantissa,
            frac_len(strip_commas(full.take(i as int))) == scale,
    {
        let c = raw.get_char(i);
        let ghost pre = strip_commas(full.take(i as int));
        let ghost post = strip_commas(full.take(i + 1));
        proof {
            assert(full.take(i + 1).drop_last() =~= full.take(i as int));
            assert(full.take(i + 1).last() == c);
            if c != ',' {
                assert(post == pre.push(c));
                assert(pre.push(c).drop_last() =~= pre);
                assert(pre.push(c).last() == c);
            }
        }
        if c == ',' {
            // strip_commas drops it: nothing changes.
        } else if c == '.' {
            if seen_dot {
                proof {
                    lemma_strip_take_prefix(full, i + 1);
                    lemma_price_parts_prefix(post, strip_commas(full));
                }
                return Err(ParseError { raw: String::from_str(raw) });
            }
            seen_dot = true;
        } else if '0' <= c && c <= '9' {
            let d: u64 = (c as u32 - '0' as u32) as u64;
            proof {
                let ds = price_digits(pre);
                assert(price_digits(post) == ds.push(c));
                assert(ds.push(c).drop_last() =~= ds);
                assert(ds.push(c).last() == c);
                assert(digit_val(c) == d);
                assert(digits_value(price_digits(post)) == mantissa * 10 + d);
            }
            if mantissa > (u64::MAX - d) / 10 {
                proof {
                    lemma_strip_take_prefix(full, i + 1);
                    lemma_price_parts_prefix(post, strip_commas(full));
                    lemma_digits_value_prefix(
                        price_digits(post),
                        price_digits(strip_commas(full)),
                    );
                    assert(digits_value(price_digits(post)) == mantissa * 10 + d);
                }
                return Err(ParseError { raw: String::from_str(raw) });
            }
            mantissa = mantissa * 10 + d;
            if seen_dot {
                scale = scale + 1;
            }
            ndigits = ndigits + 1;
        } else {
            proof {
                lemma_strip_take_prefix(full, i + 1);
                lemma_price_parts_prefix(post, strip_commas(full));
            }
            return Err(ParseError { raw: String::from_str(raw) });
        }
    }
    proof {
        assert(full.take(n as int) =~= full);
    }
    if ndigits == 0 {
        return Err(ParseError { raw: String::from_str(raw) });
    }
    Ok(Price { mantissa, scale })
}

/// `k` zero characters.
pub open spec fn zero_chars(k: nat) -> Seq<char> {
    Seq::new(k, |i: int| '0')
}

/// `s` without its trailing zero characters.
pub open spec fn trim_zeros(s: Seq<char>) -> Seq<char>
    decreases s.len(),
{
    if s.len() > 0 && s.last() == '0' {
        trim_zeros(s.drop_last())
    } else {
        s
    }
}

/// The text of a price: the mantissa's digits, padded with leading zeros
/// until one digit stands before the decimal point, the point inserted, and
/// the fraction's trailing zeros dropped — the point too when nothing
/// follows it.
pub open spec fn price_text(m: nat, scale: nat) -> Seq<char> {
    let ds = crate::text::nat_digits(m);
    let padded = if ds.len() >= scale + 1 {
        ds
    } else {
        zero_chars((scale + 1 - ds.len()) as nat) + ds
    };
    let int_part = padded.take(padded.len() - scale);
    let frac = trim_zeros(padded.skip(padded.len() - scale));
    if frac.len() == 0 {
        int_part
    } else {
        int_part + seq!['.'] + frac
    }
}

fn push_digits(v: &mut Vec<char>, n: u64)
    ensures
        final(v)@ == old(v)@ + crate::text::nat_digits(n as nat),
    decreases n,
{
    if n < 10 {
        v.push(digit_char_of(n));
        proof {
            assert(v@ =~= old(v)@ + crate::text::nat_digits(n as nat));
        }
    } else {
        push_digits(v, n / 10);
        v.push(digit_char_of(n % 10));
        proof {
            assert(v@ =~= old(v)@ + crate::text::nat_digits(n as nat));
        }
    }
}

impl Price {
    /// The user-facing text of this amount.
    #[verifier::rlimit(60)]
    pub fn render(&self) -> (r: String)
        ensures
            r@ == price_text(self.mantissa as nat, self.scale as nat),
    {
        let mut ds: Vec<char> = Vec::new();
        push_digits(&mut ds, self.mantissa);
        proof {
            assert(ds@ =~= crate::text::nat_digits(self.mantissa as nat));
        }
        let mut padded: Vec<char> = Vec::new();
        if ds.len() <= self.scale {
            let pad = self.scale - ds.len() + 1;
            for k in 0..pad
                invariant
                    padded@ =~= zero_chars(k as nat),
            {
                padded.push('0');
                proof {
                    assert(padded@ =~= zero_chars((k + 1) as nat));
                }
            }
        }
        let npad = padded.len();
        for k in 0..ds.len()
            invariant
                padded@ =~= zero_chars(npad as nat) + ds@.take(k as int),
        {
            padded.push(ds[k]);
            proof {
                assert(padded@ =~= zero_chars(npad as nat) + ds@.take(k + 1));
            }
        }
        proof {
            assert(ds@.take(ds@.len() as int) =~= ds@);
            if npad == 0 {
                assert(padded@ =~= ds@);
            }
        }
        let int_len = padded.len() - self.scale;
        let ghost frac_full = padded@.skip(int_len as int);
        let mut frac_end = padded.len();
        while frac_end > int_len && *padded.get(frac_end - 1).unwrap() == '0'
            invariant
                int_len <= frac_end <= padded@.len(),
                int_len == padded@.len() - self.scale,
                trim_zeros(frac_full) == trim_zeros(padded@.subrange(int_len as int, frac_end as int)),
            decreases frac_end,
        {
            proof {
                let cur = padded@.subrange(int_len as int, frac_end as int);
                assert(cur.drop_last() =~= padded@.subrange(int_len as int, frac_end - 1));
            }
            frac_end = frac_end - 1;
        }
        proof {
            let cur = padded@.subrange(int_len as int, frac_end as int);
            assert(trim_zeros(cur) == cur);
        }
        let mut r = String::new();
        for k in 0..int_len
            invariant
                int_len <= padded@.len(),
                r@ =~= padded@.take(k as int),
        {
            crate::text::push_char(&mut r, padded[k]);
            proof {
                assert(r@ =~= padded@.take(k + 1));
            }
        }
        if frac_end > int_len {
            crate::text::push_char(&mut r, '.');
            for k in int_len..frac_end
                invariant
                    int_len <= k <= frac_end <= padded@.len(),
                    r@ =~= padded@.take(int_len as int) + seq!['.'] + padded@.subrange(
                        int_len as int,
                        k as int,
                    ),
            {
                crate::text::push_char(&mut r, padded[k]);
                proof {
                    assert(r@ =~= padded@.take(int_len as int) + seq!['.'] + padded@.subrange(
                        int_len as int,
                        k + 1,
                    ));
                }
            }
        }
        proof {
            let m = self.mantissa as nat;
            let scale = self.scale as nat;
            let sds = crate::text::nat_digits(m);
            let spadded = if sds.len() >= scale + 1 {
                sds
            } else {
                zero_chars((scale + 1 - sds.len()) as nat) + sds
            };
            assert(padded@ =~= spadded);
            assert(frac_full == spadded.skip(spadded.len() - scale));
            if frac_end > int_len {
                assert(r@ =~= price_text(m, scale));
            } else {
                assert(trim_zeros(frac_full).len() == 0);
                assert(r@ =~= price_text(m, scale));
            }
        }
        r
    }
}

} // verus!
