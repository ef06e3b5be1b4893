//! Decimal numbers as command values carry them.
use vstd::prelude::*;

verus! {

pub open spec fn is_digit(c: u8) -> bool {
    0x30u8 <= c && c <= 0x39u8
}

pub open spec fn all_digits(s: Seq<u8>) -> bool {
    forall|i: int| 0 <= i < s.len() ==> is_digit(#[trigger] s[i])
}

/// The number that the decimal digits `s` write.
pub open spec fn digits_value(s: Seq<u8>) -> nat
    decreases s.len(),
{
    if s.len() == 0 {
        0
    } else {
        digits_value(s.drop_last()) * 10 + (s.last() - 0x30u8) as nat
    }
}

/// The digits after an optional leading `+`.
pub open spec fn unsigned_digits(s: Seq<u8>) -> Seq<u8> {
    if s.len() > 0 && s[0] == 0x2bu8 {
        s.drop_first()
    } else {
        s
    }
}

/// How the standard library reads an unsigned integer whose largest value is
/// `max`: an optional `+`, then at least one decimal digit, and no more than
/// `max`.
pub open spec fn parse_unsigned_spec(s: Seq<u8>, max: nat) -> Option<nat> {
    let d = unsigned_digits(s);
    if d.len() > 0 && all_digits(d) && digits_value(d) <= max {
        Some(digits_value(d))
    } else {
        None
    }
}

/// How the standard library reads an `i32`: an optional sign, then at least
/// one decimal digit, within the range of `i32`.
pub open spec fn parse_i32_spec(s: Seq<u8>) -> Option<int> {
    if s.len() > 0 && s[0] == 0x2du8 {
        let d = s.drop_first();
        if d.len() > 0 && all_digits(d) && digits_value(d) <= 0x8000_0000 {
            Some(-(digits_value(d) as int))
        } else {
            None
        }
    } else {
        match parse_unsigned_spec(s, 0x7fff_ffff) {
            Some(v) => Some(v as int),
            None => None,
        }
    }
}

/// How the standard library reads a signed integer whose range is
/// `-neg ..= pos`: an optional sign, then at least one decimal digit, within
/// the range.
pub open spec fn parse_signed_spec(s: Seq<u8>, neg: nat, pos: nat) -> Option<int> {
    if s.len() > 0 && s[0] == 0x2du8 {
        let d = s.drop_first();
        if d.len() > 0 && all_digits(d) && digits_value(d) <= neg {
            Some(-(digits_value(d) as int))
        } else {
            None
        }
    } else {
        match parse_unsigned_spec(s, pos) {
            Some(v) => Some(v as int),
            None => None,
        }
    }
}

/// The decimal digits of `n`, without leading zeros.
pub open spec fn decimal(n: nat) -> Seq<u8>
    decreases n,
{
    if n < 10 {
        seq![(0x30 + n) as u8]
    } else {
        decimal(n / 10).push((0x30 + n % 10) as u8)
    }
}

proof fn lemma_digits_value_grows(s: Seq<u8>, k: int)
    requires
        0 <= k <= s.len(),
        all_digits(s),
    ensures
        digits_value(s.take(k)) <= digits_value(s),
    decreases s.len(),
{
    if k < s.len() {
        assert(s.drop_last().take(k) =~= s.take(k));
        assert forall|i: int| 0 <= i < s.drop_last().len() implies is_digit(
            #[trigger] s.drop_last()[i],
        ) by {
            assert(s.drop_last()[i] == s[i]);
        }
        lemma_digits_value_grows(s.drop_last(), k);
    } else {
        assert(s.take(k) =~= s);
    }
}

/// Reads the digits `s[start..]` as a number no larger than `max`, or `None`
/// when a byte is not a digit, there is no digit, or the number is larger.
pub fn parse_digits(s: &[u8], start: usize, max: u64) -> (r: Option<u64>)
    requires
        start <= s.len(),
    ensures
        ({
            let d = s@.skip(start as int);
            match r {
                Some(v) => d.len() > 0 && all_digits(d) && digits_value(d) <= max && v
                    == digits_value(d),
                None => !(d.len() > 0 && all_digits(d) && digits_value(d) <= max),
            }
        }),
{
    let ghost d = s@.skip(start as int);
    if start == s.len() {
        return None;
    }
    let mut acc: u64 = 0;
    let mut i = start;
    while i < s.len()
        invariant
            start <= i <= s.len(),
            d == s@.skip(start as int),
            all_digits(d.take(i - start)),
            acc == digits_value(d.take(i - start)),
            acc <= max,
        decreases s.len() - i,
    {
        let c = s[i];
        if c < 0x30u8 || c > 0x39u8 {
            proof {
                assert(!is_digit(d[i - start]));
            }
            return None;
        }
        let digit = (c - 0x30u8) as u64;
        proof {
            assert(d.take(i + 1 - start).drop_last() =~= d.take(i - start));
            assert(d.take(i + 1 - start).last() == c);
            assert(all_digits(d.take(i + 1 - start))) by {
                assert forall|j: int| 0 <= j < i + 1 - start implies is_digit(
                    #[trigger] d.take(i + 1 - start)[j],
                ) by {
                    if j < i - start {
                        assert(d.take(i + 1 - start)[j] == d.take(i - start)[j]);
                    }
                }
            }
        }
        if digit > max || acc > (max - digit) / 10 {
            proof {
                assert(digits_value(d.take(i + 1 - start)) == acc * 10 + digit);
                if digit <= max {
                    assert(acc * 10 + digit > max) by (nonlinear_arith)
                        requires
                            acc > (max - digit) / 10,
                            digit <= max,
                    ;
                }
            }
            proof {
                if all_digits(d) {
                    lemma_digits_value_grows(d, i + 1 - start);
                }
            }
            return None;
        }
        proof {
            assert(acc * 10 + digit <= max) by (nonlinear_arith)
                requires
                    acc <= (max - digit) / 10,
            ;
        }
        acc = acc * 10 + digit;
        i = i + 1;
    }
    proof {
        assert(d.take(i - start) =~= d);
    }
    Some(acc)
}

/// Reads an unsigned integer no larger than `max` the way the standard
/// library does.
pub fn parse_unsigned(s: &[u8], max: u64) -> (r: Option<u64>)
    ensures
        match r {
            Some(v) => parse_unsigned_spec(s@, max as nat) == Some(v as nat),
            None => parse_unsigned_spec(s@, max as nat) is None,
        },
{
    if s.len() > 0 && s[0] == 0x2bu8 {
        proof {
            assert(s@.skip(1) =~= s@.drop_first());
        }
        parse_digits(s, 1, max)
    } else {
        proof {
            assert(s@.skip(0) =~= s@);
        }
        parse_digits(s, 0, max)
    }
}

/// Reads a signed integer in `-neg ..= pos` the way the standard library
/// does.
pub fn parse_signed(s: &[u8], neg: u64, pos: u64) -> (r: Option<i64>)
    requires
        neg <= 0x8000_0000_0000_0000,
        pos <= 0x7fff_ffff_ffff_ffff,
    ensures
        match r {
            Some(v) => parse_signed_spec(s@, neg as nat, pos as nat) == Some(v as int),
            None => parse_signed_spec(s@, neg as nat, pos as nat) is None,
        },
{
    if s.len() > 0 && s[0] == 0x2du8 {
        proof {
            assert(s@.skip(1) =~= s@.drop_first());
        }
        match parse_digits(s, 1, neg) {
            Some(v) => {
                if v == 0x8000_0000_0000_0000u64 {
                    Some(i64::MIN)
                } else {
                    Some(-(v as i64))
                }
            },
            None => None,
        }
    } else {
        match parse_unsigned(s, pos) {
            Some(v) => Some(v as i64),
            None => None,
        }
    }
}

/// The decimal digits of `v`, after a `-` when it is negative.
pub open spec fn signed_decimal(v: int) -> Seq<u8> {
    if v < 0 {
        seq![0x2du8] + decimal((-v) as nat)
    } else {
        decimal(v as nat)
    }
}

/// `v` in decimal, after a `-` when it is negative.
pub fn format_signed(v: i64) -> (r: Vec<u8>)
    ensures
        r@ == signed_decimal(v as int),
{
    if v < 0 {
        let m: u64 = if v == i64::MIN {
            0x8000_0000_0000_0000u64
        } else {
            (-v) as u64
        };
        let digits = format_decimal(m);
        let mut r: Vec<u8> = Vec::new();
        r.push(0x2du8);
        let mut i: usize = 0;
        while i < digits.len()
            invariant
                i <= digits.len(),
                r@ == seq![0x2du8] + digits@.take(i as int),
            decreases digits.len() - i,
        {
            r.push(digits[i]);
            proof {
                assert(digits@.take(i + 1) =~= digits@.take(i as int).push(digits@[i as int]));
            }
            i = i + 1;
        }
        proof {
            assert(digits@.take(i as int) =~= digits@);
        }
        r
    } else {
        format_decimal(v as u64)
    }
}

/// The decimal digits of `n`.
pub fn format_decimal(n: u64) -> (r: Vec<u8>)
    ensures
        r@ == decimal(n as nat),
    decreases n,
{
    if n < 10 {
        let mut v: Vec<u8> = Vec::new();
        v.push((0x30 + n) as u8);
        assert(v@ =~= seq![(0x30 + n) as u8]);
        v
    } else {
        let mut v = format_decimal(n / 10);
        v.push((0x30 + n % 10) as u8);
        v
    }
}

/// The decimal digits of a number read back as that number.
pub proof fn lemma_decimal_digits(n: nat)
    ensures
        decimal(n).len() > 0,
        all_digits(decimal(n)),
        digits_value(decimal(n)) == n,
        decimal(n)[0] != 0x2bu8,
        decimal(n)[0] != 0x2du8,
    decreases n,
{
    if n < 10 {
        assert(decimal(n).drop_last() =~= Seq::<u8>::empty());
        assert(((0x30 + n) as u8 - 0x30u8) as nat == n);
        assert(digits_value(decimal(n)) == digits_value(Seq::<u8>::empty()) * 10 + ((0x30 + n) as u8
            - 0x30u8) as nat);
    } else {
        lemma_decimal_digits(n / 10);
        let d = decimal(n / 10);
        let e = d.push((0x30 + n % 10) as u8);
        assert(e.drop_last() =~= d);
        assert(((0x30 + n % 10) as u8 - 0x30u8) as nat == n % 10);
        assert((n / 10) * 10 + n % 10 == n) by (nonlinear_arith);
        assert(e.last() == (0x30 + n % 10) as u8);
        assert(digits_value(e) == digits_value(d) * 10 + (e.last() - 0x30u8) as nat);
        assert forall|i: int| 0 <= i < e.len() implies is_digit(#[trigger] e[i]) by {
            if i < d.len() {
                assert(e[i] == d[i]);
            }
        }
        assert(e[0] == d[0]);
    }
}

/// Writing a number in decimal and reading it back gives the number.
pub proof fn lemma_parse_decimal(n: nat, max: nat)
    requires
        n <= max,
    ensures
        parse_unsigned_spec(decimal(n), max) == Some(n),
{
    lemma_decimal_digits(n);
}

/// Writing a signed number in decimal and reading it back gives the number.
pub proof fn lemma_parse_signed_decimal(v: int, neg: nat, pos: nat)
    requires
        -neg <= v <= pos,
    ensures
        parse_signed_spec(signed_decimal(v), neg, pos) == Some(v),
{
    if v < 0 {
        let d = decimal((-v) as nat);
        lemma_decimal_digits((-v) as nat);
        let s = seq![0x2du8] + d;
        assert(s.drop_first() =~= d);
        assert(s[0] == 0x2du8);
    } else {
        lemma_decimal_digits(v as nat);
        lemma_parse_decimal(v as nat, pos);
    }
}

/// The byte `c`, with an ASCII capital letter made lowercase.
pub open spec fn ascii_lower(c: u8) -> u8 {
    if 0x41u8 <= c && c <= 0x5au8 {
        (c + 0x20) as u8
    } else {
        c
    }
}

/// Whether `s` spells the lowercase ASCII `word`, in any case.
pub open spec fn spells(s: Seq<u8>, word: Seq<u8>) -> bool {
    &&& s.len() == word.len()
    &&& forall|i: int| 0 <= i < s.len() ==> ascii_lower(#[trigger] s[i]) == word[i]
}

/// The number of decimal digits that `s` starts with.
pub open spec fn leading_digits(s: Seq<u8>) -> nat
    decreases s.len(),
{
    if s.len() > 0 && is_digit(s[0]) {
        1 + leading_digits(s.drop_first())
    } else {
        0
    }
}

/// `s` without a leading `+` or `-`.
pub open spec fn without_sign(s: Seq<u8>) -> Seq<u8> {
    if s.len() > 0 && (s[0] == 0x2bu8 || s[0] == 0x2du8) {
        s.drop_first()
    } else {
        s
    }
}

/// Whether `s` is the digits of an exponent: an optional sign, then at least
/// one digit.
pub open spec fn exponent_digits(s: Seq<u8>) -> bool {
    let d = without_sign(s);
    d.len() > 0 && all_digits(d)
}

/// Whether `s` is a decimal number: digits, then optionally a `.` and more
/// digits, with at least one digit in all; then optionally `e` or `E` and an
/// exponent.
pub open spec fn decimal_number(s: Seq<u8>) -> bool {
    let a = leading_digits(s);
    let r = s.skip(a as int);
    let b = if r.len() > 0 && r[0] == 0x2eu8 {
        leading_digits(r.drop_first())
    } else {
        0
    };
    let t = if r.len() > 0 && r[0] == 0x2eu8 {
        r.drop_first().skip(b as int)
    } else {
        r
    };
    &&& a + b > 0
    &&& t.len() == 0 || ((t[0] == 0x65u8 || t[0] == 0x45u8) && exponent_digits(t.drop_first()))
}

/// Whether the standard library reads `s` as a floating-point number, by the
/// grammar that its documentation gives: an optional sign, then `inf`,
/// `infinity` or `nan` in any case, or a decimal number.
#[verifier::opaque]
pub open spec fn float_syntax(s: Seq<u8>) -> bool {
    let t = without_sign(s);
    ||| spells(t, seq![0x69u8, 0x6eu8, 0x66u8])
    ||| spells(t, seq![0x69u8, 0x6eu8, 0x66u8, 0x69u8, 0x6eu8, 0x69u8, 0x74u8, 0x79u8])
    ||| spells(t, seq![0x6eu8, 0x61u8, 0x6eu8])
    ||| decimal_number(t)
}

proof fn lemma_leading_digits(s: Seq<u8>)
    ensures
        leading_digits(s) <= s.len(),
        (leading_digits(s) == s.len()) == all_digits(s),
        forall|i: int| 0 <= i < leading_digits(s) ==> is_digit(#[trigger] s[i]),
    decreases s.len(),
{
    if s.len() > 0 {
        lemma_leading_digits(s.drop_first());
        if is_digit(s[0]) {
            assert forall|i: int| 0 <= i < leading_digits(s) implies is_digit(#[trigger] s[i]) by {
                if i > 0 {
                    assert(s[i] == s.drop_first()[i - 1]);
                }
            }
            if all_digits(s.drop_first()) {
                assert forall|i: int| 0 <= i < s.len() implies is_digit(#[trigger] s[i]) by {
                    if i > 0 {
                        assert(s[i] == s.drop_first()[i - 1]);
                    }
                }
            }
            if all_digits(s) {
                assert forall|i: int| 0 <= i < s.drop_first().len() implies is_digit(
                    #[trigger] s.drop_first()[i],
                ) by {
                    assert(s.drop_first()[i] == s[i + 1]);
                }
            }
        } else {
            assert(!is_digit(s[0]));
        }
    }
}

fn count_digits(s: &[u8], i: usize) -> (r: usize)
    requires
        i <= s.len(),
    ensures
        i <= r <= s.len(),
        r - i == leading_digits(s@.skip(i as int)),
{
    let mut j = i;
    while j < s.len() && 0x30u8 <= s[j] && s[j] <= 0x39u8
        invariant
            i <= j <= s.len(),
            leading_digits(s@.skip(i as int)) == (j - i) + leading_digits(s@.skip(j as int)),
        decreases s.len() - j,
    {
        assert(s@.skip(j as int).drop_first() =~= s@.skip(j + 1));
        j = j + 1;
    }
    j
}

fn spells_at(s: &[u8], start: usize, word: &Vec<u8>) -> (r: bool)
    requires
        start <= s.len(),
    ensures
        r == spells(s@.skip(start as int), word@),
{
    if s.len() - start != word.len() {
        return false;
    }
    let mut k: usize = 0;
    while k < word.len()
        invariant
            start <= s.len(),
            s.len() - start == word.len(),
            k <= word.len(),
            forall|i: int| 0 <= i < k ==> ascii_lower(#[trigger] s@.skip(start as int)[i]) == word@[i],
        decreases word.len() - k,
    {
        let c = s[start + k];
        let lower: u8 = if 0x41u8 <= c && c <= 0x5au8 {
            c + 0x20
        } else {
            c
        };
        assert(s@.skip(start as int)[k as int] == c);
        if lower != word[k] {
            return false;
        }
        k = k + 1;
    }
    true
}

fn is_decimal_number(s: &[u8], start: usize) -> (r: bool)
    requires
        start <= s.len(),
    ensures
        r == decimal_number(s@.skip(start as int)),
{
    let ghost t = s@.skip(start as int);
    let a_end = count_digits(s, start);
    let ghost a = leading_digits(t);
    assert(t.skip(a as int) =~= s@.skip(a_end as int));
    let mut t_start = a_end;
    let mut b: usize = 0;
    if a_end < s.len() && s[a_end] == 0x2eu8 {
        assert(s@.skip(a_end as int)[0] == 0x2eu8);
        assert(s@.skip(a_end as int).drop_first() =~= s@.skip(a_end + 1));
        t_start = count_digits(s, a_end + 1);
        b = t_start - (a_end + 1);
        assert(s@.skip(a_end + 1).skip(b as int) =~= s@.skip(t_start as int));
    }
    if a_end - start + b == 0 {
        return false;
    }
    if t_start == s.len() {
        assert(s@.skip(t_start as int).len() == 0);
        return true;
    }
    let e = s[t_start];
    assert(s@.skip(t_start as int)[0] == e);
    if e != 0x65u8 && e != 0x45u8 {
        return false;
    }
    proof {
        assert(s@.skip(t_start as int).drop_first() =~= s@.skip(t_start + 1));
    }
    exponent_at(s, t_start + 1)
}

fn exponent_at(s: &[u8], start: usize) -> (r: bool)
    requires
        start <= s.len(),
    ensures
        r == exponent_digits(s@.skip(start as int)),
{
    let mut u = start;
    if u < s.len() && (s[u] == 0x2bu8 || s[u] == 0x2du8) {
        assert(s@.skip(u as int)[0] == s[u as int]);
        assert(s@.skip(u as int).drop_first() =~= s@.skip(u + 1));
        u = u + 1;
    }
    assert(without_sign(s@.skip(start as int)) =~= s@.skip(u as int));
    if u == s.len() {
        return false;
    }
    let end = count_digits(s, u);
    proof {
        lemma_leading_digits(s@.skip(u as int));
    }
    end == s.len()
}

/// Whether the standard library reads `s` as a floating-point number.
pub fn is_float_text(s: &[u8]) -> (r: bool)
    ensures
        r == float_syntax(s@),
{
    let start: usize = if s.len() > 0 && (s[0] == 0x2bu8 || s[0] == 0x2du8) {
        1
    } else {
        0
    };
    proof {
        reveal(float_syntax);
        assert(without_sign(s@) =~= s@.skip(start as int));
    }
    let inf = vec![0x69u8, 0x6eu8, 0x66u8];
    let infinity = vec![0x69u8, 0x6eu8, 0x66u8, 0x69u8, 0x6eu8, 0x69u8, 0x74u8, 0x79u8];
    let nan = vec![0x6eu8, 0x61u8, 0x6eu8];
    assert(inf@ =~= seq![0x69u8, 0x6eu8, 0x66u8]);
    assert(infinity@ =~= seq![0x69u8, 0x6eu8, 0x66u8, 0x69u8, 0x6eu8, 0x69u8, 0x74u8, 0x79u8]);
    assert(nan@ =~= seq![0x6eu8, 0x61u8, 0x6eu8]);
    spells_at(s, start, &inf) || spells_at(s, start, &infinity) || spells_at(s, start, &nan)
        || is_decimal_number(s, start)
}

} // verus!
