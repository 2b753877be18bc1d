//! Integer literals: parsing as `str::parse` and `from_str_radix` do, and
//! formatting as the `{}` and `{:X}` formats do.
use crate::text::{chars_of, push_char, push_chars, push_str};
use vstd::prelude::*;

verus! {

broadcast use vstd::string::group_string_axioms;

/// The value of digit `c` in base `radix` (10 or 16), if it is one.
pub open spec fn digit_value(c: char, radix: nat) -> Option<nat> {
    if '0' <= c && c <= '9' && (c as nat) - ('0' as nat) < radix {
        Some(((c as nat) - ('0' as nat)) as nat)
    } else if radix == 16 && 'a' <= c && c <= 'f' {
        Some(((c as nat) - ('a' as nat) + 10) as nat)
    } else if radix == 16 && 'A' <= c && c <= 'F' {
        Some(((c as nat) - ('A' as nat) + 10) as nat)
    } else {
        None
    }
}

/// Whether every character of `d` is a digit in base `radix`.
pub open spec fn all_digits(d: Seq<char>, radix: nat) -> bool {
    forall|i: int| 0 <= i < d.len() ==> (#[trigger] digit_value(d[i], radix)) is Some
}

/// The number written by the digits `d` in base `radix`.
pub open spec fn digits_value(d: Seq<char>, radix: nat) -> nat
    decreases d.len(),
{
    if d.len() == 0 {
        0
    } else {
        digits_value(d.drop_last(), radix) * radix + match digit_value(d.last(), radix) {
            Some(v) => v,
            None => 0,
        }
    }
}

/// `s` without one leading `+`.
pub open spec fn without_plus(s: Seq<char>) -> Seq<char> {
    if s.len() > 0 && s[0] == '+' {
        s.drop_first()
    } else {
        s
    }
}

/// What `from_str_radix` of an unsigned type of maximum `max` returns: an
/// optional `+`, then at least one digit, and a value at most `max`.
pub open spec fn parse_unsigned(s: Seq<char>, radix: nat, max: nat) -> Option<nat> {
    let d = without_plus(s);
    if d.len() == 0 || !all_digits(d, radix) || digits_value(d, radix) > max {
        None
    } else {
        Some(digits_value(d, radix))
    }
}

/// What `from_str_radix` of `i64` returns: an optional sign, then at least
/// one digit, and a value within the range of `i64`.
pub open spec fn parse_i64_spec(s: Seq<char>, radix: nat) -> Option<int> {
    if s.len() > 0 && s[0] == '-' {
        let d = s.drop_first();
        if d.len() == 0 || !all_digits(d, radix) || digits_value(d, radix) > 0x8000_0000_0000_0000 {
            None
        } else {
            Some(-digits_value(d, radix))
        }
    } else {
        match parse_unsigned(s, radix, 0x7fff_ffff_ffff_ffff) {
            Some(v) => Some(v as int),
            None => None,
        }
    }
}

proof fn lemma_digits_value_step(d: Seq<char>, radix: nat, i: int)
    requires
        0 <= i < d.len(),
    ensures
        digits_value(d.take(i + 1), radix) == digits_value(d.take(i), radix) * radix + match digit_value(
            d[i],
            radix,
        ) {
            Some(v) => v,
            None => 0,
        },
{
    assert(d.take(i + 1).drop_last() =~= d.take(i));
}

proof fn lemma_digits_value_grows(d: Seq<char>, radix: nat, i: int, j: int)
    requires
        0 <= i <= j <= d.len(),
        radix >= 1,
    ensures
        digits_value(d.take(i), radix) <= digits_value(d.take(j), radix),
    decreases j - i,
{
    if i < j {
        lemma_digits_value_grows(d, radix, i, j - 1);
        lemma_digits_value_step(d, radix, j - 1);
        let a = digits_value(d.take(j - 1), radix);
        assert(a <= a * radix) by (nonlinear_arith)
            requires
                radix >= 1,
        ;
    }
}

/// The value of the digits `d[from..]` in base `radix`, if they are all
/// digits, there is at least one, and the value is at most `max`.
fn parse_digits(d: &Vec<char>, from: usize, radix: u64, max: u64) -> (r: Option<u64>)
    requires
        from <= d.len(),
        radix == 10 || radix == 16,
    ensures
        ({
            let t = d@.skip(from as int);
            match r {
                Some(v) => t.len() > 0 && all_digits(t, radix as nat) && digits_value(t, radix as nat)
                    == v && v <= max,
                None => t.len() == 0 || !all_digits(t, radix as nat) || digits_value(
                    t,
                    radix as nat,
                ) > max,
            }
        }),
{
    let ghost t = d@.skip(from as int);
    if from == d.len() {
        return None;
    }
    let mut acc: u64 = 0;
    let mut i = from;
    assert(t.take(0) =~= Seq::<char>::empty());
    while i < d.len()
        invariant
            from <= i <= d.len(),
            radix == 10 || radix == 16,
            t == d@.skip(from as int),
            acc == digits_value(t.take(i - from), radix as nat),
            acc <= max,
            all_digits(t.take(i - from), radix as nat),
        decreases d.len() - i,
    {
        let c = d[i];
        let dv: u64 = if '0' <= c && c <= '9' && (c as u64) - ('0' as u64) < radix {
            (c as u64) - ('0' as u64)
        } else if radix == 16 && 'a' <= c && c <= 'f' {
            (c as u64) - ('a' as u64) + 10
        } else if radix == 16 && 'A' <= c && c <= 'F' {
            (c as u64) - ('A' as u64) + 10
        } else {
            assert(t[i - from] == c);
            assert(!all_digits(t, radix as nat));
            return None;
        };
        assert(t[i - from] == c);
        assert(digit_value(c, radix as nat) == Some(dv as nat));
        proof {
            lemma_digits_value_step(t, radix as nat, i - from);
        }
        if dv > max {
            proof {
                lemma_digits_value_step(t, radix as nat, i - from);
                assert(digits_value(t.take(i - from + 1), radix as nat) >= dv) by (nonlinear_arith)
                    requires
                        digits_value(t.take(i - from + 1), radix as nat) == digits_value(t.take(i - from), radix as nat) * (radix as nat) + dv,
                ;
                lemma_digits_value_grows(t, radix as nat, i - from + 1, t.len() as int);
                assert(t.take(t.len() as int) =~= t);
            }
            return None;
        }
        let lim = (max - dv) / radix;
        if acc > lim {
            proof {
                assert(acc * radix + dv > max) by (nonlinear_arith)
                    requires
                        acc > lim,
                        lim == (max - dv) as int / radix as int,
                        radix > 0,
                        dv <= max,
                ;
                lemma_digits_value_grows(t, radix as nat, i - from + 1, t.len() as int);
                assert(t.take(t.len() as int) =~= t);
            }
            return None;
        }
        assert(acc * radix + dv <= max) by (nonlinear_arith)
            requires
                acc <= lim,
                lim == (max - dv) as int / radix as int,
                radix > 0,
                dv <= max,
        ;
        acc = acc * radix + dv;
        assert(all_digits(t.take(i - from + 1), radix as nat)) by {
            assert forall|k: int| 0 <= k < i - from + 1 implies #[trigger] digit_value(
                t.take(i - from + 1)[k],
                radix as nat,
            ) is Some by {
                if k < i - from {
                    assert(t.take(i - from + 1)[k] == t.take(i - from)[k]);
                }
            }
        }
        i += 1;
    }
    assert(t.take(t.len() as int) =~= t);
    Some(acc)
}

/// `str::parse::<u32>`.
pub fn parse_u32(s: &str) -> (r: Option<u32>)
    ensures
        r matches Some(v) ==> parse_unsigned(s@, 10, 0xffff_ffff) == Some(v as nat),
        r is None ==> parse_unsigned(s@, 10, 0xffff_ffff) is None,
{
    let d = chars_of(s);
    let from: usize = if d.len() > 0 && d[0] == '+' {
        1
    } else {
        0
    };
    assert(without_plus(s@) =~= d@.skip(from as int));
    match parse_digits(&d, from, 10, 0xffff_ffff) {
        Some(v) => Some(v as u32),
        None => None,
    }
}

/// `u64::from_str_radix(s, 16)`.
pub fn parse_u64_hex(s: &str) -> (r: Option<u64>)
    ensures
        r matches Some(v) ==> parse_unsigned(s@, 16, 0xffff_ffff_ffff_ffff) == Some(v as nat),
        r is None ==> parse_unsigned(s@, 16, 0xffff_ffff_ffff_ffff) is None,
{
    let d = chars_of(s);
    let from: usize = if d.len() > 0 && d[0] == '+' {
        1
    } else {
        0
    };
    assert(without_plus(s@) =~= d@.skip(from as int));
    parse_digits(&d, from, 16, 0xffff_ffff_ffff_ffff)
}

/// `i64::from_str_radix(s, radix)`; `str::parse::<i64>` when `radix` is 10.
pub fn parse_i64(s: &str, radix: u64) -> (r: Option<i64>)
    requires
        radix == 10 || radix == 16,
    ensures
        r matches Some(v) ==> parse_i64_spec(s@, radix as nat) == Some(v as int),
        r is None ==> parse_i64_spec(s@, radix as nat) is None,
{
    let d = chars_of(s);
    if d.len() > 0 && d[0] == '-' {
        assert(s@.drop_first() =~= d@.skip(1));
        match parse_digits(&d, 1, radix, 0x8000_0000_0000_0000) {
            Some(v) => {
                if v == 0x8000_0000_0000_0000 {
                    Some(i64::MIN)
                } else {
                    Some(-(v as i64))
                }
            },
            None => None,
        }
    } else {
        let from: usize = if d.len() > 0 && d[0] == '+' {
            1
        } else {
            0
        };
        assert(without_plus(s@) =~= d@.skip(from as int));
        match parse_digits(&d, from, radix, 0x7fff_ffff_ffff_ffff) {
            Some(v) => Some(v as i64),
            None => None,
        }
    }
}

// ---------------------------------------------------------------------------
// Formatting
// ---------------------------------------------------------------------------

/// The digit for `v` (below 16), upper-case above nine.
pub open spec fn digit_char(v: nat) -> char {
    if v < 10 {
        (('0' as nat) + v) as char
    } else {
        (('A' as nat) + v - 10) as char
    }
}

/// The digits of `n` in base `radix`, most significant first, without
/// leading zeros (`"0"` for zero), upper-case letters above nine.
pub open spec fn radix_digits(n: nat, radix: nat) -> Seq<char>
    decreases n,
{
    if radix < 2 || n < radix {
        seq![digit_char(n)]
    } else {
        proof {
            assert(n / radix < n) by (nonlinear_arith)
                requires
                    radix >= 2,
                    n >= radix,
            ;
        }
        radix_digits(n / radix, radix).push(digit_char(n % radix))
    }
}

/// `{}` of a signed number.
pub open spec fn decimal_spec(n: int) -> Seq<char> {
    if n < 0 {
        seq!['-'] + radix_digits((-n) as nat, 10)
    } else {
        radix_digits(n as nat, 10)
    }
}

fn digit_char_exec(v: u64) -> (c: char)
    requires
        v < 16,
    ensures
        c == digit_char(v as nat),
{
    if v < 10 {
        ((v as u8) + 48) as char
    } else {
        ((v as u8) + 55) as char
    }
}

/// The digits of `n` in base `radix`.
pub fn radix_digits_exec(n: u64, radix: u64) -> (r: String)
    requires
        radix == 10 || radix == 16,
    ensures
        r@ == radix_digits(n as nat, radix as nat),
{
    let mut m = n;
    let mut tail: Vec<char> = Vec::new();
    assert(radix_digits(n as nat, radix as nat) =~= radix_digits(m as nat, radix as nat) + tail@);
    while m >= radix
        invariant
            radix == 10 || radix == 16,
            radix_digits(n as nat, radix as nat) == radix_digits(m as nat, radix as nat) + tail@,
        decreases m,
    {
        let c = digit_char_exec(m % radix);
        let ghost t0 = tail@;
        tail.insert(0, c);
        assert(tail@ =~= seq![c] + t0);
        assert(radix_digits(m as nat, radix as nat) == radix_digits((m / radix) as nat, radix as nat).push(c));
        assert(radix_digits(m as nat, radix as nat) + t0 =~= radix_digits((m / radix) as nat, radix as nat) + tail@);
        m = m / radix;
    }
    let c = digit_char_exec(m);
    let mut r = String::new();
    push_char(&mut r, c);
    push_chars(&mut r, &tail, 0, tail.len());
    assert(r@ =~= radix_digits(n as nat, radix as nat));
    r
}

/// `format!("{}", n)` of an `i64`.
pub fn i64_to_string(n: i64) -> (r: String)
    ensures
        r@ == decimal_spec(n as int),
{
    if n < 0 {
        let mag: u64 = if n == i64::MIN {
            0x8000_0000_0000_0000
        } else {
            (-n) as u64
        };
        let digits = radix_digits_exec(mag, 10);
        let mut r = String::new();
        push_char(&mut r, '-');
        push_str(&mut r, digits.as_str());
        assert(r@ =~= decimal_spec(n as int));
        r
    } else {
        radix_digits_exec(n as u64, 10)
    }
}

} // verus!
