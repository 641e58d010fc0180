//! Exact decimal numerals for fixed-point amounts.
//!
//! An amount is a count of 1/10000 units. A numeral is an optional minus
//! sign, one or more integer digits, and optionally a point followed by
//! one to four fractional digits. [`dec_value`] gives the meaning of a
//! byte string as such a count; the renderer and parsers are proved
//! against it, and [`lemma_render_parse_roundtrip`] shows that rendering
//! never loses a value.

use vstd::prelude::*;

verus! {

/// ASCII decimal digit.
pub open spec fn is_digit(b: u8) -> bool {
    48 <= b <= 57
}

/// Every byte is an ASCII digit.
pub open spec fn all_digits(s: Seq<u8>) -> bool {
    forall|i: int| 0 <= i < s.len() ==> is_digit(#[trigger] s[i])
}

/// The number denoted by a sequence of digit bytes, most significant
/// first.
pub open spec fn digits_val(s: Seq<u8>) -> int
    decreases s.len(),
{
    if s.len() == 0 {
        0
    } else {
        digits_val(s.drop_last()) * 10 + (s.last() - 48)
    }
}

/// Ten to the `k`.
pub open spec fn pow10(k: nat) -> int
    decreases k,
{
    if k == 0 {
        1
    } else {
        10 * pow10((k - 1) as nat)
    }
}

/// What one fractional digit is worth, in 1/10000 units, when `f` digits
/// follow the point.
pub open spec fn frac_scale(f: int) -> int {
    if f == 1 {
        1000
    } else if f == 2 {
        100
    } else if f == 3 {
        10
    } else {
        1
    }
}

/// The numeral `s` has a point followed by exactly `f` fractional digits,
/// with one or more integer digits before the point.
pub open spec fn frac_split(s: Seq<u8>, f: int) -> bool {
    &&& s.len() >= f + 2
    &&& s[s.len() - f - 1] == 46
    &&& all_digits(s.take(s.len() - f - 1))
    &&& all_digits(s.skip(s.len() - f))
}

/// The count of 1/10000 units denoted by an unsigned numeral, or `None`
/// if `s` is not one.
pub open spec fn unsigned_value(s: Seq<u8>) -> Option<int> {
    if s.len() >= 1 && all_digits(s) {
        Option::Some(digits_val(s) * 10000)
    } else if frac_split(s, 1) {
        Option::Some(digits_val(s.take(s.len() - 2)) * 10000 + digits_val(s.skip(s.len() - 1)) * 1000)
    } else if frac_split(s, 2) {
        Option::Some(digits_val(s.take(s.len() - 3)) * 10000 + digits_val(s.skip(s.len() - 2)) * 100)
    } else if frac_split(s, 3) {
        Option::Some(digits_val(s.take(s.len() - 4)) * 10000 + digits_val(s.skip(s.len() - 3)) * 10)
    } else if frac_split(s, 4) {
        Option::Some(digits_val(s.take(s.len() - 5)) * 10000 + digits_val(s.skip(s.len() - 4)))
    } else {
        Option::None
    }
}

/// The count of 1/10000 units denoted by a signed numeral.
pub open spec fn dec_value(s: Seq<u8>) -> Option<int> {
    if s.len() >= 1 && s[0] == 45 {
        match unsigned_value(s.skip(1)) {
            Option::Some(n) => Option::Some(-n),
            Option::None => Option::None,
        }
    } else {
        unsigned_value(s)
    }
}

/// The digits of `n`, most significant first, no leading zero except for
/// zero itself.
pub open spec fn spec_digits(n: nat) -> Seq<u8>
    decreases n,
{
    if n < 10 {
        seq![(48 + n) as u8]
    } else {
        spec_digits(n / 10).push((48 + n % 10) as u8)
    }
}

/// A fractional part of `n` units, `0 < n < 10000`, written as exactly
/// four digits.
pub open spec fn spec_frac4(n: int) -> Seq<u8> {
    seq![
        (48 + n / 1000) as u8,
        (48 + (n / 100) % 10) as u8,
        (48 + (n / 10) % 10) as u8,
        (48 + n % 10) as u8,
    ]
}

/// The canonical numeral for a count of 1/10000 units: sign, integer
/// part, and a four-digit fractional part only when it is not zero.
pub open spec fn spec_render_units(v: int) -> Seq<u8> {
    let m = if v < 0 {
        -v
    } else {
        v
    };
    let sign: Seq<u8> = if v < 0 {
        seq![45u8]
    } else {
        Seq::<u8>::empty()
    };
    let frac: Seq<u8> = if m % 10000 == 0 {
        Seq::<u8>::empty()
    } else {
        seq![46u8] + spec_frac4(m % 10000)
    };
    sign + spec_digits((m / 10000) as nat) + frac
}

/// A digit string's value is non-negative and below ten to its length.
pub proof fn lemma_digits_val_bound(s: Seq<u8>)
    requires
        all_digits(s),
    ensures
        0 <= digits_val(s) < pow10(s.len()),
    decreases s.len(),
{
    if s.len() == 0 {
    } else {
        assert(all_digits(s.drop_last())) by {
            assert(forall|i: int|
                0 <= i < s.len() - 1 ==> s.drop_last()[i] == #[trigger] s[i]);
        }
        lemma_digits_val_bound(s.drop_last());
        assert(is_digit(s[s.len() - 1]));
    }
}

/// Splitting a digit string splits its value positionally.
pub proof fn lemma_digits_val_concat(p: Seq<u8>, t: Seq<u8>)
    ensures
        digits_val(p + t) == digits_val(p) * pow10(t.len()) + digits_val(t),
    decreases t.len(),
{
    if t.len() == 0 {
        assert(p + t =~= p);
    } else {
        lemma_digits_val_concat(p, t.drop_last());
        assert((p + t).drop_last() =~= p + t.drop_last());
        assert((p + t).last() == t.last());
        assert(digits_val(p + t) == (digits_val(p) * pow10((t.len() - 1) as nat) + digits_val(
            t.drop_last(),
        )) * 10 + (t.last() - 48));
        assert(digits_val(p) * pow10((t.len() - 1) as nat) * 10 == digits_val(p) * pow10(t.len()))
            by (nonlinear_arith)
            requires
                pow10(t.len()) == 10 * pow10((t.len() - 1) as nat),
        ;
    }
}

/// The digit expansion of `n` is made of digits, denotes `n`, and has no
/// leading zero unless `n` is zero.
pub proof fn lemma_spec_digits(n: nat)
    ensures
        all_digits(spec_digits(n)),
        digits_val(spec_digits(n)) == n,
        spec_digits(n).len() >= 1,
        n < pow10(spec_digits(n).len()),
        spec_digits(n).len() > 1 ==> spec_digits(n)[0] != 48,
    decreases n,
{
    if n < 10 {
        let s = spec_digits(n);
        assert(s.drop_last() =~= Seq::<u8>::empty());
        assert(digits_val(Seq::<u8>::empty()) == 0);
        assert(digits_val(s) == digits_val(s.drop_last()) * 10 + (s.last() - 48));
        assert(digits_val(s) == n);
        assert(pow10(0) == 1);
        assert(pow10(1) == 10);
    } else {
        lemma_spec_digits(n / 10);
        let p = spec_digits(n / 10);
        let s = spec_digits(n);
        assert(s == p.push((48 + n % 10) as u8));
        assert(s.drop_last() =~= p);
        assert(digits_val(s) == digits_val(p) * 10 + n % 10);
        assert(n / 10 >= 1);
        assert(s[0] == p[0]);
        assert(p[0] != 48) by {
            if p.len() == 1 {
                assert(digits_val(p) == digits_val(p.drop_last()) * 10 + (p.last() - 48));
                assert(p.drop_last() =~= Seq::<u8>::empty());
                assert(p[0] - 48 == n / 10 >= 1);
            }
        }
        assert(n < 10 * pow10(p.len())) by (nonlinear_arith)
            requires
                n / 10 < pow10(p.len()),
                n >= 10,
                n == 10 * (n / 10) + n % 10,
                0 <= n % 10 < 10,
        ;
        assert(pow10(s.len()) == 10 * pow10(p.len()));
    }
}

/// If a numeral has a point at `k`, its value is fixed by the digits
/// before and after that point — or it is no numeral at all.
pub proof fn lemma_dot_split(s: Seq<u8>, k: int)
    requires
        0 <= k < s.len(),
        s[k] == 46,
    ensures
        unsigned_value(s) == ({
            let f = s.len() - 1 - k;
            if 1 <= k && 1 <= f <= 4 && all_digits(s.take(k)) && all_digits(s.skip(k + 1)) {
                Option::Some(
                    digits_val(s.take(k)) * 10000 + digits_val(s.skip(k + 1)) * frac_scale(f),
                )
            } else {
                Option::None
            }
        }),
{
    let ln = s.len() as int;
    let f = ln - 1 - k;
    assert(!is_digit(s[k]));
    assert(!all_digits(s));
    if f != 1 {
        lemma_frac_split_other(s, k, 1);
    }
    if f != 2 {
        lemma_frac_split_other(s, k, 2);
    }
    if f != 3 {
        lemma_frac_split_other(s, k, 3);
    }
    if f != 4 {
        lemma_frac_split_other(s, k, 4);
    }
    if 1 <= f <= 4 {
        assert(frac_split(s, f) <==> (1 <= k && all_digits(s.take(k)) && all_digits(
            s.skip(k + 1),
        ))) by {
            assert(ln - f - 1 == k);
            assert(ln - f == k + 1);
        }
    }
}

/// A numeral's point cannot sit anywhere but before its fractional
/// digits: a point at `k` rules the split at any other `f` out.
proof fn lemma_frac_split_other(s: Seq<u8>, k: int, f: int)
    requires
        0 <= k < s.len(),
        s[k] == 46,
        1 <= f <= 4,
        k != s.len() - 1 - f,
    ensures
        !frac_split(s, f),
{
    let ln = s.len() as int;
    if frac_split(s, f) {
        if k < ln - f - 1 {
            assert(is_digit(s.take(ln - f - 1)[k]));
            assert(false);
        } else {
            assert(k >= ln - f);
            assert(is_digit(s.skip(ln - f)[k - (ln - f)]));
            assert(false);
        }
    }
}

/// The four-digit fractional expansion denotes its value.
pub proof fn lemma_spec_frac4(n: int)
    requires
        0 <= n < 10000,
    ensures
        all_digits(spec_frac4(n)),
        spec_frac4(n).len() == 4,
        digits_val(spec_frac4(n)) == n,
{
    let s = spec_frac4(n);
    assert(n / 1000 < 10);
    assert(seq![s[0]].drop_last() =~= Seq::<u8>::empty());
    assert(seq![s[0], s[1]].drop_last() =~= seq![s[0]]);
    assert(seq![s[0], s[1], s[2]].drop_last() =~= seq![s[0], s[1]]);
    assert(s.drop_last() =~= seq![s[0], s[1], s[2]]);
    assert(digits_val(Seq::<u8>::empty()) == 0);
    assert(digits_val(seq![s[0]]) == s[0] - 48);
    assert(digits_val(seq![s[0], s[1]]) == (s[0] - 48) * 10 + (s[1] - 48));
    assert(digits_val(seq![s[0], s[1], s[2]]) == ((s[0] - 48) * 10 + (s[1] - 48)) * 10 + (s[2]
        - 48));
    assert(digits_val(s) == digits_val(s.drop_last()) * 10 + (s[3] - 48));
    assert(digits_val(s) == (((n / 1000) * 10 + (n / 100) % 10) * 10 + (n / 10) % 10) * 10 + n
        % 10);
    assert((((n / 1000) * 10 + (n / 100) % 10) * 10 + (n / 10) % 10) * 10 + n % 10 == n) by {
        assert(n / 10 / 10 == n / 100) by (nonlinear_arith)
            requires
                n >= 0,
        ;
        assert(n / 100 / 10 == n / 1000) by (nonlinear_arith)
            requires
                n >= 0,
        ;
        assert(n == 10 * (n / 10) + n % 10);
        assert(n / 10 == 10 * (n / 10 / 10) + (n / 10) % 10);
        assert(n / 100 == 10 * (n / 100 / 10) + (n / 100) % 10);
    }
}

/// Rendering a count of units and reading the numeral back yields the
/// same count: the output format loses no precision.
#[verifier::rlimit(60)]
pub proof fn lemma_render_parse_roundtrip(v: int)
    ensures
        dec_value(spec_render_units(v)) == Option::Some(v),
{
    let m = if v < 0 {
        -v
    } else {
        v
    };
    let q = (m / 10000) as nat;
    let rem = m % 10000;
    lemma_spec_digits(q);
    let ip = spec_digits(q);
    let body: Seq<u8> = if rem == 0 {
        ip
    } else {
        ip + (seq![46u8] + spec_frac4(rem))
    };
    assert(m == 10000 * (m / 10000) + m % 10000);
    assert(0 <= rem < 10000);
    if rem == 0 {
        assert(unsigned_value(body) == Option::Some(digits_val(ip) * 10000));
        assert(digits_val(ip) * 10000 == m) by (nonlinear_arith)
            requires
                digits_val(ip) == m / 10000,
                m == 10000 * (m / 10000),
        ;
    } else {
        lemma_spec_frac4(rem);
        let fr = spec_frac4(rem);
        let k = ip.len() as int;
        assert(body.len() == k + 5);
        assert(body[k] == 46);
        assert(body.take(k) =~= ip);
        assert(body.skip(k + 1) =~= fr);
        lemma_dot_split(body, k);
        assert(body.len() - 1 - k == 4);
        assert(unsigned_value(body) == Option::Some(digits_val(ip) * 10000 + digits_val(fr) * 1));
        assert(digits_val(ip) * 10000 + rem == m) by (nonlinear_arith)
            requires
                digits_val(ip) == m / 10000,
                m == 10000 * (m / 10000) + rem,
        ;
    }
    assert(unsigned_value(body) == Option::Some(m));
    if v < 0 {
        let s = spec_render_units(v);
        assert(s =~= seq![45u8] + body);
        assert(s[0] == 45);
        assert(s.skip(1) =~= body);
        assert(dec_value(s) == Option::Some(-m));
    } else {
        let s = spec_render_units(v);
        assert(s =~= body);
        assert(is_digit(s[0]));
        assert(s[0] != 45);
        assert(dec_value(s) == Option::Some(m));
    }
}

/// Ten to the small powers, spelled out.
proof fn lemma_pow10_small()
    ensures
        pow10(0) == 1,
        pow10(1) == 10,
        pow10(2) == 100,
        pow10(3) == 1000,
        pow10(4) == 10000,
{
    assert(pow10(0) == 1);
    assert(pow10(1) == 10);
    assert(pow10(2) == 100);
    assert(pow10(3) == 1000);
    assert(pow10(4) == 10000);
}

/// A byte that is neither a digit nor a point makes the string no
/// numeral.
proof fn lemma_bad_byte(s: Seq<u8>, k: int)
    requires
        0 <= k < s.len(),
        !is_digit(s[k]),
        s[k] != 46,
    ensures
        unsigned_value(s) is None,
{
    let ln = s.len() as int;
    assert(!all_digits(s));
    assert forall|f: int| 1 <= f <= 4 implies !frac_split(s, f) by {
        if frac_split(s, f) {
            if k == ln - f - 1 {
                assert(s[k] == 46);
            } else if k < ln - f - 1 {
                assert(is_digit(s.take(ln - f - 1)[k]));
            } else {
                assert(is_digit(s.skip(ln - f)[k - (ln - f)]));
            }
        }
    }
    assert(!frac_split(s, 1));
    assert(!frac_split(s, 2));
    assert(!frac_split(s, 3));
    assert(!frac_split(s, 4));
}

/// The digits of `n`, most significant first.
pub fn digits_of(n: u64) -> (r: Vec<u8>)
    ensures
        r@ == spec_digits(n as nat),
    decreases n,
{
    if n < 10 {
        let mut v: Vec<u8> = Vec::new();
        v.push(48 + (n as u8));
        proof {
            assert(v@ =~= spec_digits(n as nat));
        }
        v
    } else {
        let mut v = digits_of(n / 10);
        v.push(48 + ((n % 10) as u8));
        proof {
            assert(v@ =~= spec_digits(n as nat));
        }
        v
    }
}

/// Render a count of 1/10000 units as its canonical decimal numeral.
pub fn render_units(v: i64) -> (r: Vec<u8>)
    ensures
        r@ == spec_render_units(v as int),
        dec_value(r@) == Option::Some(v as int),
{
    let m: u64 = if v < 0 {
        ((-(v + 1)) as u64) + 1
    } else {
        v as u64
    };
    proof {
        assert(m == (if (v as int) < 0 {
            -(v as int)
        } else {
            v as int
        }));
    }
    let q = m / 10000;
    let rem = m % 10000;
    let mut out: Vec<u8> = Vec::new();
    if v < 0 {
        out.push(45);
    }
    let mut ip = digits_of(q);
    out.append(&mut ip);
    if rem != 0 {
        out.push(46);
        out.push(48 + ((rem / 1000) as u8));
        out.push(48 + (((rem / 100) % 10) as u8));
        out.push(48 + (((rem / 10) % 10) as u8));
        out.push(48 + ((rem % 10) as u8));
    }
    proof {
        assert(out@ =~= spec_render_units(v as int));
        lemma_render_parse_roundtrip(v as int);
    }
    out
}

/// Parse the unsigned numeral in `s` starting at `from`, as a count of
/// 1/10000 units. `None` exactly when the bytes are no numeral or the
/// count does not fit in a `u64`.
#[verifier::rlimit(60)]
fn parse_units_from(s: &[u8], from: usize) -> (r: Option<u64>)
    requires
        from <= s@.len(),
    ensures
        ({
            let t = s@.skip(from as int);
            match r {
                Option::Some(x) => unsigned_value(t) == Option::Some(x as int),
                Option::None => match unsigned_value(t) {
                    Option::Some(n) => n > u64::MAX,
                    Option::None => true,
                },
            }
        }),
{
    let ghost t = s@.skip(from as int);
    let n = s.len();
    let mut i: usize = from;
    let mut acc: u64 = 0;
    let mut big: bool = false;
    while i < n && s[i] != 46
        invariant
            from <= i <= n == s@.len(),
            t == s@.skip(from as int),
            forall|j: int| from <= j < i ==> is_digit(#[trigger] s@[j]),
            !big ==> acc == digits_val(s@.subrange(from as int, i as int)),
            big ==> digits_val(s@.subrange(from as int, i as int)) > u64::MAX,
        decreases n - i,
    {
        let b = s[i];
        if b < 48 || b > 57 {
            proof {
                assert(t[i - from] == s@[i as int]);
                lemma_bad_byte(t, i - from);
            }
            return Option::None;
        }
        let ghost pre = s@.subrange(from as int, i as int);
        let ghost post = s@.subrange(from as int, i as int + 1);
        proof {
            assert(post.drop_last() =~= pre);
            assert(post.last() == s@[i as int]);
            assert(digits_val(post) == digits_val(pre) * 10 + (b - 48));
        }
        let d: u64 = (b - 48) as u64;
        if !big {
            if acc <= (u64::MAX - d) / 10 {
                proof {
                    assert(u64::MAX - d == 10 * ((u64::MAX - d) / 10) + (u64::MAX - d) % 10);
                }
                acc = acc * 10 + d;
            } else {
                proof {
                    assert(u64::MAX - d == 10 * ((u64::MAX - d) / 10) + (u64::MAX - d) % 10);
                    assert(acc * 10 + d > u64::MAX);
                }
                big = true;
            }
        }
        i += 1;
    }
    if i == n {
        proof {
            assert(t =~= s@.subrange(from as int, n as int));
        }
        if i == from {
            return Option::None;
        }
        proof {
            assert(all_digits(t));
        }
        if big {
            proof {
                assert(digits_val(t) * 10000 > u64::MAX) by (nonlinear_arith)
                    requires
                        digits_val(t) > u64::MAX,
                ;
            }
            return Option::None;
        }
        if acc <= u64::MAX / 10000 {
            proof {
                assert(u64::MAX == 10000 * (u64::MAX / 10000) + u64::MAX % 10000);
            }
            return Option::Some(acc * 10000);
        } else {
            proof {
                assert(u64::MAX == 10000 * (u64::MAX / 10000) + u64::MAX % 10000);
                assert(acc * 10000 > u64::MAX);
            }
            return Option::None;
        }
    }
    let dotpos = i;
    proof {
        assert(t[dotpos - from] == 46);
    }
    if dotpos == from {
        proof {
            lemma_dot_split(t, 0);
        }
        return Option::None;
    }
    let f = n - dotpos - 1;
    if f < 1 || f > 4 {
        proof {
            lemma_dot_split(t, dotpos - from);
        }
        return Option::None;
    }
    let mut j = dotpos + 1;
    let mut fr: u64 = 0;
    while j < n
        invariant
            from < dotpos < j <= n == s@.len(),
            t == s@.skip(from as int),
            s@[dotpos as int] == 46,
            f == n - dotpos - 1,
            1 <= f <= 4,
            forall|jj: int| dotpos < jj < j ==> is_digit(#[trigger] s@[jj]),
            fr == digits_val(s@.subrange(dotpos as int + 1, j as int)),
            fr < pow10((j - dotpos - 1) as nat),
        decreases n - j,
    {
        let b = s[j];
        if b < 48 || b > 57 {
            proof {
                lemma_dot_split(t, dotpos - from);
                assert(t.skip(dotpos - from + 1)[j - dotpos - 1] == s@[j as int]);
                assert(!all_digits(t.skip(dotpos - from + 1)));
            }
            return Option::None;
        }
        let ghost pre = s@.subrange(dotpos as int + 1, j as int);
        let ghost post = s@.subrange(dotpos as int + 1, j as int + 1);
        proof {
            assert(post.drop_last() =~= pre);
            assert(post.last() == s@[j as int]);
            assert(digits_val(post) == digits_val(pre) * 10 + (b - 48));
            lemma_pow10_small();
            assert(pow10(((j + 1) - dotpos - 1) as nat) == 10 * pow10((j - dotpos - 1) as nat));
        }
        fr = fr * 10 + ((b - 48) as u64);
        j += 1;
    }
    proof {
        lemma_pow10_small();
        assert(fr < 10000);
        assert(s@.subrange(dotpos as int + 1, n as int) =~= t.skip(dotpos - from + 1));
        assert(s@.subrange(from as int, dotpos as int) =~= t.take(dotpos - from));
        lemma_dot_split(t, dotpos - from);
        assert(t.len() - 1 - (dotpos - from) == f);
        assert(all_digits(t.take(dotpos - from)));
        assert(all_digits(t.skip(dotpos - from + 1)));
    }
    let mult: u64 = if f == 1 {
        1000
    } else if f == 2 {
        100
    } else if f == 3 {
        10
    } else {
        1
    };
    proof {
        assert(mult == frac_scale(f as int));
        assert(fr * mult < 10000);
    }
    let fu: u64 = fr * mult;
    let ghost ip = digits_val(t.take(dotpos - from));
    let ghost uv = unsigned_value(t);
    proof {
        assert(uv == Option::Some(ip * 10000 + fr * frac_scale(f as int)));
    }
    if big {
        proof {
            assert(ip > u64::MAX);
            assert(ip * 10000 + fu > u64::MAX) by (nonlinear_arith)
                requires
                    ip > u64::MAX,
                    fu >= 0,
            ;
        }
        return Option::None;
    }
    if acc <= (u64::MAX - fu) / 10000 {
        proof {
            assert(u64::MAX - fu == 10000 * ((u64::MAX - fu) / 10000) + (u64::MAX - fu) % 10000);
        }
        Option::Some(acc * 10000 + fu)
    } else {
        proof {
            assert(u64::MAX - fu == 10000 * ((u64::MAX - fu) / 10000) + (u64::MAX - fu) % 10000);
            assert(acc * 10000 + fu > u64::MAX);
        }
        Option::None
    }
}

/// Parse a non-negative decimal amount into 1/10000 units. `None`
/// exactly when the bytes are no unsigned numeral or the amount does not
/// fit.
pub fn parse_amount(s: &[u8]) -> (r: Option<u64>)
    ensures
        ({
            match r {
                Option::Some(x) => unsigned_value(s@) == Option::Some(x as int),
                Option::None => match unsigned_value(s@) {
                    Option::Some(n) => n > u64::MAX,
                    Option::None => true,
                },
            }
        }),
{
    proof {
        assert(s@.skip(0) =~= s@);
    }
    parse_units_from(s, 0)
}

/// Parse a possibly negative decimal balance into 1/10000 units. `None`
/// exactly when the bytes are no numeral or the count is outside the
/// `i64` range.
pub fn parse_balance(s: &[u8]) -> (r: Option<i64>)
    ensures
        ({
            match r {
                Option::Some(x) => dec_value(s@) == Option::Some(x as int),
                Option::None => match dec_value(s@) {
                    Option::Some(n) => !(i64::MIN <= n <= i64::MAX),
                    Option::None => true,
                },
            }
        }),
{
    if s.len() >= 1 && s[0] == 45 {
        match parse_units_from(s, 1) {
            Option::Some(x) => {
                if x <= i64::MAX as u64 {
                    Option::Some(-(x as i64))
                } else if x == (i64::MAX as u64) + 1 {
                    Option::Some(i64::MIN)
                } else {
                    Option::None
                }
            },
            Option::None => Option::None,
        }
    } else {
        proof {
            assert(s@.skip(0) =~= s@);
        }
        match parse_units_from(s, 0) {
            Option::Some(x) => {
                if x <= i64::MAX as u64 {
                    Option::Some(x as i64)
                } else {
                    Option::None
                }
            },
            Option::None => Option::None,
        }
    }
}

/// Parse a plain unsigned integer (an id field). `None` exactly when the
/// bytes are not all digits, are empty, or the value does not fit.
pub fn parse_uint(s: &[u8]) -> (r: Option<u64>)
    ensures
        ({
            match r {
                Option::Some(x) => s@.len() >= 1 && all_digits(s@) && digits_val(s@) == x as int,
                Option::None => s@.len() == 0 || !all_digits(s@) || digits_val(s@) > u64::MAX,
            }
        }),
{
    let n = s.len();
    if n == 0 {
        return Option::None;
    }
    let mut i: usize = 0;
    let mut acc: u64 = 0;
    let mut big: bool = false;
    while i < n
        invariant
            0 <= i <= n == s@.len(),
            forall|j: int| 0 <= j < i ==> is_digit(#[trigger] s@[j]),
            !big ==> acc == digits_val(s@.subrange(0, i as int)),
            big ==> digits_val(s@.subrange(0, i as int)) > u64::MAX,
        decreases n - i,
    {
        let b = s[i];
        if b < 48 || b > 57 {
            proof {
                assert(!all_digits(s@));
            }
            return Option::None;
        }
        let ghost pre = s@.subrange(0, i as int);
        let ghost post = s@.subrange(0, i as int + 1);
        proof {
            assert(post.drop_last() =~= pre);
            assert(post.last() == s@[i as int]);
            assert(digits_val(post) == digits_val(pre) * 10 + (b - 48));
        }
        let d: u64 = (b - 48) as u64;
        if !big {
            if acc <= (u64::MAX - d) / 10 {
                proof {
                    assert(u64::MAX - d == 10 * ((u64::MAX - d) / 10) + (u64::MAX - d) % 10);
                }
                acc = acc * 10 + d;
            } else {
                proof {
                    assert(u64::MAX - d == 10 * ((u64::MAX - d) / 10) + (u64::MAX - d) % 10);
                    assert(acc * 10 + d > u64::MAX);
                }
                big = true;
            }
        }
        i += 1;
    }
    proof {
        assert(s@.subrange(0, n as int) =~= s@);
    }
    if big {
        Option::None
    } else {
        Option::Some(acc)
    }
}

} // verus!
