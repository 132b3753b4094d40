//! Decimal numerals read from text: signed and unsigned integers, and
//! fractional numbers with a decimal point.

use vstd::prelude::*;
use vstd::string::*;

verus! {

/// Magnitudes above this are all reported as `NUMERAL_CAP + 1`.
pub const NUMERAL_CAP: u128 = 0x1_0000_0000_0000_0000;

pub open spec fn is_digit(c: char) -> bool {
    '0' <= c && c <= '9'
}

pub open spec fn digit_val(c: char) -> int {
    (c as int) - ('0' as int)
}

pub open spec fn all_digits(s: Seq<char>) -> bool {
    forall|i: int| 0 <= i < s.len() ==> is_digit(#[trigger] s[i])
}

/// The number that a string of decimal digits denotes.
pub open spec fn digits_val(s: Seq<char>) -> int
    decreases s.len(),
{
    if s.len() == 0 {
        0
    } else {
        digits_val(s.drop_last()) * 10 + digit_val(s.last())
    }
}

pub open spec fn digits_opt(s: Seq<char>) -> Option<int> {
    if s.len() > 0 && all_digits(s) {
        Some(digits_val(s))
    } else {
        None
    }
}

/// The integer that `s` denotes: an optional `+` (or `-` where `signed`),
/// then one or more decimal digits, nothing else.
pub open spec fn integer_value(s: Seq<char>, signed: bool) -> Option<int> {
    if s.len() > 0 && s[0] == '+' {
        digits_opt(s.drop_first())
    } else if signed && s.len() > 0 && s[0] == '-' {
        match digits_opt(s.drop_first()) {
            Some(v) => Some(-v),
            None => None,
        }
    } else {
        digits_opt(s)
    }
}

pub open spec fn capped(x: int) -> int {
    if x > NUMERAL_CAP {
        NUMERAL_CAP + 1
    } else {
        x
    }
}

pub open spec fn abs(x: int) -> int {
    if x < 0 {
        -x
    } else {
        x
    }
}

pub fn is_digit_char(c: char) -> (r: bool)
    ensures
        r == is_digit(c),
{
    '0' <= c && c <= '9'
}

proof fn lemma_digits_val_nonneg(s: Seq<char>)
    requires
        all_digits(s),
    ensures
        digits_val(s) >= 0,
    decreases s.len(),
{
    if s.len() > 0 {
        assert(is_digit(s[s.len() - 1]));
        assert(all_digits(s.drop_last())) by {
            assert forall|i: int| 0 <= i < s.drop_last().len() implies is_digit(
                #[trigger] s.drop_last()[i],
            ) by {
                assert(s.drop_last()[i] == s[i]);
            }
        }
        lemma_digits_val_nonneg(s.drop_last());
    }
}

/// Reads the digits of `s` from `start` to its end, capping the value.
fn scan_digits(s: &str, start: usize) -> (r: Option<u128>)
    requires
        start <= s@.len(),
    ensures
        match r {
            None => digits_opt(s@.subrange(start as int, s@.len() as int)) is None,
            Some(m) => {
                &&& digits_opt(s@.subrange(start as int, s@.len() as int)) is Some
                &&& m == capped(digits_val(s@.subrange(start as int, s@.len() as int)))
            },
        },
{
    let n = s.unicode_len();
    if start >= n {
        return None;
    }
    let mut acc: u128 = 0;
    let mut i: usize = start;
    while i < n
        invariant
            start <= i <= n,
            n == s@.len(),
            all_digits(s@.subrange(start as int, i as int)),
            acc as int == capped(digits_val(s@.subrange(start as int, i as int))),
        decreases n - i,
    {
        let c = s.get_char(i);
        if !is_digit_char(c) {
            assert(s@.subrange(start as int, n as int)[i - start] == c);
            return None;
        }
        let ghost prev = s@.subrange(start as int, i as int);
        let ghost next = s@.subrange(start as int, i + 1);
        proof {
            assert(next.drop_last() =~= prev);
            assert(next.last() == c);
            assert(all_digits(next)) by {
                assert forall|j: int| 0 <= j < next.len() implies is_digit(#[trigger] next[j]) by {
                    if j < prev.len() {
                        assert(next[j] == prev[j]);
                    }
                }
            }
            lemma_digits_val_nonneg(prev);
        }
        let d: u128 = (c as u32 - 48) as u128;
        if acc <= NUMERAL_CAP {
            acc = acc * 10 + d;
            if acc > NUMERAL_CAP {
                acc = NUMERAL_CAP + 1;
            }
        }
        i = i + 1;
    }
    assert(s@.subrange(start as int, n as int).len() > 0);
    Some(acc)
}

/// Reads an integer numeral: whether it carries a minus sign, and its
/// magnitude capped at `NUMERAL_CAP + 1`.
pub fn scan_integer(s: &str, signed: bool) -> (r: Option<(bool, u128)>)
    ensures
        match r {
            None => integer_value(s@, signed) is None,
            Some((neg, m)) => {
                &&& integer_value(s@, signed) is Some
                &&& (neg ==> signed && integer_value(s@, signed)->0 <= 0)
                &&& (!neg ==> integer_value(s@, signed)->0 >= 0)
                &&& m == capped(abs(integer_value(s@, signed)->0))
            },
        },
{
    let n = s.unicode_len();
    let mut start: usize = 0;
    let mut neg = false;
    if n > 0 {
        let c0 = s.get_char(0);
        if c0 == '+' {
            start = 1;
        } else if signed && c0 == '-' {
            start = 1;
            neg = true;
        }
    }
    proof {
        if start == 1 {
            assert(s@.subrange(1, s@.len() as int) =~= s@.drop_first());
        } else {
            assert(s@.subrange(0, s@.len() as int) =~= s@);
        }
    }
    match scan_digits(s, start) {
        None => None,
        Some(m) => {
            proof {
                lemma_digits_val_nonneg(s@.subrange(start as int, s@.len() as int));
            }
            Some((neg, m))
        },
    }
}

pub open spec fn pow10(k: nat) -> int
    decreases k,
{
    if k == 0 {
        1
    } else {
        10 * pow10((k - 1) as nat)
    }
}

/// How many decimal digits `s` begins with.
pub open spec fn lead_digits(s: Seq<char>) -> nat
    decreases s.len(),
{
    if s.len() > 0 && is_digit(s[0]) {
        1 + lead_digits(s.drop_first())
    } else {
        0
    }
}

/// An unsigned decimal numeral `digits[.digits]` with at least one digit,
/// as `(n, k)` where the number is `n / 10^k`.
pub open spec fn unsigned_decimal(b: Seq<char>) -> Option<(int, nat)> {
    let j = lead_digits(b);
    let ip = b.take(j as int);
    let rest = b.skip(j as int);
    if rest.len() == 0 {
        if j > 0 {
            Some((digits_val(ip), 0))
        } else {
            None
        }
    } else if rest[0] == '.' && all_digits(rest.drop_first()) && j + rest.len() > 1 {
        let fp = rest.drop_first();
        Some((digits_val(ip) * pow10(fp.len()) + digits_val(fp), fp.len()))
    } else {
        None
    }
}

/// A decimal numeral with an optional sign, as `(n, k)` where the number
/// is `n / 10^k`.
pub open spec fn decimal_value(s: Seq<char>) -> Option<(int, nat)> {
    if s.len() > 0 && s[0] == '+' {
        unsigned_decimal(s.drop_first())
    } else if s.len() > 0 && s[0] == '-' {
        match unsigned_decimal(s.drop_first()) {
            Some((n, k)) => Some((-n, k)),
            None => None,
        }
    } else {
        unsigned_decimal(s)
    }
}

/// The number `n / 10^k` lies within `[lo / 10, hi / 10]`.
pub open spec fn tenths_within(n: int, k: nat, lo: int, hi: int) -> bool {
    lo * pow10(k) <= 10 * n && 10 * n <= hi * pow10(k)
}

pub open spec fn is_exp_mark(c: char) -> bool {
    c == 'e' || c == 'E'
}

/// How many characters `s` has before its first `e` or `E`.
pub open spec fn mantissa_len(s: Seq<char>) -> nat
    decreases s.len(),
{
    if s.len() > 0 && !is_exp_mark(s[0]) {
        1 + mantissa_len(s.drop_first())
    } else {
        0
    }
}

/// A numeral `[+|-]digits[.digits][(e|E)[+|-]digits]` with at least one
/// mantissa digit, as `(n, k, x)` where the number is `n * 10^x / 10^k`.
pub open spec fn float_value(s: Seq<char>) -> Option<(int, nat, int)> {
    let m = mantissa_len(s);
    match decimal_value(s.take(m as int)) {
        None => None,
        Some(v) => if m == s.len() {
            Some((v.0, v.1, 0))
        } else {
            match integer_value(s.skip(m as int + 1), true) {
                Some(x) => Some((v.0, v.1, x)),
                None => None,
            }
        },
    }
}

/// The number `n * 10^x / 10^k` lies within `[lo / 10, hi / 10]`.
pub open spec fn scaled_within(n: int, k: nat, x: int, lo: int, hi: int) -> bool {
    let sh = x - k;
    if sh >= 0 {
        lo <= 10 * n * pow10(sh as nat) && 10 * n * pow10(sh as nat) <= hi
    } else {
        tenths_within(n, (-sh) as nat, lo, hi)
    }
}

/// Whether the numeral `s` denotes a number within `[lo / 10, hi / 10]`;
/// `None` where `s` is no numeral.
pub open spec fn decimal_within(s: Seq<char>, lo: int, hi: int) -> Option<bool> {
    match float_value(s) {
        Some(v) => Some(scaled_within(v.0, v.1, v.2, lo, hi)),
        None => None,
    }
}

proof fn lemma_pow10_pos(k: nat)
    ensures
        pow10(k) >= 1,
    decreases k,
{
    if k > 0 {
        lemma_pow10_pos((k - 1) as nat);
    }
}

proof fn lemma_digits_val_bound(s: Seq<char>)
    requires
        all_digits(s),
    ensures
        0 <= digits_val(s) < pow10(s.len()),
    decreases s.len(),
{
    if s.len() > 0 {
        assert(is_digit(s[s.len() - 1]));
        assert(all_digits(s.drop_last())) by {
            assert forall|i: int| 0 <= i < s.drop_last().len() implies is_digit(
                #[trigger] s.drop_last()[i],
            ) by {
                assert(s.drop_last()[i] == s[i]);
            }
        }
        lemma_digits_val_bound(s.drop_last());
    }
}

proof fn lemma_lead_digits(b: Seq<char>, i: int)
    requires
        0 <= i <= b.len(),
        forall|j: int| 0 <= j < i ==> is_digit(#[trigger] b[j]),
        i == b.len() || !is_digit(b[i]),
    ensures
        lead_digits(b) == i,
    decreases i,
{
    if i > 0 {
        let t = b.drop_first();
        assert forall|j: int| 0 <= j < i - 1 implies is_digit(#[trigger] t[j]) by {
            assert(t[j] == b[j + 1]);
        }
        if i - 1 < t.len() {
            assert(t[i - 1] == b[i]);
        }
        lemma_lead_digits(t, i - 1);
    } else {
        assert(!is_digit(b[0]) || b.len() == 0);
    }
}

/// Range facts on `n / 10^k` for `n = ip * 10^k + f`, `0 <= f < 10^k`.
proof fn lemma_tenths_range(ip: int, f: int, k: nat, half: bool, zero: bool)
    requires
        ip >= 0,
        0 <= f < pow10(k),
        half == (2 * f >= pow10(k)),
        zero == (f == 0),
    ensures
        tenths_within(ip * pow10(k) + f, k, 35, 100) == ((ip >= 4 || (ip == 3 && half)) && (
        ip < 10 || (ip == 10 && zero))),
{
    let p = pow10(k);
    lemma_pow10_pos(k);
    let n = ip * p + f;
    if ip >= 4 {
        assert(ip * p >= 4 * p) by (nonlinear_arith)
            requires
                ip >= 4,
                p >= 1,
        ;
    } else if ip <= 2 {
        assert(ip * p <= 2 * p) by (nonlinear_arith)
            requires
                ip <= 2,
                p >= 1,
        ;
    }
    if ip < 10 {
        assert(ip * p <= 9 * p) by (nonlinear_arith)
            requires
                ip <= 9,
                p >= 1,
        ;
    } else if ip > 10 {
        assert(ip * p >= 11 * p) by (nonlinear_arith)
            requires
                ip >= 11,
                p >= 1,
        ;
    }
}

/// Reads the run of digits that starts at `start`: where it ends, and its
/// value capped.
fn scan_lead_digits(s: &str, start: usize) -> (r: (usize, u128))
    requires
        start <= s@.len(),
    ensures
        start <= r.0 <= s@.len(),
        lead_digits(s@.subrange(start as int, s@.len() as int)) == r.0 - start,
        all_digits(s@.subrange(start as int, r.0 as int)),
        r.1 as int == capped(digits_val(s@.subrange(start as int, r.0 as int))),
{
    let n = s.unicode_len();
    let ghost b = s@.subrange(start as int, n as int);
    let mut j: usize = start;
    let mut ip: u128 = 0;
    while j < n && is_digit_char(s.get_char(j))
        invariant
            start <= j <= n,
            n == s@.len(),
            b == s@.subrange(start as int, n as int),
            forall|t: int| 0 <= t < j - start ==> is_digit(#[trigger] b[t]),
            ip as int == capped(digits_val(b.take(j - start))),
        decreases n - j,
    {
        let c = s.get_char(j);
        let ghost prev = b.take(j - start);
        let ghost next = b.take(j + 1 - start);
        proof {
            assert(b[j - start] == c);
            assert(next.drop_last() =~= prev);
            assert(all_digits(prev));
            lemma_digits_val_nonneg(prev);
        }
        let d: u128 = (c as u32 - 48) as u128;
        if ip <= NUMERAL_CAP {
            ip = ip * 10 + d;
            if ip > NUMERAL_CAP {
                ip = NUMERAL_CAP + 1;
            }
        }
        j = j + 1;
    }
    proof {
        if j < n {
            assert(b[j - start] == s@[j as int]);
        }
        lemma_lead_digits(b, j - start);
        assert(b.take(j - start) =~= s@.subrange(start as int, j as int));
        assert(all_digits(b.take(j - start)));
    }
    (j, ip)
}

/// Whether `s` holds only digits from `fs` to its end.
fn digits_to_end(s: &str, fs: usize) -> (r: bool)
    requires
        fs <= s@.len(),
    ensures
        r == all_digits(s@.subrange(fs as int, s@.len() as int)),
{
    let n = s.unicode_len();
    let ghost fp = s@.subrange(fs as int, n as int);
    let mut i: usize = fs;
    while i < n
        invariant
            fs <= i <= n,
            n == s@.len(),
            fp == s@.subrange(fs as int, n as int),
            forall|t: int| 0 <= t < i - fs ==> is_digit(#[trigger] fp[t]),
        decreases n - i,
    {
        let d = s.get_char(i);
        assert(fp[i - fs] == d);
        if !is_digit_char(d) {
            return false;
        }
        i = i + 1;
    }
    true
}

/// Appends the characters of `s` from `from` to `to`.
fn copy_chars(s: &str, from: usize, to: usize, v: &mut Vec<char>)
    requires
        from <= to <= s@.len(),
    ensures
        final(v)@ == old(v)@ + s@.subrange(from as int, to as int),
{
    let mut i: usize = from;
    while i < to
        invariant
            from <= i <= to,
            to <= s@.len(),
            v@ == old(v)@ + s@.subrange(from as int, i as int),
        decreases to - i,
    {
        let c = s.get_char(i);
        v.push(c);
        assert(s@.subrange(from as int, i + 1) =~= s@.subrange(from as int, i as int).push(c));
        i = i + 1;
    }
}

proof fn lemma_all_digits_sub(d: Seq<char>, a: int, b: int)
    requires
        all_digits(d),
        0 <= a <= b <= d.len(),
    ensures
        all_digits(d.subrange(a, b)),
{
    assert forall|t: int| 0 <= t < b - a implies is_digit(#[trigger] d.subrange(a, b)[t]) by {
        assert(d.subrange(a, b)[t] == d[a + t]);
    }
}

/// Splitting a digit string at `c`: the digits before `c`, shifted, plus
/// the digits after it.
proof fn lemma_split(d: Seq<char>, c: int)
    requires
        0 <= c <= d.len(),
    ensures
        digits_val(d) == digits_val(d.take(c)) * pow10((d.len() - c) as nat) + digits_val(
            d.skip(c),
        ),
    decreases d.len(),
{
    if c == d.len() {
        assert(d.take(c) =~= d);
        assert(d.skip(c).len() == 0);
    } else {
        let e = d.drop_last();
        lemma_split(e, c);
        assert(e.take(c) =~= d.take(c));
        assert(d.skip(c).drop_last() =~= e.skip(c));
        assert(d.skip(c).last() == d.last());
        let p = pow10((e.len() - c) as nat);
        assert(pow10((d.len() - c) as nat) == 10 * p);
        let a = digits_val(d.take(c));
        assert(a * (10 * p) == (a * p) * 10) by (nonlinear_arith);
    }
}

proof fn lemma_pow10_mono(a: nat, b: nat)
    requires
        a <= b,
    ensures
        pow10(a) <= pow10(b),
    decreases b,
{
    if a < b {
        lemma_pow10_mono(a, (b - 1) as nat);
        lemma_pow10_pos((b - 1) as nat);
    }
}

/// Reads a numeral `[+|-]digits[.digits]`: its sign, all its digits, and
/// how many of them stand before the point.
#[verifier::rlimit(80)]
fn scan_mantissa(s: &str) -> (r: Option<(bool, Vec<char>, usize)>)
    ensures
        r is None <==> decimal_value(s@) is None,
        r matches Some((neg, d, lead)) ==> {
            &&& all_digits(d@)
            &&& lead <= d@.len() <= s@.len()
            &&& decimal_value(s@) == Some(
                (if neg { -digits_val(d@) } else { digits_val(d@) }, (d@.len() - lead) as nat),
            )
        },
{
    let n = s.unicode_len();
    let mut start: usize = 0;
    let mut neg = false;
    if n > 0 {
        let c0 = s.get_char(0);
        if c0 == '+' {
            start = 1;
        } else if c0 == '-' {
            start = 1;
            neg = true;
        }
    }
    let ghost b = s@.subrange(start as int, n as int);
    proof {
        if start == 1 {
            assert(b =~= s@.drop_first());
        } else {
            assert(b =~= s@);
        }
    }
    let (j, _ip) = scan_lead_digits(s, start);
    let lead: usize = j - start;
    let ghost ipart = b.take(lead as int);
    let ghost rest = b.skip(lead as int);
    proof {
        assert(ipart =~= s@.subrange(start as int, j as int));
        lemma_digits_val_nonneg(ipart);
    }
    if j == n {
        assert(rest.len() == 0);
        if lead == 0 {
            return None;
        }
        let mut d: Vec<char> = Vec::new();
        copy_chars(s, start, j, &mut d);
        assert(d@ =~= ipart);
        return Some((neg, d, lead));
    }
    let c = s.get_char(j);
    assert(rest[0] == c);
    if c != '.' {
        return None;
    }
    let fs: usize = j + 1;
    let ghost fp = rest.drop_first();
    assert(fp =~= s@.subrange(fs as int, n as int));
    match digits_to_end(s, fs) {
        false => None,
        true => {
            if lead == 0 && n == fs {
                return None;
            }
            let mut d: Vec<char> = Vec::new();
            copy_chars(s, start, j, &mut d);
            copy_chars(s, fs, n, &mut d);
            proof {
                assert(d@ =~= ipart + fp);
                lemma_split(d@, lead as int);
                assert(d@.take(lead as int) =~= ipart);
                assert(d@.skip(lead as int) =~= fp);
                assert(all_digits(d@)) by {
                    assert forall|t: int| 0 <= t < d@.len() implies is_digit(#[trigger] d@[t]) by {
                        if t < lead {
                            assert(d@[t] == ipart[t]);
                        } else {
                            assert(d@[t] == fp[t - lead]);
                        }
                    }
                }
            }
            Some((neg, d, lead))
        },
    }
}

proof fn lemma_mantissa_len(b: Seq<char>, i: int)
    requires
        0 <= i <= b.len(),
        forall|j: int| 0 <= j < i ==> !is_exp_mark(#[trigger] b[j]),
        i == b.len() || is_exp_mark(b[i]),
    ensures
        mantissa_len(b) == i,
    decreases i,
{
    if i > 0 {
        let t = b.drop_first();
        assert forall|j: int| 0 <= j < i - 1 implies !is_exp_mark(#[trigger] t[j]) by {
            assert(t[j] == b[j + 1]);
        }
        if i - 1 < t.len() {
            assert(t[i - 1] == b[i]);
        }
        lemma_mantissa_len(t, i - 1);
    }
}

/// Where the mantissa of `s` ends: at its first `e` or `E`, or at its end.
fn mantissa_end(s: &str) -> (r: usize)
    ensures
        r == mantissa_len(s@),
        r <= s@.len(),
{
    let n = s.unicode_len();
    let mut i: usize = 0;
    while i < n && !(s.get_char(i) == 'e' || s.get_char(i) == 'E')
        invariant
            i <= n,
            n == s@.len(),
            forall|j: int| 0 <= j < i ==> !is_exp_mark(#[trigger] s@[j]),
        decreases n - i,
    {
        i = i + 1;
    }
    proof {
        lemma_mantissa_len(s@, i as int);
    }
    i
}

/// The digits of `d` before `c`, capped, and of those after it whether
/// their value is zero and whether it is at least half of `10^k` for `k`
/// digits.
fn split_scan(d: &Vec<char>, c: usize) -> (r: (u128, bool, bool))
    requires
        c <= d@.len(),
        all_digits(d@),
    ensures
        r.0 == capped(digits_val(d@.take(c as int))),
        r.1 == (digits_val(d@.skip(c as int)) == 0),
        r.2 == (2 * digits_val(d@.skip(c as int)) >= pow10((d@.len() - c) as nat)),
{
    let n = d.len();
    let mut ip: u128 = 0;
    let mut i: usize = 0;
    while i < c
        invariant
            i <= c <= n,
            n == d@.len(),
            all_digits(d@),
            ip as int == capped(digits_val(d@.take(i as int))),
        decreases c - i,
    {
        let ch = d[i];
        proof {
            assert(d@.take(i + 1).drop_last() =~= d@.take(i as int));
            lemma_all_digits_sub(d@, 0, i as int);
            assert(d@.take(i as int) =~= d@.subrange(0, i as int));
            lemma_digits_val_nonneg(d@.take(i as int));
            assert(is_digit(d@[i as int]));
        }
        let v: u128 = (ch as u32 - 48) as u128;
        if ip <= NUMERAL_CAP {
            ip = ip * 10 + v;
            if ip > NUMERAL_CAP {
                ip = NUMERAL_CAP + 1;
            }
        }
        i = i + 1;
    }
    let ghost f = d@.skip(c as int);
    let mut zero = true;
    let mut half = false;
    let mut i: usize = c;
    while i < n
        invariant
            c <= i <= n,
            n == d@.len(),
            all_digits(d@),
            f == d@.skip(c as int),
            zero == (digits_val(f.take(i - c)) == 0),
            half == (2 * digits_val(f.take(i - c)) >= pow10((i - c) as nat)),
        decreases n - i,
    {
        let ch = d[i];
        let ghost prev = f.take(i - c);
        let ghost next = f.take(i + 1 - c);
        proof {
            assert(f[i - c] == ch);
            assert(is_digit(d@[i as int]));
            assert(next.drop_last() =~= prev);
            assert(next.last() == ch);
            lemma_all_digits_sub(d@, c as int, i as int);
            assert(prev =~= d@.subrange(c as int, i as int));
            lemma_digits_val_bound(prev);
            let v = digits_val(prev);
            let p = pow10((i - c) as nat);
            let dv = digit_val(ch);
            assert(pow10((i + 1 - c) as nat) == 10 * p);
            assert(digits_val(next) == v * 10 + dv);
            if i == c {
                assert(prev.len() == 0);
                assert(v == 0 && p == 1);
            } else {
                lemma_pow10_pos((i - c - 1) as nat);
                assert(p == 10 * pow10((i - c - 1) as nat));
                if 2 * v >= p {
                    assert(2 * (v * 10 + dv) >= 10 * p) by (nonlinear_arith)
                        requires
                            2 * v >= p,
                            dv >= 0,
                    ;
                } else {
                    assert(p % 2 == 0);
                    assert(2 * v <= p - 2);
                    assert(2 * (v * 10 + dv) < 10 * p) by (nonlinear_arith)
                        requires
                            2 * v <= p - 2,
                            dv <= 9,
                    ;
                }
            }
        }
        if i == c {
            half = ch >= '5';
        }
        zero = zero && ch == '0';
        i = i + 1;
    }
    assert(f.take(n - c) =~= f);
    (ip, zero, half)
}

/// With the point moved past every digit, only the number ten is in
/// range: `n * 10^(x - k)` with `x - k >= 1`.
proof fn lemma_beyond_digits(v: int, k: nat, x: int)
    requires
        v >= 0,
        x - k >= 1,
    ensures
        scaled_within(v, k, x, 35, 100) == (x - k == 1 && v == 1),
{
    let sh = x - k;
    let q = pow10(sh as nat);
    assert(q == 10 * pow10((sh - 1) as nat));
    lemma_pow10_pos((sh - 1) as nat);
    assert(pow10(0) == 1);
    assert(pow10(1) == 10 * pow10(0));
    if sh >= 2 {
        lemma_pow10_mono(1, (sh - 1) as nat);
        assert(q >= 100);
    } else {
        assert(q == 10);
    }
    if v == 0 {
        assert(10 * v * q == 0) by (nonlinear_arith)
            requires
                v == 0,
        ;
    } else if v == 1 {
        assert(10 * v * q == 10 * q);
    } else {
        assert(10 * v * q >= 20 * q) by (nonlinear_arith)
            requires
                v >= 2,
                q >= 0,
        ;
    }
}

/// Reads a numeral `[+|-]digits[.digits][(e|E)[+|-]digits]` and tells
/// whether its number lies in `[3.5, 10]`; `None` where `s` is no numeral.
#[verifier::rlimit(60)]
pub fn scan_decimal_segment(s: &str) -> (r: Option<bool>)
    ensures
        r == decimal_within(s@, 35, 100),
{
    let n = s.unicode_len();
    let m = mantissa_end(s);
    let mant = s.substring_char(0, m);
    assert(mant@ =~= s@.take(m as int));
    let (neg_x, mag) = if m < n {
        let e = s.substring_char(m + 1, n);
        assert(e@ =~= s@.skip(m + 1));
        match scan_integer(e, true) {
            None => {
                return None;
            },
            Some(p) => p,
        }
    } else {
        (false, 0)
    };
    let ghost x: int = if m < n {
        integer_value(s@.skip(m + 1), true)->0
    } else {
        0
    };
    let (neg, d, lead) = match scan_mantissa(mant) {
        None => {
            return None;
        },
        Some(t) => t,
    };
    let ghost v = digits_val(d@);
    let ghost dl = d@.len() as int;
    let ghost k = dl - lead;
    proof {
        lemma_digits_val_bound(d@);
        assert(float_value(s@) == Some(
            (if neg { -v } else { v }, k as nat, x),
        ));
    }
    if neg {
        proof {
            lemma_pow10_pos(k as nat);
            if x - k >= 0 {
                lemma_pow10_pos((x - k) as nat);
                assert(10 * (-v) * pow10((x - k) as nat) <= 0) by (nonlinear_arith)
                    requires
                        v >= 0,
                        pow10((x - k) as nat) >= 1,
                ;
            } else {
                lemma_pow10_pos((k - x) as nat);
            }
        }
        return Some(false);
    }
    let len: usize = d.len();
    let c: i128 = if neg_x {
        lead as i128 - mag as i128
    } else {
        lead as i128 + mag as i128
    };
    proof {
        if mag <= NUMERAL_CAP {
            assert(c == lead + x);
        } else if neg_x {
            assert(lead + x < 0);
        } else {
            assert(lead + x >= len + 2);
        }
    }
    if c < 0 {
        proof {
            // the number is below one
            let sh = k - x;
            assert(sh >= dl + 1);
            lemma_pow10_mono((dl + 1) as nat, sh as nat);
            assert(pow10((dl + 1) as nat) == 10 * pow10(dl as nat));
        }
        return Some(false);
    }
    if c > len as i128 {
        let (vcap, _, _) = split_scan(&d, len);
        assert(d@.take(len as int) =~= d@);
        proof {
            lemma_beyond_digits(v, k as nat, x);
            assert((c - len == 1) == (x - k == 1));
        }
        return Some(c - len as i128 == 1 && vcap == 1);
    }
    let cu: usize = c as usize;
    let (ip, zero, half) = split_scan(&d, cu);
    proof {
        lemma_split(d@, cu as int);
        lemma_all_digits_sub(d@, 0, cu as int);
        lemma_all_digits_sub(d@, cu as int, dl);
        assert(d@.take(cu as int) =~= d@.subrange(0, cu as int));
        assert(d@.skip(cu as int) =~= d@.subrange(cu as int, dl));
        lemma_digits_val_nonneg(d@.take(cu as int));
        lemma_digits_val_bound(d@.skip(cu as int));
        lemma_tenths_range(
            digits_val(d@.take(cu as int)),
            digits_val(d@.skip(cu as int)),
            (dl - cu) as nat,
            half,
            zero,
        );
        if x - k >= 0 {
            assert(cu == dl);
            assert(pow10(0) == 1);
        }
    }
    Some((ip >= 4 || (ip == 3 && half)) && (ip < 10 || (ip == 10 && zero)))
}

/// `4.0` lies within `[3.5, 10]`.
pub proof fn lemma_four_point_zero()
    ensures
        decimal_within(seq!['4', '.', '0'], 35, 100) == Some(true),
{
    let s = seq!['4', '.', '0'];
    lemma_mantissa_len(s, 3);
    assert(s.take(3) =~= s);
    assert(is_digit(s[0]) && !is_digit(s[1]));
    lemma_lead_digits(s, 1);
    let fp = s.skip(1).drop_first();
    assert(fp =~= seq!['0']);
    assert(s.take(1) =~= seq!['4']);
    assert(seq!['4'].drop_last() =~= Seq::<char>::empty());
    assert(seq!['0'].drop_last() =~= Seq::<char>::empty());
    assert(digits_val(seq!['4']) == digits_val(Seq::<char>::empty()) * 10 + digit_val('4'));
    assert(digits_val(seq!['0']) == digits_val(Seq::<char>::empty()) * 10 + digit_val('0'));
    assert(digit_val('4') == 4);
    assert(pow10(1) == 10) by {
        reveal_with_fuel(pow10, 2);
    }
}

} // verus!
