use vstd::prelude::*;

use crate::text::{chars_of, first_at, find_from, range_eq_ignoring_case, same_ignoring_case, sub_chars};

verus! {

/// `c` is one of the ASCII digits `0` to `9`.
pub open spec fn is_digit(c: char) -> bool {
    48 <= (c as u32) <= 57
}

pub open spec fn all_digits(s: Seq<char>) -> bool {
    forall|i: int| 0 <= i < s.len() ==> is_digit(s[i])
}

/// The value of a string of decimal digits, most significant first.
pub open spec fn digits_value(s: Seq<char>) -> int
    decreases s.len(),
{
    if s.len() == 0 {
        0
    } else {
        digits_value(s.drop_last()) * 10 + (s.last() as u32 - 48)
    }
}

/// Whether a leading `-` is present, and the text after an optional sign.
pub open spec fn sign_and_body(s: Seq<char>) -> (bool, Seq<char>) {
    if s.len() > 0 && s[0] == '-' {
        (true, s.drop_first())
    } else if s.len() > 0 && s[0] == '+' {
        (false, s.drop_first())
    } else {
        (false, s)
    }
}

/// The digits before and after the first `.` of `body`.
pub open spec fn int_and_frac(body: Seq<char>) -> (Seq<char>, Seq<char>) {
    match first_at(body, seq!['.'], 0) {
        Some(p) => (body.subrange(0, p), body.subrange(p + 1, body.len() as int)),
        None => (body, Seq::<char>::empty()),
    }
}

pub fn all_digits_exec(v: &Vec<char>) -> (r: bool)
    ensures
        r == all_digits(v@),
{
    let mut i: usize = 0;
    while i < v.len()
        invariant
            i <= v@.len(),
            forall|j: int| 0 <= j < i ==> is_digit(v@[j]),
        decreases v.len() - i,
    {
        let u = v[i] as u32;
        if u < 48 || u > 57 {
            return false;
        }
        i = i + 1;
    }
    true
}

/// A number as a floating-point read of a numeral sees it: not a number,
/// an infinity, zero, or a finite non-zero value `0.d1d2... * 10^exp` whose
/// significand `digits` has neither leading nor trailing zeros.
pub enum Num {
    Nan,
    Inf { neg: bool },
    Zero,
    Fin { neg: bool, digits: Seq<char>, exp: int },
}

/// The largest exponent magnitude told apart; larger ones count as this.
pub open spec fn exp_cap() -> int {
    1_000_000_000_000_000_000int
}

/// `s` without its leading `0`s.
pub open spec fn strip_front_zeros(s: Seq<char>) -> Seq<char>
    decreases s.len(),
{
    if s.len() > 0 && s[0] == '0' {
        strip_front_zeros(s.drop_first())
    } else {
        s
    }
}

/// `s` without its trailing `0`s.
pub open spec fn strip_back_zeros(s: Seq<char>) -> Seq<char>
    decreases s.len(),
{
    if s.len() > 0 && s.last() == '0' {
        strip_back_zeros(s.drop_last())
    } else {
        s
    }
}

/// The first position at or after `from` of an exponent marker `e` or `E`.
pub open spec fn first_marker(s: Seq<char>, from: int) -> Option<int>
    decreases s.len() + 1 - from,
{
    if from < 0 || from >= s.len() {
        None
    } else if s[from] == 'e' || s[from] == 'E' {
        Some(from)
    } else {
        first_marker(s, from + 1)
    }
}

/// The value of an exponent `[+|-]digits`, its magnitude capped at
/// `exp_cap()`.
pub open spec fn exponent_value(x: Seq<char>) -> Option<int> {
    let (neg, ds) = sign_and_body(x);
    if ds.len() >= 1 && all_digits(ds) {
        let v = if digits_value(ds) > exp_cap() {
            exp_cap()
        } else {
            digits_value(ds)
        };
        Some(
            if neg {
                -v
            } else {
                v
            },
        )
    } else {
        None
    }
}

/// What a floating-point read makes of `s`: `[+|-]` then `inf`, `infinity`
/// or `nan` in any ASCII case, or a mantissa `digits[.digits]` or
/// `.digits` with an optional exponent `e[+|-]digits` (or `E`). `None` for
/// anything else.
pub open spec fn numeral(s: Seq<char>) -> Option<Num> {
    let (neg, body) = sign_and_body(s);
    if same_ignoring_case(body, "inf"@) || same_ignoring_case(body, "infinity"@) {
        Some(Num::Inf { neg })
    } else if same_ignoring_case(body, "nan"@) {
        Some(Num::Nan)
    } else {
        let m = match first_marker(body, 0) {
            Some(i) => body.subrange(0, i),
            None => body,
        };
        let e = match first_marker(body, 0) {
            Some(i) => exponent_value(body.subrange(i + 1, body.len() as int)),
            None => Some(0int),
        };
        finite_numeral(neg, m, e)
    }
}

/// The number that mantissa `m`, with sign `neg` and exponent `e`, writes.
pub open spec fn finite_numeral(neg: bool, m: Seq<char>, e: Option<int>) -> Option<Num> {
    let (ip, fp) = int_and_frac(m);
    if all_digits(ip) && all_digits(fp) && ip.len() + fp.len() >= 1 && e is Some {
        let d = strip_front_zeros(ip + fp);
        if d.len() == 0 {
            Some(Num::Zero)
        } else {
            Some(Num::Fin { neg, digits: strip_back_zeros(d), exp: e.unwrap() - fp.len() + d.len() })
        }
    } else {
        None
    }
}

/// Significand `a` is below significand `b`, both read as `0.a` and `0.b`.
pub open spec fn sig_less(a: Seq<char>, b: Seq<char>) -> bool
    decreases a.len(),
{
    if a.len() == 0 {
        b.len() > 0
    } else if b.len() == 0 {
        false
    } else if a[0] != b[0] {
        (a[0] as u32) < (b[0] as u32)
    } else {
        sig_less(a.drop_first(), b.drop_first())
    }
}

/// `0.da * 10^xa` is below `0.db * 10^xb`.
pub open spec fn mag_less(da: Seq<char>, xa: int, db: Seq<char>, xb: int) -> bool {
    xa < xb || (xa == xb && sig_less(da, db))
}

/// Where `n` stands: negative infinity, negative values, zero, positive
/// values, positive infinity.
pub open spec fn rank(n: Num) -> int {
    match n {
        Num::Inf { neg } => if neg {
            0
        } else {
            4
        },
        Num::Fin { neg, .. } => if neg {
            1
        } else {
            3
        },
        _ => 2,
    }
}

/// `a < b` between numbers; NaN is below nothing and nothing is below it.
pub open spec fn num_less(a: Num, b: Num) -> bool {
    if a is Nan || b is Nan {
        false
    } else if rank(a) != rank(b) {
        rank(a) < rank(b)
    } else {
        match (a, b) {
            (Num::Fin { neg, digits: da, exp: xa }, Num::Fin { digits: db, exp: xb, .. }) => if neg {
                mag_less(db, xb, da, xa)
            } else {
                mag_less(da, xa, db, xb)
            },
            _ => false,
        }
    }
}

/// A number held in memory; see `Num`.
pub enum Number {
    Nan,
    Inf(bool),
    Zero,
    /// Sign, significand digits and exponent.
    Fin(bool, Vec<char>, i128),
}

impl View for Number {
    type V = Num;

    open spec fn view(&self) -> Num {
        match self {
            Number::Nan => Num::Nan,
            Number::Inf(neg) => Num::Inf { neg: *neg },
            Number::Zero => Num::Zero,
            Number::Fin(neg, d, x) => Num::Fin { neg: *neg, digits: d@, exp: *x as int },
        }
    }
}

fn find_marker(s: &Vec<char>) -> (r: Option<usize>)
    ensures
        r matches Some(i) ==> first_marker(s@, 0) == Some(i as int) && i < s@.len(),
        r is None ==> first_marker(s@, 0) is None,
{
    let mut i: usize = 0;
    while i < s.len()
        invariant
            i <= s@.len(),
            first_marker(s@, 0) == first_marker(s@, i as int),
        decreases s.len() - i,
    {
        if s[i] == 'e' || s[i] == 'E' {
            return Some(i);
        }
        i = i + 1;
    }
    None
}

/// The bounds of `v` without leading zeros, and then without trailing ones.
fn zero_bounds(v: &Vec<char>) -> (r: (usize, usize))
    ensures
        r.0 <= r.1 <= v@.len(),
        v@.subrange(r.0 as int, v@.len() as int) == strip_front_zeros(v@),
        v@.subrange(r.0 as int, r.1 as int) == strip_back_zeros(strip_front_zeros(v@)),
{
    let n = v.len();
    let mut a: usize = 0;
    assert(v@.subrange(0, n as int) =~= v@);
    while a < n && v[a] == '0'
        invariant
            n == v@.len(),
            a <= n,
            strip_front_zeros(v@) == strip_front_zeros(v@.subrange(a as int, n as int)),
        decreases n - a,
    {
        assert(v@.subrange(a as int, n as int).drop_first() =~= v@.subrange(a + 1, n as int));
        a = a + 1;
    }
    assert(strip_front_zeros(v@.subrange(a as int, n as int)) == v@.subrange(a as int, n as int));
    let mut b: usize = n;
    while b > a && v[b - 1] == '0'
        invariant
            n == v@.len(),
            a <= b <= n,
            strip_back_zeros(v@.subrange(a as int, n as int)) == strip_back_zeros(
                v@.subrange(a as int, b as int),
            ),
        decreases b,
    {
        assert(v@.subrange(a as int, b as int).drop_last() =~= v@.subrange(a as int, b - 1));
        b = b - 1;
    }
    (a, b)
}

proof fn lemma_capped_step(s: Seq<char>, c: char)
    requires
        is_digit(c),
        all_digits(s),
    ensures
        ({
            let v = digits_value(s);
            let cv = if v > exp_cap() {
                exp_cap()
            } else {
                v
            };
            let w = digits_value(s.push(c));
            let next = cv * 10 + (c as u32 - 48);
            (if w > exp_cap() {
                exp_cap()
            } else {
                w
            }) == (if next > exp_cap() {
                exp_cap()
            } else {
                next
            })
        }),
{
    assert(s.push(c).drop_last() =~= s);
    lemma_digits_value_nonneg(s);
}

proof fn lemma_digits_value_nonneg(s: Seq<char>)
    requires
        all_digits(s),
    ensures
        digits_value(s) >= 0,
    decreases s.len(),
{
    if s.len() > 0 {
        lemma_digits_value_nonneg(s.drop_last());
    }
}

fn exponent_exec(x: &Vec<char>) -> (r: Option<i128>)
    ensures
        r is Some <==> exponent_value(x@) is Some,
        r matches Some(v) ==> exponent_value(x@) == Some(v as int) && -exp_cap() <= v
            <= exp_cap(),
{
    let n = x.len();
    let mut neg = false;
    let mut lo: usize = 0;
    if n > 0 && x[0] == '-' {
        neg = true;
        lo = 1;
    } else if n > 0 && x[0] == '+' {
        lo = 1;
    }
    let ds = sub_chars(x, lo, n);
    assert(ds@ =~= sign_and_body(x@).1);
    if ds.len() < 1 || !all_digits_exec(&ds) {
        return None;
    }
    let cap: u128 = 1_000_000_000_000_000_000;
    let mut v: u128 = 0;
    let mut i: usize = 0;
    assert(ds@.subrange(0, 0) =~= Seq::<char>::empty());
    while i < ds.len()
        invariant
            all_digits(ds@),
            i <= ds@.len(),
            cap == exp_cap(),
            v <= cap,
            v as int == (if digits_value(ds@.subrange(0, i as int)) > exp_cap() {
                exp_cap()
            } else {
                digits_value(ds@.subrange(0, i as int))
            }),
        decreases ds.len() - i,
    {
        proof {
            assert(all_digits(ds@.subrange(0, i as int)));
            lemma_capped_step(ds@.subrange(0, i as int), ds@[i as int]);
            assert(ds@.subrange(0, i as int).push(ds@[i as int]) =~= ds@.subrange(0, i + 1));
        }
        let next = v * 10 + (ds[i] as u32 - 48) as u128;
        v = if next > cap {
            cap
        } else {
            next
        };
        i = i + 1;
    }
    assert(ds@.subrange(0, i as int) =~= ds@);
    if neg {
        Some(-(v as i128))
    } else {
        Some(v as i128)
    }
}

/// Reads `t` as a floating-point numeral; see `numeral`.
pub fn parse_number(t: &Vec<char>) -> (r: Option<Number>)
    ensures
        r is Some <==> numeral(t@) is Some,
        r matches Some(x) ==> numeral(t@) == Some(x@),
{
    let n = t.len();
    let mut neg = false;
    let mut lo: usize = 0;
    if n > 0 && t[0] == '-' {
        neg = true;
        lo = 1;
    } else if n > 0 && t[0] == '+' {
        lo = 1;
    }
    let body = sub_chars(t, lo, n);
    assert(body@ =~= sign_and_body(t@).1);
    let inf = chars_of("inf");
    let infinity = chars_of("infinity");
    let nan = chars_of("nan");
    assert(body@.subrange(0, body@.len() as int) =~= body@);
    if range_eq_ignoring_case(&body, 0, body.len(), &inf) || range_eq_ignoring_case(
        &body,
        0,
        body.len(),
        &infinity,
    ) {
        return Some(Number::Inf(neg));
    }
    if range_eq_ignoring_case(&body, 0, body.len(), &nan) {
        return Some(Number::Nan);
    }
    let (m, e) = match find_marker(&body) {
        Some(i) => (sub_chars(&body, 0, i), exponent_exec(&sub_chars(&body, i + 1, body.len()))),
        None => (sub_chars(&body, 0, body.len()), Some(0i128)),
    };
    assert(opt_int(e) == match first_marker(body@, 0) {
        Some(i) => exponent_value(body@.subrange(i + 1, body@.len() as int)),
        None => Some(0int),
    });
    finite_number(neg, &m, e)
}

fn finite_number(neg: bool, m: &Vec<char>, e: Option<i128>) -> (r: Option<Number>)
    requires
        e matches Some(v) ==> -exp_cap() <= v <= exp_cap(),
    ensures
        r is Some <==> finite_numeral(neg, m@, opt_int(e)) is Some,
        r matches Some(x) ==> finite_numeral(neg, m@, opt_int(e)) == Some(x@),
{
    let dot: Vec<char> = vec!['.'];
    assert(dot@ =~= seq!['.']);
    let (ip, fp) = match find_from(m, &dot, 0) {
        Some(p) => {
            assert(crate::text::occurs_at(m@, dot@, p as int));
            assert(p + 1 <= m.len());
            (sub_chars(m, 0, p), sub_chars(m, p + 1, m.len()))
        },
        None => (sub_chars(m, 0, m.len()), Vec::new()),
    };
    assert(ip@ =~= int_and_frac(m@).0);
    assert(fp@ =~= int_and_frac(m@).1);
    if !all_digits_exec(&ip) || !all_digits_exec(&fp) || ip.len() + fp.len() < 1 {
        return None;
    }
    let e = match e {
        Some(v) => v,
        None => {
            return None;
        },
    };
    let mut d = sub_chars(&ip, 0, ip.len());
    let mut k: usize = 0;
    while k < fp.len()
        invariant
            k <= fp@.len(),
            d@ == ip@ + fp@.subrange(0, k as int),
        decreases fp.len() - k,
    {
        d.push(fp[k]);
        k = k + 1;
        assert(d@ =~= ip@ + fp@.subrange(0, k as int));
    }
    assert(fp@.subrange(0, fp@.len() as int) =~= fp@);
    let (a, b) = zero_bounds(&d);
    if a == d.len() {
        return Some(Number::Zero);
    }
    let digits = sub_chars(&d, a, b);
    let x: i128 = e - fp.len() as i128 + (d.len() - a) as i128;
    Some(Number::Fin(neg, digits, x))
}

pub open spec fn opt_int(e: Option<i128>) -> Option<int> {
    match e {
        Some(v) => Some(v as int),
        None => None,
    }
}

fn sig_less_exec(a: &Vec<char>, b: &Vec<char>) -> (r: bool)
    ensures
        r == sig_less(a@, b@),
{
    let mut i: usize = 0;
    assert(a@.subrange(0, a@.len() as int) =~= a@);
    assert(b@.subrange(0, b@.len() as int) =~= b@);
    loop
        invariant
            i <= a@.len(),
            i <= b@.len(),
            sig_less(a@, b@) == sig_less(
                a@.subrange(i as int, a@.len() as int),
                b@.subrange(i as int, b@.len() as int),
            ),
        decreases a.len() - i,
    {
        let ghost ra = a@.subrange(i as int, a@.len() as int);
        let ghost rb = b@.subrange(i as int, b@.len() as int);
        if i == a.len() {
            return i < b.len();
        }
        if i == b.len() {
            return false;
        }
        assert(ra[0] == a@[i as int]);
        assert(rb[0] == b@[i as int]);
        if a[i] != b[i] {
            return (a[i] as u32) < (b[i] as u32);
        }
        assert(ra.drop_first() =~= a@.subrange(i + 1, a@.len() as int));
        assert(rb.drop_first() =~= b@.subrange(i + 1, b@.len() as int));
        i = i + 1;
    }
}

fn rank_exec(n: &Number) -> (r: u8)
    ensures
        n@ !is Nan ==> r as int == rank(n@),
{
    match n {
        Number::Inf(neg) => if *neg {
            0
        } else {
            4
        },
        Number::Fin(neg, _, _) => if *neg {
            1
        } else {
            3
        },
        _ => 2,
    }
}

/// `a < b`; see `num_less`.
pub fn less(a: &Number, b: &Number) -> (r: bool)
    ensures
        r == num_less(a@, b@),
{
    if let Number::Nan = a {
        return false;
    }
    if let Number::Nan = b {
        return false;
    }
    let ra = rank_exec(a);
    let rb = rank_exec(b);
    if ra != rb {
        return ra < rb;
    }
    match (a, b) {
        (Number::Fin(neg, da, xa), Number::Fin(_, db, xb)) => {
            if *neg {
                *xb < *xa || (*xa == *xb && sig_less_exec(db, da))
            } else {
                *xa < *xb || (*xa == *xb && sig_less_exec(da, db))
            }
        },
        _ => false,
    }
}

} // verus!
