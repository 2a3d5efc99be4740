use vstd::prelude::*;
use vstd::string::*;
use vstd::std_specs::cmp::PartialEqSpec;
use crate::digits::{
    all_digits, clamped_digits, decimal, digit_char, digit_value, digits_value, is_digit, is_numeral,
    lemma_decimal_value, lemma_digit_char, lemma_digits_value_bound, lemma_digits_value_concat,
    lemma_pow10_monotone, lemma_pow10_positive, min_nat, pow10, push_decimal,
};
use vstd::arithmetic::div_mod::lemma_fundamental_div_mod_converse;
use crate::error::{Error, ErrorView};

verus! {

/// Exponents are read exactly up to this magnitude; beyond it every
/// non-zero mantissa is too large or too small for a size alike.
pub const EXP_CAP: u128 = 0x10_0000_0000_0000_0000_0000_0000;

/// 2^64, the first value a `u64` cannot hold.
pub const TWO_POW_64: u128 = 0x1_0000_0000_0000_0000;

/// The first position of `c` in `s`.
pub open spec fn first_index(s: Seq<char>, c: char) -> Option<int>
    decreases s.len(),
{
    if s.len() == 0 {
        None
    } else if s[0] == c {
        Some(0)
    } else {
        match first_index(s.drop_first(), c) {
            Some(i) => Some(i + 1),
            None => None,
        }
    }
}

pub proof fn lemma_first_index(s: Seq<char>, c: char, k: int)
    requires
        0 <= k <= s.len(),
        forall|j: int| 0 <= j < k ==> s[j] != c,
        k == s.len() || s[k] == c,
    ensures
        first_index(s, c) == if k < s.len() { Some(k) } else { None::<int> },
    decreases s.len(),
{
    if s.len() > 0 && k > 0 {
        let t = s.drop_first();
        assert forall|j: int| 0 <= j < k - 1 implies t[j] != c by {
            assert(t[j] == s[j + 1]);
        }
        if k < s.len() {
            assert(t[k - 1] == s[k]);
        }
        lemma_first_index(t, c, k - 1);
    }
}

/// A file size with one decimal of precision: each variant holds its
/// magnitude in tenths of its unit (`MB(7000)` is 700.0 MiB).
#[derive(Debug, Clone, Copy, PartialEq, Eq, Structural)]
pub enum Size {
    KB(u64),
    MB(u64),
    GB(u64),
    TB(u64),
}

/// A number of tenths as text with one decimal: 7000 is "700.0".
pub open spec fn tenths_text(t: nat) -> Seq<char> {
    decimal(t / 10).push('.').push(digit_char(t % 10))
}

pub open spec fn is_exp_mark(c: char) -> bool {
    c == 'e' || c == 'E'
}

/// The first position of an exponent mark in `s`.
pub open spec fn first_exp_mark(s: Seq<char>) -> Option<int>
    decreases s.len(),
{
    if s.len() == 0 {
        None
    } else if is_exp_mark(s[0]) {
        Some(0)
    } else {
        match first_exp_mark(s.drop_first()) {
            Some(i) => Some(i + 1),
            None => None,
        }
    }
}

pub proof fn lemma_first_exp_mark(s: Seq<char>, k: int)
    requires
        0 <= k <= s.len(),
        forall|j: int| 0 <= j < k ==> !is_exp_mark(s[j]),
        k == s.len() || is_exp_mark(s[k]),
    ensures
        first_exp_mark(s) == if k < s.len() { Some(k) } else { None::<int> },
    decreases s.len(),
{
    if s.len() > 0 && k > 0 {
        let t = s.drop_first();
        assert forall|j: int| 0 <= j < k - 1 implies !is_exp_mark(t[j]) by {
            assert(t[j] == s[j + 1]);
        }
        if k < s.len() {
            assert(t[k - 1] == s[k]);
        }
        lemma_first_exp_mark(t, k - 1);
    }
}

/// An exponent: digits with an optional sign.
pub open spec fn exponent_value(e: Seq<char>) -> Option<int> {
    if e.len() > 0 && e[0] == '-' {
        if is_numeral(e.drop_first()) { Some(-digits_value(e.drop_first())) } else { None }
    } else if e.len() > 0 && e[0] == '+' {
        if is_numeral(e.drop_first()) { Some(digits_value(e.drop_first()) as int) } else { None }
    } else {
        if is_numeral(e) { Some(digits_value(e) as int) } else { None }
    }
}

/// A mantissa "<digits>", "<digits>.", ".<digits>" or "<digits>.<digits>":
/// all its digits, and how many of them follow the point.
pub open spec fn mantissa_parts(m: Seq<char>) -> Option<(Seq<char>, nat)> {
    match first_index(m, '.') {
        None => if is_numeral(m) { Some((m, 0nat)) } else { None },
        Some(p) => {
            let i = m.take(p);
            let f = m.skip(p + 1);
            if all_digits(i) && all_digits(f) && i.len() + f.len() > 0 {
                Some((i + f, f.len()))
            } else {
                None
            }
        },
    }
}

pub open spec fn unsigned_body(s: Seq<char>) -> Seq<char> {
    if s.len() > 0 && s[0] == '+' { s.drop_first() } else { s }
}

/// A non-negative float as std writes one: an optional '+', a mantissa, and
/// an optional exponent ('e' or 'E', an optional sign, digits). Gives the
/// mantissa's digits `d` and the power `k` with `10 * value == d * 10^k`.
pub open spec fn float_parts(s: Seq<char>) -> Option<(Seq<char>, int)> {
    let body = unsigned_body(s);
    let e = first_exp_mark(body);
    let m = if e is Some { body.take(e->Some_0) } else { body };
    let x = if e is Some { exponent_value(body.skip(e->Some_0 + 1)) } else { Some(0int) };
    if mantissa_parts(m) is Some && x is Some {
        Some((mantissa_parts(m)->Some_0.0, x->Some_0 - mantissa_parts(m)->Some_0.1 + 1))
    } else {
        None
    }
}

/// `n * 10^k` rounded half up to an integer; `k` may be negative.
pub open spec fn scaled_round(n: nat, k: int) -> nat {
    if k >= 0 {
        n * pow10(k as nat)
    } else {
        (n + 5 * pow10((-k - 1) as nat)) / pow10((-k) as nat)
    }
}

/// The value in tenths, rounded half up, of a non-negative float's text, if
/// it fits in a `u64`. Negative numbers, infinities and NaN are no sizes.
pub open spec fn number_tenths(s: Seq<char>) -> Option<nat> {
    match float_parts(s) {
        Some((d, k)) => {
            let t = scaled_round(digits_value(d), k);
            if t <= u64::MAX { Some(t) } else { None }
        },
        None => None,
    }
}

pub open spec fn unit_size(unit: Seq<char>, t: nat) -> Option<Size> {
    if unit == seq!['K', 'i', 'B'] {
        Some(Size::KB(t as u64))
    } else if unit == seq!['M', 'i', 'B'] {
        Some(Size::MB(t as u64))
    } else if unit == seq!['G', 'i', 'B'] {
        Some(Size::GB(t as u64))
    } else if unit == seq!['T', 'i', 'B'] {
        Some(Size::TB(t as u64))
    } else {
        None
    }
}

/// The size that a text "<number> <unit>" denotes, split at its first space.
pub open spec fn size_of_text(s: Seq<char>) -> Option<Size> {
    match first_index(s, ' ') {
        None => None,
        Some(p) => match number_tenths(s.take(p)) {
            None => None,
            Some(t) => unit_size(s.skip(p + 1), t),
        },
    }
}

/// The message of a size that could not be read.
pub open spec fn invalid_size_message(s: Seq<char>) -> Seq<char> {
    seq!['I', 'n', 'v', 'a', 'l', 'i', 'd', ' ', 's', 'i', 'z', 'e', ':', ' '] + s
}

pub open spec fn pow1024(k: nat) -> nat
    decreases k,
{
    if k == 0 { 1 } else { 1024 * pow1024((k - 1) as nat) }
}

impl Size {
    pub open spec fn tenths(self) -> nat {
        match self {
            Size::KB(t) => t as nat,
            Size::MB(t) => t as nat,
            Size::GB(t) => t as nat,
            Size::TB(t) => t as nat,
        }
    }

    /// How many steps of 1024 the unit is above KiB.
    pub open spec fn rank(self) -> nat {
        match self {
            Size::KB(_) => 0,
            Size::MB(_) => 1,
            Size::GB(_) => 2,
            Size::TB(_) => 3,
        }
    }

    pub open spec fn unit(self) -> Seq<char> {
        match self {
            Size::KB(_) => seq!['K', 'i', 'B'],
            Size::MB(_) => seq!['M', 'i', 'B'],
            Size::GB(_) => seq!['G', 'i', 'B'],
            Size::TB(_) => seq!['T', 'i', 'B'],
        }
    }

    /// The magnitude in tenths of a KiB.
    pub open spec fn kib_tenths(self) -> nat {
        self.tenths() * pow1024(self.rank())
    }

    /// The text of a size: one decimal, a space and the unit.
    pub open spec fn text(self) -> Seq<char> {
        tenths_text(self.tenths()) + seq![' '] + self.unit()
    }

    pub open spec fn compare(self, other: Size) -> std::cmp::Ordering {
        if self.kib_tenths() < other.kib_tenths() {
            std::cmp::Ordering::Less
        } else if self.kib_tenths() == other.kib_tenths() {
            std::cmp::Ordering::Equal
        } else {
            std::cmp::Ordering::Greater
        }
    }
}


/// The first position of `c` in `s[from..to]`.
pub fn find_char(s: &str, from: usize, to: usize, c: char) -> (r: Option<usize>)
    requires
        from <= to <= s@.len(),
    ensures
        match r {
            Some(i) => from <= i < to && first_index(s@.subrange(from as int, to as int), c) == Some(
                i - from,
            ),
            None => first_index(s@.subrange(from as int, to as int), c) == None::<int>,
        },
{
    let ghost t = s@.subrange(from as int, to as int);
    let mut i: usize = from;
    while i < to
        invariant
            from <= i <= to <= s@.len(),
            t == s@.subrange(from as int, to as int),
            forall|j: int| 0 <= j < i - from ==> t[j] != c,
        decreases to - i,
    {
        if s.get_char(i) == c {
            proof {
                lemma_first_index(t, c, i - from);
            }
            return Some(i);
        }
        i = i + 1;
    }
    proof {
        lemma_first_index(t, c, t.len() as int);
    }
    None
}

/// Whether `s[from..to]` is all digits.
pub fn all_digits_in(s: &str, from: usize, to: usize) -> (r: bool)
    requires
        from <= to <= s@.len(),
    ensures
        r == all_digits(s@.subrange(from as int, to as int)),
{
    let ghost t = s@.subrange(from as int, to as int);
    let mut i: usize = from;
    while i < to
        invariant
            from <= i <= to <= s@.len(),
            t == s@.subrange(from as int, to as int),
            forall|j: int| 0 <= j < i - from ==> is_digit(#[trigger] t[j]),
        decreases to - i,
    {
        let c = s.get_char(i);
        if !('0' <= c && c <= '9') {
            assert(t[i - from] == c);
            return false;
        }
        i = i + 1;
    }
    true
}

/// Whether `s[from..to]` reads as `lit`.
pub fn text_is(s: &str, from: usize, to: usize, lit: &str) -> (r: bool)
    requires
        from <= to <= s@.len(),
    ensures
        r == (s@.subrange(from as int, to as int) == lit@),
{
    let ghost t = s@.subrange(from as int, to as int);
    let n = lit.unicode_len();
    if to - from != n {
        return false;
    }
    let mut i: usize = 0;
    while i < n
        invariant
            0 <= i <= n == lit@.len() == to - from,
            from <= to <= s@.len(),
            t == s@.subrange(from as int, to as int),
            forall|j: int| 0 <= j < i ==> t[j] == lit@[j],
        decreases n - i,
    {
        if s.get_char(from + i) != lit.get_char(i) {
            assert(t[i as int] != lit@[i as int]);
            return false;
        }
        i = i + 1;
    }
    assert(t =~= lit@);
    true
}

/// The first exponent mark in `s[from..to]`.
fn find_exp_mark(s: &str, from: usize, to: usize) -> (r: Option<usize>)
    requires
        from <= to <= s@.len(),
    ensures
        match r {
            Some(i) => from <= i < to && first_exp_mark(s@.subrange(from as int, to as int)) == Some(i - from),
            None => first_exp_mark(s@.subrange(from as int, to as int)) == None::<int>,
        },
{
    let ghost t = s@.subrange(from as int, to as int);
    let mut i: usize = from;
    while i < to
        invariant
            from <= i <= to <= s@.len(),
            t == s@.subrange(from as int, to as int),
            forall|j: int| 0 <= j < i - from ==> !is_exp_mark(t[j]),
        decreases to - i,
    {
        let c = s.get_char(i);
        if c == 'e' || c == 'E' {
            proof {
                lemma_first_exp_mark(t, i - from);
            }
            return Some(i);
        }
        i = i + 1;
    }
    proof {
        lemma_first_exp_mark(t, t.len() as int);
    }
    None
}

/// Reads an exponent, clamped to `EXP_CAP` either way.
fn parse_exponent(s: &str, from: usize, to: usize) -> (r: Option<i128>)
    requires
        from <= to <= s@.len(),
    ensures
        match exponent_value(s@.subrange(from as int, to as int)) {
            None => r is None,
            Some(x) => r matches Some(y) && (y == x || (y == EXP_CAP && x > EXP_CAP) || (y == -EXP_CAP && x < -EXP_CAP)),
        },
        r matches Some(y) ==> -EXP_CAP <= y <= EXP_CAP,
{
    let ghost t = s@.subrange(from as int, to as int);
    let sign: char = if from < to { s.get_char(from) } else { ' ' };
    if sign == '-' || sign == '+' {
        assert(s@.subrange(from + 1, to as int) =~= t.drop_first());
        match clamped_digits(s, from + 1, to, EXP_CAP) {
            Some(v) => if sign == '-' { Some(-(v as i128)) } else { Some(v as i128) },
            None => None,
        }
    } else {
        match clamped_digits(s, from, to, EXP_CAP) {
            Some(v) => Some(v as i128),
            None => None,
        }
    }
}

/// The digits of a mantissa whose integer digits are `s[ib..ie]` and whose
/// fraction digits are `s[fb..fe]`.
pub open spec fn mantissa_of(s: Seq<char>, ib: int, ie: int, fb: int, fe: int) -> Seq<char> {
    s.subrange(ib, ie) + s.subrange(fb, fe)
}

fn mantissa_digit(s: &str, ib: usize, ie: usize, fb: usize, fe: usize, j: usize) -> (r: u128)
    requires
        ib <= ie <= fb <= fe <= s@.len(),
        j < (ie - ib) + (fe - fb),
        all_digits(mantissa_of(s@, ib as int, ie as int, fb as int, fe as int)),
    ensures
        r == digit_value(mantissa_of(s@, ib as int, ie as int, fb as int, fe as int)[j as int]),
        r < 10,
{
    let ghost d = mantissa_of(s@, ib as int, ie as int, fb as int, fe as int);
    let pos: usize = if j < ie - ib { ib + j } else { fb + (j - (ie - ib)) };
    assert(d[j as int] == s@[pos as int]);
    assert(is_digit(d[j as int]));
    let c = s.get_char(pos);
    (c as u32 - '0' as u32) as u128
}

/// The value of the first `upto` digits of a mantissa, clamped to `cap`.
fn mantissa_prefix(s: &str, ib: usize, ie: usize, fb: usize, fe: usize, upto: usize, cap: u128) -> (r: u128)
    requires
        ib <= ie <= fb <= fe <= s@.len(),
        upto <= (ie - ib) + (fe - fb),
        all_digits(mantissa_of(s@, ib as int, ie as int, fb as int, fe as int)),
        cap <= TWO_POW_64,
    ensures
        r == min_nat(digits_value(mantissa_of(s@, ib as int, ie as int, fb as int, fe as int).take(upto as int)), cap as nat),
{
    let ghost d = mantissa_of(s@, ib as int, ie as int, fb as int, fe as int);
    let mut acc: u128 = 0;
    let mut j: usize = 0;
    assert(digits_value(d.take(0)) == 0);
    while j < upto
        invariant
            ib <= ie <= fb <= fe <= s@.len(),
            upto <= (ie - ib) + (fe - fb),
            d == mantissa_of(s@, ib as int, ie as int, fb as int, fe as int),
            d.len() == (ie - ib) + (fe - fb),
            all_digits(d),
            cap <= TWO_POW_64,
            0 <= j <= upto,
            acc == min_nat(digits_value(d.take(j as int)), cap as nat),
        decreases upto - j,
    {
        let dg = mantissa_digit(s, ib, ie, fb, fe, j);
        let ghost prev = d.take(j as int);
        let ghost next = d.take(j + 1);
        assert(next.drop_last() =~= prev);
        assert(next.last() == d[j as int]);
        let v = acc * 10 + dg;
        proof {
            let pv = digits_value(prev);
            assert(digits_value(next) == pv * 10 + dg);
            assert(pv * 10 + dg >= pv) by (nonlinear_arith);
            if pv >= cap {
                assert(acc * 10 + dg >= cap) by (nonlinear_arith)
                    requires acc == cap, dg >= 0;
            }
        }
        acc = if v < cap { v } else { cap };
        j = j + 1;
    }
    acc
}

fn pow10_exec(k: u32) -> (r: u128)
    requires
        k <= 19,
    ensures
        r == pow10(k as nat),
        r <= 10_000_000_000_000_000_000,
{
    let mut r: u128 = 1;
    let mut i: u32 = 0;
    proof {
        lemma_pow10_monotone(0, 19);
        reveal_with_fuel(pow10, 20);
    }
    while i < k
        invariant
            i <= k <= 19,
            r == pow10(i as nat),
            pow10(i as nat) <= pow10(19),
            pow10(19) == 10_000_000_000_000_000_000,
        decreases k - i,
    {
        proof {
            lemma_pow10_monotone((i + 1) as nat, 19);
            reveal_with_fuel(pow10, 20);
        }
        r = r * 10;
        i = i + 1;
    }
    proof {
        lemma_pow10_monotone(k as nat, 19);
        reveal_with_fuel(pow10, 20);
    }
    r
}

/// A numeral shorter than the scale rounds to zero.
pub proof fn lemma_round_small(d: Seq<char>, m: nat)
    requires
        all_digits(d),
        m > d.len(),
    ensures
        scaled_round(digits_value(d), -(m as int)) == 0,
{
    let n = digits_value(d);
    let p = pow10((m - 1) as nat);
    lemma_digits_value_bound(d);
    lemma_pow10_monotone(d.len(), (m - 1) as nat);
    assert(pow10(m) == 10 * p);
    assert(n + 5 * p < 10 * p);
    lemma_fundamental_div_mod_converse((n + 5 * p) as int, (10 * p) as int, 0, (n + 5 * p) as int);
}

/// Rounding a numeral half up at a position inside it: the digits before
/// the position, plus one where the first dropped digit is 5 or more.
pub proof fn lemma_round_at(d: Seq<char>, m: nat)
    requires
        all_digits(d),
        1 <= m <= d.len(),
    ensures
        scaled_round(digits_value(d), -(m as int)) == digits_value(d.take(d.len() - m)) + if digit_value(
            d[d.len() - m],
        ) >= 5 {
            1nat
        } else {
            0nat
        },
{
    let pos = d.len() - m;
    let head = d.take(pos);
    let tail = d.skip(pos);
    let rest = d.skip(pos + 1);
    assert(d =~= head + tail);
    assert(tail =~= seq![d[pos]] + rest);
    assert(all_digits(rest)) by {
        assert forall|i: int| 0 <= i < rest.len() implies is_digit(#[trigger] rest[i]) by {
            assert(rest[i] == d[pos + 1 + i]);
        }
    }
    assert(is_digit(d[pos]));
    lemma_digits_value_concat(head, tail);
    lemma_digits_value_concat(seq![d[pos]], rest);
    assert(seq![d[pos]].drop_last() =~= Seq::<char>::empty());
    assert(digits_value(Seq::<char>::empty()) == 0);
    assert(digits_value(seq![d[pos]]) == digits_value(seq![d[pos]].drop_last()) * 10 + digit_value(
        seq![d[pos]].last(),
    ));
    assert(digits_value(seq![d[pos]]) == digit_value(d[pos]));
    lemma_digits_value_bound(rest);
    let q = digits_value(head);
    let dg = digit_value(d[pos]);
    let r2 = digits_value(rest);
    let p = pow10((m - 1) as nat);
    assert(rest.len() == m - 1);
    assert(pow10(m) == 10 * p);
    assert(tail.len() == m);
    let n = digits_value(d);
    assert(n == q * (10 * p) + (dg * p + r2));
    if dg >= 5 {
        assert(n + 5 * p == (q + 1) * (10 * p) + ((dg - 5) * p + r2)) by (nonlinear_arith)
            requires n == q * (10 * p) + (dg * p + r2), dg >= 5;
        assert((dg - 5) * p + r2 < 10 * p) by (nonlinear_arith)
            requires dg < 10, dg >= 5, r2 < p;
        assert((dg - 5) * p >= 0) by (nonlinear_arith)
            requires dg >= 5, p >= 0;
        lemma_fundamental_div_mod_converse((n + 5 * p) as int, (10 * p) as int, (q + 1) as int, ((dg - 5) * p + r2) as int);
    } else {
        assert(n + 5 * p == q * (10 * p) + ((dg + 5) * p + r2)) by (nonlinear_arith)
            requires n == q * (10 * p) + (dg * p + r2);
        assert((dg + 5) * p + r2 < 10 * p) by (nonlinear_arith)
            requires dg < 5, r2 < p;
        assert((dg + 5) * p >= 0) by (nonlinear_arith)
            requires dg >= 0, p >= 0;
        lemma_fundamental_div_mod_converse((n + 5 * p) as int, (10 * p) as int, q as int, ((dg + 5) * p + r2) as int);
    }
}

/// Tenths of a `u64` and more need 20 digits.
pub proof fn lemma_pow10_20()
    ensures
        pow10(20) == 100_000_000_000_000_000_000,
{
    reveal_with_fuel(pow10, 21);
}

/// The tenths that `s[from..to]` denotes as a non-negative float.
#[verifier::rlimit(60)]
fn number_tenths_in(s: &str, from: usize, to: usize) -> (r: Option<u64>)
    requires
        from <= to <= s@.len(),
    ensures
        match number_tenths(s@.subrange(from as int, to as int)) {
            Some(t) => r == Some(t as u64) && t <= u64::MAX,
            None => r is None,
        },
{
    let ghost t = s@.subrange(from as int, to as int);
    let a: usize = if from < to && s.get_char(from) == '+' { from + 1 } else { from };
    let ghost body = unsigned_body(t);
    assert(body =~= s@.subrange(a as int, to as int));
    let e = find_exp_mark(s, a, to);
    let mend: usize = match e {
        Some(q) => q,
        None => to,
    };
    let ghost m = if first_exp_mark(body) is Some { body.take(first_exp_mark(body)->Some_0) } else { body };
    let ghost xs = if first_exp_mark(body) is Some {
        exponent_value(body.skip(first_exp_mark(body)->Some_0 + 1))
    } else {
        Some(0int)
    };
    assert(m =~= s@.subrange(a as int, mend as int));
    let x: i128 = match e {
        None => 0,
        Some(q) => {
            assert(body.skip(q - a + 1) =~= s@.subrange(q + 1, to as int));
            match parse_exponent(s, q + 1, to) {
                Some(v) => v,
                None => return None,
            }
        },
    };
    assert(xs is Some);
    let ghost xt = xs->Some_0;
    assert(x == xt || (x == EXP_CAP && xt > EXP_CAP) || (x == -EXP_CAP && xt < -EXP_CAP));
    let dot = find_char(s, a, mend, '.');
    let (ib, ie, fb, fe) = match dot {
        None => (a, mend, mend, mend),
        Some(p) => (a, p, p + 1, mend),
    };
    proof {
        match dot {
            Some(p) => {
                assert(m.take(p - a) =~= s@.subrange(a as int, p as int));
                assert(m.skip(p - a + 1) =~= s@.subrange(p + 1, mend as int));
            },
            None => {
                assert(s@.subrange(mend as int, mend as int) =~= Seq::<char>::empty());
            },
        }
    }
    if !all_digits_in(s, ib, ie) || !all_digits_in(s, fb, fe) || (ie - ib) + (fe - fb) == 0 {
        return None;
    }
    let ghost d = mantissa_of(s@, ib as int, ie as int, fb as int, fe as int);
    proof {
        let ip = s@.subrange(ib as int, ie as int);
        let fp = s@.subrange(fb as int, fe as int);
        assert(all_digits(d)) by {
            assert forall|i: int| 0 <= i < d.len() implies is_digit(#[trigger] d[i]) by {
                if i < ip.len() {
                    assert(d[i] == ip[i]);
                } else {
                    assert(d[i] == fp[i - ip.len()]);
                }
            }
        }
        if dot is None {
            assert(d =~= m);
        }
        assert(mantissa_parts(m) == Some((d, (fe - fb) as nat)));
    }
    assert(float_parts(t) == Some((d, xt - (fe - fb) + 1)));
    round_mantissa(s, ib, ie, fb, fe, x, Ghost(xt))
}

/// The tenths of a mantissa's digits scaled by the exponent `xt`, of
/// which `x` is the clamped reading.
#[verifier::rlimit(60)]
fn round_mantissa(s: &str, ib: usize, ie: usize, fb: usize, fe: usize, x: i128, Ghost(xt): Ghost<int>) -> (r: Option<u64>)
    requires
        ib <= ie <= fb <= fe <= s@.len(),
        all_digits(mantissa_of(s@, ib as int, ie as int, fb as int, fe as int)),
        -EXP_CAP <= x <= EXP_CAP,
        x == xt || (x == EXP_CAP && xt > EXP_CAP) || (x == -EXP_CAP && xt < -EXP_CAP),
    ensures
        ({
            let t = scaled_round(digits_value(mantissa_of(s@, ib as int, ie as int, fb as int, fe as int)), xt - (fe - fb) + 1);
            if t <= u64::MAX { r == Some(t as u64) } else { r is None }
        }),
{
    let nf: usize = fe - fb;
    let nd: usize = (ie - ib) + (fe - fb);
    let k: i128 = x - nf as i128 + 1;
    let ghost kt: int = xt - nf + 1;
    let ghost d = mantissa_of(s@, ib as int, ie as int, fb as int, fe as int);
    assert(d.len() == nd);
    assert(nd <= u64::MAX);
    let ghost big_n = digits_value(d);
    if k >= 0 {
        assert(kt >= k);
        let n = mantissa_prefix(s, ib, ie, fb, fe, nd, TWO_POW_64);
        assert(d.take(nd as int) =~= d);
        if n == 0 {
            assert(big_n == 0);
            assert(0 * pow10(kt as nat) == 0);
            assert(scaled_round(big_n, kt) == 0);
            Some(0)
        } else if k >= 20 {
            proof {
                lemma_pow10_monotone(20, kt as nat);
                lemma_pow10_20();
                assert(big_n * pow10(kt as nat) >= pow10(kt as nat)) by (nonlinear_arith)
                    requires big_n >= 1;
            }
            None
        } else {
            assert(kt == k);
            let pk = pow10_exec(k as u32);
            assert(n * pk <= TWO_POW_64 * 10_000_000_000_000_000_000) by (nonlinear_arith)
                requires n <= TWO_POW_64, pk <= 10_000_000_000_000_000_000;
            let v = n * pk;
            proof {
                lemma_pow10_positive(k as nat);
                if big_n >= TWO_POW_64 {
                    assert(big_n * pow10(k as nat) >= big_n) by (nonlinear_arith)
                        requires pow10(k as nat) >= 1;
                    assert(n * pk >= n) by (nonlinear_arith)
                        requires pk >= 1;
                }
            }
            if v <= u64::MAX as u128 {
                Some(v as u64)
            } else {
                None
            }
        }
    } else {
        let mm: i128 = -k;
        if mm > nd as i128 {
            assert(kt <= k);
            proof {
                lemma_round_small(d, (-kt) as nat);
            }
            Some(0)
        } else {
            assert(kt == k);
            let pos: usize = (nd as i128 - mm) as usize;
            let q = mantissa_prefix(s, ib, ie, fb, fe, pos, TWO_POW_64);
            let dg = mantissa_digit(s, ib, ie, fb, fe, pos);
            proof {
                lemma_round_at(d, mm as nat);
            }
            let v: u128 = q + if dg >= 5 { 1 } else { 0 };
            if v <= u64::MAX as u128 {
                Some(v as u64)
            } else {
                None
            }
        }
    }
}


fn invalid_size(s: &str) -> (e: Error)
    ensures
        e@ == ErrorView::SizeParsing(invalid_size_message(s@)),
{
    let mut m = String::from_str("Invalid size: ");
    proof {
        reveal_strlit("Invalid size: ");
    }
    m.append(s);
    proof {
        assert(m@ =~= invalid_size_message(s@));
    }
    Error::SizeParsingError(m)
}

fn push_unit(out: &mut String, v: Size)
    ensures
        final(out)@ == old(out)@ + v.unit(),
{
    proof {
        reveal_strlit("KiB");
        reveal_strlit("MiB");
        reveal_strlit("GiB");
        reveal_strlit("TiB");
    }
    match v {
        Size::KB(_) => out.append("KiB"),
        Size::MB(_) => out.append("MiB"),
        Size::GB(_) => out.append("GiB"),
        Size::TB(_) => out.append("TiB"),
    }
}

impl Size {
    /// Reads "<number> <unit>", split at the first space: the number in any
    /// form std reads a float in (an optional '+', digits with or without a
    /// point, an optional exponent such as "1e3" or "2.5E-1"), and the unit
    /// one of "KiB", "MiB", "GiB", "TiB". The magnitude is kept in tenths,
    /// rounded half up, so "33.04" and "33.0" read alike. Refused: negative
    /// numbers, infinities and NaN, and magnitudes whose tenths exceed
    /// `u64::MAX`.
    pub fn from_str(s: &str) -> (r: Result<Size, Error>)
        ensures
            match size_of_text(s@) {
                Some(v) => r matches Ok(x) && x == v,
                None => r matches Err(e) && e@ == ErrorView::SizeParsing(invalid_size_message(s@)),
            },
    {
        proof {
            reveal_strlit("KiB");
            reveal_strlit("MiB");
            reveal_strlit("GiB");
            reveal_strlit("TiB");
            assert("KiB"@ =~= seq!['K', 'i', 'B']);
            assert("MiB"@ =~= seq!['M', 'i', 'B']);
            assert("GiB"@ =~= seq!['G', 'i', 'B']);
            assert("TiB"@ =~= seq!['T', 'i', 'B']);
        }
        let n = s.unicode_len();
        match find_char(s, 0, n, ' ') {
            None => {
                assert(s@.subrange(0, n as int) =~= s@);
                Err(invalid_size(s))
            },
            Some(p) => {
                assert(s@.subrange(0, n as int) =~= s@);
                assert(s@.take(p as int) =~= s@.subrange(0, p as int));
                assert(s@.skip(p + 1) =~= s@.subrange(p + 1, n as int));
                match number_tenths_in(s, 0, p) {
                    None => Err(invalid_size(s)),
                    Some(t) => {
                        if text_is(s, p + 1, n, "KiB") {
                            Ok(Size::KB(t))
                        } else if text_is(s, p + 1, n, "MiB") {
                            Ok(Size::MB(t))
                        } else if text_is(s, p + 1, n, "GiB") {
                            Ok(Size::GB(t))
                        } else if text_is(s, p + 1, n, "TiB") {
                            Ok(Size::TB(t))
                        } else {
                            Err(invalid_size(s))
                        }
                    },
                }
            },
        }
    }

    pub fn tenths_exec(&self) -> (r: u64)
        ensures
            r == self.tenths(),
    {
        match self {
            Size::KB(t) => *t,
            Size::MB(t) => *t,
            Size::GB(t) => *t,
            Size::TB(t) => *t,
        }
    }

    /// The size as text: "<whole>.<tenth> <unit>", as in "700.0 MiB".
    pub fn to_string(&self) -> (r: String)
        ensures
            r@ == self.text(),
    {
        let t = self.tenths_exec();
        let mut out = String::new();
        push_decimal(&mut out, t / 10);
        proof {
            reveal_strlit(".");
            reveal_strlit(" ");
        }
        out.append(".");
        push_decimal(&mut out, t % 10);
        out.append(" ");
        push_unit(&mut out, *self);
        proof {
            assert(decimal((t % 10) as nat) == seq![digit_char((t % 10) as nat)]);
            assert(out@ =~= self.text());
        }
        out
    }

    /// The magnitude in tenths of a KiB.
    pub fn kib_tenths_exec(&self) -> (r: u128)
        ensures
            r == self.kib_tenths(),
    {
        proof {
            reveal_with_fuel(pow1024, 4);
            assert(pow1024(0) == 1);
            assert(pow1024(1) == 1024);
            assert(pow1024(2) == 1048576);
            assert(pow1024(3) == 1073741824);
        }
        let t = self.tenths_exec() as u128;
        match self {
            Size::KB(_) => {
                assert(self.rank() == 0);
                assert(self.tenths() * 1 == self.tenths());
                t
            },
            Size::MB(_) => t * 1024,
            Size::GB(_) => {
                assert(t * 1048576 <= u128::MAX) by (nonlinear_arith)
                    requires t <= u64::MAX;
                t * 1048576
            },
            Size::TB(_) => {
                assert(t * 1073741824 <= u128::MAX) by (nonlinear_arith)
                    requires t <= u64::MAX;
                t * 1073741824
            },
        }
    }
}

impl PartialOrd for Size {
    /// Orders sizes by magnitude, across units.
    fn partial_cmp(&self, other: &Size) -> (r: Option<std::cmp::Ordering>)
        ensures
            r == Some(self.compare(*other)),
    {
        let a = self.kib_tenths_exec();
        let b = other.kib_tenths_exec();
        if a < b {
            Some(std::cmp::Ordering::Less)
        } else if a == b {
            Some(std::cmp::Ordering::Equal)
        } else {
            Some(std::cmp::Ordering::Greater)
        }
    }
}

impl vstd::std_specs::cmp::PartialOrdSpecImpl for Size {
    open spec fn obeys_partial_cmp_spec() -> bool {
        true
    }

    open spec fn partial_cmp_spec(&self, other: &Size) -> Option<std::cmp::Ordering> {
        Some(self.compare(*other))
    }
}


/// Reading a size back from its own text gives the same size: the text of a
/// size is the canonical one-decimal form, and formatting what it parses to
/// gives that text again.
pub proof fn lemma_size_round_trip(v: Size)
    ensures
        size_of_text(v.text()) == Some(v),
        size_of_text(v.text())->Some_0.text() == v.text(),
{
    let t = v.tenths();
    let w = t / 10;
    let d = t % 10;
    let dw = decimal(w);
    lemma_decimal_value(w);
    lemma_digit_char(d);
    let dc = digit_char(d);
    let s = v.text();
    let num = dw.push('.').push(dc);
    assert(s =~= num + seq![' '] + v.unit());
    let k: int = dw.len() as int + 2;
    assert forall|j: int| 0 <= j < k implies s[j] != ' ' by {
        if j < dw.len() {
            assert(s[j] == dw[j]);
            assert(is_digit(dw[j]));
        }
    }
    assert(s[k] == ' ');
    lemma_first_index(s, ' ', k);
    assert(s.take(k) =~= num);
    assert(s.skip(k + 1) =~= v.unit());
    assert(is_digit(dw[0]));
    assert(num[0] == dw[0]);
    assert(unsigned_body(num) == num);
    assert forall|j: int| 0 <= j < num.len() implies !is_exp_mark(num[j]) by {
        if j < dw.len() {
            assert(num[j] == dw[j]);
            assert(is_digit(dw[j]));
        }
    }
    lemma_first_exp_mark(num, num.len() as int);
    assert forall|j: int| 0 <= j < dw.len() implies num[j] != '.' by {
        assert(num[j] == dw[j]);
        assert(is_digit(dw[j]));
    }
    assert(num[dw.len() as int] == '.');
    lemma_first_index(num, '.', dw.len() as int);
    assert(num.take(dw.len() as int) =~= dw);
    let f = num.skip(dw.len() as int + 1);
    assert(f =~= seq![dc]);
    assert(all_digits(f));
    let digits = dw + f;
    assert(mantissa_parts(num) == Some((digits, 1nat)));
    assert(float_parts(num) == Some((digits, 0int)));
    assert(digits.drop_last() =~= dw);
    assert(digits.last() == dc);
    assert(digits_value(digits) == w * 10 + d);
    assert(pow10(0) == 1);
    assert(digits_value(digits) * 1 == digits_value(digits));
    assert(scaled_round(digits_value(digits), 0) == t);
    assert(number_tenths(num) == Some(t));
}

pub proof fn lemma_pow1024_grows(k: nat)
    ensures
        pow1024(k) >= 1,
        pow1024(k + 1) > pow1024(k),
    decreases k,
{
    if k > 0 {
        lemma_pow1024_grows((k - 1) as nat);
    }
    assert(pow1024(k + 1) == 1024 * pow1024(k));
}

pub proof fn lemma_pow1024_monotone(j: nat, k: nat)
    requires
        j < k,
    ensures
        pow1024(j) < pow1024(k),
    decreases k - j,
{
    lemma_pow1024_grows(j);
    if j + 1 < k {
        lemma_pow1024_monotone(j + 1, k);
    }
}

/// Of two sizes with the same non-zero magnitude, the one in the larger unit
/// is the larger size.
pub proof fn lemma_larger_unit_is_larger(a: Size, b: Size)
    requires
        a.tenths() == b.tenths(),
        a.tenths() > 0,
        a.rank() < b.rank(),
    ensures
        a.compare(b) == std::cmp::Ordering::Less,
{
    lemma_pow1024_monotone(a.rank(), b.rank());
    let t = a.tenths();
    let p = pow1024(a.rank());
    let q = pow1024(b.rank());
    assert(t * p < t * q) by (nonlinear_arith)
        requires t > 0, p < q;
}


/// One row of a listing.
#[derive(Debug, Clone)]
pub struct Torrent {
    pub title: String,
    /// The absolute address of the torrent's own page.
    pub link: String,
    pub magnet_url: String,
    /// When it was published, in milliseconds since the Unix epoch (UTC).
    pub date: i64,
    pub seeders: u32,
    pub leechers: u32,
    pub downloads: u32,
    pub size: Size,
}

/// A torrent record as plain values.
pub struct TorrentView {
    pub title: Seq<char>,
    pub link: Seq<char>,
    pub magnet_url: Seq<char>,
    pub date: i64,
    pub seeders: u32,
    pub leechers: u32,
    pub downloads: u32,
    pub size: Size,
}

impl View for Torrent {
    type V = TorrentView;

    open spec fn view(&self) -> TorrentView {
        TorrentView {
            title: self.title@,
            link: self.link@,
            magnet_url: self.magnet_url@,
            date: self.date,
            seeders: self.seeders,
            leechers: self.leechers,
            downloads: self.downloads,
            size: self.size,
        }
    }
}

impl PartialEq for Torrent {
    /// Two records are the same torrent when their links are equal.
    fn eq(&self, other: &Torrent) -> (r: bool)
        ensures
            r == (self.link@ == other.link@),
    {
        self.link == other.link
    }
}

impl vstd::std_specs::cmp::PartialEqSpecImpl for Torrent {
    open spec fn obeys_eq_spec() -> bool {
        true
    }

    open spec fn eq_spec(&self, other: &Torrent) -> bool {
        self.link@ == other.link@
    }
}

/// Torrent records are equal exactly when their links are: the other fields
/// play no part.
pub proof fn lemma_torrent_eq_by_link(a: Torrent, b: Torrent)
    ensures
        a.eq_spec(&b) <==> a.link@ == b.link@,
        a.link@ == b.link@ ==> a.eq_spec(&b) && b.eq_spec(&a),
        a.link@ != b.link@ ==> !a.eq_spec(&b) && !b.eq_spec(&a),
{
}

impl std::str::FromStr for Size {
    type Err = Error;

    fn from_str(s: &str) -> Result<Size, Error> {
        Size::from_str(s)
    }
}

} // verus!
