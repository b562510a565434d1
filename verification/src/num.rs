//! Decimal numbers in text: what `str::parse` accepts for the integer types
//! used here, what `to_string` prints, and which strings read as a
//! floating-point number.
use vstd::prelude::*;

verus! {

pub open spec fn is_digit(c: char) -> bool {
    48 <= (c as u32) && (c as u32) <= 57
}

pub open spec fn digit_val(c: char) -> nat {
    ((c as u32) - 48) as nat
}

pub open spec fn all_digits(s: Seq<char>) -> bool {
    forall|i: int| 0 <= i < s.len() ==> is_digit(#[trigger] s[i])
}

/// The number a run of decimal digits denotes.
pub open spec fn digits_value(s: Seq<char>) -> nat
    decreases s.len(),
{
    if s.len() == 0 {
        0
    } else {
        digits_value(s.drop_last()) * 10 + digit_val(s.last())
    }
}

/// The digits after an optional leading `+`.
pub open spec fn unsigned_body(s: Seq<char>) -> Seq<char> {
    if s.len() > 0 && s[0] == '+' {
        s.drop_first()
    } else {
        s
    }
}

/// What `str::parse` gives for an unsigned integer type whose largest value
/// is `max`: an optional `+`, then at least one ASCII digit, nothing else,
/// and a value that fits.
pub open spec fn parse_unsigned(s: Seq<char>, max: nat) -> Option<nat> {
    let body = unsigned_body(s);
    if body.len() > 0 && all_digits(body) && digits_value(body) <= max {
        Some(digits_value(body))
    } else {
        None
    }
}

/// What `str::parse` gives for a signed integer type with range `min..=max`:
/// as for unsigned, but a leading `-` is accepted too.
pub open spec fn parse_signed(s: Seq<char>, min: int, max: nat) -> Option<int> {
    if s.len() > 0 && s[0] == '-' {
        let b = s.drop_first();
        if b.len() > 0 && all_digits(b) && -(digits_value(b) as int) >= min {
            Some(-(digits_value(b) as int))
        } else {
            None
        }
    } else {
        match parse_unsigned(s, max) {
            Some(n) => Some(n as int),
            None => None,
        }
    }
}

pub open spec fn parse_u8(s: Seq<char>) -> Option<u8> {
    match parse_unsigned(s, 255) {
        Some(n) => Some(n as u8),
        None => None,
    }
}

pub open spec fn parse_u32(s: Seq<char>) -> Option<u32> {
    match parse_unsigned(s, 4294967295) {
        Some(n) => Some(n as u32),
        None => None,
    }
}

pub open spec fn parse_i64(s: Seq<char>) -> Option<i64> {
    match parse_signed(s, -9223372036854775808, 9223372036854775807) {
        Some(n) => Some(n as i64),
        None => None,
    }
}

proof fn lemma_digits_value_monotone(s: Seq<char>, k: int)
    requires
        0 <= k <= s.len(),
    ensures
        digits_value(s.take(k)) <= digits_value(s),
    decreases s.len() - k,
{
    if k < s.len() {
        lemma_digits_value_monotone(s, k + 1);
        assert(s.take(k + 1).drop_last() =~= s.take(k));
    } else {
        assert(s.take(k) =~= s);
    }
}

/// Digits from `start` on, accumulated while they stay at or below `max`.
fn digits_upto(s: &[char], start: usize, max: u64) -> (r: Option<u64>)
    requires
        start <= s@.len(),
    ensures
        ({
            let body = s@.skip(start as int);
            match r {
                Some(v) => body.len() > 0 && all_digits(body) && digits_value(body) == v && v <= max,
                None => !(body.len() > 0 && all_digits(body) && digits_value(body) <= max),
            }
        }),
{
    let ghost body = s@.skip(start as int);
    if start == s.len() {
        return None;
    }
    let mut acc: u64 = 0;
    let mut i = start;
    while i < s.len()
        invariant
            start <= i <= s.len(),
            body == s@.skip(start as int),
            all_digits(body.take(i - start)),
            digits_value(body.take(i - start)) == acc,
            acc <= max,
        decreases s.len() - i,
    {
        let c = s[i];
        let ghost t = body.take(i + 1 - start);
        assert(t.drop_last() =~= body.take(i - start));
        assert(t.last() == c);
        if !((c as u32) >= 48 && (c as u32) <= 57) {
            assert(!is_digit(body[i - start]));
            return None;
        }
        let d = ((c as u32) - 48) as u64;
        let next: u128 = (acc as u128) * 10 + (d as u128);
        if next > max as u128 {
            proof {
                lemma_digits_value_monotone(body, i + 1 - start);
            }
            return None;
        }
        acc = next as u64;
        i += 1;
    }
    assert(body.take(i - start) =~= body);
    Some(acc)
}

/// `str::parse` for an unsigned type with largest value `max`.
pub fn parse_unsigned_exec(s: &[char], max: u64) -> (r: Option<u64>)
    ensures
        match parse_unsigned(s@, max as nat) {
            Some(n) => r == Some(n as u64),
            None => r is None,
        },
{
    let start: usize = if s.len() > 0 && s[0] == '+' {
        1
    } else {
        0
    };
    assert(unsigned_body(s@) =~= s@.skip(start as int));
    digits_upto(s, start, max)
}

pub fn parse_u8_exec(s: &[char]) -> (r: Option<u8>)
    ensures
        r == parse_u8(s@),
{
    match parse_unsigned_exec(s, 255) {
        Some(v) => Some(v as u8),
        None => None,
    }
}

pub fn parse_u32_exec(s: &[char]) -> (r: Option<u32>)
    ensures
        r == parse_u32(s@),
{
    match parse_unsigned_exec(s, 4294967295) {
        Some(v) => Some(v as u32),
        None => None,
    }
}

pub fn parse_i64_exec(s: &[char]) -> (r: Option<i64>)
    ensures
        r == parse_i64(s@),
{
    if s.len() > 0 && s[0] == '-' {
        assert(s@.drop_first() =~= s@.skip(1));
        match digits_upto(s, 1, 9223372036854775808) {
            Some(v) => {
                if v == 9223372036854775808 {
                    Some(-9223372036854775808i64)
                } else {
                    Some(-(v as i64))
                }
            },
            None => None,
        }
    } else {
        match parse_unsigned_exec(s, 9223372036854775807) {
            Some(v) => Some(v as i64),
            None => None,
        }
    }
}

// ---- Printing ------------------------------------------------------------

pub open spec fn digit_char(d: nat) -> char {
    ((d + 48) as u8) as char
}

/// What `to_string` prints for a natural number.
pub open spec fn decimal(n: nat) -> Seq<char>
    decreases n,
{
    if n < 10 {
        seq![digit_char(n)]
    } else {
        decimal(n / 10).push(digit_char(n % 10))
    }
}

/// What `to_string` prints for an integer.
pub open spec fn decimal_int(i: int) -> Seq<char> {
    if i < 0 {
        seq!['-'] + decimal((-i) as nat)
    } else {
        decimal(i as nat)
    }
}

fn digit_of(d: u64) -> (c: char)
    requires
        d < 10,
    ensures
        c == digit_char(d as nat),
        is_digit(c),
        digit_val(c) == d,
{
    let b: u8 = (d as u8) + 48;
    let c = b as char;
    assert(c as u32 == b as u32);
    c
}

/// `to_string` for a `u64`.
pub fn decimal_u64(n: u64) -> (r: Vec<char>)
    ensures
        r@ == decimal(n as nat),
    decreases n,
{
    if n < 10 {
        let mut v = Vec::new();
        v.push(digit_of(n));
        assert(v@ =~= decimal(n as nat));
        v
    } else {
        let mut v = decimal_u64(n / 10);
        v.push(digit_of(n % 10));
        v
    }
}

/// `to_string` for an `i64`.
pub fn decimal_i64(n: i64) -> (r: Vec<char>)
    ensures
        r@ == decimal_int(n as int),
{
    if n < 0 {
        let m: u64 = if n == -9223372036854775808i64 {
            9223372036854775808u64
        } else {
            (-n) as u64
        };
        let d = decimal_u64(m);
        let mut v = Vec::new();
        v.push('-');
        let mut i: usize = 0;
        while i < d.len()
            invariant
                i <= d@.len(),
                v@ == seq!['-'] + d@.take(i as int),
            decreases d@.len() - i,
        {
            v.push(d[i]);
            i += 1;
            assert(v@ =~= seq!['-'] + d@.take(i as int));
        }
        assert(d@.take(d@.len() as int) =~= d@);
        v
    } else {
        decimal_u64(n as u64)
    }
}

/// The digits `decimal` prints read back as the number printed.
pub proof fn lemma_decimal_digits(n: nat)
    ensures
        decimal(n).len() > 0,
        all_digits(decimal(n)),
        digits_value(decimal(n)) == n,
    decreases n,
{
    let c = digit_char(n % 10);
    assert(c as u32 == (n % 10) + 48);
    assert(n == (n / 10) * 10 + n % 10) by (nonlinear_arith);
    assert(digit_val(c) == n % 10);
    if n < 10 {
        assert(decimal(n).drop_last() =~= Seq::<char>::empty());
        assert(decimal(n).last() == c);
        assert(digits_value(Seq::<char>::empty()) == 0);
        assert(digits_value(decimal(n)) == digits_value(Seq::<char>::empty()) * 10 + n % 10);
    } else {
        lemma_decimal_digits(n / 10);
        assert(decimal(n).drop_last() =~= decimal(n / 10));
        assert(decimal(n).last() == c);
        assert(digits_value(decimal(n)) == digits_value(decimal(n / 10)) * 10 + n % 10);
    }
}

/// Printing a number and parsing it back gives the number.
pub proof fn lemma_parse_decimal(n: nat, max: nat)
    requires
        n <= max,
    ensures
        parse_unsigned(decimal(n), max) == Some(n),
{
    lemma_decimal_digits(n);
    let d = decimal(n);
    assert(is_digit(d[0]));
    assert(unsigned_body(d) == d);
}

/// Printing an `i64` and parsing it back as one gives the same value.
pub proof fn lemma_parse_decimal_i64(v: i64)
    ensures
        parse_i64(decimal_int(v as int)) == Some(v),
{
    let s = decimal_int(v as int);
    if v < 0 {
        let m = (-(v as int)) as nat;
        lemma_decimal_digits(m);
        assert(s.drop_first() =~= decimal(m));
        assert(s[0] == '-');
    } else {
        lemma_parse_decimal(v as nat, 9223372036854775807);
        lemma_decimal_digits(v as nat);
        assert(is_digit(s[0]));
    }
}

// ---- Floating-point syntax -----------------------------------------------

pub open spec fn ascii_lower(c: char) -> char {
    if 65 <= (c as u32) && (c as u32) <= 90 {
        ((c as u32) + 32) as char
    } else {
        c
    }
}

/// `s` equals the lower-case ASCII word `w`, ignoring ASCII case.
pub open spec fn eq_ignore_case(s: Seq<char>, w: Seq<char>) -> bool {
    s.len() == w.len() && forall|i: int| 0 <= i < s.len() ==> ascii_lower(#[trigger] s[i]) == w[i]
}

pub open spec fn is_e(c: char) -> bool {
    c == 'e' || c == 'E'
}

pub open spec fn strip_sign(s: Seq<char>) -> Seq<char> {
    if s.len() > 0 && (s[0] == '+' || s[0] == '-') {
        s.drop_first()
    } else {
        s
    }
}

/// `Digit+ | Digit+ '.' Digit* | Digit* '.' Digit+`.
pub open spec fn is_mantissa(m: Seq<char>) -> bool {
    &&& forall|i: int| 0 <= i < m.len() ==> is_digit(#[trigger] m[i]) || m[i] == '.'
    &&& forall|i: int, j: int| 0 <= i < j < m.len() ==> !(#[trigger] m[i] == '.' && #[trigger] m[j] == '.')
    &&& exists|i: int| 0 <= i < m.len() && is_digit(#[trigger] m[i])
}

/// `Sign? Digit+`, what follows the `e` of an exponent.
pub open spec fn is_exponent_body(x: Seq<char>) -> bool {
    let d = strip_sign(x);
    d.len() > 0 && all_digits(d)
}

pub open spec fn is_float_number(b: Seq<char>) -> bool {
    ||| (forall|i: int| 0 <= i < b.len() ==> !is_e(#[trigger] b[i])) && is_mantissa(b)
    ||| exists|k: int|
        0 <= k < b.len() && is_e(#[trigger] b[k]) && is_mantissa(b.take(k)) && is_exponent_body(
            b.skip(k + 1),
        )
}

/// The grammar `f64::from_str` documents: an optional sign, then `inf`,
/// `infinity`, `nan` (in any ASCII case) or a decimal number with an
/// optional exponent.
pub open spec fn is_float_literal(s: Seq<char>) -> bool {
    let b = strip_sign(s);
    ||| eq_ignore_case(b, seq!['i', 'n', 'f'])
    ||| eq_ignore_case(b, seq!['i', 'n', 'f', 'i', 'n', 'i', 't', 'y'])
    ||| eq_ignore_case(b, seq!['n', 'a', 'n'])
    ||| is_float_number(b)
}

/// The characters a float literal can hold: digits, signs, the point and
/// ASCII letters (exponent marks and the words `inf`, `infinity`, `nan`).
pub open spec fn float_char(c: char) -> bool {
    ||| is_digit(c)
    ||| c == '+'
    ||| c == '-'
    ||| c == '.'
    ||| (65 <= (c as u32) && (c as u32) <= 90)
    ||| (97 <= (c as u32) && (c as u32) <= 122)
}

proof fn lemma_ignore_case_chars(b: Seq<char>, w: Seq<char>)
    requires
        eq_ignore_case(b, w),
        forall|i: int| 0 <= i < w.len() ==> 97 <= (#[trigger] w[i] as u32) && (w[i] as u32) <= 122,
    ensures
        forall|i: int| 0 <= i < b.len() ==> float_char(#[trigger] b[i]),
{
    assert forall|i: int| 0 <= i < b.len() implies float_char(#[trigger] b[i]) by {
        assert(ascii_lower(b[i]) == w[i]);
    }
}

proof fn lemma_mantissa_chars(m: Seq<char>)
    requires
        is_mantissa(m),
    ensures
        m.len() > 0,
        forall|i: int| 0 <= i < m.len() ==> float_char(#[trigger] m[i]),
{
    let i = choose|i: int| 0 <= i < m.len() && is_digit(#[trigger] m[i]);
}

/// A float literal is not empty, and each of its characters is a digit, a
/// sign, the point or an ASCII letter.
pub proof fn lemma_float_literal_chars(s: Seq<char>)
    requires
        is_float_literal(s),
    ensures
        s.len() > 0,
        forall|i: int| 0 <= i < s.len() ==> float_char(#[trigger] s[i]),
{
    let b = strip_sign(s);
    let lo: int = if s.len() > 0 && (s[0] == '+' || s[0] == '-') {
        1
    } else {
        0
    };
    assert(b =~= s.skip(lo));
    if eq_ignore_case(b, seq!['i', 'n', 'f']) {
        lemma_ignore_case_chars(b, seq!['i', 'n', 'f']);
    } else if eq_ignore_case(b, seq!['i', 'n', 'f', 'i', 'n', 'i', 't', 'y']) {
        lemma_ignore_case_chars(b, seq!['i', 'n', 'f', 'i', 'n', 'i', 't', 'y']);
    } else if eq_ignore_case(b, seq!['n', 'a', 'n']) {
        lemma_ignore_case_chars(b, seq!['n', 'a', 'n']);
    } else if (forall|i: int| 0 <= i < b.len() ==> !is_e(#[trigger] b[i])) && is_mantissa(b) {
        lemma_mantissa_chars(b);
    } else {
        let k = choose|k: int|
            0 <= k < b.len() && is_e(#[trigger] b[k]) && is_mantissa(b.take(k)) && is_exponent_body(
                b.skip(k + 1),
            );
        let m = b.take(k);
        let x = b.skip(k + 1);
        lemma_mantissa_chars(m);
        let d = strip_sign(x);
        let xlo: int = if x.len() > 0 && (x[0] == '+' || x[0] == '-') {
            1
        } else {
            0
        };
        assert(d =~= x.skip(xlo));
        assert forall|i: int| 0 <= i < b.len() implies float_char(#[trigger] b[i]) by {
            if i < k {
                assert(b[i] == m[i]);
            } else if i == k {
            } else {
                assert(b[i] == x[i - k - 1]);
                if i - k - 1 >= xlo {
                    assert(x[i - k - 1] == d[i - k - 1 - xlo]);
                    assert(is_digit(d[i - k - 1 - xlo]));
                }
            }
        }
    }
    assert(b.len() > 0);
    assert forall|i: int| 0 <= i < s.len() implies float_char(#[trigger] s[i]) by {
        if i >= lo {
            assert(s[i] == b[i - lo]);
        }
    }
}

fn lower_exec(c: char) -> (r: char)
    ensures
        r == ascii_lower(c),
{
    let n = c as u32;
    if 65 <= n && n <= 90 {
        let b: u8 = (n + 32) as u8;
        let r = b as char;
        assert(r as u32 == n + 32);
        r
    } else {
        c
    }
}

fn eq_ignore_case_exec(s: &[char], lo: usize, w: &[char]) -> (r: bool)
    requires
        lo <= s@.len(),
    ensures
        r == eq_ignore_case(s@.skip(lo as int), w@),
{
    let ghost b = s@.skip(lo as int);
    if s.len() - lo != w.len() {
        return false;
    }
    let mut i: usize = 0;
    while i < w.len()
        invariant
            i <= w@.len(),
            b == s@.skip(lo as int),
            b.len() == w@.len(),
            lo + w@.len() == s.len(),
            forall|k: int| 0 <= k < i ==> ascii_lower(#[trigger] b[k]) == w@[k],
        decreases w@.len() - i,
    {
        if lower_exec(s[lo + i]) != w[i] {
            assert(b[i as int] == s@[lo + i]);
            return false;
        }
        assert(b[i as int] == s@[lo + i]);
        i += 1;
    }
    true
}

/// Whether `s[lo..hi]` is a mantissa.
fn mantissa_exec(s: &[char], lo: usize, hi: usize) -> (r: bool)
    requires
        lo <= hi <= s@.len(),
    ensures
        r == is_mantissa(s@.subrange(lo as int, hi as int)),
{
    let ghost m = s@.subrange(lo as int, hi as int);
    let mut dots: usize = 0;
    let mut dot_at: usize = 0;
    let mut digits: bool = false;
    let mut i = lo;
    while i < hi
        invariant
            lo <= i <= hi <= s@.len(),
            m == s@.subrange(lo as int, hi as int),
            dots <= 1,
            forall|k: int| 0 <= k < i - lo ==> is_digit(#[trigger] m[k]) || m[k] == '.',
            dots == 0 ==> forall|k: int| 0 <= k < i - lo ==> m[k] != '.',
            dots == 1 ==> lo <= dot_at < i && m[dot_at - lo] == '.' && forall|k: int|
                0 <= k < i - lo && k != dot_at - lo ==> m[k] != '.',
            digits <==> exists|k: int| 0 <= k < i - lo && is_digit(#[trigger] m[k]),
        decreases hi - i,
    {
        let c = s[i];
        assert(m[i - lo] == c);
        if c == '.' {
            if dots == 1 {
                assert(m[dot_at - lo] == '.' && m[i - lo] == '.');
                return false;
            }
            dots = 1;
            dot_at = i;
        } else if (c as u32) >= 48 && (c as u32) <= 57 {
            digits = true;
        } else {
            return false;
        }
        i += 1;
    }
    if !digits {
        return false;
    }
    assert forall|a: int, b: int| 0 <= a < b < m.len() implies !(#[trigger] m[a] == '.'
        && #[trigger] m[b] == '.') by {}
    true
}

/// Whether `s[lo..]` is `Sign? Digit+`.
fn exponent_body_exec(s: &[char], lo: usize) -> (r: bool)
    requires
        lo <= s@.len(),
    ensures
        r == is_exponent_body(s@.skip(lo as int)),
{
    let ghost x = s@.skip(lo as int);
    let start = if lo < s.len() && (s[lo] == '+' || s[lo] == '-') {
        lo + 1
    } else {
        lo
    };
    assert(strip_sign(x) =~= s@.skip(start as int));
    if start == s.len() {
        return false;
    }
    let mut i = start;
    while i < s.len()
        invariant
            lo <= start <= i <= s@.len(),
            strip_sign(s@.skip(lo as int)) == s@.skip(start as int),
            forall|k: int| start <= k < i ==> is_digit(#[trigger] s@[k]),
        decreases s@.len() - i,
    {
        let c = s[i];
        if !((c as u32) >= 48 && (c as u32) <= 57) {
            assert(s@.skip(start as int)[i - start] == c);
            assert(!is_digit(s@.skip(start as int)[i - start]));
            return false;
        }
        i += 1;
    }
    assert forall|k: int| 0 <= k < s@.skip(start as int).len() implies is_digit(
        #[trigger] s@.skip(start as int)[k],
    ) by {
        assert(s@.skip(start as int)[k] == s@[k + start]);
    }
    true
}

/// Whether `s[lo..]` is a decimal number with an optional exponent.
fn float_number_exec(s: &[char], lo: usize) -> (r: bool)
    requires
        lo <= s@.len(),
    ensures
        r == is_float_number(s@.skip(lo as int)),
{
    let ghost b = s@.skip(lo as int);
    let mut k = lo;
    while k < s.len() && !(s[k] == 'e' || s[k] == 'E')
        invariant
            lo <= k <= s@.len(),
            forall|j: int| lo <= j < k ==> !is_e(#[trigger] s@[j]),
        decreases s@.len() - k,
    {
        k += 1;
    }
    if k == s.len() {
        assert forall|i: int| 0 <= i < b.len() implies !is_e(#[trigger] b[i]) by {
            assert(b[i] == s@[i + lo]);
        }
        assert(s@.subrange(lo as int, s@.len() as int) =~= b);
        mantissa_exec(s, lo, s.len())
    } else {
        let kb = k - lo;
        assert(b[kb as int] == s@[k as int]);
        assert(s@.subrange(lo as int, k as int) =~= b.take(kb as int));
        assert(s@.skip(k + 1) =~= b.skip(kb + 1));
        let r = mantissa_exec(s, lo, k) && exponent_body_exec(s, k + 1);
        if !r {
            assert forall|j: int|
                0 <= j < b.len() && #[trigger] is_e(b[j]) && is_mantissa(b.take(j))
                    && is_exponent_body(b.skip(j + 1)) implies false by {
                if j < kb {
                    assert(b[j] == s@[j + lo]);
                } else if j > kb {
                    let m = b.take(j);
                    assert(m[kb as int] == b[kb as int]);
                }
            }
        }
        r
    }
}

/// Whether `s` reads as an `f64`, in the grammar `f64::from_str` documents.
pub fn is_float_literal_exec(s: &[char]) -> (r: bool)
    ensures
        r == is_float_literal(s@),
{
    let lo: usize = if s.len() > 0 && (s[0] == '+' || s[0] == '-') {
        1
    } else {
        0
    };
    assert(strip_sign(s@) =~= s@.skip(lo as int));
    let inf = ['i', 'n', 'f'];
    let infinity = ['i', 'n', 'f', 'i', 'n', 'i', 't', 'y'];
    let nan = ['n', 'a', 'n'];
    assert(seq!['i', 'n', 'f'] =~= inf@);
    assert(seq!['i', 'n', 'f', 'i', 'n', 'i', 't', 'y'] =~= infinity@);
    assert(seq!['n', 'a', 'n'] =~= nan@);
    eq_ignore_case_exec(s, lo, &inf) || eq_ignore_case_exec(s, lo, &infinity)
        || eq_ignore_case_exec(s, lo, &nan) || float_number_exec(s, lo)
}

} // verus!
