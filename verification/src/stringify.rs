use vstd::prelude::*;

use crate::codec::{char_to_digit, digit_char, digit_val, digit_to_char, push_char};

verus! {

/// The decimal digit characters of `n`, most significant first, with no
/// leading zeros other than the single digit of `n == 0`.
pub open spec fn dec_digits(n: nat) -> Seq<char>
    decreases n,
{
    if n < 10 {
        seq![digit_char(n as int)]
    } else {
        dec_digits(n / 10).push(digit_char((n % 10) as int))
    }
}

/// The canonical decimal text of the integer `n`: a leading '-' for negative
/// values, plain digits otherwise.
pub open spec fn spec_int_string(n: int) -> Seq<char> {
    if n < 0 {
        seq!['-'] + dec_digits((-n) as nat)
    } else {
        dec_digits(n as nat)
    }
}

/// Every character of `s` is a decimal digit.
pub open spec fn all_digits(s: Seq<char>) -> bool {
    forall|k: int| 0 <= k < s.len() ==> digit_val(#[trigger] s[k]) is Some
}

/// The number denoted by the digit text `s` (meaningful when `all_digits(s)`).
pub open spec fn digits_to_nat(s: Seq<char>) -> nat
    decreases s.len(),
{
    if s.len() == 0 {
        0
    } else {
        digits_to_nat(s.drop_last()) * 10 + (digit_val(s.last())->0 as nat)
    }
}

/// The integer denoted by text `s`: an optional leading '-', then at least one
/// digit; `None` when `s` is not of that shape.
pub open spec fn spec_signed_val(s: Seq<char>) -> Option<int> {
    if s.len() > 0 && s[0] == '-' {
        if s.len() > 1 && all_digits(s.skip(1)) {
            Some(-(digits_to_nat(s.skip(1)) as int))
        } else {
            None
        }
    } else if s.len() > 0 && all_digits(s) {
        Some(digits_to_nat(s) as int)
    } else {
        None
    }
}

/// What parsing unsigned decimal text with an upper bound returns: the denoted
/// value for non-empty all-digit text that fits, nothing otherwise.
pub open spec fn spec_parse_unsigned(s: Seq<char>, max: int) -> Option<int> {
    if s.len() > 0 && all_digits(s) && digits_to_nat(s) <= max {
        Some(digits_to_nat(s) as int)
    } else {
        None
    }
}

/// What parsing signed decimal text within inclusive bounds returns.
pub open spec fn spec_parse_signed(s: Seq<char>, min: int, max: int) -> Option<int> {
    match spec_signed_val(s) {
        Some(v) => if min <= v <= max {
            Some(v)
        } else {
            None
        },
        None => None,
    }
}

/// The value a digit text denotes never shrinks as the text is extended.
proof fn lemma_digits_prefix_le(s: Seq<char>, j: int)
    requires
        all_digits(s),
        0 <= j <= s.len(),
    ensures
        digits_to_nat(s.take(j)) <= digits_to_nat(s),
    decreases s.len() - j,
{
    if j < s.len() {
        assert(s.take(j + 1).drop_last() =~= s.take(j));
        assert(s.take(j + 1).last() == s[j]);
        assert(digit_val(s[j])->0 >= 0);
        lemma_digits_prefix_le(s, j + 1);
    } else {
        assert(s.take(j) =~= s);
    }
}

/// The decimal digits of a number are all digit characters, and they denote
/// the number they were made from.
pub proof fn lemma_dec_digits_value(n: nat)
    ensures
        all_digits(dec_digits(n)),
        digits_to_nat(dec_digits(n)) == n,
        dec_digits(n).len() >= 1,
    decreases n,
{
    if n < 10 {
        assert(dec_digits(n) == seq![digit_char(n as int)]);
        assert(digit_val(digit_char(n as int)) == Some(n as int)) by {
            crate::codec::lemma_digit_round(n as int);
        }
        assert(dec_digits(n).drop_last() =~= Seq::<char>::empty());
        assert(digits_to_nat(Seq::<char>::empty()) == 0);
        assert(dec_digits(n).last() == digit_char(n as int));
        assert(digits_to_nat(dec_digits(n)) == n);
    } else {
        lemma_dec_digits_value(n / 10);
        let d = dec_digits(n / 10);
        crate::codec::lemma_digit_round((n % 10) as int);
        assert(d.push(digit_char((n % 10) as int)).drop_last() =~= d);
        assert(dec_digits(n).last() == digit_char((n % 10) as int));
        assert(digits_to_nat(dec_digits(n)) == digits_to_nat(d) * 10 + n % 10);
        assert((n / 10) * 10 + n % 10 == n);
        assert forall|k: int| 0 <= k < dec_digits(n).len() implies digit_val(
            #[trigger] dec_digits(n)[k],
        ) is Some by {
            if k < d.len() {
                assert(dec_digits(n)[k] == d[k]);
            }
        }
    }
}

/// Append the decimal digits of `n` to `out`.
fn push_u64_digits(n: u64, out: &mut String)
    ensures
        final(out)@ == old(out)@ + dec_digits(n as nat),
    decreases n,
{
    if n < 10 {
        push_char(out, digit_to_char((n % 10) as usize));
        proof {
            assert(old(out)@.push(digit_char(n as int)) =~= old(out)@ + dec_digits(n as nat));
        }
    } else {
        push_u64_digits(n / 10, out);
        push_char(out, digit_to_char((n % 10) as usize));
        proof {
            assert(old(out)@ + dec_digits((n / 10) as nat).push(digit_char((n % 10) as int))
                =~= (old(out)@ + dec_digits((n / 10) as nat)).push(digit_char((n % 10) as int)));
        }
    }
}

/// The canonical decimal text of `n`.
pub fn u64_to_string(n: u64) -> (r: String)
    ensures
        r@ == dec_digits(n as nat),
{
    let mut s = String::new();
    push_u64_digits(n, &mut s);
    proof {
        assert(Seq::<char>::empty() + dec_digits(n as nat) =~= dec_digits(n as nat));
    }
    s
}

/// The canonical decimal text of `n`, with a leading '-' when negative.
pub fn i64_to_string(n: i64) -> (r: String)
    ensures
        r@ == spec_int_string(n as int),
{
    let mut s = String::new();
    if n < 0 {
        push_char(&mut s, '-');
        let mag: u64 = (-(n as i128)) as u64;
        push_u64_digits(mag, &mut s);
        proof {
            assert(Seq::<char>::empty().push('-') + dec_digits(mag as nat)
                =~= seq!['-'] + dec_digits((-(n as int)) as nat));
        }
    } else {
        push_u64_digits(n as u64, &mut s);
        proof {
            assert(Seq::<char>::empty() + dec_digits((n as u64) as nat)
                =~= dec_digits(n as nat));
        }
    }
    s
}

/// Parse non-negative decimal text bounded by `max`; fails exactly on empty or
/// non-digit text or a value over the bound.
pub(crate) fn parse_unsigned(s: &str, max: u64) -> (r: Option<u64>)
    ensures
        r is Some <==> spec_parse_unsigned(s@, max as int) is Some,
        r is Some ==> Some(r->0 as int) == spec_parse_unsigned(s@, max as int),
{
    let n = s.unicode_len();
    if n == 0 {
        return None;
    }
    let mut acc: u64 = 0;
    let mut i: usize = 0;
    while i < n
        invariant
            n == s@.len(),
            i <= n,
            acc <= max,
            all_digits(s@.take(i as int)),
            acc as nat == digits_to_nat(s@.take(i as int)),
        decreases n - i,
    {
        let c = s.get_char(i);
        let d = match char_to_digit(c) {
            Some(d) => d,
            None => {
                proof {
                    assert(digit_val(s@[i as int]) is None);
                }
                return None;
            },
        };
        proof {
            assert(s@.take(i as int + 1).drop_last() =~= s@.take(i as int));
            assert(s@.take(i as int + 1).last() == s@[i as int]);
        }
        let next = match acc.checked_mul(10) {
            Some(m) => m.checked_add(d as u64),
            None => None,
        };
        let next_ok = match next {
            Some(v) => if v <= max {
                Some(v)
            } else {
                None
            },
            None => None,
        };
        acc = match next_ok {
            Some(v) => v,
            None => {
                proof {
                    if all_digits(s@) {
                        lemma_digits_prefix_le(s@, i as int + 1);
                    }
                }
                return None;
            },
        };
        i += 1;
    }
    proof {
        assert(s@.take(n as int) =~= s@);
    }
    Some(acc)
}

/// Parse signed decimal text within the inclusive bounds; an optional leading
/// '-' is followed by at least one digit.
fn parse_signed(s: &str, min: i64, max: i64) -> (r: Option<i64>)
    requires
        min < 0 <= max,
    ensures
        r is Some <==> spec_parse_signed(s@, min as int, max as int) is Some,
        r is Some ==> Some(r->0 as int) == spec_parse_signed(s@, min as int, max as int),
{
    let n = s.unicode_len();
    if n == 0 {
        return None;
    }
    if s.get_char(0) == '-' {
        let rest = s.substring_char(1, n);
        proof {
            assert(rest@ =~= s@.skip(1));
        }
        let bound: u64 = (-(min as i128)) as u64;
        let mag = match parse_unsigned(rest, bound) {
            Some(m) => m,
            None => {
                return None;
            },
        };
        if mag == 0 {
            return Some(0);
        }
        // negate via mag - 1 so that a magnitude of 2^63 (i64::MIN) stays in range
        Some(-((mag - 1) as i64) - 1)
    } else {
        match parse_unsigned(s, max as u64) {
            Some(v) => Some(v as i64),
            None => None,
        }
    }
}

/// Renders a field value as the text the wire carries: strings verbatim,
/// integers as canonical decimal text.
pub trait SbToString {
    /// The text this value renders to.
    spec fn spec_sb_string(&self) -> Seq<char>;

    /// Render this value.
    fn sb_to_string(&self) -> (r: String)
        ensures
            r@ == self.spec_sb_string(),
    ;
}

/// Parses wire item text back into a field value: strings verbatim, integers
/// as bounded decimal text.
pub trait SbStringTo<T> {
    /// What parsing this text as a `T` yields.
    spec fn spec_sb_parse(&self) -> Option<T>;

    /// Parse this text; fails exactly when the text does not denote an
    /// in-range value of the target type.
    fn sb_string_to(&self) -> (r: Option<T>)
        ensures
            r == self.spec_sb_parse(),
    ;
}

impl SbToString for String {
    open spec fn spec_sb_string(&self) -> Seq<char> {
        self@
    }

    fn sb_to_string(&self) -> (r: String) {
        self.clone()
    }
}

impl SbStringTo<String> for String {
    open spec fn spec_sb_parse(&self) -> Option<String> {
        Some(*self)
    }

    fn sb_string_to(&self) -> (r: Option<String>) {
        Some(self.clone())
    }
}

impl SbToString for u8 {
    open spec fn spec_sb_string(&self) -> Seq<char> {
        dec_digits(*self as nat)
    }

    fn sb_to_string(&self) -> (r: String) {
        u64_to_string(*self as u64)
    }
}

impl SbToString for u16 {
    open spec fn spec_sb_string(&self) -> Seq<char> {
        dec_digits(*self as nat)
    }

    fn sb_to_string(&self) -> (r: String) {
        u64_to_string(*self as u64)
    }
}

impl SbToString for u32 {
    open spec fn spec_sb_string(&self) -> Seq<char> {
        dec_digits(*self as nat)
    }

    fn sb_to_string(&self) -> (r: String) {
        u64_to_string(*self as u64)
    }
}

impl SbToString for u64 {
    open spec fn spec_sb_string(&self) -> Seq<char> {
        dec_digits(*self as nat)
    }

    fn sb_to_string(&self) -> (r: String) {
        u64_to_string(*self)
    }
}

impl SbToString for i8 {
    open spec fn spec_sb_string(&self) -> Seq<char> {
        spec_int_string(*self as int)
    }

    fn sb_to_string(&self) -> (r: String) {
        i64_to_string(*self as i64)
    }
}

impl SbToString for i16 {
    open spec fn spec_sb_string(&self) -> Seq<char> {
        spec_int_string(*self as int)
    }

    fn sb_to_string(&self) -> (r: String) {
        i64_to_string(*self as i64)
    }
}

impl SbToString for i32 {
    open spec fn spec_sb_string(&self) -> Seq<char> {
        spec_int_string(*self as int)
    }

    fn sb_to_string(&self) -> (r: String) {
        i64_to_string(*self as i64)
    }
}

impl SbToString for i64 {
    open spec fn spec_sb_string(&self) -> Seq<char> {
        spec_int_string(*self as int)
    }

    fn sb_to_string(&self) -> (r: String) {
        i64_to_string(*self)
    }
}

impl SbStringTo<u8> for String {
    open spec fn spec_sb_parse(&self) -> Option<u8> {
        match spec_parse_unsigned(self@, u8::MAX as int) {
            Some(v) => Some(v as u8),
            None => None,
        }
    }

    fn sb_string_to(&self) -> (r: Option<u8>) {
        match parse_unsigned(self.as_str(), u8::MAX as u64) {
            Some(v) => Some(v as u8),
            None => None,
        }
    }
}

impl SbStringTo<u16> for String {
    open spec fn spec_sb_parse(&self) -> Option<u16> {
        match spec_parse_unsigned(self@, u16::MAX as int) {
            Some(v) => Some(v as u16),
            None => None,
        }
    }

    fn sb_string_to(&self) -> (r: Option<u16>) {
        match parse_unsigned(self.as_str(), u16::MAX as u64) {
            Some(v) => Some(v as u16),
            None => None,
        }
    }
}

impl SbStringTo<u32> for String {
    open spec fn spec_sb_parse(&self) -> Option<u32> {
        match spec_parse_unsigned(self@, u32::MAX as int) {
            Some(v) => Some(v as u32),
            None => None,
        }
    }

    fn sb_string_to(&self) -> (r: Option<u32>) {
        match parse_unsigned(self.as_str(), u32::MAX as u64) {
            Some(v) => Some(v as u32),
            None => None,
        }
    }
}

impl SbStringTo<u64> for String {
    open spec fn spec_sb_parse(&self) -> Option<u64> {
        match spec_parse_unsigned(self@, u64::MAX as int) {
            Some(v) => Some(v as u64),
            None => None,
        }
    }

    fn sb_string_to(&self) -> (r: Option<u64>) {
        parse_unsigned(self.as_str(), u64::MAX)
    }
}

impl SbStringTo<i8> for String {
    open spec fn spec_sb_parse(&self) -> Option<i8> {
        match spec_parse_signed(self@, i8::MIN as int, i8::MAX as int) {
            Some(v) => Some(v as i8),
            None => None,
        }
    }

    fn sb_string_to(&self) -> (r: Option<i8>) {
        match parse_signed(self.as_str(), i8::MIN as i64, i8::MAX as i64) {
            Some(v) => Some(v as i8),
            None => None,
        }
    }
}

impl SbStringTo<i16> for String {
    open spec fn spec_sb_parse(&self) -> Option<i16> {
        match spec_parse_signed(self@, i16::MIN as int, i16::MAX as int) {
            Some(v) => Some(v as i16),
            None => None,
        }
    }

    fn sb_string_to(&self) -> (r: Option<i16>) {
        match parse_signed(self.as_str(), i16::MIN as i64, i16::MAX as i64) {
            Some(v) => Some(v as i16),
            None => None,
        }
    }
}

impl SbStringTo<i32> for String {
    open spec fn spec_sb_parse(&self) -> Option<i32> {
        match spec_parse_signed(self@, i32::MIN as int, i32::MAX as int) {
            Some(v) => Some(v as i32),
            None => None,
        }
    }

    fn sb_string_to(&self) -> (r: Option<i32>) {
        match parse_signed(self.as_str(), i32::MIN as i64, i32::MAX as i64) {
            Some(v) => Some(v as i32),
            None => None,
        }
    }
}

impl SbStringTo<i64> for String {
    open spec fn spec_sb_parse(&self) -> Option<i64> {
        match spec_parse_signed(self@, i64::MIN as int, i64::MAX as int) {
            Some(v) => Some(v as i64),
            None => None,
        }
    }

    fn sb_string_to(&self) -> (r: Option<i64>) {
        parse_signed(self.as_str(), i64::MIN, i64::MAX)
    }
}

} // verus!
