use vstd::prelude::*;
use vstd::string::StringExecFns;

use crate::alphabet::{alphabet_char, alphabet_index, in_alphabet, EncodingTable};

verus! {

/// The decimal digit character for `d` (meaningful for 0 <= d < 10).
pub open spec fn digit_char(d: int) -> char {
    if d == 0 { '0' }
    else if d == 1 { '1' }
    else if d == 2 { '2' }
    else if d == 3 { '3' }
    else if d == 4 { '4' }
    else if d == 5 { '5' }
    else if d == 6 { '6' }
    else if d == 7 { '7' }
    else if d == 8 { '8' }
    else if d == 9 { '9' }
    else { '0' }
}

/// The value of a decimal digit character, or `None` when `c` is not a digit.
pub open spec fn digit_val(c: char) -> Option<int> {
    if c == '0' { Some(0int) }
    else if c == '1' { Some(1int) }
    else if c == '2' { Some(2int) }
    else if c == '3' { Some(3int) }
    else if c == '4' { Some(4int) }
    else if c == '5' { Some(5int) }
    else if c == '6' { Some(6int) }
    else if c == '7' { Some(7int) }
    else if c == '8' { Some(8int) }
    else if c == '9' { Some(9int) }
    else { None }
}

/// A digit character decodes back to the value it was made from.
pub proof fn lemma_digit_round(d: int)
    requires
        0 <= d < 10,
    ensures
        digit_val(digit_char(d)) == Some(d),
{
}

/// Every decimal digit character lies in the alphabet.
pub proof fn lemma_digit_in_alphabet(c: char)
    requires
        digit_val(c) is Some,
    ensures
        in_alphabet(c),
{
}

/// A digit character is the character of its digit value, and sits in the
/// alphabet table just after the placeholder: at index value + 1.
pub proof fn lemma_digit_char_of_val(c: char)
    requires
        digit_val(c) is Some,
    ensures
        digit_char(digit_val(c)->0) == c,
        alphabet_index(c) == Some((digit_val(c)->0 + 1) as usize),
{
}

/// Every character of `s` lies in the alphabet.
pub open spec fn text_in_alphabet(s: Seq<char>) -> bool {
    forall|k: int| 0 <= k < s.len() ==> in_alphabet(#[trigger] s[k])
}

/// The table index of `c` (meaningful when `c` lies in the alphabet).
pub open spec fn char_code(c: char) -> int {
    alphabet_index(c)->0 as int
}

/// The wire form of text `s`: each character's table index written as a
/// two-digit, zero-padded decimal numeral, all numerals concatenated.
pub open spec fn encoded_text(s: Seq<char>) -> Seq<char> {
    Seq::new(
        2 * s.len(),
        |j: int|
            if j % 2 == 0 {
                digit_char(char_code(s[j / 2]) / 10)
            } else {
                digit_char(char_code(s[j / 2]) % 10)
            },
    )
}

/// What encoding returns: the wire form when every character lies in the
/// alphabet, and nothing otherwise.
pub open spec fn spec_encode(s: Seq<char>) -> Option<Seq<char>> {
    if text_in_alphabet(s) { Some(encoded_text(s)) } else { None }
}

/// The value of the two-character numeral `hi lo`, or `None` when either
/// character is not a decimal digit.
pub open spec fn numeral_val(hi: char, lo: char) -> Option<int> {
    if digit_val(hi) is Some && digit_val(lo) is Some {
        Some(10 * digit_val(hi)->0 + digit_val(lo)->0)
    } else {
        None
    }
}

/// The `k`-th numeral of wire `w` is well formed and names a table index.
pub open spec fn numeral_ok(w: Seq<char>, k: int) -> bool {
    &&& numeral_val(w[2 * k], w[2 * k + 1]) is Some
    &&& numeral_val(w[2 * k], w[2 * k + 1])->0 < 98
}

/// Wire `w` is a well-formed concatenation of numerals: even length, every
/// numeral two decimal digits with a value below 98.
pub open spec fn wire_valid(w: Seq<char>) -> bool {
    &&& w.len() % 2 == 0
    &&& forall|k: int| 0 <= k < w.len() / 2 ==> #[trigger] numeral_ok(w, k)
}

/// The text carried by a well-formed wire: one alphabet symbol per numeral.
pub open spec fn decoded_text(w: Seq<char>) -> Seq<char> {
    Seq::new(w.len() / 2, |k: int| alphabet_char(numeral_val(w[2 * k], w[2 * k + 1])->0))
}

/// What decoding returns: the carried text when the wire is well formed, and
/// nothing otherwise.
pub open spec fn spec_decode(w: Seq<char>) -> Option<Seq<char>> {
    if wire_valid(w) { Some(decoded_text(w)) } else { None }
}

/// Law: any text over the alphabet, encoded to its wire form and decoded
/// back, yields the original text.
pub proof fn lemma_text_round_trip(s: Seq<char>)
    requires
        text_in_alphabet(s),
    ensures
        spec_decode(encoded_text(s)) == Some(s),
{
    let w = encoded_text(s);
    assert forall|k: int| 0 <= k < w.len() / 2 implies #[trigger] numeral_ok(w, k) by {
        let c = s[k];
        assert(in_alphabet(c));
        crate::alphabet::lemma_alphabet_decode_encode(c);
        let i = char_code(c);
        assert(w[2 * k] == digit_char(i / 10));
        assert(w[2 * k + 1] == digit_char(i % 10));
        lemma_digit_round(i / 10);
        lemma_digit_round(i % 10);
        assert(numeral_val(w[2 * k], w[2 * k + 1]) == Some(10 * (i / 10) + i % 10));
    }
    assert(wire_valid(w));
    assert forall|k: int| 0 <= k < s.len() implies decoded_text(w)[k] == s[k] by {
        let c = s[k];
        crate::alphabet::lemma_alphabet_decode_encode(c);
        let i = char_code(c);
        lemma_digit_round(i / 10);
        lemma_digit_round(i % 10);
        assert(numeral_val(w[2 * k], w[2 * k + 1]) == Some(10 * (i / 10) + i % 10));
    }
    assert(decoded_text(w) =~= s);
}

/// Relies on String::push: appends exactly one character to the string.
#[verifier::external_body]
pub(crate) fn push_char(s: &mut String, c: char)
    ensures
        final(s)@ == old(s)@.push(c),
{
    s.push(c)
}

/// The decimal digit character for `d`.
pub(crate) fn digit_to_char(d: usize) -> (r: char)
    requires
        d < 10,
    ensures
        r == digit_char(d as int),
{
    match d {
        0 => '0',
        1 => '1',
        2 => '2',
        3 => '3',
        4 => '4',
        5 => '5',
        6 => '6',
        7 => '7',
        8 => '8',
        _ => '9',
    }
}

/// The character-substitution codec: text over the 98-symbol alphabet to and
/// from its numeral wire form.
pub struct Encoding();

impl Encoding {
    /// The reserved separator symbol, at table index 97.
    pub const SPLITTER: char = '\u{2022}';

    /// The reserved separator symbol as a string slice.
    pub const SPLITTER_STR: &'static str = "\u{2022}";

    /// Create a new encoder.
    pub fn new() -> (r: Self)
        ensures
            r == (Encoding()),
    {
        Encoding()
    }

    /// Encode `input` as a concatenation of two-digit numerals, one per
    /// character; fails exactly when some character lies outside the alphabet.
    pub fn encode(&self, input: &str) -> (r: Option<String>)
        ensures
            r is Some <==> text_in_alphabet(input@),
            r is Some ==> r->0@ == encoded_text(input@),
            r.deep_view() == spec_encode(input@),
    {
        let n = input.unicode_len();
        let mut out = String::new();
        let mut i: usize = 0;
        while i < n
            invariant
                n == input@.len(),
                i <= n,
                text_in_alphabet(input@.take(i as int)),
                out@ == encoded_text(input@.take(i as int)),
            decreases n - i,
        {
            let c = input.get_char(i);
            let idx = match EncodingTable::encode(c) {
                Some(idx) => idx,
                None => {
                    return None;
                },
            };
            push_char(&mut out, digit_to_char(idx / 10));
            push_char(&mut out, digit_to_char(idx % 10));
            i += 1;
            proof {
                assert(out@ =~= encoded_text(input@.take(i as int)));
            }
        }
        proof {
            assert(input@.take(n as int) =~= input@);
        }
        Some(out)
    }

    /// Decode a numeral wire string back to text; fails exactly when the wire
    /// has odd length, holds a non-digit character, or holds a numeral whose
    /// value lies outside the table.
    pub fn decode(&self, numbers: &str) -> (r: Option<String>)
        ensures
            r is Some <==> wire_valid(numbers@),
            r is Some ==> r->0@ == decoded_text(numbers@),
            r.deep_view() == spec_decode(numbers@),
    {
        let n = numbers.unicode_len();
        if n % 2 != 0 {
            return None;
        }
        let mut out = String::new();
        let mut k: usize = 0;
        while k < n / 2
            invariant
                n == numbers@.len(),
                n % 2 == 0,
                k <= n / 2,
                forall|j: int| 0 <= j < k ==> #[trigger] numeral_ok(numbers@, j),
                out@ == decoded_text(numbers@.take(2 * k as int)),
            decreases n / 2 - k,
        {
            let hi = numbers.get_char(2 * k);
            let lo = numbers.get_char(2 * k + 1);
            let h = match char_to_digit(hi) {
                Some(h) => h,
                None => {
                    proof {
                        assert(!numeral_ok(numbers@, k as int));
                    }
                    return None;
                },
            };
            let l = match char_to_digit(lo) {
                Some(l) => l,
                None => {
                    proof {
                        assert(!numeral_ok(numbers@, k as int));
                    }
                    return None;
                },
            };
            let v = 10 * h + l;
            let c = match EncodingTable::decode(v) {
                Some(c) => c,
                None => {
                    proof {
                        assert(!numeral_ok(numbers@, k as int));
                    }
                    return None;
                },
            };
            push_char(&mut out, c);
            k += 1;
            proof {
                assert(out@ =~= decoded_text(numbers@.take(2 * k as int)));
            }
        }
        proof {
            assert(numbers@.take(n as int) =~= numbers@);
        }
        Some(out)
    }
}

/// The two-digit, zero-padded numeral of table index `i`.
pub open spec fn numeral_pair(i: int) -> Seq<char> {
    seq![digit_char(i / 10), digit_char(i % 10)]
}

/// A sequence of two-digit numerals being assembled into one wire string.
pub struct EncodedSequence {
    numerals: Vec<String>,
}

impl EncodedSequence {
    /// The numeral texts added so far.
    pub closed spec fn spec_numerals(&self) -> Seq<Seq<char>> {
        self.numerals.deep_view()
    }

    /// Creates a new, empty numeral sequence.
    pub fn new() -> (r: Self)
        ensures
            r.spec_numerals() == Seq::<Seq<char>>::empty(),
    {
        let r = EncodedSequence { numerals: Vec::new() };
        proof {
            assert(r.spec_numerals() =~= Seq::<Seq<char>>::empty());
        }
        r
    }

    /// Adds one table index as its two-digit, zero-padded numeral. Callers
    /// reach this through the alphabet table, whose indices stay below 98.
    pub fn add(&mut self, item: usize)
        requires
            item <= 97,
        ensures
            final(self).spec_numerals() == old(self).spec_numerals().push(
                numeral_pair(item as int),
            ),
    {
        let mut s = String::new();
        push_char(&mut s, digit_to_char(item / 10));
        push_char(&mut s, digit_to_char(item % 10));
        proof {
            assert(s@ =~= numeral_pair(item as int));
        }
        self.numerals.push(s);
        proof {
            assert(self.spec_numerals() =~= old(self).spec_numerals().push(
                numeral_pair(item as int),
            ));
        }
    }

    /// The assembled wire string: all numerals joined in order.
    pub fn get(&self) -> (r: String)
        ensures
            r@ == self.spec_numerals().flatten(),
    {
        let mut out = String::new();
        let mut i: usize = 0;
        proof {
            assert(self.spec_numerals().take(0) =~= Seq::<Seq<char>>::empty());
            assert(Seq::<Seq<char>>::empty().flatten() =~= Seq::<char>::empty());
        }
        while i < self.numerals.len()
            invariant
                i <= self.numerals@.len(),
                self.numerals@.len() == self.spec_numerals().len(),
                out@ == self.spec_numerals().take(i as int).flatten(),
            decreases self.numerals@.len() - i,
        {
            out.append(self.numerals[i].as_str());
            proof {
                self.spec_numerals().take(i as int).lemma_flatten_push(
                    self.spec_numerals()[i as int],
                );
                assert(self.spec_numerals().take(i as int).push(self.spec_numerals()[i as int])
                    =~= self.spec_numerals().take(i as int + 1));
            }
            i += 1;
        }
        proof {
            assert(self.spec_numerals().take(self.numerals@.len() as int) =~= self.spec_numerals());
        }
        out
    }
}

/// The value of a decimal digit character, or `None` when `c` is not a digit.
pub(crate) fn char_to_digit(c: char) -> (r: Option<usize>)
    ensures
        r is Some <==> digit_val(c) is Some,
        r is Some ==> Some(r->0 as int) == digit_val(c),
{
    match c {
        '0' => Some(0),
        '1' => Some(1),
        '2' => Some(2),
        '3' => Some(3),
        '4' => Some(4),
        '5' => Some(5),
        '6' => Some(6),
        '7' => Some(7),
        '8' => Some(8),
        '9' => Some(9),
        _ => None,
    }
}

} // verus!
