use vstd::prelude::*;
use vstd::string::StringExecFns;

use crate::alphabet::SEPARATOR;
use crate::codec::{
    decoded_text, encoded_text, push_char, spec_encode, text_in_alphabet, wire_valid, Encoding,
};

verus! {

/// Text `s` holds no occurrence of the separator symbol.
pub open spec fn no_separator(s: Seq<char>) -> bool {
    forall|k: int| 0 <= k < s.len() ==> s[k] != SEPARATOR
}

/// The separator-joined concatenation of `items`.
pub open spec fn spec_join(items: Seq<Seq<char>>) -> Seq<char>
    decreases items.len(),
{
    if items.len() == 0 {
        Seq::empty()
    } else if items.len() == 1 {
        items[0]
    } else {
        items[0] + seq![SEPARATOR] + spec_join(items.skip(1))
    }
}

/// Appending one more item extends the join by a separator and the item.
proof fn lemma_join_push(items: Seq<Seq<char>>, x: Seq<char>)
    ensures
        spec_join(items.push(x)) == if items.len() == 0 {
            x
        } else {
            spec_join(items) + seq![SEPARATOR] + x
        },
    decreases items.len(),
{
    if items.len() == 0 {
        assert(items.push(x) =~= seq![x]);
    } else if items.len() == 1 {
        assert(items.push(x).skip(1) =~= seq![x]);
        assert(spec_join(items.push(x)) == items[0] + seq![SEPARATOR] + spec_join(seq![x]));
    } else {
        assert(items.push(x).skip(1) =~= items.skip(1).push(x));
        lemma_join_push(items.skip(1), x);
    }
}

/// Splitting `t` on the separator, with `acc` the characters of the item
/// currently being read; a non-empty trailing remainder becomes a final item.
pub open spec fn spec_split_acc(t: Seq<char>, acc: Seq<char>) -> Seq<Seq<char>>
    decreases t.len(),
{
    if t.len() == 0 {
        if acc.len() == 0 {
            Seq::empty()
        } else {
            seq![acc]
        }
    } else if t[0] == SEPARATOR {
        seq![acc] + spec_split_acc(t.skip(1), Seq::empty())
    } else {
        spec_split_acc(t.skip(1), acc.push(t[0]))
    }
}

/// The items carried by text `t`: the pieces between separators, a non-empty
/// trailing piece kept as a final item.
pub open spec fn spec_split(t: Seq<char>) -> Seq<Seq<char>> {
    spec_split_acc(t, Seq::empty())
}

/// What decoding an item list returns: the split of the carried text when the
/// wire is well formed, and nothing otherwise.
pub open spec fn spec_decode_items(w: Seq<char>) -> Option<Seq<Seq<char>>> {
    if wire_valid(w) {
        Some(spec_split(decoded_text(w)))
    } else {
        None
    }
}

/// Splitting separator-free text yields the accumulator extended by it.
proof fn lemma_split_acc_no_sep(t: Seq<char>, acc: Seq<char>)
    requires
        no_separator(t),
    ensures
        spec_split_acc(t, acc) == if acc.len() + t.len() == 0 {
            Seq::<Seq<char>>::empty()
        } else {
            seq![acc + t]
        },
    decreases t.len(),
{
    if t.len() == 0 {
        assert(acc + t =~= acc);
    } else {
        lemma_split_acc_no_sep(t.skip(1), acc.push(t[0]));
        assert(acc.push(t[0]) + t.skip(1) =~= acc + t);
    }
}

/// A separator-free prefix of the text folds into the accumulator.
proof fn lemma_split_acc_prefix(x: Seq<char>, t: Seq<char>, acc: Seq<char>)
    requires
        no_separator(x),
    ensures
        spec_split_acc(x + t, acc) == spec_split_acc(t, acc + x),
    decreases x.len(),
{
    if x.len() == 0 {
        assert(x + t =~= t);
        assert(acc + x =~= acc);
    } else {
        assert((x + t).skip(1) =~= x.skip(1) + t);
        assert((x + t)[0] == x[0]);
        lemma_split_acc_prefix(x.skip(1), t, acc.push(x[0]));
        assert(acc.push(x[0]) + x.skip(1) =~= acc + x);
    }
}

/// Law: items holding no separator, joined and split again, yield the same
/// list — provided the last item is non-empty (a trailing empty item would be
/// absorbed by the join).
pub proof fn lemma_split_join(items: Seq<Seq<char>>)
    requires
        forall|i: int| 0 <= i < items.len() ==> no_separator(#[trigger] items[i]),
        items.len() > 0 ==> items.last().len() > 0,
    ensures
        spec_split(spec_join(items)) == items,
    decreases items.len(),
{
    if items.len() == 0 {
    } else if items.len() == 1 {
        lemma_split_acc_no_sep(items[0], Seq::empty());
        assert(Seq::empty() + items[0] =~= items[0]);
        assert(seq![items[0]] =~= items);
    } else {
        let rest = seq![SEPARATOR] + spec_join(items.skip(1));
        lemma_split_acc_prefix(items[0], rest, Seq::empty());
        assert(items[0] + rest =~= spec_join(items));
        assert(Seq::empty() + items[0] =~= items[0]);
        assert(rest.skip(1) =~= spec_join(items.skip(1)));
        assert(spec_split_acc(rest, items[0]) == seq![items[0]] + spec_split(
            spec_join(items.skip(1)),
        ));
        lemma_split_join(items.skip(1));
        assert(seq![items[0]] + items.skip(1) =~= items);
    }
}

/// Law: an item list whose items hold no separator, whose joined text lies in
/// the alphabet, and whose last item is non-empty, encoded and decoded again,
/// yields the same list.
pub proof fn lemma_items_round_trip(items: Seq<Seq<char>>)
    requires
        forall|i: int| 0 <= i < items.len() ==> no_separator(#[trigger] items[i]),
        text_in_alphabet(spec_join(items)),
        items.len() > 0 ==> items.last().len() > 0,
    ensures
        spec_decode_items(encoded_text(spec_join(items))) == Some(items),
{
    crate::codec::lemma_text_round_trip(spec_join(items));
    lemma_split_join(items);
}

impl Encoding {
    /// Join `items` with the separator symbol and encode the joined text;
    /// fails exactly when some character of an item lies outside the alphabet.
    pub fn encode_items(&self, items: &[&str]) -> (r: Option<String>)
        ensures
            r is Some <==> text_in_alphabet(spec_join(items.deep_view())),
            r is Some ==> r->0@ == encoded_text(spec_join(items.deep_view())),
            r.deep_view() == spec_encode(spec_join(items.deep_view())),
    {
        let mut joined = String::new();
        let mut i: usize = 0;
        while i < items.len()
            invariant
                i <= items.deep_view().len(),
                items.deep_view().len() == items@.len(),
                joined@ == spec_join(items.deep_view().take(i as int)),
            decreases items@.len() - i,
        {
            if i > 0 {
                push_char(&mut joined, SEPARATOR);
            }
            joined.append(items[i]);
            proof {
                lemma_join_push(items.deep_view().take(i as int), items.deep_view()[i as int]);
                assert(items.deep_view().take(i as int).push(items.deep_view()[i as int])
                    =~= items.deep_view().take(i as int + 1));
                assert(items.deep_view()[i as int] == items@[i as int]@);
            }
            i += 1;
        }
        proof {
            assert(items.deep_view().take(items@.len() as int) =~= items.deep_view());
        }
        self.encode(joined.as_str())
    }

    /// Decode an item-list wire string into its items: the carried text is
    /// split at each separator symbol, and a non-empty trailing remainder is
    /// kept as a final item; fails exactly when the wire is malformed.
    pub fn decode_items(&self, numbers: &str) -> (r: Option<Vec<String>>)
        ensures
            r is Some <==> wire_valid(numbers@),
            r is Some ==> r->0.deep_view() == spec_split(decoded_text(numbers@)),
    {
        let text = match self.decode(numbers) {
            Some(t) => t,
            None => {
                return None;
            },
        };
        let ghost full = text@;
        let mut out: Vec<String> = Vec::new();
        let mut acc = String::new();
        let n = text.as_str().unicode_len();
        let mut i: usize = 0;
        proof {
            assert(out.deep_view() =~= Seq::<Seq<char>>::empty());
            assert(full.skip(0) =~= full);
            assert(Seq::<Seq<char>>::empty() + spec_split_acc(full, Seq::empty())
                =~= spec_split_acc(full, Seq::empty()));
        }
        while i < n
            invariant
                n == full.len(),
                text@ == full,
                i <= n,
                spec_split(full) == out.deep_view() + spec_split_acc(
                    full.skip(i as int),
                    acc@,
                ),
            decreases n - i,
        {
            let c = text.as_str().get_char(i);
            proof {
                assert(full.skip(i as int)[0] == c);
                assert(full.skip(i as int).skip(1) =~= full.skip(i as int + 1));
            }
            if c == SEPARATOR {
                proof {
                    assert(out.deep_view().push(acc@) =~= out.deep_view() + seq![acc@]);
                    assert((out.deep_view() + seq![acc@]) + spec_split_acc(
                        full.skip(i as int + 1),
                        Seq::empty(),
                    ) =~= out.deep_view() + (seq![acc@] + spec_split_acc(
                        full.skip(i as int + 1),
                        Seq::empty(),
                    )));
                }
                out.push(acc);
                acc = String::new();
            } else {
                push_char(&mut acc, c);
            }
            i += 1;
        }
        proof {
            assert(full.skip(n as int) =~= Seq::<char>::empty());
        }
        if !acc.as_str().is_empty() {
            proof {
                assert(out.deep_view().push(acc@) =~= out.deep_view() + seq![acc@]);
            }
            out.push(acc);
        } else {
            proof {
                assert(out.deep_view() + Seq::<Seq<char>>::empty() =~= out.deep_view());
            }
        }
        Some(out)
    }

    /// Decode an item-list wire string and insist on exactly `n` items; fails
    /// exactly when the wire is malformed or the item count differs from `n`.
    pub fn decode_items_to_array(&self, numbers: &str, n: usize) -> (r: Option<Vec<String>>)
        ensures
            r is Some <==> wire_valid(numbers@) && spec_split(decoded_text(numbers@)).len()
                == n,
            r is Some ==> r->0.deep_view() == spec_split(decoded_text(numbers@)),
            r is Some ==> r->0.len() == n,
    {
        let items = match self.decode_items(numbers) {
            Some(items) => items,
            None => {
                return None;
            },
        };
        if items.len() != n {
            return None;
        }
        Some(items)
    }
}

} // verus!
