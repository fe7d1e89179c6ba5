//! The query string behind the `#` of an address, as a list of pairs of a key
//! and a value.

use vstd::prelude::*;
use vstd::std_specs::iter::IteratorSpec;

verus! {

broadcast use vstd::string::group_string_axioms;

/// The pairs that `url::form_urlencoded::parse` yields for a text, in the
/// order of the text: the pieces between `&`, the empty ones left out, each
/// cut at its first `=`, with `+` read as a space, percent escapes resolved
/// and the bytes read as UTF-8, the replacement character standing for what
/// is none. The decoding is the `url` crate's and is not written out here.
pub uninterp spec fn form_pairs(input: Seq<char>) -> Seq<(Seq<char>, Seq<char>)>;

/// Calls `url::form_urlencoded::parse` on the bytes of `input` and collects
/// the owned pairs in the order in which the parser yields them. Assumed, not
/// proved: the result is what `form_pairs` names, and an empty text holds no
/// pair (the parser's first test).
#[verifier::external_body]
fn parse_pairs(input: &str) -> (pairs: Vec<(String, String)>)
    ensures
        pairs.deep_view() == form_pairs(input@),
        input@.len() == 0 ==> pairs@.len() == 0,
{
    url::form_urlencoded::parse(input.as_bytes()).into_owned().collect()
}

/// The number of `#` characters that `s` begins with.
pub open spec fn leading_hashes(s: Seq<char>) -> nat
    decreases s.len(),
{
    if s.len() > 0 && s[0] == '#' {
        1 + leading_hashes(s.drop_first())
    } else {
        0
    }
}

/// The text without the `#` characters that it begins with.
pub open spec fn without_leading_hashes(s: Seq<char>) -> Seq<char> {
    s.subrange(leading_hashes(s) as int, s.len() as int)
}

/// A run of `#` from the front that ends at the end of the text, or before
/// another character, is the whole leading run.
pub proof fn lemma_leading_hashes_is(s: Seq<char>, n: nat)
    requires
        n <= s.len(),
        forall|i: int| 0 <= i < n ==> s[i] == '#',
        n < s.len() ==> s[n as int] != '#',
    ensures
        leading_hashes(s) == n,
    decreases s.len(),
{
    if n > 0 {
        let rest = s.drop_first();
        assert forall|i: int| 0 <= i < n - 1 implies rest[i] == '#' by {
            assert(rest[i] == s[i + 1]);
        }
        lemma_leading_hashes_is(rest, (n - 1) as nat);
    }
}

/// Cuts every leading `#` off `s`.
pub fn trim_hashes(s: &str) -> (t: &str)
    ensures
        t@ == without_leading_hashes(s@),
{
    let total = s.unicode_len();
    let mut it = s.chars();
    let mut n: usize = 0;
    loop
        invariant_except_break
            n <= total == s@.len(),
            it.remaining() == s@.subrange(n as int, s@.len() as int),
            forall|i: int| 0 <= i < n ==> s@[i] == '#',
        ensures
            n <= total == s@.len(),
            forall|i: int| 0 <= i < n ==> s@[i] == '#',
            n < s@.len() ==> s@[n as int] != '#',
        decreases total - n,
    {
        match it.next() {
            Some(c) => {
                if c != '#' {
                    break ;
                }
                proof {
                    assert(s@.subrange(n as int, s@.len() as int).drop_first() =~= s@.subrange(
                        n + 1,
                        s@.len() as int,
                    ));
                }
                n = n + 1;
            },
            None => {
                break ;
            },
        }
    }
    proof {
        lemma_leading_hashes_is(s@, n as nat);
    }
    s.substring_char(n, total)
}

/// The pairs written in the text after the `#` characters that it begins with.
pub fn pairs_of(hash: &str) -> (pairs: Vec<(String, String)>)
    ensures
        pairs.deep_view() == form_pairs(without_leading_hashes(hash@)),
        without_leading_hashes(hash@).len() == 0 ==> pairs@.len() == 0,
{
    parse_pairs(trim_hashes(hash))
}

/// The mapping that a list of pairs stands for: a later pair replaces an
/// earlier one with the same key.
pub open spec fn as_map(pairs: Seq<(Seq<char>, Seq<char>)>) -> Map<Seq<char>, Seq<char>>
    decreases pairs.len(),
{
    if pairs.len() == 0 {
        Map::empty()
    } else {
        as_map(pairs.drop_last()).insert(pairs.last().0, pairs.last().1)
    }
}

/// The value under `key`, or the empty text where the key has none.
pub open spec fn value_of(pairs: Seq<(Seq<char>, Seq<char>)>, key: Seq<char>) -> Seq<char> {
    if as_map(pairs).contains_key(key) {
        as_map(pairs)[key]
    } else {
        Seq::empty()
    }
}

/// A key that no pair from `from` on carries has the value that the pairs
/// before `from` give it.
proof fn lemma_value_of_prefix(pairs: Seq<(Seq<char>, Seq<char>)>, key: Seq<char>, from: int)
    requires
        0 <= from <= pairs.len(),
        forall|j: int| from <= j < pairs.len() ==> pairs[j].0 != key,
    ensures
        value_of(pairs, key) == value_of(pairs.subrange(0, from), key),
    decreases pairs.len() - from,
{
    if from == pairs.len() {
        assert(pairs.subrange(0, from) =~= pairs);
    } else {
        let shorter = pairs.drop_last();
        assert(shorter.subrange(0, from) =~= pairs.subrange(0, from));
        lemma_value_of_prefix(shorter, key, from);
    }
}

/// The value that the pairs give `key`: that of the last pair with this key,
/// the empty text where there is none.
pub fn lookup<'a>(pairs: &'a Vec<(String, String)>, key: &str) -> (value: &'a str)
    ensures
        value@ == value_of(pairs.deep_view(), key@),
{
    let wanted = key.to_owned();
    let ghost model = pairs.deep_view();
    let mut i: usize = pairs.len();
    while i > 0
        invariant
            i <= pairs.len(),
            model == pairs.deep_view(),
            model.len() == pairs@.len(),
            wanted@ == key@,
            forall|j: int| i <= j < pairs@.len() ==> model[j].0 != key@,
        decreases i,
    {
        i = i - 1;
        assert(model[i as int] == pairs@[i as int].deep_view());
        if pairs[i].0 == wanted {
            proof {
                lemma_value_of_prefix(model, key@, i + 1);
                let upto = model.subrange(0, i + 1);
                assert(upto.last() == model[i as int]);
            }
            return pairs[i].1.as_str();
        }
    }
    proof {
        lemma_value_of_prefix(model, key@, 0);
        assert(model.subrange(0, 0) =~= Seq::<(Seq<char>, Seq<char>)>::empty());
        reveal_strlit("");
    }
    ""
}

} // verus!
