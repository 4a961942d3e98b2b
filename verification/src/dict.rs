//! Pass dictionaries and the longest-prefix (maximal-munch) rewrite.
//!
//! A pass dictionary maps keys to substitutions.  Rewriting scans a token
//! left to right: at each position it replaces the longest key that is a
//! prefix of the rest, or, when no key matches there, copies the next
//! character through unchanged.  The rewrite is total: it never fails on any
//! input, and each step consumes at least one character.

use vstd::prelude::*;

use crate::table::pairs_to_map;
use crate::table::string_pairs_view;
use crate::trie_store;
use crate::trie_store::builder_entries;
use crate::trie_store::builder_text_keyed;
use crate::trie_store::trie_entries;
use crate::trie_store::trie_text_keyed;
use crate::trie_store::ByteTrie;

verus! {

/// The entries of one pass dictionary: key characters to substitution
/// characters.
pub type DictEntries = Map<Seq<char>, Seq<char>>;

/// Entries as the compiler produces them: no empty key, no empty value.
pub open spec fn entries_wf(e: DictEntries) -> bool {
    forall|k: Seq<char>| #[trigger] e.contains_key(k) ==> k.len() > 0 && e[k].len() > 0
}

/// Length of the longest key of `e`, of length at most `n`, that is a prefix
/// of `s`; `0` if no key of a positive length matches.
pub open spec fn match_len_upto(e: DictEntries, s: Seq<char>, n: int) -> int
    decreases n,
{
    if 1 <= n <= s.len() {
        if e.contains_key(s.take(n)) {
            n
        } else {
            match_len_upto(e, s, n - 1)
        }
    } else {
        0
    }
}

/// Length of the longest key of `e` that is a prefix of `s`; `0` if none.
pub open spec fn match_len(e: DictEntries, s: Seq<char>) -> int {
    match_len_upto(e, s, s.len() as int)
}

/// The longest-prefix rewrite of `s` under the entries `e`.
pub open spec fn rewrite(e: DictEntries, s: Seq<char>) -> Seq<char>
    decreases s.len(),
{
    if s.len() == 0 {
        Seq::empty()
    } else {
        let l = match_len(e, s);
        if 1 <= l <= s.len() {
            e[s.take(l)] + rewrite(e, s.skip(l))
        } else {
            s.take(1) + rewrite(e, s.skip(1))
        }
    }
}

/// What `match_len_upto` finds: a matching key of that length when positive,
/// and no longer matching key either way.
pub proof fn lemma_match_len_upto(e: DictEntries, s: Seq<char>, n: int)
    requires
        n <= s.len(),
    ensures
        0 <= match_len_upto(e, s, n) <= n || match_len_upto(e, s, n) == 0,
        match_len_upto(e, s, n) > 0 ==> match_len_upto(e, s, n) <= n && e.contains_key(
            s.take(match_len_upto(e, s, n)),
        ),
        forall|m: int|
            match_len_upto(e, s, n) < m <= n ==> !(#[trigger] e.contains_key(s.take(m))),
    decreases n,
{
    if 1 <= n <= s.len() {
        if !e.contains_key(s.take(n)) {
            lemma_match_len_upto(e, s, n - 1);
        }
    }
}

/// The length that `match_len` reports is the length of the longest matching
/// key: any key of `e` that is a prefix of `s` is no longer.
pub proof fn lemma_match_len_is_longest(e: DictEntries, s: Seq<char>, k: Seq<char>)
    requires
        e.contains_key(k),
        k.is_prefix_of(s),
        k.len() > 0,
    ensures
        k.len() <= match_len(e, s) <= s.len(),
        e.contains_key(s.take(match_len(e, s))),
{
    lemma_match_len_upto(e, s, s.len() as int);
    assert(s.take(k.len() as int) =~= k);
}

/// If no key of `e` with positive length is a prefix of `s`, nothing matches.
pub proof fn lemma_match_len_none(e: DictEntries, s: Seq<char>)
    requires
        forall|k: Seq<char>| #[trigger] e.contains_key(k) && k.len() > 0 ==> !k.is_prefix_of(s),
    ensures
        match_len(e, s) == 0,
{
    lemma_match_len_upto(e, s, s.len() as int);
    let l = match_len(e, s);
    if l > 0 {
        assert(e.contains_key(s.take(l)));
        assert(s.take(l).is_prefix_of(s)) by {
            assert(s.take(s.take(l).len() as int) =~= s.take(l));
        }
    }
}

/// Nothing matches on a prefix of a string on which nothing matches.
pub proof fn lemma_match_len_via_prefix(e: DictEntries, s: Seq<char>, t: Seq<char>)
    requires
        s.is_prefix_of(t),
        match_len(e, t) == 0,
    ensures
        match_len(e, s) == 0,
{
    lemma_match_len_upto(e, s, s.len() as int);
    let l = match_len(e, s);
    if l > 0 {
        assert(e.contains_key(s.take(l)));
        assert(s.take(l).is_prefix_of(t)) by {
            assert(t.take(l) =~= s.take(l));
            assert(t.take(s.take(l).len() as int) =~= s.take(l));
        }
        lemma_match_len_is_longest(e, t, s.take(l));
    }
}

/// Rewriting under empty entries is the identity.
pub proof fn lemma_rewrite_empty_identity(s: Seq<char>)
    ensures
        rewrite(Map::empty(), s) == s,
    decreases s.len(),
{
    let e = Map::<Seq<char>, Seq<char>>::empty();
    if s.len() == 0 {
        assert(rewrite(e, s) =~= s);
    } else {
        lemma_match_len_upto(e, s, s.len() as int);
        lemma_rewrite_empty_identity(s.skip(1));
        assert(rewrite(e, s) =~= s.take(1) + s.skip(1));
        assert(s.take(1) + s.skip(1) =~= s);
    }
}

/// More generally: if no key of the entries matches at any position of `s`,
/// the rewrite copies `s` through unchanged.
pub proof fn lemma_rewrite_no_match_identity(e: DictEntries, s: Seq<char>)
    requires
        forall|i: int| 0 <= i < s.len() ==> match_len(e, #[trigger] s.skip(i)) == 0,
    ensures
        rewrite(e, s) == s,
    decreases s.len(),
{
    if s.len() == 0 {
        assert(rewrite(e, s) =~= s);
    } else {
        assert(match_len(e, s.skip(0)) == 0);
        assert(s.skip(0) =~= s);
        assert(forall|i: int|
            0 <= i < s.skip(1).len() ==> #[trigger] s.skip(1).skip(i) =~= s.skip(i + 1));
        lemma_rewrite_no_match_identity(e, s.skip(1));
        assert(rewrite(e, s) =~= s.take(1) + s.skip(1));
        assert(s.take(1) + s.skip(1) =~= s);
    }
}

/// Longest-match priority: when a key of `e` matches the front of `s`, the
/// rewrite emits the substitution of the longest matching key -- never a
/// shorter key's substitution, never a copied-through character.
pub proof fn lemma_longest_match_priority(e: DictEntries, s: Seq<char>, k: Seq<char>)
    requires
        e.contains_key(k),
        k.is_prefix_of(s),
        k.len() > 0,
    ensures
        k.len() <= match_len(e, s) <= s.len(),
        e.contains_key(s.take(match_len(e, s))),
        rewrite(e, s) == e[s.take(match_len(e, s))] + rewrite(e, s.skip(match_len(e, s))),
{
    lemma_match_len_is_longest(e, s, k);
}

/// A rewrite of a non-empty token is non-empty when the entries are
/// well-formed: every step emits a non-empty substitution or one character.
pub proof fn lemma_rewrite_nonempty(e: DictEntries, s: Seq<char>)
    requires
        entries_wf(e),
        s.len() > 0,
    ensures
        rewrite(e, s).len() > 0,
{
    let l = match_len(e, s);
    lemma_match_len_upto(e, s, s.len() as int);
    if 1 <= l <= s.len() {
        assert(e[s.take(l)].len() > 0);
    }
}

/// How many characters the rewrite consumes at each step, in order: the
/// matched key's length, or one for a copy-through.
pub open spec fn rewrite_steps(e: DictEntries, s: Seq<char>) -> Seq<int>
    decreases s.len(),
{
    if s.len() == 0 {
        Seq::empty()
    } else {
        let l = match_len(e, s);
        if 1 <= l <= s.len() {
            seq![l] + rewrite_steps(e, s.skip(l))
        } else {
            seq![1int] + rewrite_steps(e, s.skip(1))
        }
    }
}

pub open spec fn sum_of(l: Seq<int>) -> int
    decreases l.len(),
{
    if l.len() == 0 {
        0
    } else {
        l.first() + sum_of(l.drop_first())
    }
}

/// Every character of the input is consumed by exactly one match or one
/// literal emission: the steps are positive and sum to the input's length.
pub proof fn lemma_rewrite_consumes_all(e: DictEntries, s: Seq<char>)
    ensures
        forall|i: int| 0 <= i < rewrite_steps(e, s).len() ==> rewrite_steps(e, s)[i] >= 1,
        sum_of(rewrite_steps(e, s)) == s.len(),
    decreases s.len(),
{
    if s.len() == 0 {
    } else {
        let l = match_len(e, s);
        let step: int = if 1 <= l <= s.len() {
            l
        } else {
            1
        };
        let rest = rewrite_steps(e, s.skip(step));
        lemma_rewrite_consumes_all(e, s.skip(step));
        assert(rewrite_steps(e, s) == seq![step] + rest);
        assert((seq![step] + rest).first() == step);
        assert((seq![step] + rest).drop_first() =~= rest);
        assert(forall|i: int|
            0 <= i < rest.len() ==> (seq![step] + rest)[i + 1] == #[trigger] rest[i]);
    }
}

/// One pass dictionary: a prefix trie over the UTF-8 bytes of its keys.
pub struct PassDict {
    trie: ByteTrie,
}

impl View for PassDict {
    type V = DictEntries;

    closed spec fn view(&self) -> DictEntries {
        trie_entries(self.trie)
    }
}

impl PassDict {
    /// The backing trie stores only UTF-8 byte keys, so the byte-level
    /// prefix search agrees with the character-level entries.
    pub closed spec fn wf(self) -> bool {
        trie_text_keyed(self.trie)
    }

    /// Build a pass dictionary from entry pairs, later pairs overwriting
    /// earlier ones with the same key: the only way a dictionary comes to
    /// be, whether assembled by the compiler or rebuilt from a loaded
    /// artifact, so every dictionary's trie holds exactly the keys pushed
    /// here, as UTF-8 text.
    pub fn from_pairs(pairs: &Vec<(String, String)>) -> (d: PassDict)
        requires
            forall|i: int|
                0 <= i < pairs@.len() ==> (#[trigger] string_pairs_view(pairs@)[i]).0.len() > 0,
        ensures
            d@ == pairs_to_map(string_pairs_view(pairs@)),
            d.wf(),
    {
        let ghost ps = string_pairs_view(pairs@);
        let mut b = trie_store::trie_builder_new();
        let n = pairs.len();
        proof {
            assert(ps.take(0) =~= Seq::empty());
            assert(pairs_to_map(ps.take(0)) =~= Map::empty());
            assert(builder_entries(b) =~= pairs_to_map(ps.take(0)));
        }
        let mut i: usize = 0;
        while i < n
            invariant
                ps == string_pairs_view(pairs@),
                forall|j: int| 0 <= j < ps.len() ==> (#[trigger] ps[j]).0.len() > 0,
                n == ps.len(),
                0 <= i <= n,
                builder_entries(b) == pairs_to_map(ps.take(i as int)),
                builder_text_keyed(b),
            decreases n - i,
        {
            let kv = &pairs[i];
            proof {
                assert(ps[i as int] == (kv.0@, kv.1@));
            }
            trie_store::trie_builder_push(&mut b, kv.0.as_str(), kv.1.as_str());
            proof {
                assert(ps.take(i as int + 1).drop_last() =~= ps.take(i as int));
                assert(ps.take(i as int + 1).last() == ps[i as int]);
            }
            i = i + 1;
        }
        proof {
            assert(ps.take(n as int) =~= ps);
        }
        PassDict { trie: trie_store::trie_build(b) }
    }

    /// Rewrite one token: scan left to right, at each position substitute the
    /// longest dictionary key that is a prefix of the rest, or copy the next
    /// character through.  Total over any input.
    pub fn rewrite_token(&self, token: &str) -> (out: String)
        requires
            self.wf(),
        ensures
            out@ == rewrite(self@, token@),
    {
        let ghost e = self@;
        let n = token.unicode_len();
        let mut out = String::new();
        let mut offset: usize = 0;
        proof {
            assert(token@.skip(0) =~= token@);
            assert(out@ + rewrite(e, token@) =~= rewrite(e, token@));
        }
        while offset < n
            invariant
                self.wf(),
                n == token@.len(),
                offset <= n,
                e == self@,
                out@ + rewrite(e, token@.skip(offset as int)) == rewrite(e, token@),
            decreases n - offset,
        {
            let ghost suffix = token@.skip(offset as int);
            let rest = token.substring_char(offset, n);
            proof {
                assert(rest@ =~= suffix);
            }
            let step: usize;
            match trie_store::trie_longest_prefix(&self.trie, rest) {
                Some(kv) => {
                    let klen = kv.0.as_str().unicode_len();
                    if klen > 0 {
                        proof {
                            lemma_match_len_is_longest(e, suffix, kv.0@);
                            assert(match_len(e, suffix) == kv.0@.len());
                            assert(suffix.take(klen as int) =~= kv.0@);
                        }
                        out.append(kv.1.as_str());
                        step = klen;
                    } else {
                        proof {
                            assert(forall|k2: Seq<char>|
                                #[trigger] e.contains_key(k2) && k2.len() > 0 ==> !k2.is_prefix_of(
                                    suffix,
                                ));
                            lemma_match_len_none(e, suffix);
                        }
                        let piece = token.substring_char(offset, offset + 1);
                        proof {
                            assert(piece@ =~= suffix.take(1));
                        }
                        out.append(piece);
                        step = 1;
                    }
                },
                None => {
                    proof {
                        lemma_match_len_none(e, suffix);
                    }
                    let piece = token.substring_char(offset, offset + 1);
                    proof {
                        assert(piece@ =~= suffix.take(1));
                    }
                    out.append(piece);
                    step = 1;
                },
            }
            proof {
                assert(suffix.skip(step as int) =~= token@.skip(offset as int + step as int));
                assert(out@ + rewrite(e, token@.skip(offset as int + step as int)) == rewrite(
                    e,
                    token@,
                ));
            }
            offset = offset + step;
        }
        proof {
            assert(token@.skip(n as int) =~= Seq::<char>::empty());
            assert(rewrite(e, Seq::<char>::empty()) =~= Seq::<char>::empty());
            assert(out@ =~= out@ + Seq::<char>::empty());
        }
        out
    }
}

} // verus!
