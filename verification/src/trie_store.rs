//! Trusted interface to the prefix-trie crate that backs a pass dictionary.
//!
//! A pass dictionary is a `trie_rs::map::Trie<u8, String>` over the UTF-8
//! bytes of its keys.  The trie is opaque here; `trie_entries` and
//! `builder_entries` name what a trie or a builder holds, as a map from the
//! key's characters to the substitution's characters.  A trie is
//! `trie_text_keyed` when every stored byte key is the UTF-8 encoding of a
//! character sequence; for such a trie a whole key is a byte prefix of a
//! query exactly when its characters are a character prefix of the query's
//! characters, and among such keys the byte order and the character order of
//! lengths agree, so the search contract below is stated over characters and
//! demands a text-keyed trie.  Every trie in this library is built from
//! strings through the builder below -- compiled artifacts carry entry
//! lists, never trie structure -- so text-keyedness holds by construction
//! (the builder contracts carry the matching `builder_text_keyed`).

use vstd::prelude::*;

verus! {

#[verifier::external_type_specification]
#[verifier::external_body]
#[verifier::reject_recursive_types(Label)]
#[verifier::reject_recursive_types(Value)]
pub struct ExTrie<Label, Value>(trie_rs::map::Trie<Label, Value>);

#[verifier::external_type_specification]
#[verifier::external_body]
#[verifier::reject_recursive_types(Label)]
#[verifier::reject_recursive_types(Value)]
pub struct ExTrieBuilder<Label, Value>(trie_rs::map::TrieBuilder<Label, Value>);

/// A pass dictionary's backing trie: keys are UTF-8 bytes, values the
/// substitution strings.
pub type ByteTrie = trie_rs::map::Trie<u8, String>;

/// A builder for [`ByteTrie`].
pub type ByteTrieBuilder = trie_rs::map::TrieBuilder<u8, String>;

/// The entries a built trie holds: each stored key (as characters) to its value.
pub uninterp spec fn trie_entries(t: trie_rs::map::Trie<u8, String>) -> Map<Seq<char>, Seq<char>>;

/// The entries a builder holds so far.
pub uninterp spec fn builder_entries(b: trie_rs::map::TrieBuilder<u8, String>) -> Map<
    Seq<char>,
    Seq<char>,
>;

/// Every byte key stored in the trie is valid UTF-8.
pub uninterp spec fn trie_text_keyed(t: trie_rs::map::Trie<u8, String>) -> bool;

/// Every byte key pushed into the builder so far is valid UTF-8.
pub uninterp spec fn builder_text_keyed(b: trie_rs::map::TrieBuilder<u8, String>) -> bool;

/// Relies on trie_rs::map::TrieBuilder::new: a fresh builder holds nothing.
#[verifier::external_body]
pub fn trie_builder_new() -> (b: ByteTrieBuilder)
    ensures
        builder_entries(b).is_empty(),
        builder_text_keyed(b),
{
    trie_rs::map::TrieBuilder::new()
}

/// Relies on trie_rs::map::TrieBuilder::push: walks the key's bytes and sets
/// the reached node's value, so a repeated key replaces the earlier value.
/// Its underlying trie panics on an empty key, which the precondition rules
/// out.
#[verifier::external_body]
pub fn trie_builder_push(b: &mut ByteTrieBuilder, key: &str, value: &str)
    requires
        key@.len() > 0,
    ensures
        builder_entries(*final(b)) == builder_entries(*old(b)).insert(key@, value@),
        builder_text_keyed(*old(b)) ==> builder_text_keyed(*final(b)),
{
    b.push(key.as_bytes(), value.to_owned());
}

/// Relies on trie_rs::map::TrieBuilder::build: the built trie stores exactly
/// the pushed entries, under the byte keys they were pushed with.
#[verifier::external_body]
pub fn trie_build(b: ByteTrieBuilder) -> (t: ByteTrie)
    ensures
        trie_entries(t) == builder_entries(b),
        builder_text_keyed(b) ==> trie_text_keyed(t),
{
    b.build()
}

/// Relies on trie_rs::map::Trie::common_prefix_search: it yields every stored
/// key that is a prefix of the query together with its value, shortest first,
/// so the last hit is the longest stored prefix of the query.  The trie must
/// be text-keyed: only then does the byte-level search agree with the
/// character-level contract.
#[verifier::external_body]
pub fn trie_longest_prefix(t: &ByteTrie, q: &str) -> (r: Option<(String, String)>)
    requires
        trie_text_keyed(*t),
    ensures
        match r {
            Some(kv) => trie_entries(*t).contains_key(kv.0@) && trie_entries(*t)[kv.0@] == kv.1@
                && kv.0@.is_prefix_of(q@) && forall|k2: Seq<char>|
                #[trigger] trie_entries(*t).contains_key(k2) && k2.is_prefix_of(q@)
                    ==> k2.len() <= kv.0@.len(),
            None => forall|k2: Seq<char>| #[trigger]
                trie_entries(*t).contains_key(k2) ==> !k2.is_prefix_of(q@),
        },
{
    let hit: Option<(Vec<u8>, &String)> = t.common_prefix_search(q).last();
    hit.map(|kv: (Vec<u8>, &String)| (String::from_utf8_lossy(&kv.0).into_owned(), kv.1.clone()))
}

} // verus!
