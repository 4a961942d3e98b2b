//! The dictionary registry: the read side of the compiled artifacts.
//!
//! A registry is built once, at startup, from the compiled artifacts; a
//! decompression or deserialization failure, or an artifact holding an
//! empty key or value, is fatal and surfaced here, not per call.  Each pass
//! dictionary's prefix trie is rebuilt from its decoded entry list, so no
//! artifact byte is ever trusted as trie structure.  After construction the
//! registry is immutable: it holds the eight pass dictionaries and the
//! segmenter, its vocabulary already extended with every compiled long key.

use vstd::prelude::*;

use crate::codec;
use crate::compile::decoded_key_list;
use crate::compile::decoded_pass_entries;
use crate::compile::Artifacts;
use crate::dict::entries_wf;
use crate::dict::DictEntries;
use crate::dict::PassDict;
use crate::errors::LoadError;
use crate::table::lemma_pairs_entries_wf;
use crate::table::pairs_wf;
use crate::table::string_pairs_view;
use crate::script::pass_index;
use crate::script::spec_pass_index;
use crate::script::PassId;
use crate::segmenter;
use crate::segmenter::segmenter_tokens;
use crate::segmenter::segmenter_vocab;
use crate::seq_util::concat_all;

verus! {

/// What a loaded registry guarantees against its artifacts: each pass
/// dictionary holds the entries its artifact decodes to, and every non-empty
/// decoded key is in the segmenter's vocabulary.
pub open spec fn loaded_from(reg: Registry, a: Artifacts) -> bool {
    reg.wf() && (forall|id: PassId| #[trigger]
        reg.pass_entries(id) == decoded_pass_entries(a.passes@[spec_pass_index(id)]@).unwrap())
        && (forall|k: Seq<char>|
        decoded_key_list(a.keys@).unwrap().contains(k) && k.len() > 0 ==> reg.vocab().contains(k))
}

/// Every artifact decompresses and deserializes.
pub open spec fn loadable(a: Artifacts) -> bool {
    a.wf() && (forall|q: int|
        0 <= q < 8 ==> (#[trigger] decoded_pass_entries(a.passes@[q]@)) is Some)
        && decoded_key_list(a.keys@) is Some
}

/// The loaded pass dictionaries and the vocabulary-extended segmenter.
pub struct Registry {
    dicts: Vec<PassDict>,
    segmenter: jieba_rs::Jieba,
}

impl Registry {
    /// Eight dictionaries, each over a text-keyed trie whose entries hold no
    /// empty key and no empty value -- the loader accepts nothing less.
    pub closed spec fn wf(self) -> bool {
        self.dicts@.len() == 8 && forall|i: int|
            0 <= i < 8 ==> (#[trigger] self.dicts@[i]).wf() && entries_wf(self.dicts@[i]@)
    }

    /// The entries of one pass dictionary.
    pub closed spec fn pass_entries(self, id: PassId) -> DictEntries {
        self.dicts@[spec_pass_index(id)]@
    }

    /// The tokens the registry's segmenter produces for a text.
    pub closed spec fn spec_tokens(self, text: Seq<char>) -> Seq<Seq<char>> {
        segmenter_tokens(self.segmenter, text)
    }

    /// The segmenter's vocabulary.
    pub closed spec fn vocab(self) -> Set<Seq<char>> {
        segmenter_vocab(self.segmenter)
    }

    /// Load a registry from compiled artifacts: decompress and deserialize
    /// each pass's entry list, reject any list holding an empty key or
    /// value, and rebuild the pass dictionary through the verified trie
    /// builder.  Fails exactly when some artifact does not decode.
    pub fn new(a: &Artifacts) -> (r: Result<Registry, LoadError>)
        ensures
            r is Ok <==> loadable(*a),
            r matches Ok(reg) ==> loaded_from(reg, *a),
    {
        if a.passes.len() != 8 {
            return Err(LoadError::BadArtifact);
        }
        let mut dicts: Vec<PassDict> = Vec::new();
        let mut q: usize = 0;
        while q < 8
            invariant
                a.passes@.len() == 8,
                0 <= q <= 8,
                dicts@.len() == q,
                forall|j: int|
                    0 <= j < q ==> (#[trigger] decoded_pass_entries(a.passes@[j]@)) is Some
                        && dicts@[j]@ == decoded_pass_entries(a.passes@[j]@).unwrap()
                        && dicts@[j].wf() && entries_wf(dicts@[j]@),
            decreases 8 - q,
        {
            match codec::decompress_bytes(a.passes[q].as_slice()) {
                None => {
                    proof {
                        assert(decoded_pass_entries(a.passes@[q as int]@) is None);
                    }
                    return Err(LoadError::BadArtifact);
                },
                Some(sb) => {
                    match codec::decode_pairs(sb.as_slice()) {
                        None => {
                            proof {
                                assert(decoded_pass_entries(a.passes@[q as int]@) is None);
                            }
                            return Err(LoadError::BadArtifact);
                        },
                        Some(pairs) => {
                            if !pairs_nonempty(&pairs) {
                                proof {
                                    assert(decoded_pass_entries(a.passes@[q as int]@) is None);
                                }
                                return Err(LoadError::BadArtifact);
                            }
                            proof {
                                lemma_pairs_entries_wf(string_pairs_view(pairs@));
                            }
                            dicts.push(PassDict::from_pairs(&pairs));
                        },
                    }
                },
            }
            q = q + 1;
        }
        match codec::decompress_bytes(a.keys.as_slice()) {
            None => Err(LoadError::BadArtifact),
            Some(kb) => {
                match codec::decode_keys(kb.as_slice()) {
                    None => Err(LoadError::BadArtifact),
                    Some(words) => {
                        let ghost wv = words.deep_view();
                        let mut seg = segmenter::segmenter_new();
                        let n = words.len();
                        let mut i: usize = 0;
                        while i < n
                            invariant
                                wv == words.deep_view(),
                                n == words@.len(),
                                0 <= i <= n,
                                forall|j: int|
                                    0 <= j < i && (#[trigger] wv[j]).len() > 0
                                        ==> segmenter_vocab(seg).contains(wv[j]),
                            decreases n - i,
                        {
                            if !words[i].as_str().is_empty() {
                                segmenter::segmenter_add_word(&mut seg, words[i].as_str());
                            }
                            i = i + 1;
                        }
                        let reg = Registry { dicts, segmenter: seg };
                        proof {
                            assert forall|i: int|
                                0 <= i < 8 implies (#[trigger] reg.dicts@[i]).wf() && entries_wf(
                                reg.dicts@[i]@,
                            ) by {
                                assert(decoded_pass_entries(a.passes@[i]@) is Some);
                            }
                            assert(reg.wf());
                            assert forall|k: Seq<char>|
                                decoded_key_list(a.keys@).unwrap().contains(k) && k.len()
                                    > 0 implies reg.vocab().contains(k) by {
                                let j = choose|j: int| 0 <= j < wv.len() && wv[j] == k;
                                assert(segmenter_vocab(seg).contains(wv[j]));
                            }
                            assert forall|id: PassId| #[trigger]
                                reg.pass_entries(id) == decoded_pass_entries(
                                    a.passes@[spec_pass_index(id)]@,
                                ).unwrap() by {
                                assert(0 <= spec_pass_index(id) < 8);
                            }
                        }
                        Ok(reg)
                    },
                }
            },
        }
    }

    /// Borrow one pass dictionary.
    ///
    /// (See the free functions below for what loading compiled artifacts
    /// guarantees end to end.)
    pub fn dict(&self, id: PassId) -> (d: &PassDict)
        requires
            self.wf(),
        ensures
            d@ == self.pass_entries(id),
            d.wf(),
    {
        &self.dicts[pass_index(id)]
    }

    /// Tokenize a text with the registry's segmenter.
    pub fn cut(&self, text: &str) -> (tokens: Vec<String>)
        ensures
            tokens.deep_view() == self.spec_tokens(text@),
            concat_all(tokens.deep_view()) == text@,
    {
        segmenter::segmenter_cut(&self.segmenter, text)
    }
}

/// Does every pair hold a non-empty key and a non-empty value?
fn pairs_nonempty(pairs: &Vec<(String, String)>) -> (r: bool)
    ensures
        r == pairs_wf(string_pairs_view(pairs@)),
{
    let ghost ps = string_pairs_view(pairs@);
    let n = pairs.len();
    let mut i: usize = 0;
    while i < n
        invariant
            ps == string_pairs_view(pairs@),
            n == ps.len(),
            0 <= i <= n,
            forall|j: int| 0 <= j < i ==> (#[trigger] ps[j]).0.len() > 0 && ps[j].1.len() > 0,
        decreases n - i,
    {
        if pairs[i].0.as_str().is_empty() || pairs[i].1.as_str().is_empty() {
            proof {
                assert(ps[i as int] == (pairs@[i as int].0@, pairs@[i as int].1@));
            }
            return false;
        }
        proof {
            assert(ps[i as int] == (pairs@[i as int].0@, pairs@[i as int].1@));
        }
        i = i + 1;
    }
    true
}

/// A valid registry's pass entries are well-formed -- no empty key, no
/// empty value -- because the loader accepts nothing else.
pub proof fn lemma_wf_entries_wf(reg: Registry, id: PassId)
    requires
        reg.wf(),
    ensures
        entries_wf(reg.pass_entries(id)),
{
    assert(0 <= spec_pass_index(id) < 8);
    assert((reg.dicts@[spec_pass_index(id)]).wf() && entries_wf(reg.dicts@[spec_pass_index(id)]@));
}

/// Compiled artifacts always load: what the compiler emitted decompresses
/// and deserializes by construction.
pub proof fn lemma_compiled_artifacts_load(srcs: Seq<(Seq<char>, Seq<Seq<char>>)>, a: Artifacts)
    requires
        crate::compile::compiled_ok(srcs, a),
    ensures
        loadable(a),
{
}

/// End to end: a registry loaded from compiled artifacts holds, for every
/// pass, a well-formed entries map assembled from the sources as declared;
/// a pass with no constituent tables is empty; and the vocabulary holds the
/// whole compiled key set.
pub proof fn lemma_compile_load_end_to_end(
    srcs: Seq<(Seq<char>, Seq<Seq<char>>)>,
    a: Artifacts,
    reg: Registry,
    id: PassId,
)
    requires
        crate::compile::compiled_ok(srcs, a),
        loaded_from(reg, a),
    ensures
        crate::compile::pass_map_ok(srcs, id, reg.pass_entries(id)),
        crate::dict::entries_wf(reg.pass_entries(id)),
        crate::compile::pass_tables(id).len() == 0 ==> reg.pass_entries(id).is_empty(),
        forall|k: Seq<char>|
            crate::compile::keyset_spec(srcs).contains(k) ==> reg.vocab().contains(k),
{
    crate::compile::lemma_pass_order(id);
    let q = spec_pass_index(id);
    assert(decoded_pass_entries(a.passes@[q]@) matches Some(m) && crate::compile::pass_map_ok(
        srcs,
        crate::compile::pass_order()[q],
        m,
    ) && crate::dict::entries_wf(m));
    if crate::compile::pass_tables(id).len() == 0 {
        let ms = choose|ms: Seq<Map<Seq<char>, Seq<char>>>|
            ms.len() == crate::compile::pass_tables(id).len() && (forall|i: int|
                0 <= i < ms.len() ==> crate::compile::constituent_ok(
                    srcs,
                    crate::compile::pass_tables(id)[i],
                    #[trigger] ms[i],
                )) && reg.pass_entries(id) == crate::compile::merged_maps(ms);
        assert(reg.pass_entries(id) =~= Map::empty());
    }
    assert forall|k: Seq<char>|
        crate::compile::keyset_spec(srcs).contains(k) implies reg.vocab().contains(k) by {
        crate::compile::lemma_keyset_long(srcs, k);
        let ks = decoded_key_list(a.keys@).unwrap();
        assert(ks.to_set().contains(k));
    }
}

} // verus!
