//! Trusted interface to the external word segmenter.
//!
//! The segmenter is a black box: given text, it returns an ordered sequence
//! of substrings that covers the input.  Its vocabulary can be extended so
//! that multi-character dictionary keys are not fragmented across token
//! boundaries.  Segmentation is a pure function of the segmenter value and
//! the text, which `segmenter_tokens` names; nothing further is assumed of
//! how the text is split.

use vstd::prelude::*;

use crate::seq_util::concat_all;

verus! {

#[verifier::external_type_specification]
#[verifier::external_body]
pub struct ExJieba(jieba_rs::Jieba);

/// The words in the segmenter's vocabulary.
pub uninterp spec fn segmenter_vocab(j: jieba_rs::Jieba) -> Set<Seq<char>>;

/// The tokens the segmenter produces for the given text.
pub uninterp spec fn segmenter_tokens(j: jieba_rs::Jieba, text: Seq<char>) -> Seq<Seq<char>>;

/// Relies on jieba_rs::Jieba::new, which loads the bundled default
/// dictionary.  Nothing is assumed about the resulting vocabulary.
#[verifier::external_body]
pub fn segmenter_new() -> (j: jieba_rs::Jieba) {
    jieba_rs::Jieba::new()
}

/// Relies on jieba_rs::Jieba::add_word: the word joins the vocabulary (with a
/// suggested frequency).  It returns early on an empty word, which the
/// precondition rules out.
#[verifier::external_body]
pub fn segmenter_add_word(j: &mut jieba_rs::Jieba, word: &str)
    requires
        word@.len() > 0,
    ensures
        segmenter_vocab(*final(j)) == segmenter_vocab(*old(j)).insert(word@),
{
    j.add_word(word, None, None);
}

/// Relies on jieba_rs::Jieba::cut: it splits the text into tokens that cover
/// the input in order, deterministically for a given segmenter value.
#[verifier::external_body]
pub fn segmenter_cut(j: &jieba_rs::Jieba, text: &str) -> (r: Vec<String>)
    ensures
        r.deep_view() == segmenter_tokens(*j, text@),
        concat_all(r.deep_view()) == text@,
{
    j.cut(text, true).iter().map(|t: &jieba_rs::Token<'_>| t.word.to_owned()).collect()
}

} // verus!
