//! The conversion pipeline.
//!
//! A conversion tokenizes the input with the registry's segmenter, resolves
//! the two-pass route for the source and destination variants, and rewrites
//! every token with each pass in order.  Tokens are independent: the output
//! is the per-token results in input order, and their concatenation is the
//! converted text.

use vstd::prelude::*;

use crate::dict::entries_wf;
use crate::dict::match_len;
use crate::dict::rewrite;
use crate::dict::DictEntries;
use crate::dict::lemma_match_len_via_prefix;
use crate::dict::lemma_rewrite_empty_identity;
use crate::dict::lemma_rewrite_no_match_identity;
use crate::dict::lemma_rewrite_nonempty;
use crate::registry::Registry;
use crate::script::resolve;
use crate::script::spec_from_standard_pass;
use crate::script::spec_to_standard_pass;
use crate::script::PassId;
use crate::script::Script;
use crate::seq_util::concat_all;
use crate::seq_util::lemma_concat_elem_suffix;
use crate::seq_util::lemma_concat_all_nonempty;
use crate::seq_util::lemma_concat_all_nonempty_inv;
use crate::seq_util::lemma_concat_all_push;

verus! {

/// One token rewritten by a chain of passes, in order.
pub open spec fn rewrite_chain(ms: Seq<DictEntries>, s: Seq<char>) -> Seq<char>
    decreases ms.len(),
{
    if ms.len() == 0 {
        s
    } else {
        rewrite_chain(ms.drop_first(), rewrite(ms.first(), s))
    }
}

/// One token under the two passes of a route.
pub open spec fn convert_token_spec(e1: DictEntries, e2: DictEntries, t: Seq<char>) -> Seq<char> {
    rewrite(e2, rewrite(e1, t))
}

/// What a conversion returns: each token of the input, rewritten by the
/// pass to the standard form and then the pass from it.
pub open spec fn convert_spec(reg: Registry, from: Script, to: Script, text: Seq<char>) -> Seq<
    Seq<char>,
> {
    reg.spec_tokens(text).map_values(
        |t: Seq<char>|
            convert_token_spec(
                reg.pass_entries(spec_to_standard_pass(from)),
                reg.pass_entries(spec_from_standard_pass(to)),
                t,
            ),
    )
}

/// Rewrite one word with the given passes, in order.
pub fn convert_word(reg: &Registry, passes: &Vec<PassId>, input: &str) -> (r: String)
    requires
        reg.wf(),
    ensures
        r@ == rewrite_chain(passes@.map_values(|id: PassId| reg.pass_entries(id)), input@),
{
    let ghost ems = passes@.map_values(|id: PassId| reg.pass_entries(id));
    let mut word: String = input.to_owned();
    let n = passes.len();
    proof {
        assert(ems.skip(0) =~= ems);
    }
    let mut i: usize = 0;
    while i < n
        invariant
            reg.wf(),
            ems == passes@.map_values(|id: PassId| reg.pass_entries(id)),
            n == passes@.len(),
            0 <= i <= n,
            rewrite_chain(ems.skip(i as int), word@) == rewrite_chain(ems, input@),
        decreases n - i,
    {
        let ghost w0 = word@;
        word = reg.dict(passes[i]).rewrite_token(word.as_str());
        proof {
            assert(ems.skip(i as int).first() == ems[i as int]);
            assert(ems[i as int] == reg.pass_entries(passes@[i as int]));
            assert(ems.skip(i as int).drop_first() =~= ems.skip(i as int + 1));
            assert(rewrite_chain(ems.skip(i as int), w0) == rewrite_chain(
                ems.skip(i as int + 1),
                rewrite(ems[i as int], w0),
            ));
        }
        i = i + 1;
    }
    proof {
        assert(ems.skip(n as int) =~= Seq::<DictEntries>::empty());
    }
    word
}

/// Convert a text from one variant to another: the tokens of the input,
/// each rewritten through the standard intermediate form.
pub fn convert(reg: &Registry, from: Script, to: Script, input: &str) -> (r: Vec<String>)
    requires
        reg.wf(),
    ensures
        r.deep_view() == convert_spec(*reg, from, to, input@),
        concat_all(reg.spec_tokens(input@)) == input@,
{
    let ghost expected = convert_spec(*reg, from, to, input@);
    let route = resolve(from, to);
    let passes: Vec<PassId> = vec![route.0, route.1];
    let tokens = reg.cut(input);
    let ghost ts = tokens.deep_view();
    let mut out: Vec<String> = Vec::new();
    let n = tokens.len();
    proof {
        assert(out.deep_view() =~= expected.take(0));
    }
    let mut i: usize = 0;
    while i < n
        invariant
            reg.wf(),
            passes@ == seq![spec_to_standard_pass(from), spec_from_standard_pass(to)],
            ts == tokens.deep_view(),
            expected == convert_spec(*reg, from, to, input@),
            expected == ts.map_values(
                |t: Seq<char>|
                    convert_token_spec(
                        reg.pass_entries(spec_to_standard_pass(from)),
                        reg.pass_entries(spec_from_standard_pass(to)),
                        t,
                    ),
            ),
            n == tokens@.len(),
            ts.len() == n,
            0 <= i <= n,
            out.deep_view() == expected.take(i as int),
        decreases n - i,
    {
        let w = convert_word(reg, &passes, tokens[i].as_str());
        proof {
            let e1 = reg.pass_entries(spec_to_standard_pass(from));
            let e2 = reg.pass_entries(spec_from_standard_pass(to));
            let ems = passes@.map_values(|id: PassId| reg.pass_entries(id));
            assert(ems =~= seq![e1, e2]);
            assert(ems.len() == 2 && ems.first() == e1);
            assert(ems.drop_first() =~= seq![e2]);
            assert(ems.drop_first().len() == 1 && ems.drop_first().first() == e2);
            assert(ems.drop_first().drop_first() =~= Seq::<DictEntries>::empty());
            assert(tokens@[i as int]@ == ts[i as int]);
            let t = ts[i as int];
            assert(rewrite_chain(ems, t) == rewrite_chain(ems.drop_first(), rewrite(e1, t)));
            assert(rewrite_chain(ems.drop_first(), rewrite(e1, t)) == rewrite_chain(
                ems.drop_first().drop_first(),
                rewrite(e2, rewrite(e1, t)),
            ));
            assert(w@ == convert_token_spec(e1, e2, ts[i as int]));
        }
        let ghost out0 = out.deep_view();
        out.push(w);
        proof {
            assert(out.deep_view() =~= out0.push(w@));
            assert(expected.take(i as int + 1) =~= expected.take(i as int).push(
                expected[i as int],
            ));
        }
        i = i + 1;
    }
    proof {
        assert(expected.take(n as int) =~= expected);
    }
    out
}

/// Concatenate converted tokens into one output text.
pub fn join_all(parts: &Vec<String>) -> (r: String)
    ensures
        r@ == concat_all(parts.deep_view()),
{
    let ghost dv = parts.deep_view();
    let mut r = String::new();
    let n = parts.len();
    proof {
        assert(dv.take(0) =~= Seq::empty());
        assert(r@ =~= concat_all(dv.take(0)));
    }
    let mut i: usize = 0;
    while i < n
        invariant
            dv == parts.deep_view(),
            n == parts@.len(),
            dv.len() == n,
            0 <= i <= n,
            r@ == concat_all(dv.take(i as int)),
        decreases n - i,
    {
        r.append(parts[i].as_str());
        proof {
            assert(dv.take(i as int + 1) =~= dv.take(i as int).push(dv[i as int]));
            lemma_concat_all_push(dv.take(i as int), dv[i as int]);
            assert(parts@[i as int]@ == dv[i as int]);
        }
        i = i + 1;
    }
    proof {
        assert(dv.take(n as int) =~= dv);
    }
    r
}

/// An error for the embeddable surface, carrying its message.
#[derive(Debug)]
pub struct JSError {
    pub val: String,
}

/// The variant a short code names on the embeddable surface.
pub open spec fn parse_script(s: Seq<char>) -> Option<Script> {
    if s == "cn"@ {
        Some(Script::CN)
    } else if s == "tw"@ {
        Some(Script::TW)
    } else if s == "hk"@ {
        Some(Script::HK)
    } else {
        None
    }
}

fn script_of(code: &str) -> (r: Option<Script>)
    ensures
        r == parse_script(code@),
{
    let c: String = code.to_owned();
    if c == String::from_str("cn") {
        Some(Script::CN)
    } else if c == String::from_str("tw") {
        Some(Script::TW)
    } else if c == String::from_str("hk") {
        Some(Script::HK)
    } else {
        None
    }
}

/// Convert between variants named by short codes, returning the joined
/// output text; an unknown code is rejected with a message.
pub fn convert_export(reg: &Registry, from: &str, to: &str, input: &str) -> (r: Result<
    String,
    JSError,
>)
    requires
        reg.wf(),
    ensures
        r is Ok <==> parse_script(from@) is Some && parse_script(to@) is Some,
        r matches Ok(s) ==> s@ == concat_all(
            convert_spec(
                *reg,
                parse_script(from@).unwrap(),
                parse_script(to@).unwrap(),
                input@,
            ),
        ),
        r matches Err(e) ==> if parse_script(from@) is None {
            e.val@ == "invalid from script "@ + from@
        } else {
            e.val@ == "invalid to script "@ + to@
        },
{
    let from_script = match script_of(from) {
        Some(s) => s,
        None => {
            let mut m = String::from_str("invalid from script ");
            m.append(from);
            return Err(JSError { val: m });
        },
    };
    let to_script = match script_of(to) {
        Some(s) => s,
        None => {
            let mut m = String::from_str("invalid to script ");
            m.append(to);
            return Err(JSError { val: m });
        },
    };
    let parts = convert(reg, from_script, to_script, input);
    Ok(join_all(&parts))
}

/// Identity passes compose to a no-op: when both passes of the route hold
/// no entries -- as on the route from the standard form to itself -- every
/// token is copied through unchanged, so the converted tokens concatenate
/// back to the tokenized text.
pub proof fn lemma_identity_route_no_op(reg: Registry, from: Script, to: Script, text: Seq<char>)
    requires
        reg.pass_entries(spec_to_standard_pass(from)).is_empty(),
        reg.pass_entries(spec_from_standard_pass(to)).is_empty(),
    ensures
        concat_all(convert_spec(reg, from, to, text)) == concat_all(reg.spec_tokens(text)),
{
    let e1 = reg.pass_entries(spec_to_standard_pass(from));
    let e2 = reg.pass_entries(spec_from_standard_pass(to));
    let ts = reg.spec_tokens(text);
    let mapped = convert_spec(reg, from, to, text);
    assert(e1 =~= Map::empty());
    assert(e2 =~= Map::empty());
    assert forall|i: int| 0 <= i < ts.len() implies #[trigger] mapped[i] == ts[i] by {
        lemma_rewrite_empty_identity(ts[i]);
        lemma_rewrite_empty_identity(rewrite(e1, ts[i]));
    }
    assert(mapped =~= ts);
}

/// Identity on unmatchable text: when no key of either route pass matches
/// at any position of the text, conversion returns the text unchanged --
/// whatever tokens the segmenter produced, since every suffix of a token
/// lies at the front of some suffix of the text.  (On the route from the
/// standard form to itself both passes are empty, so nothing is matchable
/// and this holds of every text.)
pub proof fn lemma_unmatched_text_no_op(reg: Registry, from: Script, to: Script, text: Seq<char>)
    requires
        concat_all(reg.spec_tokens(text)) == text,
        forall|i: int|
            0 <= i < text.len() ==> match_len(
                reg.pass_entries(spec_to_standard_pass(from)),
                #[trigger] text.skip(i),
            ) == 0,
        forall|i: int|
            0 <= i < text.len() ==> match_len(
                reg.pass_entries(spec_from_standard_pass(to)),
                #[trigger] text.skip(i),
            ) == 0,
    ensures
        concat_all(convert_spec(reg, from, to, text)) == text,
{
    let e1 = reg.pass_entries(spec_to_standard_pass(from));
    let e2 = reg.pass_entries(spec_from_standard_pass(to));
    let ts = reg.spec_tokens(text);
    let mapped = convert_spec(reg, from, to, text);
    assert forall|j: int| 0 <= j < ts.len() implies #[trigger] mapped[j] == ts[j] by {
        assert forall|p: int|
            0 <= p < ts[j].len() implies match_len(e1, #[trigger] ts[j].skip(p)) == 0 && match_len(
            e2,
            ts[j].skip(p),
        ) == 0 by {
            let q = lemma_concat_elem_suffix(ts, j, p);
            assert(ts[j].skip(p).len() > 0);
            assert(q < text.len()) by {
                if q == text.len() {
                    assert(text.skip(q) =~= Seq::<char>::empty());
                }
            }
            lemma_match_len_via_prefix(e1, ts[j].skip(p), text.skip(q));
            lemma_match_len_via_prefix(e2, ts[j].skip(p), text.skip(q));
        }
        lemma_rewrite_no_match_identity(e1, ts[j]);
        lemma_rewrite_no_match_identity(e2, ts[j]);
    }
    assert(mapped =~= ts);
}

/// For a registry loaded from compiled artifacts, converting the standard
/// form to itself is a no-op on any text: both passes of that route have no
/// constituent tables, so their dictionaries are empty and every token is
/// copied through.
pub proof fn lemma_standard_round_is_identity(
    srcs: Seq<(Seq<char>, Seq<Seq<char>>)>,
    a: crate::compile::Artifacts,
    reg: Registry,
    text: Seq<char>,
)
    requires
        crate::compile::compiled_ok(srcs, a),
        crate::registry::loaded_from(reg, a),
    ensures
        concat_all(convert_spec(reg, Script::ST, Script::ST, text)) == concat_all(
            reg.spec_tokens(text),
        ),
{
    crate::registry::lemma_compile_load_end_to_end(srcs, a, reg, PassId::FromStandard);
    crate::registry::lemma_compile_load_end_to_end(srcs, a, reg, PassId::ToStandard);
    assert(crate::compile::pass_tables(PassId::FromStandard).len() == 0);
    assert(crate::compile::pass_tables(PassId::ToStandard).len() == 0);
    lemma_identity_route_no_op(reg, Script::ST, Script::ST, text);
}

/// Determinism: the output of a conversion is a function of the registry,
/// the route and the text alone, so repeated calls agree.
pub proof fn lemma_convert_deterministic(
    reg: Registry,
    from: Script,
    to: Script,
    text: Seq<char>,
    r1: Seq<Seq<char>>,
    r2: Seq<Seq<char>>,
)
    requires
        r1 == convert_spec(reg, from, to, text),
        r2 == convert_spec(reg, from, to, text),
    ensures
        r1 == r2,
{
}

/// No loss: a non-empty text converts to a non-empty output on every route
/// of every valid registry -- the loader admits no empty key or empty
/// value, and every token's characters are each consumed by exactly one
/// match or one copy-through, so no token's rewrite vanishes.
pub proof fn lemma_convert_no_loss(reg: Registry, from: Script, to: Script, text: Seq<char>)
    requires
        reg.wf(),
        text.len() > 0,
        concat_all(reg.spec_tokens(text)) == text,
    ensures
        concat_all(convert_spec(reg, from, to, text)).len() > 0,
{
    crate::registry::lemma_wf_entries_wf(reg, spec_to_standard_pass(from));
    crate::registry::lemma_wf_entries_wf(reg, spec_from_standard_pass(to));
    let e1 = reg.pass_entries(spec_to_standard_pass(from));
    let e2 = reg.pass_entries(spec_from_standard_pass(to));
    let ts = reg.spec_tokens(text);
    let mapped = convert_spec(reg, from, to, text);
    let i = lemma_concat_all_nonempty_inv(ts);
    lemma_rewrite_nonempty(e1, ts[i]);
    lemma_rewrite_nonempty(e2, rewrite(e1, ts[i]));
    assert(mapped[i].len() > 0);
    lemma_concat_all_nonempty(mapped, i);
}

} // verus!
