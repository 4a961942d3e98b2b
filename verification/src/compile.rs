//! The dictionary compiler.
//!
//! Input: a set of named mapping-table sources and a fixed declaration of
//! which tables, possibly reversed, compose each of the eight passes.
//! Output: one serialized and compressed artifact per pass plus one for the
//! set of long keys that extends the segmenter's vocabulary.  Any missing
//! source or malformed line aborts the whole batch; on well-formed sources
//! compilation always succeeds.

use vstd::prelude::*;

use crate::codec;
use crate::dict::entries_wf;
use crate::errors::BuildError;
use crate::script::spec_pass_index;
use crate::script::PassId;
use crate::table::pairs_to_map;
use crate::table::pairs_wf;
use crate::table::parse_table;
use crate::table::reverse_table;
use crate::table::merge_into;
use crate::table::reversal_of;
use crate::table::table_map_of_lines;
use crate::table::values_of;
use crate::table::MappingTable;

verus! {

/// The named mapping-table sources the compiler reads.
#[derive(Clone, Copy, PartialEq, Eq, Debug, Structural)]
pub enum TableId {
    STCharacters,
    STPhrases,
    TSCharacters,
    TSPhrases,
    TWVariants,
    TWVariantsRevPhrases,
    TWPhrasesIT,
    TWPhrasesName,
    TWPhrasesOther,
    HKVariants,
    HKVariantsRevPhrases,
}

pub open spec fn table_name(t: TableId) -> Seq<char> {
    match t {
        TableId::STCharacters => "STCharacters"@,
        TableId::STPhrases => "STPhrases"@,
        TableId::TSCharacters => "TSCharacters"@,
        TableId::TSPhrases => "TSPhrases"@,
        TableId::TWVariants => "TWVariants"@,
        TableId::TWVariantsRevPhrases => "TWVariantsRevPhrases"@,
        TableId::TWPhrasesIT => "TWPhrasesIT"@,
        TableId::TWPhrasesName => "TWPhrasesName"@,
        TableId::TWPhrasesOther => "TWPhrasesOther"@,
        TableId::HKVariants => "HKVariants"@,
        TableId::HKVariantsRevPhrases => "HKVariantsRevPhrases"@,
    }
}

pub fn table_name_str(t: TableId) -> (r: &'static str)
    ensures
        r@ == table_name(t),
{
    match t {
        TableId::STCharacters => "STCharacters",
        TableId::STPhrases => "STPhrases",
        TableId::TSCharacters => "TSCharacters",
        TableId::TSPhrases => "TSPhrases",
        TableId::TWVariants => "TWVariants",
        TableId::TWVariantsRevPhrases => "TWVariantsRevPhrases",
        TableId::TWPhrasesIT => "TWPhrasesIT",
        TableId::TWPhrasesName => "TWPhrasesName",
        TableId::TWPhrasesOther => "TWPhrasesOther",
        TableId::HKVariants => "HKVariants",
        TableId::HKVariantsRevPhrases => "HKVariantsRevPhrases",
    }
}

/// Every source table, in the order the compiler parses them.
pub open spec fn all_tables() -> Seq<TableId> {
    seq![
        TableId::STCharacters,
        TableId::STPhrases,
        TableId::TSCharacters,
        TableId::TSPhrases,
        TableId::TWVariants,
        TableId::TWVariantsRevPhrases,
        TableId::TWPhrasesIT,
        TableId::TWPhrasesName,
        TableId::TWPhrasesOther,
        TableId::HKVariants,
        TableId::HKVariantsRevPhrases,
    ]
}

fn all_tables_exec() -> (r: Vec<TableId>)
    ensures
        r@ == all_tables(),
{
    let r = vec![
        TableId::STCharacters,
        TableId::STPhrases,
        TableId::TSCharacters,
        TableId::TSPhrases,
        TableId::TWVariants,
        TableId::TWVariantsRevPhrases,
        TableId::TWPhrasesIT,
        TableId::TWPhrasesName,
        TableId::TWPhrasesOther,
        TableId::HKVariants,
        TableId::HKVariantsRevPhrases,
    ];
    proof {
        assert(r@ =~= all_tables());
    }
    r
}

/// The constituent tables of each pass, in declared order; `true` marks a
/// table that is used reversed.
pub open spec fn pass_tables(id: PassId) -> Seq<(TableId, bool)> {
    match id {
        PassId::FromStandard => seq![],
        PassId::FromChina => seq![(TableId::STCharacters, false), (TableId::STPhrases, false)],
        PassId::FromTaiwan => seq![
            (TableId::TWVariants, true),
            (TableId::TWVariantsRevPhrases, false),
            (TableId::TWPhrasesIT, true),
            (TableId::TWPhrasesName, true),
            (TableId::TWPhrasesOther, true),
        ],
        PassId::FromHongKong => seq![
            (TableId::HKVariants, true),
            (TableId::HKVariantsRevPhrases, false),
        ],
        PassId::ToStandard => seq![],
        PassId::ToChina => seq![(TableId::TSCharacters, false), (TableId::TSPhrases, false)],
        PassId::ToTaiwan => seq![
            (TableId::TWVariants, false),
            (TableId::TWPhrasesIT, false),
            (TableId::TWPhrasesName, false),
            (TableId::TWPhrasesOther, false),
        ],
        PassId::ToHongKong => seq![(TableId::HKVariants, false)],
    }
}

fn pass_tables_exec(id: PassId) -> (r: Vec<(TableId, bool)>)
    ensures
        r@ == pass_tables(id),
{
    let r: Vec<(TableId, bool)> = match id {
        PassId::FromStandard => vec![],
        PassId::FromChina => vec![(TableId::STCharacters, false), (TableId::STPhrases, false)],
        PassId::FromTaiwan => vec![
            (TableId::TWVariants, true),
            (TableId::TWVariantsRevPhrases, false),
            (TableId::TWPhrasesIT, true),
            (TableId::TWPhrasesName, true),
            (TableId::TWPhrasesOther, true),
        ],
        PassId::FromHongKong => vec![
            (TableId::HKVariants, true),
            (TableId::HKVariantsRevPhrases, false),
        ],
        PassId::ToStandard => vec![],
        PassId::ToChina => vec![(TableId::TSCharacters, false), (TableId::TSPhrases, false)],
        PassId::ToTaiwan => vec![
            (TableId::TWVariants, false),
            (TableId::TWPhrasesIT, false),
            (TableId::TWPhrasesName, false),
            (TableId::TWPhrasesOther, false),
        ],
        PassId::ToHongKong => vec![(TableId::HKVariants, false)],
    };
    proof {
        assert(r@ =~= pass_tables(id));
    }
    r
}

/// The eight passes, in the order their artifacts are laid out.
pub open spec fn pass_order() -> Seq<PassId> {
    seq![
        PassId::FromStandard,
        PassId::FromChina,
        PassId::FromTaiwan,
        PassId::FromHongKong,
        PassId::ToStandard,
        PassId::ToChina,
        PassId::ToTaiwan,
        PassId::ToHongKong,
    ]
}

fn pass_order_exec() -> (r: Vec<PassId>)
    ensures
        r@ == pass_order(),
{
    let r = vec![
        PassId::FromStandard,
        PassId::FromChina,
        PassId::FromTaiwan,
        PassId::FromHongKong,
        PassId::ToStandard,
        PassId::ToChina,
        PassId::ToTaiwan,
        PassId::ToHongKong,
    ];
    proof {
        assert(r@ =~= pass_order());
    }
    r
}

/// The artifact position of each pass is its pass index.
pub proof fn lemma_pass_order(id: PassId)
    ensures
        0 <= spec_pass_index(id) < 8,
        pass_order()[spec_pass_index(id)] == id,
{
}

/// A named source set, viewed as name and lines.
pub open spec fn sources_view(sources: Seq<(String, Vec<String>)>) -> Seq<
    (Seq<char>, Seq<Seq<char>>),
> {
    sources.map_values(|p: (String, Vec<String>)| (p.0@, p.1.deep_view()))
}

/// The lines of the first source with the given name.
pub open spec fn find_source(srcs: Seq<(Seq<char>, Seq<Seq<char>>)>, name: Seq<char>) -> Option<
    Seq<Seq<char>>,
>
    decreases srcs.len(),
{
    if srcs.len() == 0 {
        None
    } else if srcs.first().0 == name {
        Some(srcs.first().1)
    } else {
        find_source(srcs.drop_first(), name)
    }
}

/// The map a named table denotes in the given sources.
pub open spec fn table_source_map(srcs: Seq<(Seq<char>, Seq<Seq<char>>)>, t: TableId) -> Option<
    Map<Seq<char>, Seq<char>>,
> {
    match find_source(srcs, table_name(t)) {
        None => None,
        Some(lines) => table_map_of_lines(lines),
    }
}

/// Every table the passes need is present and parses.
pub open spec fn sources_ok(srcs: Seq<(Seq<char>, Seq<Seq<char>>)>) -> bool {
    forall|t: TableId| (#[trigger] table_source_map(srcs, t)) is Some
}

pub open spec fn some_source_missing(srcs: Seq<(Seq<char>, Seq<Seq<char>>)>) -> bool {
    exists|t: TableId| (#[trigger] find_source(srcs, table_name(t))) is None
}

pub open spec fn some_source_malformed(srcs: Seq<(Seq<char>, Seq<Seq<char>>)>) -> bool {
    exists|t: TableId|
        (#[trigger] find_source(srcs, table_name(t))) matches Some(lines) && table_map_of_lines(
            lines,
        ) is None
}

/// `m` is a valid map for one constituent: the named table's map, or a
/// reversal of it when the constituent is marked reversed.
pub open spec fn constituent_ok(
    srcs: Seq<(Seq<char>, Seq<Seq<char>>)>,
    c: (TableId, bool),
    m: Map<Seq<char>, Seq<char>>,
) -> bool {
    if c.1 {
        table_source_map(srcs, c.0) matches Some(fm) && reversal_of(m, fm)
    } else {
        table_source_map(srcs, c.0) == Some(m)
    }
}

/// Constituent maps folded in declared order, later tables overwriting.
pub open spec fn merged_maps(ms: Seq<Map<Seq<char>, Seq<char>>>) -> Map<Seq<char>, Seq<char>>
    decreases ms.len(),
{
    if ms.len() == 0 {
        Map::empty()
    } else {
        merged_maps(ms.drop_last()).union_prefer_right(ms.last())
    }
}

/// `m` is a valid entries map for the given pass: its constituents resolve
/// against the sources and merge, in order, to `m`.  (A reversed constituent
/// leaves the surviving key for a duplicated value open, so this is a
/// relation, not a function.)
pub open spec fn pass_map_ok(
    srcs: Seq<(Seq<char>, Seq<Seq<char>>)>,
    id: PassId,
    m: Map<Seq<char>, Seq<char>>,
) -> bool {
    exists|ms: Seq<Map<Seq<char>, Seq<char>>>|
        ms.len() == pass_tables(id).len() && (forall|i: int|
            0 <= i < ms.len() ==> constituent_ok(srcs, pass_tables(id)[i], #[trigger] ms[i]))
            && m == merged_maps(ms)
}

/// The keys one constituent contributes to the vocabulary set: the keys of
/// the table as the pass uses it (so the forward values, when reversed) that
/// are longer than three characters.
/// The members of `d` longer than three characters.
pub open spec fn long_keys(d: Set<Seq<char>>) -> Set<Seq<char>> {
    d.filter(|k: Seq<char>| k.len() > 3)
}

pub open spec fn constituent_key_set(
    srcs: Seq<(Seq<char>, Seq<Seq<char>>)>,
    c: (TableId, bool),
) -> Set<Seq<char>> {
    let m = table_source_map(srcs, c.0).unwrap();
    if c.1 {
        long_keys(values_of(m))
    } else {
        long_keys(m.dom())
    }
}

pub open spec fn keys_of_list(
    srcs: Seq<(Seq<char>, Seq<Seq<char>>)>,
    l: Seq<(TableId, bool)>,
) -> Set<Seq<char>>
    decreases l.len(),
{
    if l.len() == 0 {
        Set::empty()
    } else {
        keys_of_list(srcs, l.drop_last()).union(constituent_key_set(srcs, l.last()))
    }
}

pub open spec fn keys_of_passes(
    srcs: Seq<(Seq<char>, Seq<Seq<char>>)>,
    pids: Seq<PassId>,
) -> Set<Seq<char>>
    decreases pids.len(),
{
    if pids.len() == 0 {
        Set::empty()
    } else {
        keys_of_passes(srcs, pids.drop_last()).union(keys_of_list(srcs, pass_tables(pids.last())))
    }
}

/// All mapping-table keys longer than three characters, across every
/// constituent of every pass.
pub open spec fn keyset_spec(srcs: Seq<(Seq<char>, Seq<Seq<char>>)>) -> Set<Seq<char>> {
    keys_of_passes(srcs, pass_order())
}

/// The compiled artifacts: one serialized and compressed entry list per
/// pass, laid out by pass index, and the compressed vocabulary key list.
/// An artifact carries plain entry pairs, never a trie's internal
/// structure; the loader rebuilds each prefix trie itself.
pub struct Artifacts {
    pub passes: Vec<Vec<u8>>,
    pub keys: Vec<u8>,
}

impl Artifacts {
    pub open spec fn wf(self) -> bool {
        self.passes@.len() == 8
    }
}

/// The entries a pass artifact decodes to: decompress, deserialize the
/// entry pairs, and reject a list holding an empty key or an empty value --
/// later pairs overwrite earlier ones with the same key, as everywhere.
pub open spec fn decoded_pass_entries(bytes: Seq<u8>) -> Option<Map<Seq<char>, Seq<char>>> {
    match codec::inflate_of(bytes) {
        None => None,
        Some(sb) => match codec::decoded_pairs(sb) {
            None => None,
            Some(ps) => if pairs_wf(ps) {
                Some(pairs_to_map(ps))
            } else {
                None
            },
        },
    }
}

/// The key list a keys artifact decodes to.
pub open spec fn decoded_key_list(bytes: Seq<u8>) -> Option<Seq<Seq<char>>> {
    match codec::inflate_of(bytes) {
        None => None,
        Some(sb) => codec::decoded_keys(sb),
    }
}

/// What a successful compilation guarantees of its artifacts: every pass
/// artifact decodes to a well-formed entries map assembled from the sources,
/// and the keys artifact decodes to exactly the long-key set.
pub open spec fn compiled_ok(srcs: Seq<(Seq<char>, Seq<Seq<char>>)>, a: Artifacts) -> bool {
    a.wf() && sources_ok(srcs) && (forall|q: int|
        0 <= q < 8 ==> ((#[trigger] decoded_pass_entries(a.passes@[q]@)) matches Some(m)
            && pass_map_ok(srcs, pass_order()[q], m) && entries_wf(m))) && (decoded_key_list(
        a.keys@,
    ) matches Some(ks) && ks.to_set() == keyset_spec(srcs))
}

/// Find the lines of the named source.
fn find_source_exec<'a>(sources: &'a Vec<(String, Vec<String>)>, name: &str) -> (r: Option<
    &'a Vec<String>,
>)
    ensures
        match r {
            Some(lines) => find_source(sources_view(sources@), name@) == Some(lines.deep_view()),
            None => find_source(sources_view(sources@), name@) is None,
        },
{
    let ghost sv = sources_view(sources@);
    let name_s: String = name.to_owned();
    let n = sources.len();
    proof {
        assert(sv.skip(0) =~= sv);
    }
    let mut i: usize = 0;
    while i < n
        invariant
            sv == sources_view(sources@),
            name_s@ == name@,
            n == sources@.len(),
            0 <= i <= n,
            find_source(sv, name@) == find_source(sv.skip(i as int), name@),
        decreases n - i,
    {
        proof {
            assert(sv.skip(i as int).first() == sv[i as int]);
            assert(sv.skip(i as int).drop_first() =~= sv.skip(i as int + 1));
        }
        if sources[i].0 == name_s {
            return Some(&sources[i].1);
        }
        i = i + 1;
    }
    proof {
        assert(sv.skip(n as int) =~= Seq::empty());
    }
    None
}

/// Where each table sits in the parse order.
fn table_index(t: TableId) -> (i: usize)
    ensures
        i < 11,
        all_tables()[i as int] == t,
{
    match t {
        TableId::STCharacters => 0,
        TableId::STPhrases => 1,
        TableId::TSCharacters => 2,
        TableId::TSPhrases => 3,
        TableId::TWVariants => 4,
        TableId::TWVariantsRevPhrases => 5,
        TableId::TWPhrasesIT => 6,
        TableId::TWPhrasesName => 7,
        TableId::TWPhrasesOther => 8,
        TableId::HKVariants => 9,
        TableId::HKVariantsRevPhrases => 10,
    }
}

/// Add every key of `t` longer than three characters to `keys`.
fn collect_long_keys(keys: &mut Vec<String>, t: &MappingTable)
    ensures
        final(keys).deep_view().to_set() == old(keys).deep_view().to_set().union(
            long_keys(t.as_map().dom()),
        ),
{
    let ghost ps = t.pair_seq();
    let n = t.len();
    proof {
        assert(ps.take(0) =~= Seq::empty());
        assert(pairs_to_map(ps.take(0)) =~= Map::empty());
        assert(keys.deep_view().to_set().union(long_keys(pairs_to_map(ps.take(0)).dom()))
            =~= keys.deep_view().to_set());
    }
    let mut i: usize = 0;
    while i < n
        invariant
            ps == t.pair_seq(),
            n == ps.len(),
            0 <= i <= n,
            keys.deep_view().to_set() == old(keys).deep_view().to_set().union(
                long_keys(pairs_to_map(ps.take(i as int)).dom()),
            ),
        decreases n - i,
    {
        let ghost dv = keys.deep_view();
        let k = t.key_at(i);
        proof {
            assert(ps.take(i as int + 1).drop_last() =~= ps.take(i as int));
            assert(ps.take(i as int + 1).last() == ps[i as int]);
            assert(pairs_to_map(ps.take(i as int + 1)).dom() =~= pairs_to_map(
                ps.take(i as int),
            ).dom().insert(ps[i as int].0));
        }
        if k.as_str().unicode_len() > 3 {
            keys.push(k.clone());
            proof {
                assert(keys.deep_view() =~= dv.push(ps[i as int].0));
                crate::seq_util::lemma_to_set_push(dv, ps[i as int].0);
                assert(keys.deep_view().to_set() =~= old(keys).deep_view().to_set().union(
                    long_keys(pairs_to_map(ps.take(i as int + 1)).dom()),
                ));
            }
        } else {
            proof {
                assert(long_keys(pairs_to_map(ps.take(i as int + 1)).dom()) =~= long_keys(
                    pairs_to_map(ps.take(i as int)).dom(),
                ));
            }
        }
        i = i + 1;
    }
    proof {
        assert(ps.take(n as int) =~= ps);
    }
}

/// Compile every pass and the vocabulary key set from the given named table
/// sources.  The whole batch aborts on a missing source or a malformed line,
/// and succeeds exactly when every needed table is present and parses.
pub fn compile(sources: &Vec<(String, Vec<String>)>) -> (r: Result<Artifacts, BuildError>)
    ensures
        match r {
            Ok(a) => compiled_ok(sources_view(sources@), a),
            Err(e) => match e {
                BuildError::MissingTable => some_source_missing(sources_view(sources@)),
                BuildError::MalformedLine => some_source_malformed(sources_view(sources@)),
            },
        },
        r is Ok <==> sources_ok(sources_view(sources@)),
{
    let ghost srcs = sources_view(sources@);
    let tids = all_tables_exec();
    let mut parsed: Vec<MappingTable> = Vec::new();
    let mut ti: usize = 0;
    while ti < 11
        invariant
            srcs == sources_view(sources@),
            tids@ == all_tables(),
            parsed@.len() == ti,
            0 <= ti <= 11,
            forall|j: int|
                0 <= j < ti ==> (#[trigger] parsed@[j]).wf() && Some(parsed@[j].as_map())
                    == table_source_map(srcs, all_tables()[j]),
        decreases 11 - ti,
    {
        let tid = tids[ti];
        match find_source_exec(sources, table_name_str(tid)) {
            None => {
                proof {
                    assert(find_source(srcs, table_name(tid)) is None);
                    assert(!(table_source_map(srcs, tid) is Some));
                }
                return Err(BuildError::MissingTable);
            },
            Some(lines) => {
                match parse_table(lines) {
                    Err(_) => {
                        proof {
                            assert(find_source(srcs, table_name(tid)) matches Some(ls)
                                && table_map_of_lines(ls) is None);
                            assert(!(table_source_map(srcs, tid) is Some));
                        }
                        return Err(BuildError::MalformedLine);
                    },
                    Ok(t) => {
                        parsed.push(t);
                    },
                }
            },
        }
        ti = ti + 1;
    }
    proof {
        assert forall|t: TableId| (#[trigger] table_source_map(srcs, t)) is Some by {
            let j = table_index_spec(t);
            assert(all_tables()[j] == t);
            assert(Some(parsed@[j].as_map()) == table_source_map(srcs, all_tables()[j]));
        }
    }
    let pids = pass_order_exec();
    let mut pass_artifacts: Vec<Vec<u8>> = Vec::new();
    let mut keys: Vec<String> = Vec::new();
    proof {
        assert(pass_order().take(0) =~= Seq::empty());
        assert(keys.deep_view() =~= Seq::empty());
        assert(keys.deep_view().to_set() =~= keys_of_passes(srcs, pass_order().take(0)));
    }
    let mut p: usize = 0;
    while p < 8
        invariant
            srcs == sources_view(sources@),
            sources_ok(srcs),
            pids@ == pass_order(),
            parsed@.len() == 11,
            forall|j: int|
                0 <= j < 11 ==> (#[trigger] parsed@[j]).wf() && Some(parsed@[j].as_map())
                    == table_source_map(srcs, all_tables()[j]),
            0 <= p <= 8,
            pass_artifacts@.len() == p,
            forall|q: int|
                0 <= q < p ==> ((#[trigger] decoded_pass_entries(pass_artifacts@[q]@)) matches Some(
                    m,
                ) && pass_map_ok(srcs, pass_order()[q], m) && entries_wf(m)),
            keys.deep_view().to_set() == keys_of_passes(srcs, pass_order().take(p as int)),
        decreases 8 - p,
    {
        let id = pids[p];
        let cs = pass_tables_exec(id);
        let cn = cs.len();
        let mut merged = MappingTable::new();
        let ghost mut ms = Seq::<Map<Seq<char>, Seq<char>>>::empty();
        proof {
            assert(merged.as_map() =~= merged_maps(ms));
            assert(pass_tables(id).take(0) =~= Seq::empty());
            assert(keys.deep_view().to_set().union(keys_of_list(srcs, pass_tables(id).take(0)))
                =~= keys.deep_view().to_set());
        }
        let mut c: usize = 0;
        while c < cn
            invariant
                srcs == sources_view(sources@),
                sources_ok(srcs),
                parsed@.len() == 11,
                forall|j: int|
                    0 <= j < 11 ==> (#[trigger] parsed@[j]).wf() && Some(parsed@[j].as_map())
                        == table_source_map(srcs, all_tables()[j]),
                cs@ == pass_tables(id),
                cn == cs@.len(),
                0 <= c <= cn,
                ms.len() == c,
                merged.wf(),
                merged.as_map() == merged_maps(ms),
                forall|i: int|
                    0 <= i < c ==> constituent_ok(srcs, pass_tables(id)[i], #[trigger] ms[i]),
                keys.deep_view().to_set() == keys_of_passes(srcs, pass_order().take(p as int)).union(
                    keys_of_list(srcs, pass_tables(id).take(c as int)),
                ),
            decreases cn - c,
        {
            let (tid, rev) = cs[c];
            let idx = table_index(tid);
            let ghost ms0 = ms;
            let ghost fwd = parsed@[idx as int].as_map();
            let ghost mut cm = fwd;
            let ghost mut key_dom = fwd.dom();
            if rev {
                let rt = reverse_table(&parsed[idx]);
                merge_into(&mut merged, &rt);
                collect_long_keys(&mut keys, &rt);
                proof {
                    cm = rt.as_map();
                    key_dom = rt.as_map().dom();
                    ms = ms0.push(cm);
                    assert(rt.as_map().dom() == values_of(fwd));
                    assert(constituent_ok(srcs, (tid, rev), cm));
                }
            } else {
                let ft = &parsed[idx];
                merge_into(&mut merged, ft);
                collect_long_keys(&mut keys, ft);
                proof {
                    ms = ms0.push(cm);
                    assert(constituent_ok(srcs, (tid, rev), cm));
                }
            }
            proof {
                assert(ms.drop_last() =~= ms0);
                assert(ms.last() == cm);
                assert(merged_maps(ms) == merged_maps(ms0).union_prefer_right(cm));
                assert(pass_tables(id).take(c as int + 1).drop_last() =~= pass_tables(id).take(
                    c as int,
                ));
                assert(pass_tables(id).take(c as int + 1).last() == pass_tables(id)[c as int]);
                assert(cs@[c as int] == pass_tables(id)[c as int]);
                assert(long_keys(key_dom) == constituent_key_set(srcs, pass_tables(id)[c as int]));
                assert(keys.deep_view().to_set() =~= keys_of_passes(
                    srcs,
                    pass_order().take(p as int),
                ).union(keys_of_list(srcs, pass_tables(id).take(c as int + 1))));
            }
            c = c + 1;
        }
        proof {
            assert(pass_tables(id).take(cn as int) =~= pass_tables(id));
            assert(pass_map_ok(srcs, id, merged.as_map())) by {
                assert(ms.len() == pass_tables(id).len() && (forall|i: int|
                    0 <= i < ms.len() ==> constituent_ok(srcs, pass_tables(id)[i], #[trigger] ms[i]))
                    && merged.as_map() == merged_maps(ms));
            }
            crate::table::lemma_table_entries_wf(merged);
        }
        let enc = codec::encode_pairs(merged.pairs());
        let compressed = codec::compress_bytes(enc.as_slice(), 6);
        pass_artifacts.push(compressed);
        proof {
            assert(pairs_wf(merged.pair_seq()));
            assert(decoded_pass_entries(pass_artifacts@[p as int]@) == Some(merged.as_map()));
            assert(pass_order()[p as int] == id);
            assert(pass_order().take(p as int + 1).drop_last() =~= pass_order().take(p as int));
            assert(pass_order().take(p as int + 1).last() == pass_order()[p as int]);
            assert(keys.deep_view().to_set() =~= keys_of_passes(
                srcs,
                pass_order().take(p as int + 1),
            ));
        }
        p = p + 1;
    }
    let enc = codec::encode_keys(&keys);
    let ck = codec::compress_bytes(enc.as_slice(), 6);
    let a = Artifacts { passes: pass_artifacts, keys: ck };
    proof {
        assert(pass_order().take(8) =~= pass_order());
        assert(decoded_key_list(a.keys@) == Some(keys.deep_view()));
    }
    Ok(a)
}

proof fn lemma_keys_of_list_member(
    srcs: Seq<(Seq<char>, Seq<Seq<char>>)>,
    l: Seq<(TableId, bool)>,
    c: int,
    k: Seq<char>,
)
    requires
        0 <= c < l.len(),
        constituent_key_set(srcs, l[c]).contains(k),
    ensures
        keys_of_list(srcs, l).contains(k),
    decreases l.len(),
{
    if c == l.len() - 1 {
    } else {
        assert(l.drop_last()[c] == l[c]);
        lemma_keys_of_list_member(srcs, l.drop_last(), c, k);
    }
}

proof fn lemma_keys_of_passes_member(
    srcs: Seq<(Seq<char>, Seq<Seq<char>>)>,
    pids: Seq<PassId>,
    p: int,
    k: Seq<char>,
)
    requires
        0 <= p < pids.len(),
        keys_of_list(srcs, pass_tables(pids[p])).contains(k),
    ensures
        keys_of_passes(srcs, pids).contains(k),
    decreases pids.len(),
{
    if p == pids.len() - 1 {
    } else {
        assert(pids.drop_last()[p] == pids[p]);
        lemma_keys_of_passes_member(srcs, pids.drop_last(), p, k);
    }
}

/// Vocabulary augmentation: every key longer than three characters of any
/// constituent table of any pass -- as the pass uses it, so the forward
/// values of a reversed constituent -- belongs to the compiled key set, and
/// so reaches the segmenter's vocabulary when a registry loads.
pub proof fn lemma_long_key_in_keyset(
    srcs: Seq<(Seq<char>, Seq<Seq<char>>)>,
    p: int,
    c: int,
    k: Seq<char>,
)
    requires
        0 <= p < 8,
        0 <= c < pass_tables(pass_order()[p]).len(),
        constituent_key_set(srcs, pass_tables(pass_order()[p])[c]).contains(k),
    ensures
        k.len() > 3,
        keyset_spec(srcs).contains(k),
{
    lemma_keys_of_list_member(srcs, pass_tables(pass_order()[p]), c, k);
    lemma_keys_of_passes_member(srcs, pass_order(), p, k);
}

proof fn lemma_keys_of_list_long(
    srcs: Seq<(Seq<char>, Seq<Seq<char>>)>,
    l: Seq<(TableId, bool)>,
    k: Seq<char>,
)
    requires
        keys_of_list(srcs, l).contains(k),
    ensures
        k.len() > 3,
    decreases l.len(),
{
    if l.len() > 0 {
        if keys_of_list(srcs, l.drop_last()).contains(k) {
            lemma_keys_of_list_long(srcs, l.drop_last(), k);
        }
    }
}

/// Every member of the compiled key set is longer than three characters.
pub proof fn lemma_keyset_long(srcs: Seq<(Seq<char>, Seq<Seq<char>>)>, k: Seq<char>)
    requires
        keyset_spec(srcs).contains(k),
    ensures
        k.len() > 3,
{
    lemma_keys_of_passes_long(srcs, pass_order(), k);
}

proof fn lemma_keys_of_passes_long(
    srcs: Seq<(Seq<char>, Seq<Seq<char>>)>,
    pids: Seq<PassId>,
    k: Seq<char>,
)
    requires
        keys_of_passes(srcs, pids).contains(k),
    ensures
        k.len() > 3,
    decreases pids.len(),
{
    if pids.len() > 0 {
        if keys_of_passes(srcs, pids.drop_last()).contains(k) {
            lemma_keys_of_passes_long(srcs, pids.drop_last(), k);
        } else {
            lemma_keys_of_list_long(srcs, pass_tables(pids.last()), k);
        }
    }
}

/// Ghost twin of [`table_index`].
pub open spec fn table_index_spec(t: TableId) -> int {
    match t {
        TableId::STCharacters => 0,
        TableId::STPhrases => 1,
        TableId::TSCharacters => 2,
        TableId::TSPhrases => 3,
        TableId::TWVariants => 4,
        TableId::TWVariantsRevPhrases => 5,
        TableId::TWPhrasesIT => 6,
        TableId::TWPhrasesName => 7,
        TableId::TWPhrasesOther => 8,
        TableId::HKVariants => 9,
        TableId::HKVariantsRevPhrases => 10,
    }
}

} // verus!
