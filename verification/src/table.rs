//! Mapping tables and their tab-delimited source format.
//!
//! A table source is a list of lines.  Each line must hold at least one tab
//! and a non-empty key before the first tab; the entry's value is the first
//! whitespace-delimited token after the tab, and a line with no such token
//! contributes no entry.  Within one source a later entry overwrites an
//! earlier entry with the same key.  A table can be reversed (value to key)
//! to avoid authoring an inverse data set, and tables merge in declared
//! order to assemble one conversion pass.

use vstd::prelude::*;
use vstd::pervasive::VecAdditionalExecFns;

use crate::errors::BuildError;

verus! {

/// ASCII whitespace, as the value token is delimited.
pub open spec fn is_ws(c: char) -> bool {
    c == ' ' || c == '\t' || c == '\n' || c == '\r' || c == '\u{c}'
}

/// Index of the first tab at or after `i`, or the length if there is none.
pub open spec fn first_tab_from(s: Seq<char>, i: int) -> int
    decreases s.len() - i,
{
    if 0 <= i < s.len() {
        if s[i] == '\t' {
            i
        } else {
            first_tab_from(s, i + 1)
        }
    } else {
        s.len() as int
    }
}

/// Index of the first non-whitespace character at or after `i`, or the length.
pub open spec fn first_non_ws_from(s: Seq<char>, i: int) -> int
    decreases s.len() - i,
{
    if 0 <= i < s.len() {
        if !is_ws(s[i]) {
            i
        } else {
            first_non_ws_from(s, i + 1)
        }
    } else {
        s.len() as int
    }
}

/// Index of the first whitespace character at or after `i`, or the length.
pub open spec fn first_ws_from(s: Seq<char>, i: int) -> int
    decreases s.len() - i,
{
    if 0 <= i < s.len() {
        if is_ws(s[i]) {
            i
        } else {
            first_ws_from(s, i + 1)
        }
    } else {
        s.len() as int
    }
}

/// What one source line means.
pub enum LineParse {
    /// No tab, or an empty key before the first tab: a fatal parse error.
    Malformed,
    /// A tab but no value token after it: the line contributes no entry.
    Blank,
    /// An entry: key before the first tab, first token after it.
    Entry(Seq<char>, Seq<char>),
}

/// Meaning of one line of a table source.
pub open spec fn parse_line_spec(line: Seq<char>) -> LineParse {
    let t = first_tab_from(line, 0);
    if t == line.len() || t == 0 {
        LineParse::Malformed
    } else {
        let rest = line.skip(t + 1);
        let vs = first_non_ws_from(rest, 0);
        if vs == rest.len() {
            LineParse::Blank
        } else {
            LineParse::Entry(line.take(t), rest.subrange(vs, first_ws_from(rest, vs)))
        }
    }
}

proof fn lemma_first_tab_from(s: Seq<char>, i: int)
    requires
        0 <= i <= s.len(),
    ensures
        i <= first_tab_from(s, i) <= s.len(),
        first_tab_from(s, i) < s.len() ==> s[first_tab_from(s, i)] == '\t',
        forall|j: int| i <= j < first_tab_from(s, i) ==> s[j] != '\t',
    decreases s.len() - i,
{
    if 0 <= i < s.len() && s[i] != '\t' {
        lemma_first_tab_from(s, i + 1);
    }
}

proof fn lemma_first_non_ws_from(s: Seq<char>, i: int)
    requires
        0 <= i <= s.len(),
    ensures
        i <= first_non_ws_from(s, i) <= s.len(),
        first_non_ws_from(s, i) < s.len() ==> !is_ws(s[first_non_ws_from(s, i)]),
        forall|j: int| i <= j < first_non_ws_from(s, i) ==> is_ws(s[j]),
    decreases s.len() - i,
{
    if 0 <= i < s.len() && is_ws(s[i]) {
        lemma_first_non_ws_from(s, i + 1);
    }
}

proof fn lemma_first_ws_from(s: Seq<char>, i: int)
    requires
        0 <= i <= s.len(),
    ensures
        i <= first_ws_from(s, i) <= s.len(),
        first_ws_from(s, i) < s.len() ==> is_ws(s[first_ws_from(s, i)]),
        forall|j: int| i <= j < first_ws_from(s, i) ==> !is_ws(s[j]),
    decreases s.len() - i,
{
    if 0 <= i < s.len() && !is_ws(s[i]) {
        lemma_first_ws_from(s, i + 1);
    }
}

/// An entry parsed from a line has a non-empty key and a non-empty value.
pub proof fn lemma_parse_line_entry_nonempty(line: Seq<char>)
    ensures
        parse_line_spec(line) matches LineParse::Entry(k, v) ==> k.len() > 0 && v.len() > 0,
{
    lemma_first_tab_from(line, 0);
    let t = first_tab_from(line, 0);
    if 0 < t < line.len() {
        let rest = line.skip(t + 1);
        lemma_first_non_ws_from(rest, 0);
        let vs = first_non_ws_from(rest, 0);
        if vs < rest.len() {
            lemma_first_ws_from(rest, vs);
        }
    }
}

/// Find the first tab of `line`, as an executable scan.
fn find_tab(line: &str) -> (t: usize)
    ensures
        t == first_tab_from(line@, 0),
{
    let n = line.unicode_len();
    let mut i: usize = 0;
    while i < n
        invariant
            n == line@.len(),
            0 <= i <= n,
            first_tab_from(line@, 0) == first_tab_from(line@, i as int),
        decreases n - i,
    {
        if line.get_char(i) == '\t' {
            return i;
        }
        i = i + 1;
    }
    i
}

fn is_ws_char(c: char) -> (b: bool)
    ensures
        b == is_ws(c),
{
    c == ' ' || c == '\t' || c == '\n' || c == '\r' || c == '\u{c}'
}

/// Find the first non-whitespace character of `s` at or after `i`.
fn find_non_ws(s: &str, start: usize) -> (r: usize)
    requires
        start <= s@.len(),
    ensures
        r == first_non_ws_from(s@, start as int),
{
    let n = s.unicode_len();
    let mut i: usize = start;
    while i < n
        invariant
            n == s@.len(),
            start <= i <= n,
            first_non_ws_from(s@, start as int) == first_non_ws_from(s@, i as int),
        decreases n - i,
    {
        if !is_ws_char(s.get_char(i)) {
            return i;
        }
        i = i + 1;
    }
    i
}

/// Find the first whitespace character of `s` at or after `i`.
fn find_ws(s: &str, start: usize) -> (r: usize)
    requires
        start <= s@.len(),
    ensures
        r == first_ws_from(s@, start as int),
{
    let n = s.unicode_len();
    let mut i: usize = start;
    while i < n
        invariant
            n == s@.len(),
            start <= i <= n,
            first_ws_from(s@, start as int) == first_ws_from(s@, i as int),
        decreases n - i,
    {
        if is_ws_char(s.get_char(i)) {
            return i;
        }
        i = i + 1;
    }
    i
}

/// Parse one line: the key before the first tab, the first
/// whitespace-delimited token after it as the value.
pub fn parse_line(line: &str) -> (r: Result<Option<(String, String)>, BuildError>)
    ensures
        match parse_line_spec(line@) {
            LineParse::Malformed => r == Err::<Option<(String, String)>, BuildError>(
                BuildError::MalformedLine,
            ),
            LineParse::Blank => r == Ok::<Option<(String, String)>, BuildError>(None),
            LineParse::Entry(k, v) => match r {
                Ok(Some(p)) => p.0@ == k && p.1@ == v,
                _ => false,
            },
        },
{
    let n = line.unicode_len();
    let t = find_tab(line);
    proof {
        lemma_first_tab_from(line@, 0);
    }
    if t == n || t == 0 {
        return Err(BuildError::MalformedLine);
    }
    let key = line.substring_char(0, t).to_owned();
    let rest = line.substring_char(t + 1, n);
    proof {
        assert(rest@ =~= line@.skip(t + 1));
    }
    let rn = rest.unicode_len();
    let vs = find_non_ws(rest, 0);
    if vs == rn {
        return Ok(None);
    }
    proof {
        lemma_first_non_ws_from(rest@, 0);
    }
    let ve = find_ws(rest, vs);
    proof {
        lemma_first_ws_from(rest@, vs as int);
    }
    let value = rest.substring_char(vs, ve).to_owned();
    proof {
        assert(key@ =~= line@.take(t as int));
        assert(value@ =~= rest@.subrange(vs as int, ve as int));
    }
    Ok(Some((key, value)))
}

/// A list of owned string pairs, read as character-sequence pairs.
pub open spec fn string_pairs_view(ps: Seq<(String, String)>) -> Seq<(Seq<char>, Seq<char>)> {
    ps.map_values(|p: (String, String)| (p.0@, p.1@))
}

/// No pair holds an empty key or an empty value.
pub open spec fn pairs_wf(ps: Seq<(Seq<char>, Seq<char>)>) -> bool {
    forall|i: int| 0 <= i < ps.len() ==> (#[trigger] ps[i]).0.len() > 0 && ps[i].1.len() > 0
}

/// The map a pair list denotes, the rightmost entry winning on a repeated
/// key.
pub open spec fn pairs_to_map(ps: Seq<(Seq<char>, Seq<char>)>) -> Map<Seq<char>, Seq<char>>
    decreases ps.len(),
{
    if ps.len() == 0 {
        Map::empty()
    } else {
        pairs_to_map(ps.drop_last()).insert(ps.last().0, ps.last().1)
    }
}

/// No two pairs share a key.
pub open spec fn unique_keys(ps: Seq<(Seq<char>, Seq<char>)>) -> bool {
    forall|i: int, j: int| 0 <= i < j < ps.len() ==> (#[trigger] ps[i]).0 != (#[trigger] ps[j]).0
}

/// The denoted map holds a key exactly when some pair carries it.
pub proof fn lemma_pairs_to_map_dom(ps: Seq<(Seq<char>, Seq<char>)>, k: Seq<char>)
    ensures
        pairs_to_map(ps).contains_key(k) <==> exists|i: int| 0 <= i < ps.len() && (#[trigger] ps[i]).0 == k,
    decreases ps.len(),
{
    if ps.len() > 0 {
        lemma_pairs_to_map_dom(ps.drop_last(), k);
        assert(forall|i: int| 0 <= i < ps.len() - 1 ==> #[trigger] ps[i] == ps.drop_last()[i]);
        if pairs_to_map(ps).contains_key(k) {
            if ps.last().0 == k {
                assert(0 <= ps.len() - 1 < ps.len() && (ps[ps.len() - 1]).0 == k);
            } else {
                assert(pairs_to_map(ps.drop_last()).contains_key(k));
                let i = choose|i: int|
                    0 <= i < ps.drop_last().len() && (#[trigger] ps.drop_last()[i]).0 == k;
                assert(0 <= i < ps.len() && (ps[i]).0 == k);
            }
        }
        if exists|i: int| 0 <= i < ps.len() && (#[trigger] ps[i]).0 == k {
            let i = choose|i: int| 0 <= i < ps.len() && (#[trigger] ps[i]).0 == k;
            if i == ps.len() - 1 {
                assert(pairs_to_map(ps).contains_key(k));
            } else {
                assert((ps.drop_last()[i]).0 == k);
                assert(pairs_to_map(ps.drop_last()).contains_key(k));
            }
        }
    }
}

/// With unique keys, each pair is what the denoted map holds for its key.
pub proof fn lemma_pairs_to_map_at(ps: Seq<(Seq<char>, Seq<char>)>, i: int)
    requires
        unique_keys(ps),
        0 <= i < ps.len(),
    ensures
        pairs_to_map(ps).contains_key(ps[i].0),
        pairs_to_map(ps)[ps[i].0] == ps[i].1,
    decreases ps.len(),
{
    if i == ps.len() - 1 {
    } else {
        assert(forall|a: int, b: int|
            0 <= a < b < ps.drop_last().len() ==> (#[trigger] ps.drop_last()[a]).0 != (
            #[trigger] ps.drop_last()[b]).0);
        lemma_pairs_to_map_at(ps.drop_last(), i);
        assert(ps[i].0 != ps.last().0);
    }
}

/// Updating the pair at `i` to a new value denotes an insert, keys unique.
proof fn lemma_pairs_to_map_update(ps: Seq<(Seq<char>, Seq<char>)>, i: int, v: Seq<char>)
    requires
        unique_keys(ps),
        0 <= i < ps.len(),
    ensures
        pairs_to_map(ps.update(i, (ps[i].0, v))) == pairs_to_map(ps).insert(ps[i].0, v),
    decreases ps.len(),
{
    let q = ps.update(i, (ps[i].0, v));
    if i == ps.len() - 1 {
        assert(q.drop_last() =~= ps.drop_last());
        assert(pairs_to_map(q) =~= pairs_to_map(ps).insert(ps[i].0, v));
    } else {
        assert(forall|a: int, b: int|
            0 <= a < b < ps.drop_last().len() ==> (#[trigger] ps.drop_last()[a]).0 != (
            #[trigger] ps.drop_last()[b]).0);
        lemma_pairs_to_map_update(ps.drop_last(), i, v);
        assert(q.drop_last() =~= ps.drop_last().update(i, (ps[i].0, v)));
        assert(q.last() == ps.last());
        assert(ps[i].0 != ps.last().0);
        assert(pairs_to_map(q) =~= pairs_to_map(ps).insert(ps[i].0, v));
    }
}

/// One mapping table: unique non-empty keys to non-empty values.
pub struct MappingTable {
    pairs: Vec<(String, String)>,
}

impl MappingTable {
    /// The table's entries, in insertion order.
    pub closed spec fn pair_seq(self) -> Seq<(Seq<char>, Seq<char>)> {
        string_pairs_view(self.pairs@)
    }

    /// The table's entries as a map.
    pub open spec fn as_map(self) -> Map<Seq<char>, Seq<char>> {
        pairs_to_map(self.pair_seq())
    }

    /// Unique keys; no key or value is empty.
    pub open spec fn wf(self) -> bool {
        unique_keys(self.pair_seq()) && pairs_wf(self.pair_seq())
    }

    pub fn new() -> (t: MappingTable)
        ensures
            t.wf(),
            t.as_map().is_empty(),
            t.pair_seq().len() == 0,
    {
        let t = MappingTable { pairs: Vec::new() };
        proof {
            assert(t.pair_seq() =~= Seq::empty());
            assert(t.as_map() =~= Map::empty());
        }
        t
    }

    pub fn len(&self) -> (n: usize)
        ensures
            n == self.pair_seq().len(),
    {
        self.pairs.len()
    }

    pub fn key_at(&self, i: usize) -> (k: &String)
        requires
            i < self.pair_seq().len(),
        ensures
            k@ == self.pair_seq()[i as int].0,
    {
        &self.pairs[i].0
    }

    pub fn value_at(&self, i: usize) -> (v: &String)
        requires
            i < self.pair_seq().len(),
        ensures
            v@ == self.pair_seq()[i as int].1,
    {
        &self.pairs[i].1
    }

    /// Borrow the table's entries as owned string pairs.
    pub fn pairs(&self) -> (r: &Vec<(String, String)>)
        ensures
            string_pairs_view(r@) == self.pair_seq(),
    {
        &self.pairs
    }

    /// Insert an entry, overwriting the value of an existing key in place.
    pub fn upsert(&mut self, key: String, value: String)
        requires
            old(self).wf(),
            key@.len() > 0,
            value@.len() > 0,
        ensures
            final(self).wf(),
            final(self).as_map() == old(self).as_map().insert(key@, value@),
    {
        let n = self.pairs.len();
        let mut i: usize = 0;
        while i < n
            invariant
                self == old(self),
                old(self).wf(),
                key@.len() > 0,
                value@.len() > 0,
                n == self.pair_seq().len(),
                0 <= i <= n,
                forall|j: int| 0 <= j < i ==> (#[trigger] self.pair_seq()[j]).0 != key@,
            decreases n - i,
        {
            if self.pairs[i].0 == key {
                let ghost before = self.pair_seq();
                proof {
                    assert(before[i as int].0 == key@);
                    lemma_pairs_to_map_update(before, i as int, value@);
                }
                self.pairs.set(i, (key, value));
                proof {
                    assert(self.pair_seq() =~= before.update(i as int, (key@, value@)));
                    assert(self.pair_seq() =~= before.update(
                        i as int,
                        (before[i as int].0, value@),
                    ));
                    assert(forall|j: int|
                        0 <= j < self.pair_seq().len() ==> (#[trigger] self.pair_seq()[j]).0
                            == before[j].0);
                }
                return ;
            }
            i = i + 1;
        }
        let ghost before = self.pair_seq();
        self.pairs.push((key, value));
        proof {
            assert(self.pair_seq() =~= before.push((key@, value@)));
            assert(self.pair_seq().drop_last() =~= before);
            assert(final(self).as_map() =~= old(self).as_map().insert(key@, value@));
        }
    }
}

/// The map a whole table source denotes: each line folded in order, the last
/// entry winning on a repeated key; `None` on any malformed line.
pub open spec fn table_map_of_lines(lines: Seq<Seq<char>>) -> Option<Map<Seq<char>, Seq<char>>>
    decreases lines.len(),
{
    if lines.len() == 0 {
        Some(Map::empty())
    } else {
        match table_map_of_lines(lines.drop_last()) {
            None => None,
            Some(m) => match parse_line_spec(lines.last()) {
                LineParse::Malformed => None,
                LineParse::Blank => Some(m),
                LineParse::Entry(k, v) => Some(m.insert(k, v)),
            },
        }
    }
}

/// A malformed prefix makes the whole source malformed.
proof fn lemma_table_map_none_extends(lines: Seq<Seq<char>>, j: int)
    requires
        0 <= j <= lines.len(),
        table_map_of_lines(lines.take(j)) is None,
    ensures
        table_map_of_lines(lines) is None,
    decreases lines.len() - j,
{
    if j == lines.len() {
        assert(lines.take(j) =~= lines);
    } else {
        assert(lines.take(j + 1).drop_last() =~= lines.take(j));
        lemma_table_map_none_extends(lines, j + 1);
    }
}

/// Parse a table source given as its lines.
pub fn parse_table(lines: &Vec<String>) -> (r: Result<MappingTable, BuildError>)
    ensures
        match r {
            Ok(t) => t.wf() && Some(t.as_map()) == table_map_of_lines(lines.deep_view()),
            Err(e) => e == BuildError::MalformedLine && table_map_of_lines(lines.deep_view())
                is None,
        },
{
    let ghost ls = lines.deep_view();
    let mut t = MappingTable::new();
    let n = lines.len();
    proof {
        assert(ls.take(0) =~= Seq::empty());
    }
    let mut i: usize = 0;
    while i < n
        invariant
            n == lines@.len(),
            ls == lines.deep_view(),
            ls.len() == n,
            0 <= i <= n,
            t.wf(),
            Some(t.as_map()) == table_map_of_lines(ls.take(i as int)),
        decreases n - i,
    {
        proof {
            assert(ls[i as int] == lines@[i as int]@);
            assert(ls.take(i as int + 1).drop_last() =~= ls.take(i as int));
            assert(ls.take(i as int + 1).last() == ls[i as int]);
            lemma_parse_line_entry_nonempty(ls[i as int]);
        }
        match parse_line(&lines[i]) {
            Err(e) => {
                proof {
                    lemma_table_map_none_extends(ls, i as int + 1);
                }
                return Err(e);
            },
            Ok(None) => {},
            Ok(Some(kv)) => {
                let (k, v) = kv;
                t.upsert(k, v);
            },
        }
        i = i + 1;
    }
    proof {
        assert(ls.take(n as int) =~= ls);
    }
    Ok(t)
}

/// `r` reverses `f`: every entry of `r` swaps an entry of `f`, and every
/// value of `f` is a key of `r`.  When two entries of `f` share a value, the
/// key `r` holds for it is one of them, deliberately unspecified.
pub open spec fn reversal_of(r: Map<Seq<char>, Seq<char>>, f: Map<Seq<char>, Seq<char>>) -> bool {
    (forall|v: Seq<char>| #[trigger]
        r.contains_key(v) ==> f.contains_key(r[v]) && f[r[v]] == v) && (forall|k: Seq<char>|
        #[trigger] f.contains_key(k) ==> r.contains_key(f[k]))
}

/// The set of values a map holds.
pub open spec fn values_of(m: Map<Seq<char>, Seq<char>>) -> Set<Seq<char>> {
    Set::new(|v: Seq<char>| exists|k: Seq<char>| #[trigger] m.contains_key(k) && m[k] == v)
}

/// Swap every entry of a table.  Which key survives for a value that two
/// entries share is unspecified by design; the table's own entry order
/// decides it here.
pub fn reverse_table(t: &MappingTable) -> (r: MappingTable)
    requires
        t.wf(),
    ensures
        r.wf(),
        reversal_of(r.as_map(), t.as_map()),
        r.as_map().dom() == values_of(t.as_map()),
{
    let ghost ps = t.pair_seq();
    let mut acc = MappingTable::new();
    let n = t.len();
    let mut i: usize = 0;
    while i < n
        invariant
            t.wf(),
            ps == t.pair_seq(),
            n == ps.len(),
            0 <= i <= n,
            acc.wf(),
            forall|v: Seq<char>| #[trigger]
                acc.as_map().contains_key(v) ==> exists|j: int|
                    0 <= j < i && ps[j].0 == acc.as_map()[v] && (#[trigger] ps[j]).1 == v,
            forall|j: int| 0 <= j < i ==> acc.as_map().contains_key((#[trigger] ps[j]).1),
        decreases n - i,
    {
        let k = t.key_at(i).clone();
        let v = t.value_at(i).clone();
        let ghost before = acc.as_map();
        acc.upsert(v, k);
        proof {
            assert forall|w: Seq<char>| #[trigger] acc.as_map().contains_key(w) implies exists|
                j: int,
            |
                0 <= j < i + 1 && ps[j].0 == acc.as_map()[w] && (#[trigger] ps[j]).1 == w by {
                if w == ps[i as int].1 {
                    assert(0 <= i < i + 1 && ps[i as int].0 == acc.as_map()[w] && ps[i as int].1
                        == w);
                } else {
                    assert(before.contains_key(w));
                    let j = choose|j: int|
                        0 <= j < i && ps[j].0 == before[w] && (#[trigger] ps[j]).1 == w;
                    assert(ps[j].0 == acc.as_map()[w] && ps[j].1 == w);
                }
            }
        }
        i = i + 1;
    }
    proof {
        let f = t.as_map();
        let rm = acc.as_map();
        assert forall|v: Seq<char>| #[trigger] rm.contains_key(v) implies f.contains_key(rm[v])
            && f[rm[v]] == v by {
            let j = choose|j: int| 0 <= j < n && ps[j].0 == rm[v] && (#[trigger] ps[j]).1 == v;
            lemma_pairs_to_map_at(ps, j);
        }
        assert forall|k: Seq<char>| #[trigger] f.contains_key(k) implies rm.contains_key(f[k]) by {
            lemma_pairs_to_map_dom(ps, k);
            let j = choose|j: int| 0 <= j < ps.len() && (#[trigger] ps[j]).0 == k;
            lemma_pairs_to_map_at(ps, j);
            assert(rm.contains_key(ps[j].1));
        }
        assert forall|v: Seq<char>| #[trigger] values_of(f).contains(v) implies rm.contains_key(
            v,
        ) by {
            let k = choose|k: Seq<char>| #[trigger] f.contains_key(k) && f[k] == v;
            assert(rm.contains_key(f[k]));
        }
        assert(rm.dom() =~= values_of(f));
    }
    acc
}

/// A pair list without empty keys or values denotes well-formed entries,
/// whether or not its keys are unique: the surviving value for any key is
/// some pair's value.
pub proof fn lemma_pairs_entries_wf(ps: Seq<(Seq<char>, Seq<char>)>)
    requires
        pairs_wf(ps),
    ensures
        crate::dict::entries_wf(pairs_to_map(ps)),
    decreases ps.len(),
{
    if ps.len() > 0 {
        assert(forall|i: int| 0 <= i < ps.len() - 1 ==> #[trigger] ps.drop_last()[i] == ps[i]);
        lemma_pairs_entries_wf(ps.drop_last());
        assert(0 <= ps.len() - 1 < ps.len() && (ps[ps.len() - 1]).0.len() > 0 && (ps[ps.len()
            - 1]).1.len() > 0);
    }
}

/// A well-formed table denotes well-formed entries: no empty key, no empty
/// value.
pub proof fn lemma_table_entries_wf(t: MappingTable)
    requires
        t.wf(),
    ensures
        crate::dict::entries_wf(t.as_map()),
{
    lemma_pairs_entries_wf(t.pair_seq());
}

/// Merge `src` into `dst`: entries of `src` overwrite entries of `dst` with
/// the same key.
pub fn merge_into(dst: &mut MappingTable, src: &MappingTable)
    requires
        old(dst).wf(),
        src.wf(),
    ensures
        final(dst).wf(),
        final(dst).as_map() == old(dst).as_map().union_prefer_right(src.as_map()),
{
    let ghost ps = src.pair_seq();
    let n = src.len();
    proof {
        assert(ps.take(0) =~= Seq::empty());
        assert(pairs_to_map(ps.take(0)) =~= Map::empty());
        assert(dst.as_map().union_prefer_right(Map::empty()) =~= dst.as_map());
    }
    let mut i: usize = 0;
    while i < n
        invariant
            src.wf(),
            ps == src.pair_seq(),
            n == ps.len(),
            0 <= i <= n,
            dst.wf(),
            dst.as_map() == old(dst).as_map().union_prefer_right(pairs_to_map(ps.take(i as int))),
        decreases n - i,
    {
        let k = src.key_at(i).clone();
        let v = src.value_at(i).clone();
        let ghost before = dst.as_map();
        dst.upsert(k, v);
        proof {
            assert(ps.take(i as int + 1).drop_last() =~= ps.take(i as int));
            assert(ps.take(i as int + 1).last() == ps[i as int]);
            assert(pairs_to_map(ps.take(i as int + 1)) == pairs_to_map(ps.take(i as int)).insert(
                ps[i as int].0,
                ps[i as int].1,
            ));
            assert(dst.as_map() =~= old(dst).as_map().union_prefer_right(
                pairs_to_map(ps.take(i as int + 1)),
            ));
        }
        i = i + 1;
    }
    proof {
        assert(ps.take(n as int) =~= ps);
    }
}

} // verus!
