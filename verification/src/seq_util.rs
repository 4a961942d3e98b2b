//! Small sequence utilities shared by the specifications.

use vstd::prelude::*;

verus! {

/// Concatenation of a sequence of character sequences, in order.
pub open spec fn concat_all(ts: Seq<Seq<char>>) -> Seq<char>
    decreases ts.len(),
{
    if ts.len() == 0 {
        Seq::empty()
    } else {
        ts.first() + concat_all(ts.drop_first())
    }
}

pub proof fn lemma_concat_all_push(ts: Seq<Seq<char>>, t: Seq<char>)
    ensures
        concat_all(ts.push(t)) == concat_all(ts) + t,
    decreases ts.len(),
{
    if ts.len() == 0 {
        assert(ts.push(t).drop_first() =~= Seq::<Seq<char>>::empty());
        assert(concat_all(ts.push(t).drop_first()) =~= Seq::<char>::empty());
        assert(concat_all(ts.push(t)) =~= t + Seq::<char>::empty());
        assert(t + Seq::<char>::empty() =~= t);
        assert(concat_all(ts) + t =~= t);
    } else {
        assert(ts.push(t).drop_first() =~= ts.drop_first().push(t));
        lemma_concat_all_push(ts.drop_first(), t);
        assert(concat_all(ts.push(t)) =~= ts.first() + (concat_all(ts.drop_first()) + t));
        assert(ts.first() + (concat_all(ts.drop_first()) + t) =~= (ts.first() + concat_all(
            ts.drop_first(),
        )) + t);
    }
}

/// If some element of `ts` is non-empty, so is the concatenation.
pub proof fn lemma_concat_all_nonempty(ts: Seq<Seq<char>>, i: int)
    requires
        0 <= i < ts.len(),
        ts[i].len() > 0,
    ensures
        concat_all(ts).len() > 0,
    decreases ts.len(),
{
    if i == 0 {
    } else {
        lemma_concat_all_nonempty(ts.drop_first(), i - 1);
    }
}

/// Appending an element to a sequence inserts it into the element set.
pub proof fn lemma_to_set_push<A>(s: Seq<A>, x: A)
    ensures
        s.push(x).to_set() == s.to_set().insert(x),
{
    assert forall|y: A| #[trigger] s.push(x).to_set().contains(y) implies s.to_set().insert(
        x,
    ).contains(y) by {
        let i = choose|i: int| 0 <= i < s.push(x).len() && s.push(x)[i] == y;
        if i < s.len() {
            assert(s[i] == y);
        }
    }
    assert forall|y: A| #[trigger] s.to_set().insert(x).contains(y) implies s.push(
        x,
    ).to_set().contains(y) by {
        if y == x {
            assert(s.push(x)[s.len() as int] == y);
        } else {
            let i = choose|i: int| 0 <= i < s.len() && s[i] == y;
            assert(s.push(x)[i] == y);
        }
    }
    assert(s.push(x).to_set() =~= s.to_set().insert(x));
}

/// Every suffix of an element of `ts` is a prefix of some suffix of the
/// concatenation: the elements sit contiguously inside it.
pub proof fn lemma_concat_elem_suffix(ts: Seq<Seq<char>>, j: int, p: int) -> (q: int)
    requires
        0 <= j < ts.len(),
        0 <= p <= ts[j].len(),
    ensures
        0 <= q <= concat_all(ts).len(),
        ts[j].skip(p).is_prefix_of(concat_all(ts).skip(q)),
    decreases j,
{
    if j == 0 {
        assert(concat_all(ts) == ts.first() + concat_all(ts.drop_first()));
        assert(concat_all(ts).skip(p) =~= ts[0].skip(p) + concat_all(ts.drop_first()));
        assert(ts[0].skip(p).is_prefix_of(concat_all(ts).skip(p))) by {
            assert(concat_all(ts).skip(p).take(ts[0].skip(p).len() as int) =~= ts[0].skip(p));
        }
        p
    } else {
        let q0 = lemma_concat_elem_suffix(ts.drop_first(), j - 1, p);
        let q = ts.first().len() as int + q0;
        assert(concat_all(ts) == ts.first() + concat_all(ts.drop_first()));
        assert(concat_all(ts).skip(q) =~= concat_all(ts.drop_first()).skip(q0));
        q
    }
}

/// If the concatenation is non-empty, some element is non-empty.
pub proof fn lemma_concat_all_nonempty_inv(ts: Seq<Seq<char>>) -> (i: int)
    requires
        concat_all(ts).len() > 0,
    ensures
        0 <= i < ts.len(),
        ts[i].len() > 0,
    decreases ts.len(),
{
    if ts.first().len() > 0 {
        0
    } else {
        lemma_concat_all_nonempty_inv(ts.drop_first()) + 1
    }
}

} // verus!
