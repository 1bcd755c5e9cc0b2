//! Ordering a directory listing for display.
//!
//! The directory loader itself (reading a directory, classifying each child)
//! is an outside collaborator; it hands this module the raw, unordered
//! listing. [`get_entries`] puts that listing into canonical display order:
//! a stable sort by the case-insensitive name comparison of
//! [`crate::ordering`], so that entries with equal names keep their original
//! enumeration order.

use vstd::prelude::*;
use vstd::seq_lib::lemma_multiset_commutative;

use crate::entry::{children_of, Entry, EntryModel};
use crate::ordering::{lemma_name_le_total, lemma_name_le_trans, name_le, name_le_exec};

verus! {

/// The display order of two entries: case-insensitive less-or-equal on
/// their names.
pub open spec fn entry_le(a: EntryModel, b: EntryModel) -> bool {
    name_le(a.name, b.name)
}

/// The listing is in display order: every pair of entries is ordered by
/// [`entry_le`].
pub open spec fn sorted_by_name(s: Seq<EntryModel>) -> bool {
    forall|i: int, j: int| 0 <= i < j < s.len() ==> entry_le(#[trigger] s[i], #[trigger] s[j])
}

/// Inserts `e` into `s` directly before the first entry that sorts strictly
/// after it. When `s` is sorted and `e` is the latest-enumerated entry, this
/// places `e` after every entry with an equal name: the stable placement.
pub open spec fn insert_sorted(s: Seq<EntryModel>, e: EntryModel) -> Seq<EntryModel>
    decreases s.len(),
{
    if s.len() == 0 {
        seq![e]
    } else if entry_le(s[0], e) {
        seq![s[0]] + insert_sorted(s.drop_first(), e)
    } else {
        seq![e] + s
    }
}

/// The canonical display order of a raw listing: a stable insertion sort,
/// taking the raw entries in enumeration order.
pub open spec fn sort_spec(s: Seq<EntryModel>) -> Seq<EntryModel>
    decreases s.len(),
{
    if s.len() == 0 {
        Seq::empty()
    } else {
        insert_sorted(sort_spec(s.drop_last()), s.last())
    }
}

proof fn lemma_insert_sorted_at(s: Seq<EntryModel>, e: EntryModel, pos: int)
    requires
        0 <= pos <= s.len(),
        forall|t: int| 0 <= t < pos ==> entry_le(#[trigger] s[t], e),
        pos < s.len() ==> !entry_le(s[pos], e),
    ensures
        insert_sorted(s, e) == s.insert(pos, e),
    decreases s.len(),
{
    if s.len() == 0 {
        assert(insert_sorted(s, e) =~= s.insert(0, e));
    } else if pos == 0 {
        assert(insert_sorted(s, e) =~= s.insert(0, e));
    } else {
        assert(entry_le(s[0], e));
        assert forall|t: int| 0 <= t < pos - 1 implies entry_le(
            #[trigger] s.drop_first()[t],
            e,
        ) by {
            assert(s.drop_first()[t] == s[t + 1]);
        }
        assert(pos - 1 < s.drop_first().len() ==> !entry_le(s.drop_first()[pos - 1], e));
        lemma_insert_sorted_at(s.drop_first(), e, pos - 1);
        assert(seq![s[0]] + s.drop_first().insert(pos - 1, e) =~= s.insert(pos, e));
    }
}

proof fn lemma_insert_sorted_multiset(s: Seq<EntryModel>, e: EntryModel)
    ensures
        insert_sorted(s, e).to_multiset() == s.to_multiset().insert(e),
        insert_sorted(s, e).len() == s.len() + 1,
    decreases s.len(),
{
    broadcast use vstd::seq_lib::group_to_multiset_ensures;
    broadcast use vstd::multiset::group_multiset_axioms;

    if s.len() == 0 {
        assert(seq![e] =~= Seq::<EntryModel>::empty().push(e));
        assert(s.to_multiset() =~= Seq::<EntryModel>::empty().to_multiset());
        assert(insert_sorted(s, e).to_multiset() =~= s.to_multiset().insert(e));
    } else if entry_le(s[0], e) {
        lemma_insert_sorted_multiset(s.drop_first(), e);
        lemma_multiset_commutative(seq![s[0]], insert_sorted(s.drop_first(), e));
        lemma_multiset_commutative(seq![s[0]], s.drop_first());
        assert(seq![s[0]] + s.drop_first() =~= s);
        assert(seq![s[0]] =~= Seq::<EntryModel>::empty().push(s[0]));
        assert(insert_sorted(s, e).to_multiset() =~= s.to_multiset().insert(e));
    } else {
        lemma_multiset_commutative(seq![e], s);
        assert(seq![e] =~= Seq::<EntryModel>::empty().push(e));
        assert(insert_sorted(s, e).to_multiset() =~= s.to_multiset().insert(e));
    }
}

proof fn lemma_insert_sorted_sorted(s: Seq<EntryModel>, e: EntryModel)
    requires
        sorted_by_name(s),
    ensures
        sorted_by_name(insert_sorted(s, e)),
    decreases s.len(),
{
    broadcast use vstd::seq_lib::group_to_multiset_ensures;
    broadcast use vstd::multiset::group_multiset_axioms;

    if s.len() == 0 {
    } else if entry_le(s[0], e) {
        let rest = s.drop_first();
        assert forall|i: int, j: int| 0 <= i < j < rest.len() implies entry_le(
            #[trigger] rest[i],
            #[trigger] rest[j],
        ) by {
            assert(rest[i] == s[i + 1]);
            assert(rest[j] == s[j + 1]);
        }
        lemma_insert_sorted_sorted(rest, e);
        lemma_insert_sorted_multiset(rest, e);
        let inner = insert_sorted(rest, e);
        let whole = insert_sorted(s, e);
        assert(whole =~= seq![s[0]] + inner);
        assert forall|t: int| 0 <= t < inner.len() implies entry_le(s[0], #[trigger] inner[t]) by {
            assert(inner.contains(inner[t]));
            assert(inner.to_multiset().count(inner[t]) > 0);
            if inner[t] == e {
            } else {
                assert(rest.to_multiset().count(inner[t]) > 0);
                assert(rest.contains(inner[t]));
                let u = choose|u: int| 0 <= u < rest.len() && rest[u] == inner[t];
                assert(rest[u] == s[u + 1]);
                assert(entry_le(s[0], s[u + 1]));
            }
        }
        assert forall|i: int, j: int| 0 <= i < j < whole.len() implies entry_le(
            #[trigger] whole[i],
            #[trigger] whole[j],
        ) by {
            if i == 0 {
                assert(whole[j] == inner[j - 1]);
            } else {
                assert(whole[i] == inner[i - 1]);
                assert(whole[j] == inner[j - 1]);
            }
        }
    } else {
        let whole = insert_sorted(s, e);
        assert(whole =~= seq![e] + s);
        lemma_name_le_total(s[0].name, e.name);
        assert(entry_le(e, s[0]));
        assert forall|i: int, j: int| 0 <= i < j < whole.len() implies entry_le(
            #[trigger] whole[i],
            #[trigger] whole[j],
        ) by {
            if i == 0 {
                assert(whole[j] == s[j - 1]);
                if j - 1 > 0 {
                    assert(entry_le(s[0], s[j - 1]));
                    lemma_name_le_trans(e.name, s[0].name, s[j - 1].name);
                }
            } else {
                assert(whole[i] == s[i - 1]);
                assert(whole[j] == s[j - 1]);
            }
        }
    }
}

/// The law of the display order: sorting a raw listing yields a sequence
/// that is sorted by the case-insensitive name comparison, has the same
/// length, and holds exactly the same entries (as a multiset).
pub proof fn lemma_sort_spec_ensures(s: Seq<EntryModel>)
    ensures
        sorted_by_name(sort_spec(s)),
        sort_spec(s).to_multiset() == s.to_multiset(),
        sort_spec(s).len() == s.len(),
    decreases s.len(),
{
    broadcast use vstd::seq_lib::group_to_multiset_ensures;
    broadcast use vstd::multiset::group_multiset_axioms;

    if s.len() == 0 {
        assert(sort_spec(s).to_multiset() =~= s.to_multiset());
    } else {
        let prefix = s.drop_last();
        lemma_sort_spec_ensures(prefix);
        lemma_insert_sorted_sorted(sort_spec(prefix), s.last());
        lemma_insert_sorted_multiset(sort_spec(prefix), s.last());
        assert(prefix.push(s.last()) =~= s);
        assert(sort_spec(s).to_multiset() =~= s.to_multiset());
    }
}

/// Sorting neither adds nor drops entries: membership is unchanged.
pub proof fn lemma_sort_spec_contains(s: Seq<EntryModel>, x: EntryModel)
    ensures
        sort_spec(s).contains(x) <==> s.contains(x),
{
    broadcast use vstd::seq_lib::group_to_multiset_ensures;

    lemma_sort_spec_ensures(s);
    assert(s.contains(x) <==> s.to_multiset().count(x) > 0);
    assert(sort_spec(s).contains(x) <==> sort_spec(s).to_multiset().count(x) > 0);
}

/// A sorted listing of the children of `dir` still lists children of `dir`.
pub proof fn lemma_sort_spec_children_of(s: Seq<EntryModel>, dir: Seq<Seq<char>>)
    requires
        children_of(s, dir),
    ensures
        children_of(sort_spec(s), dir),
{
    let sorted = sort_spec(s);
    assert forall|i: int| 0 <= i < sorted.len() implies (#[trigger] sorted[i]).path == dir.push(
        sorted[i].name,
    ) by {
        lemma_sort_spec_contains(s, sorted[i]);
        assert(s.contains(sorted[i]));
        let j = choose|j: int| 0 <= j < s.len() && s[j] == sorted[i];
        assert(s[j].path == dir.push(s[j].name));
    }
}

/// Puts a raw directory listing into canonical display order: the stable,
/// case-insensitive sort of [`sort_spec`].
pub fn get_entries(raw: Vec<Entry>) -> (r: Vec<Entry>)
    ensures
        r.deep_view() == sort_spec(raw.deep_view()),
{
    let ghost orig: Seq<EntryModel> = raw.deep_view();
    let mut rest = raw;
    let mut result: Vec<Entry> = Vec::new();
    proof {
        assert(rest.deep_view() =~= orig.skip(0));
        assert(result.deep_view() =~= sort_spec(orig.take(0)));
    }
    while rest.len() > 0
        invariant
            rest.len() <= orig.len(),
            rest.deep_view() == orig.skip(orig.len() - rest.len()),
            result.deep_view() == sort_spec(orig.take(orig.len() - rest.len())),
        decreases rest.len(),
    {
        let ghost k: int = orig.len() - rest.len();
        let ghost old_rest = rest.deep_view();
        let ghost old_result = result.deep_view();
        let e = rest.remove(0);
        proof {
            assert(e.deep_view() == old_rest[0]);
            assert(old_rest[0] == orig[k]);
            assert(rest.deep_view() =~= old_rest.drop_first());
            assert(old_rest.drop_first() =~= orig.skip(k + 1));
        }
        let ghost em = e.deep_view();
        let mut j: usize = 0;
        loop
            invariant
                j <= result.len(),
                em == e.deep_view(),
                result.deep_view() == old_result,
                forall|t: int| 0 <= t < j ==> entry_le(#[trigger] result.deep_view()[t], em),
            ensures
                j <= result.len(),
                forall|t: int| 0 <= t < j ==> entry_le(#[trigger] result.deep_view()[t], em),
                j < result.len() ==> !entry_le(result.deep_view()[j as int], em),
            decreases result.len() - j,
        {
            if j == result.len() {
                break ;
            }
            let keep_going = name_le_exec(result[j].name.as_str(), e.name.as_str());
            proof {
                assert(result.deep_view()[j as int].name == result@[j as int].name@);
                assert(em.name == e.name@);
                assert(keep_going == entry_le(result.deep_view()[j as int], em));
            }
            if !keep_going {
                break ;
            }
            j = j + 1;
        }
        proof {
            lemma_insert_sorted_at(old_result, em, j as int);
        }
        result.insert(j, e);
        proof {
            assert(result.deep_view() =~= old_result.insert(j as int, em));
            assert(orig.take(k + 1).drop_last() =~= orig.take(k));
            assert(orig.take(k + 1).last() == orig[k]);
            assert(result.deep_view() == sort_spec(orig.take(k + 1)));
        }
    }
    proof {
        assert(orig.take(orig.len() as int) =~= orig);
    }
    result
}

} // verus!
