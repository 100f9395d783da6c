//! The phrase table: an ordered collection of source/target template pairs.

use vstd::prelude::*;
use vstd::multiset::group_multiset_axioms;
use vstd::seq_lib::group_to_multiset_ensures;
use vstd::seq_lib::to_multiset_build;
use vstd::seq_lib::to_multiset_remove;
use vstd::string::StrSliceExecFns;

verus! {

/// One known phrase pair: a source-language template and its target-language
/// counterpart. Templates may contain placeholder tokens of the form `{$name}`.
#[derive(Debug)]
pub struct TranslateEntry {
    pub en: String,
    pub ja: String,
}

/// The phrase-table ordering policy: entries stand in descending order of the
/// character length of their source template, so that a longer, more specific
/// phrase is tried before any shorter phrase it textually contains.
pub open spec fn sorted_desc(s: Seq<TranslateEntry>) -> bool {
    forall|i: int, j: int| 0 <= i < j < s.len() ==> s[i].en@.len() >= s[j].en@.len()
}

/// Builds the phrase table from raw entries: the same entries, reordered so
/// that source templates of greater character length come first. Among entries
/// of equal length the earlier one keeps its precedence.
pub fn build_phrase_table(entries: Vec<TranslateEntry>) -> (r: Vec<TranslateEntry>)
    ensures
        sorted_desc(r@),
        r@.to_multiset() == entries@.to_multiset(),
{
    broadcast use group_to_multiset_ensures, group_multiset_axioms;

    let mut rest = entries;
    let mut r: Vec<TranslateEntry> = Vec::new();
    let ghost all = rest@;
    proof {
        assert(r@.to_multiset().add(rest@.to_multiset()) =~= all.to_multiset());
    }
    while rest.len() > 0
        invariant
            sorted_desc(r@),
            r@.to_multiset().add(rest@.to_multiset()) == all.to_multiset(),
            forall|i: int, j: int|
                0 <= i < r@.len() && 0 <= j < rest@.len() ==> r@[i].en@.len() >= rest@[j].en@.len(),
        decreases rest.len(),
    {
        let mut best: usize = 0;
        let mut k: usize = 1;
        while k < rest.len()
            invariant
                0 < rest.len(),
                best < k <= rest.len(),
                forall|m: int| 0 <= m < k ==> rest@[best as int].en@.len() >= rest@[m].en@.len(),
            decreases rest.len() - k,
        {
            if rest[k].en.as_str().unicode_len() > rest[best].en.as_str().unicode_len() {
                best = k;
            }
            k = k + 1;
        }
        let ghost old_r = r@;
        let ghost old_rest = rest@;
        let e = rest.remove(best);
        r.push(e);
        proof {
            assert(r@ == old_r.push(e));
            assert(rest@ == old_rest.remove(best as int));
            to_multiset_build(old_r, e);
            to_multiset_remove(old_rest, best as int);
            assert(old_rest.to_multiset().count(e) > 0) by {
                assert(old_rest[best as int] == e);
                assert(old_rest.contains(e));
                vstd::seq_lib::to_multiset_contains(old_rest, e);
            }
            assert(r@.to_multiset().add(rest@.to_multiset()) =~= old_r.to_multiset().add(
                old_rest.to_multiset(),
            ));
            assert(forall|j: int|
                0 <= j < rest@.len() ==> old_rest.contains(#[trigger] rest@[j])) by {
                assert(forall|j: int|
                    0 <= j < rest@.len() ==> #[trigger] rest@[j] == if j < best {
                        old_rest[j]
                    } else {
                        old_rest[j + 1]
                    });
            }
        }
    }
    r
}

} // verus!
