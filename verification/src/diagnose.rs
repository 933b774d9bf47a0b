//! Suggestions for a text that is no word of the vocabulary but close to
//! one.

use vstd::prelude::*;
use crate::distance::{distance_within, edit_distance};
use crate::error::{text_views, ErrorView, Mistake, MistakeView, ParsingError};
use crate::text::string_of;
use crate::vocabulary::{
    lemma_vocabulary_sorted, spelling_at, text_before, vocabulary, vocabulary_len, word_at,
    Vocabulary, Word,
};

verus! {

/// The largest distance at which a word is still suggested.
pub open spec fn distance_limit() -> nat {
    2
}

/// Whether a word at distance `d` is close enough to a text of `written_len`
/// characters: `d` is at most 2 and at most half that length.
pub open spec fn close_enough(d: nat, written_len: nat) -> bool {
    d <= distance_limit() && 2 * d <= written_len
}

/// Among the first `k` words of the vocabulary, those at distance exactly
/// `d` from `written` that are close enough, by index, in the order of the
/// vocabulary.
pub open spec fn candidates_at(written: Seq<char>, d: nat, k: int) -> Seq<int>
    decreases k,
{
    if k <= 0 {
        Seq::empty()
    } else {
        let rest = candidates_at(written, d, k - 1);
        if edit_distance(written, spelling_at(k - 1)) == d && close_enough(d, written.len()) {
            rest.push(k - 1)
        } else {
            rest
        }
    }
}

/// The words that are close enough to `written`, by index: closest first,
/// and words at the same distance in the order of the vocabulary.
pub open spec fn ranked(written: Seq<char>) -> Seq<int> {
    candidates_at(written, 0, vocabulary_len() as int) + candidates_at(
        written,
        1,
        vocabulary_len() as int,
    ) + candidates_at(written, 2, vocabulary_len() as int)
}

/// The close words at a distance below `d`, closest first.
pub open spec fn ranked_below(written: Seq<char>, d: nat) -> Seq<int>
    decreases d,
{
    if d == 0 {
        Seq::empty()
    } else {
        ranked_below(written, (d - 1) as nat) + candidates_at(
            written,
            (d - 1) as nat,
            vocabulary_len() as int,
        )
    }
}

/// A list of indices as mathematical integers.
pub open spec fn indices_of(order: Seq<usize>) -> Seq<int> {
    Seq::new(order.len(), |i: int| order[i] as int)
}

/// The spellings of the words at `indices`.
pub open spec fn spellings_of(indices: Seq<int>) -> Seq<Seq<char>> {
    Seq::new(indices.len(), |i: int| spelling_at(indices[i]))
}

/// What is reported of `written`: nothing when no word is close enough;
/// else the closest word as the likely one and the rest as alternatives,
/// under the kind of the closest.
pub open spec fn diagnosis(written: Seq<char>) -> Option<ErrorView> {
    let order = ranked(written);
    if order.len() == 0 {
        None
    } else {
        let mistake = MistakeView {
            written,
            potential: spelling_at(order[0]),
            other_potentials: spellings_of(order.drop_first()),
        };
        match word_at(order[0]) {
            Word::Keyword(_) => Some(ErrorView::InvalidKeyword(mistake)),
            Word::Operator(_) => Some(ErrorView::InvalidOperator(mistake)),
        }
    }
}

/// The view of what [`Vocabulary::diagnose`] hands back.
pub open spec fn diagnosis_view(found: Option<ParsingError>) -> Option<ErrorView> {
    match found {
        Some(e) => Some(e@),
        None => None,
    }
}

/// The distance between `written` and the word at `index`.
pub open spec fn word_distance(written: Seq<char>, index: int) -> nat {
    edit_distance(written, spelling_at(index))
}

/// Whether the word at `a` is ranked before the word at `b`: it is closer
/// to `written`, or as close and first in lexicographic order.
pub open spec fn ranks_before(written: Seq<char>, a: int, b: int) -> bool {
    word_distance(written, a) < word_distance(written, b) || (word_distance(written, a)
        == word_distance(written, b) && text_before(spelling_at(a), spelling_at(b)))
}

/// What [`candidates_at`] holds: words among the first `k` at distance `d`
/// that are close enough, each once, in the order of the vocabulary, and
/// all of them.
pub proof fn lemma_candidates(written: Seq<char>, d: nat, k: int)
    requires
        0 <= k <= vocabulary_len(),
    ensures
        forall|i: int|
            0 <= i < candidates_at(written, d, k).len() ==> {
                &&& 0 <= #[trigger] candidates_at(written, d, k)[i] < k
                &&& word_distance(written, candidates_at(written, d, k)[i]) == d
                &&& close_enough(d, written.len())
            },
        forall|i: int, j: int|
            0 <= i < j < candidates_at(written, d, k).len() ==> #[trigger] candidates_at(
                written,
                d,
                k,
            )[i] < #[trigger] candidates_at(written, d, k)[j],
        forall|x: int|
            0 <= x < k && #[trigger] word_distance(written, x) == d && close_enough(
                d,
                written.len(),
            ) ==> candidates_at(written, d, k).contains(x),
    decreases k,
{
    if k > 0 {
        lemma_candidates(written, d, k - 1);
        let rest = candidates_at(written, d, k - 1);
        let all = candidates_at(written, d, k);
        assert forall|x: int|
            0 <= x < k && #[trigger] word_distance(written, x) == d && close_enough(
                d,
                written.len(),
            ) implies all.contains(x) by {
            if x < k - 1 {
                assert(rest.contains(x));
                let i = choose|i: int| 0 <= i < rest.len() && rest[i] == x;
                assert(all[i] == x);
            } else {
                assert(all[all.len() - 1] == x);
            }
        }
    }
}

/// Completeness of the ranking: a word is ranked exactly when it is close
/// enough to what was written.
pub proof fn lemma_ranked_complete(written: Seq<char>, index: int)
    requires
        0 <= index < vocabulary_len(),
    ensures
        ranked(written).contains(index) <==> close_enough(
            word_distance(written, index),
            written.len(),
        ),
{
    let n = vocabulary_len() as int;
    let c0 = candidates_at(written, 0, n);
    let c1 = candidates_at(written, 1, n);
    let c2 = candidates_at(written, 2, n);
    lemma_candidates(written, 0, n);
    lemma_candidates(written, 1, n);
    lemma_candidates(written, 2, n);
    let all = ranked(written);
    if all.contains(index) {
        let i = choose|i: int| 0 <= i < all.len() && all[i] == index;
        if i < c0.len() {
            assert(all[i] == c0[i]);
        } else if i < c0.len() + c1.len() {
            assert(all[i] == c1[i - c0.len()]);
        } else {
            assert(all[i] == c2[i - c0.len() - c1.len()]);
        }
    }
    if close_enough(word_distance(written, index), written.len()) {
        let d = word_distance(written, index);
        if d == 0 {
            let i = choose|i: int| 0 <= i < c0.len() && c0[i] == index;
            assert(all[i] == index);
        } else if d == 1 {
            let i = choose|i: int| 0 <= i < c1.len() && c1[i] == index;
            assert(all[c0.len() + i] == index);
        } else {
            let i = choose|i: int| 0 <= i < c2.len() && c2[i] == index;
            assert(all[c0.len() + c1.len() + i] == index);
        }
    }
}

/// Order of the ranking: of two ranked words the earlier is closer to what
/// was written, or as close and first in lexicographic order. So the first
/// is a closest word, and no word is ranked twice.
pub proof fn lemma_ranked_sorted(written: Seq<char>, i: int, j: int)
    requires
        0 <= i < j < ranked(written).len(),
    ensures
        ranks_before(written, ranked(written)[i], ranked(written)[j]),
        ranked(written)[i] != ranked(written)[j],
{
    let n = vocabulary_len() as int;
    let c0 = candidates_at(written, 0, n);
    let c1 = candidates_at(written, 1, n);
    let c2 = candidates_at(written, 2, n);
    lemma_candidates(written, 0, n);
    lemma_candidates(written, 1, n);
    lemma_candidates(written, 2, n);
    let all = ranked(written);
    let a = all[i];
    let b = all[j];
    let da: nat = if i < c0.len() {
        0
    } else if i < c0.len() + c1.len() {
        1
    } else {
        2
    };
    let db: nat = if j < c0.len() {
        0
    } else if j < c0.len() + c1.len() {
        1
    } else {
        2
    };
    let ia = if da == 0 {
        i
    } else if da == 1 {
        i - c0.len()
    } else {
        i - c0.len() - c1.len()
    };
    let ib = if db == 0 {
        j
    } else if db == 1 {
        j - c0.len()
    } else {
        j - c0.len() - c1.len()
    };
    assert(a == candidates_at(written, da, n)[ia]);
    assert(b == candidates_at(written, db, n)[ib]);
    assert(word_distance(written, a) == da);
    assert(word_distance(written, b) == db);
    if da == db {
        assert(a < b);
        lemma_vocabulary_sorted(a, b);
    }
}

impl Vocabulary {
    /// Compares `written` with every word of the vocabulary and reports the
    /// words that are close enough, if there are any.
    pub fn diagnose(&self, written: &Vec<char>) -> (found: Option<ParsingError>)
        requires
            self.wf(),
        ensures
            diagnosis_view(found) == diagnosis(written@),
    {
        let count = self.entries.len();
        let mut distances: Vec<Option<usize>> = Vec::new();
        let mut k: usize = 0;
        while k < count
            invariant
                self.wf(),
                count == vocabulary_len(),
                k <= count,
                distances@.len() == k,
                forall|i: int| 0 <= i < k ==> #[trigger] distances@[i] == if edit_distance(written@, spelling_at(i)) <= 2 {
                    Some(edit_distance(written@, spelling_at(i)) as usize)
                } else {
                    None::<usize>
                },
            decreases count - k,
        {
            assert(self.entries@[k as int]@ == vocabulary()[k as int]);
            let d = distance_within(written, &self.entries[k].spelling, 2);
            distances.push(d);
            k = k + 1;
        }
        let mut order: Vec<usize> = Vec::new();
        let mut d: usize = 0;
        while d <= 2
            invariant
                self.wf(),
                count == vocabulary_len(),
                d <= 3,
                distances@.len() == count,
                forall|i: int| 0 <= i < count ==> #[trigger] distances@[i] == if edit_distance(written@, spelling_at(i)) <= 2 {
                    Some(edit_distance(written@, spelling_at(i)) as usize)
                } else {
                    None::<usize>
                },
                forall|i: int| 0 <= i < order@.len() ==> 0 <= #[trigger] order@[i] < count,
                indices_of(order@) == ranked_below(written@, d as nat),
            decreases 3 - d,
        {
            let ghost before = indices_of(order@);
            let mut k: usize = 0;
            while k < count
                invariant
                    count == vocabulary_len(),
                    d <= 2,
                    k <= count,
                    distances@.len() == count,
                    forall|i: int| 0 <= i < count ==> #[trigger] distances@[i] == if edit_distance(written@, spelling_at(i)) <= 2 {
                        Some(edit_distance(written@, spelling_at(i)) as usize)
                    } else {
                        None::<usize>
                    },
                    forall|i: int| 0 <= i < order@.len() ==> 0 <= #[trigger] order@[i] < count,
                    indices_of(order@) == before + candidates_at(written@, d as nat, k as int),
                decreases count - k,
            {
                let near = match distances[k] {
                    Some(found) => found == d && d <= written.len() / 2,
                    None => false,
                };
                if near {
                    let ghost earlier = order@;
                    order.push(k);
                    assert(indices_of(order@) =~= indices_of(earlier).push(k as int));
                    assert(before + candidates_at(written@, d as nat, k as int).push(k as int)
                        =~= (before + candidates_at(written@, d as nat, k as int)).push(k as int));
                }
                k = k + 1;
            }
            d = d + 1;
        }
        assert(ranked_below(written@, 3) =~= ranked(written@)) by {
            reveal_with_fuel(ranked_below, 4);
        }
        if order.len() == 0 {
            return None;
        }
        let ghost indices = indices_of(order@);
        let first = order[0];
        assert(self.entries@[first as int]@ == vocabulary()[first as int]);
        let potential = string_of(&self.entries[first].spelling, 0, self.entries[first].spelling.len());
        assert(potential@ =~= spelling_at(indices[0]));
        let mut others: Vec<String> = Vec::new();
        let mut i: usize = 1;
        while i < order.len()
            invariant
                self.wf(),
                count == vocabulary_len(),
                1 <= i <= order@.len(),
                indices == indices_of(order@),
                forall|i: int| 0 <= i < order@.len() ==> 0 <= #[trigger] order@[i] < count,
                others@.len() == i - 1,
                forall|j: int| 0 <= j < i - 1 ==> (#[trigger] others@[j])@ == spelling_at(indices[j + 1]),
            decreases order@.len() - i,
        {
            let at = order[i];
            assert(self.entries@[at as int]@ == vocabulary()[at as int]);
            let other = string_of(&self.entries[at].spelling, 0, self.entries[at].spelling.len());
            assert(other@ =~= spelling_at(indices[i as int]));
            others.push(other);
            i = i + 1;
        }
        assert(text_views(others@) =~= spellings_of(indices.drop_first()));
        let text = string_of(written, 0, written.len());
        assert(text@ =~= written@);
        let mistake = Mistake { written: text, potential, other_potentials: others };
        match self.entries[first].word {
            Word::Keyword(_) => Some(ParsingError::InvalidKeyword(mistake)),
            Word::Operator(_) => Some(ParsingError::InvalidOperator(mistake)),
        }
    }
}

} // verus!
