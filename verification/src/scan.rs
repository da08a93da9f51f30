//! Word scoring and the champion scan.
//!
//! A word's score is the sum of the table distances between each pair of
//! consecutive characters, divided by the word's character count (not its
//! gap count: short words are deliberately penalized). Words of fewer than
//! two characters score zero, the empty word by explicit choice rather than
//! a division by zero. A word with a consecutive pair outside the table
//! cannot be scored; the scan skips such a word and keeps its champion.
//!
//! The scan keeps the first word whose score strictly exceeds every earlier
//! score: ties keep the earlier champion.

use vstd::prelude::*;
use vstd::arithmetic::div_mod::lemma_multiply_divide_lt;
use crate::table::DistanceTable;

verus! {

/// Whether every consecutive pair of `w` can be looked up in the table.
/// Words of fewer than two characters have no pairs and always qualify.
pub open spec fn word_ok(t: DistanceTable, w: Seq<char>) -> bool {
    w.len() < 2 || forall|k: int| 0 <= k < w.len() ==> t.contains_key(#[trigger] w[k])
}

/// The sum of the table distances of the first `k - 1` consecutive pairs of
/// `w`.
pub open spec fn pair_sum(t: DistanceTable, w: Seq<char>, k: int) -> int
    decreases k,
{
    if k <= 1 {
        0
    } else {
        pair_sum(t, w, k - 1) + t.entry(w[k - 2], w[k - 1])
    }
}

/// The score of `w`: the sum of its consecutive-pair distances divided by
/// its length. The empty word scores zero.
pub open spec fn word_score(t: DistanceTable, w: Seq<char>) -> int {
    if w.len() == 0 {
        0
    } else {
        pair_sum(t, w, w.len() as int) / (w.len() as int)
    }
}

/// Computes the score of `word`, or nothing when a consecutive pair of
/// characters cannot be looked up in the table.
pub fn get_distance(table: &DistanceTable, word: &Vec<char>) -> (r: Option<u64>)
    requires
        table.wf(),
    ensures
        match r {
            Some(s) => word_ok(*table, word@) && s == word_score(*table, word@)
                && s < 1073741824,
            None => !word_ok(*table, word@),
        },
{
    let len = word.len();
    if len < 2 {
        return Some(0);
    }
    let mut acc: u128 = 0;
    let mut i: usize = 1;
    while i < len
        invariant
            table.wf(),
            len == word@.len(),
            2 <= len,
            1 <= i <= len,
            acc == pair_sum(*table, word@, i as int),
            acc <= (i - 1) as int * 1073741824,
            i > 1 ==> forall|k: int| 0 <= k < i ==> table.contains_key(#[trigger] word@[k]),
        decreases len - i,
    {
        let prev = word[i - 1];
        let cur = word[i];
        match table.get(cur, prev) {
            Some(d) => {
                proof {
                    crate::table::lemma_table_symmetric(*table, cur, prev);
                }
                acc = acc + d as u128;
            },
            None => {
                return None;
            },
        }
        i += 1;
    }
    proof {
        assert(word_ok(*table, word@));
        assert(acc < (len as int) * 1073741824);
        lemma_multiply_divide_lt(acc as int, len as int, 1073741824);
    }
    let s = acc / (len as u128);
    Some(s as u64)
}

/// The champion after one more word is offered: the word replaces the
/// champion exactly when it can be scored and its score strictly exceeds
/// the champion's.
pub open spec fn scan_step(
    t: DistanceTable,
    best_word: Seq<char>,
    best_score: int,
    w: Seq<char>,
) -> (Seq<char>, int) {
    if word_ok(t, w) && word_score(t, w) > best_score {
        (w, word_score(t, w))
    } else {
        (best_word, best_score)
    }
}

/// The champion after scanning a whole word list, starting from the empty
/// champion with score zero.
pub open spec fn scan_spec(t: DistanceTable, words: Seq<Seq<char>>) -> (Seq<char>, int)
    decreases words.len(),
{
    if words.len() == 0 {
        (Seq::empty(), 0)
    } else {
        let prev = scan_spec(t, words.drop_last());
        scan_step(t, prev.0, prev.1, words.last())
    }
}

/// The running champion of a scan: the best word seen so far and its score.
pub struct BestResult {
    pub word: Vec<char>,
    pub score: u64,
}

impl BestResult {
    /// The starting champion: the empty word with score zero.
    pub fn new() -> (b: BestResult)
        ensures
            b.word@ == Seq::<char>::empty(),
            b.score == 0,
    {
        BestResult { word: Vec::new(), score: 0 }
    }

    /// Offers one word: the champion is replaced exactly when the word can
    /// be scored and its score strictly exceeds the champion's.
    pub fn offer(&mut self, table: &DistanceTable, word: &Vec<char>)
        requires
            table.wf(),
        ensures
            final(self).word@ == scan_step(
                *table,
                old(self).word@,
                old(self).score as int,
                word@,
            ).0,
            final(self).score as int == scan_step(
                *table,
                old(self).word@,
                old(self).score as int,
                word@,
            ).1,
    {
        match get_distance(table, word) {
            Some(s) => {
                if s > self.score {
                    self.word = clone_word(word);
                    self.score = s;
                }
            },
            None => {},
        }
    }
}

/// An owned copy of a word.
fn clone_word(w: &Vec<char>) -> (r: Vec<char>)
    ensures
        r@ == w@,
{
    let r = w.clone();
    proof {
        assert(r@ =~= w@);
    }
    r
}

/// Scans a word list and returns the champion: the first word whose score
/// strictly exceeds every other score, or the empty word with score zero
/// when the list is empty or no word scores above zero.
pub fn scan_words(table: &DistanceTable, words: &Vec<Vec<char>>) -> (r: BestResult)
    requires
        table.wf(),
    ensures
        r.word@ == scan_spec(*table, words@.map_values(|w: Vec<char>| w@)).0,
        r.score as int == scan_spec(*table, words@.map_values(|w: Vec<char>| w@)).1,
{
    let ghost ws = words@.map_values(|w: Vec<char>| w@);
    let mut best = BestResult::new();
    proof {
        assert(ws.take(0) =~= Seq::<Seq<char>>::empty());
    }
    let mut i: usize = 0;
    while i < words.len()
        invariant
            table.wf(),
            ws == words@.map_values(|w: Vec<char>| w@),
            ws.len() == words@.len(),
            i <= words@.len(),
            best.word@ == scan_spec(*table, ws.take(i as int)).0,
            best.score as int == scan_spec(*table, ws.take(i as int)).1,
        decreases words@.len() - i,
    {
        best.offer(table, &words[i]);
        proof {
            assert(ws.take(i + 1).drop_last() =~= ws.take(i as int));
            assert(ws.take(i + 1).last() == ws[i as int]);
        }
        i += 1;
    }
    proof {
        assert(ws.take(words@.len() as int) =~= ws);
    }
    best
}

/// Law: scoring is deterministic. Any two results that scoring the same
/// word against the same table can return are equal: the contract pins the
/// result down.
pub proof fn lemma_score_deterministic(
    t: DistanceTable,
    w: Seq<char>,
    r1: Option<u64>,
    r2: Option<u64>,
)
    requires
        match r1 {
            Some(s) => word_ok(t, w) && s == word_score(t, w),
            None => !word_ok(t, w),
        },
        match r2 {
            Some(s) => word_ok(t, w) && s == word_score(t, w),
            None => !word_ok(t, w),
        },
    ensures
        r1 == r2,
{
}

/// Law: words of fewer than two characters score zero.
pub proof fn lemma_short_word_scores_zero(t: DistanceTable, w: Seq<char>)
    requires
        w.len() <= 1,
    ensures
        word_ok(t, w),
        word_score(t, w) == 0,
{
}

/// Law: ties keep the earlier champion. A word whose score merely equals
/// the champion's does not replace it: only a strictly greater score does.
pub proof fn lemma_tie_keeps_champion(
    t: DistanceTable,
    best_word: Seq<char>,
    best_score: int,
    w: Seq<char>,
)
    requires
        word_ok(t, w),
        word_score(t, w) == best_score,
    ensures
        scan_step(t, best_word, best_score, w) == (best_word, best_score),
{
}

} // verus!
