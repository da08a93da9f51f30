//! The pairwise distance table.
//!
//! `build_distance_map` records the position of every layout key and then
//! fills a complete square matrix of fixed-point distances, one entry for
//! every ordered pair of keys. The table is immutable once built; lookups
//! report the distance of a pair, or nothing when a character is not a
//! layout key.

use vstd::prelude::*;
use crate::layout::key_positions;
use crate::layout::layout;
use crate::layout::layout_char_set;
use crate::layout::layout_rows;
use crate::layout::lemma_key_positions_complete;
use crate::layout::positions_in_row;
use crate::layout::positions_upto;
use crate::point::in_range;
use crate::point::lemma_scaled_dist_bounds;
use crate::point::lemma_scaled_dist_symmetric;
use crate::point::lemma_scaled_dist_zero;
use crate::point::scaled_dist;
use crate::point::Point;

verus! {

/// No character occurs twice among the recorded keys.
pub open spec fn distinct_keys(keys: Seq<char>) -> bool {
    forall|i: int, j: int| 0 <= i < j < keys.len() ==> keys[i] != keys[j]
}

/// The index at which `c` is recorded.
pub open spec fn idx_of(keys: Seq<char>, c: char) -> int {
    choose|i: int| 0 <= i < keys.len() && keys[i] == c
}

/// The position map that parallel key and position sequences represent.
pub open spec fn assoc(keys: Seq<char>, pts: Seq<Point>) -> Map<char, Point> {
    Map::new(|c: char| keys.contains(c), |c: char| pts[idx_of(keys, c)])
}

/// With distinct keys, the recorded index of `keys[i]` is `i` itself.
pub proof fn lemma_idx_of(keys: Seq<char>, i: int)
    requires
        distinct_keys(keys),
        0 <= i < keys.len(),
    ensures
        idx_of(keys, keys[i]) == i,
{
    let c = keys[i];
    assert(0 <= i < keys.len() && keys[i] == c);
    let j = idx_of(keys, c);
    assert(0 <= j < keys.len() && keys[j] == c);
    if i < j {
        assert(keys[i] != keys[j]);
    } else if j < i {
        assert(keys[j] != keys[i]);
    }
}

/// Recording a fresh key appends an entry to the represented map.
pub proof fn lemma_assoc_push(keys: Seq<char>, pts: Seq<Point>, c: char, p: Point)
    requires
        distinct_keys(keys),
        keys.len() == pts.len(),
        !keys.contains(c),
    ensures
        distinct_keys(keys.push(c)),
        assoc(keys.push(c), pts.push(p)) == assoc(keys, pts).insert(c, p),
{
    let ks = keys.push(c);
    let ps = pts.push(p);
    let n = keys.len() as int;
    assert forall|i: int, j: int| 0 <= i < j < ks.len() implies ks[i] != ks[j] by {
        if j == n {
            assert(ks[i] == keys[i]);
            if keys[i] == c {
                assert(keys.contains(c));
            }
        }
    }
    assert forall|d: char| #[trigger] ks.contains(d) implies keys.contains(d) || d == c by {
        let i = choose|i: int| 0 <= i < ks.len() && ks[i] == d;
        if i < n {
            assert(keys[i] == d);
        }
    }
    assert forall|d: char| #[trigger] keys.contains(d) implies ks.contains(d) by {
        let i = choose|i: int| 0 <= i < keys.len() && keys[i] == d;
        assert(ks[i] == d);
    }
    assert(ks.contains(c)) by {
        assert(ks[n] == c);
    }
    assert forall|d: char| #[trigger] ks.contains(d) implies
        assoc(ks, ps)[d] == assoc(keys, pts).insert(c, p)[d] by {
        if d == c {
            lemma_idx_of(ks, n);
            assert(assoc(ks, ps)[d] == ps[n]);
        } else {
            let i = choose|i: int| 0 <= i < keys.len() && keys[i] == d;
            lemma_idx_of(keys, i);
            assert(ks[i] == d);
            lemma_idx_of(ks, i);
            assert(assoc(ks, ps)[d] == ps[i]);
            assert(assoc(keys, pts)[d] == pts[i]);
        }
    }
    assert(assoc(ks, ps) =~= assoc(keys, pts).insert(c, p));
}

/// Re-recording a key at a new position overwrites its entry in the
/// represented map.
pub proof fn lemma_assoc_update(keys: Seq<char>, pts: Seq<Point>, i: int, p: Point)
    requires
        distinct_keys(keys),
        keys.len() == pts.len(),
        0 <= i < keys.len(),
    ensures
        assoc(keys, pts.update(i, p)) == assoc(keys, pts).insert(keys[i], p),
{
    let ps = pts.update(i, p);
    let c = keys[i];
    assert(keys.contains(c)) by {
        assert(keys[i] == c);
    }
    assert forall|d: char| #[trigger] keys.contains(d) implies
        assoc(keys, ps)[d] == assoc(keys, pts).insert(c, p)[d] by {
        if d == c {
            lemma_idx_of(keys, i);
            assert(assoc(keys, ps)[d] == ps[i]);
        } else {
            let j = choose|j: int| 0 <= j < keys.len() && keys[j] == d;
            lemma_idx_of(keys, j);
            assert(j != i);
            assert(assoc(keys, ps)[d] == ps[j]);
            assert(assoc(keys, pts)[d] == pts[j]);
        }
    }
    assert(assoc(keys, ps) =~= assoc(keys, pts).insert(c, p));
}

/// The complete pairwise distance table over the layout's keys.
pub struct DistanceTable {
    keys: Vec<char>,
    pts: Vec<Point>,
    dists: Vec<Vec<u64>>,
}

impl DistanceTable {
    /// The position the table records for each of its keys.
    pub closed spec fn pos_map(self) -> Map<char, Point> {
        assoc(self.keys@, self.pts@)
    }

    /// Whether `c` is a key of the table.
    pub open spec fn contains_key(self, c: char) -> bool {
        self.pos_map().dom().contains(c)
    }

    /// The fixed-point distance the table holds for the pair `(a, b)`.
    pub open spec fn entry(self, a: char, b: char) -> int {
        scaled_dist(self.pos_map()[a], self.pos_map()[b])
    }

    /// The table's internal invariant: keys are distinct, positions are in
    /// range, and the matrix holds the distance of every ordered pair.
    pub closed spec fn wf(self) -> bool {
        &&& distinct_keys(self.keys@)
        &&& self.pts@.len() == self.keys@.len()
        &&& self.dists@.len() == self.keys@.len()
        &&& (forall|i: int|
            0 <= i < self.keys@.len() ==> (#[trigger] self.dists@[i])@.len() == self.keys@.len())
        &&& (forall|i: int| 0 <= i < self.pts@.len() ==> in_range(#[trigger] self.pts@[i]))
        &&& (forall|i: int, j: int|
            0 <= i < self.keys@.len() && 0 <= j < self.keys@.len()
                ==> (#[trigger] self.dists@[i]@[j]) == scaled_dist(self.pts@[i], self.pts@[j]))
    }

    /// Looks up the distance between `a` and `b`, or nothing when either is
    /// not a layout key.
    pub fn get(&self, a: char, b: char) -> (r: Option<u64>)
        requires
            self.wf(),
        ensures
            match r {
                Some(d) => self.contains_key(a) && self.contains_key(b)
                    && d == self.entry(a, b) && d < 1073741824,
                None => !(self.contains_key(a) && self.contains_key(b)),
            },
    {
        let ia = find_key(&self.keys, a);
        let ib = find_key(&self.keys, b);
        match (ia, ib) {
            (Some(i), Some(j)) => {
                let d = self.dists[i].as_slice()[j];
                proof {
                    lemma_idx_of(self.keys@, i as int);
                    lemma_idx_of(self.keys@, j as int);
                    assert(self.keys@.contains(a)) by {
                        assert(self.keys@[i as int] == a);
                    }
                    assert(self.keys@.contains(b)) by {
                        assert(self.keys@[j as int] == b);
                    }
                    assert(self.pos_map()[a] == self.pts@[i as int]);
                    assert(self.pos_map()[b] == self.pts@[j as int]);
                    lemma_scaled_dist_bounds(self.pts@[i as int], self.pts@[j as int]);
                }
                Some(d)
            },
            _ => {
                proof {
                    if self.pos_map().dom().contains(a) && self.pos_map().dom().contains(b) {
                        assert(self.keys@.contains(a));
                        assert(self.keys@.contains(b));
                    }
                }
                None
            },
        }
    }
}

/// The index at which `c` is recorded among the keys, by linear search.
fn find_key(keys: &Vec<char>, c: char) -> (r: Option<usize>)
    ensures
        match r {
            Some(i) => i < keys@.len() && keys@[i as int] == c,
            None => !keys@.contains(c),
        },
{
    let mut i: usize = 0;
    while i < keys.len()
        invariant
            i <= keys@.len(),
            forall|j: int| 0 <= j < i ==> keys@[j] != c,
        decreases keys@.len() - i,
    {
        if keys[i] == c {
            return Some(i);
        }
        i += 1;
    }
    None
}

/// Builds the distance table of the fixed layout: records every key's
/// position, then fills the matrix with the distance of every ordered pair.
pub fn build_distance_map() -> (t: DistanceTable)
    ensures
        t.wf(),
        t.pos_map() == key_positions(),
{
    let rows = layout();
    let mut keys: Vec<char> = Vec::new();
    let mut pts: Vec<Point> = Vec::new();
    proof {
        assert(assoc(keys@, pts@) =~= positions_upto(layout_rows(), 0));
    }
    let mut ri: usize = 0;
    while ri < rows.len()
        invariant
            rows@.len() == 4,
            forall|r: int| 0 <= r < 4 ==> rows@[r]@ == layout_rows()[r],
            ri <= 4,
            distinct_keys(keys@),
            keys@.len() == pts@.len(),
            forall|i: int| 0 <= i < pts@.len() ==> in_range(#[trigger] pts@[i]),
            assoc(keys@, pts@) == positions_upto(layout_rows(), ri as int),
        decreases 4 - ri,
    {
        let row = &rows[ri];
        proof {
            assert(row@.len() <= 34) by {
                assert(row@ == layout_rows()[ri as int]);
            }
        }
        let mut ci: usize = 0;
        while ci < row.len()
            invariant
                ri < 4,
                row@ == layout_rows()[ri as int],
                row@.len() <= 34,
                ci <= row@.len(),
                distinct_keys(keys@),
                keys@.len() == pts@.len(),
                forall|i: int| 0 <= i < pts@.len() ==> in_range(#[trigger] pts@[i]),
                assoc(keys@, pts@) == positions_in_row(
                    positions_upto(layout_rows(), ri as int),
                    layout_rows()[ri as int],
                    ri as int,
                    ci as int,
                ),
            decreases row@.len() - ci,
        {
            let c = row[ci];
            if c != ' ' {
                let p = Point::new(ci as i64, ri as i64);
                let ghost keys0 = keys@;
                let ghost pts0 = pts@;
                match find_key(&keys, c) {
                    Some(i) => {
                        pts.set(i, p);
                        proof {
                            lemma_assoc_update(keys0, pts0, i as int, p);
                        }
                    },
                    None => {
                        keys.push(c);
                        pts.push(p);
                        proof {
                            lemma_assoc_push(keys0, pts0, c, p);
                        }
                    },
                }
                proof {
                    assert(assoc(keys@, pts@) == assoc(keys0, pts0).insert(c, p));
                }
            }
            ci += 1;
        }
        ri += 1;
    }
    proof {
        assert(assoc(keys@, pts@) == key_positions());
    }

    let n = keys.len();
    let mut dists: Vec<Vec<u64>> = Vec::new();
    let mut i: usize = 0;
    while i < n
        invariant
            n == keys@.len(),
            pts@.len() == n,
            forall|a: int| 0 <= a < pts@.len() ==> in_range(#[trigger] pts@[a]),
            i <= n,
            dists@.len() == i,
            forall|a: int| 0 <= a < i ==> (#[trigger] dists@[a])@.len() == n,
            forall|a: int, b: int|
                0 <= a < i && 0 <= b < n
                    ==> (#[trigger] dists@[a]@[b]) == scaled_dist(pts@[a], pts@[b]),
        decreases n - i,
    {
        let mut rowd: Vec<u64> = Vec::new();
        let mut j: usize = 0;
        while j < n
            invariant
                n == keys@.len(),
                pts@.len() == n,
                forall|a: int| 0 <= a < pts@.len() ==> in_range(#[trigger] pts@[a]),
                i < n,
                j <= n,
                rowd@.len() == j,
                forall|b: int| 0 <= b < j ==> rowd@[b] == scaled_dist(pts@[i as int], pts@[b]),
            decreases n - j,
        {
            let d = pts[i].dist(&pts[j]);
            rowd.push(d);
            j += 1;
        }
        dists.push(rowd);
        i += 1;
    }
    DistanceTable { keys, pts, dists }
}

/// Law: the table is symmetric. For any two keys the distance from `a` to
/// `b` equals the distance from `b` to `a`.
pub proof fn lemma_table_symmetric(t: DistanceTable, a: char, b: char)
    requires
        t.contains_key(a),
        t.contains_key(b),
    ensures
        t.entry(a, b) == t.entry(b, a),
{
    lemma_scaled_dist_symmetric(t.pos_map()[a], t.pos_map()[b]);
}

/// Law: the table is reflexive. Every key is at distance zero from itself.
pub proof fn lemma_table_reflexive(t: DistanceTable, a: char)
    requires
        t.contains_key(a),
    ensures
        t.entry(a, a) == 0,
{
    lemma_scaled_dist_zero(t.pos_map()[a]);
}

/// Law: the table built from the layout is complete. Its key set is exactly
/// the set of non-space characters across the layout's rows.
pub proof fn lemma_table_complete(t: DistanceTable)
    requires
        t.pos_map() == key_positions(),
    ensures
        forall|c: char| t.contains_key(c) <==> layout_char_set().contains(c),
{
    lemma_key_positions_complete();
    assert forall|c: char| t.contains_key(c) <==> layout_char_set().contains(c) by {
        assert(t.pos_map().dom() == key_positions().dom());
    }
}

} // verus!
