//! A small map from board cells to pieces, backed by an association list.
//!
//! The board holds at most a few dozen pieces, so a linear-scan list keyed by
//! `Position` is enough; its contract speaks of a mathematical
//! `Map<Position, Piece>`.

use vstd::prelude::*;

use crate::piece::Piece;
use crate::position::Position;

verus! {

/// No two entries of `s` share a key.
pub open spec fn no_dup_keys(s: Seq<(Position, Piece)>) -> bool {
    forall|i: int, j: int|
        0 <= i < j < s.len() ==> (#[trigger] s[i]).0 != (#[trigger] s[j]).0
}

/// The finite map described by an association list; later entries win.
pub open spec fn assoc_map(s: Seq<(Position, Piece)>) -> Map<Position, Piece>
    decreases s.len(),
{
    if s.len() == 0 {
        Map::empty()
    } else {
        assoc_map(s.drop_last()).insert(s.last().0, s.last().1)
    }
}

/// A key is in the map exactly when some entry carries it.
pub proof fn lemma_assoc_contains(s: Seq<(Position, Piece)>, k: Position)
    ensures
        assoc_map(s).contains_key(k) <==> exists|i: int|
            0 <= i < s.len() && (#[trigger] s[i]).0 == k,
    decreases s.len(),
{
    if s.len() > 0 {
        lemma_assoc_contains(s.drop_last(), k);
        if s.last().0 == k {
            assert((s[s.len() - 1]).0 == k);
        } else {
            if exists|i: int| 0 <= i < s.len() && (#[trigger] s[i]).0 == k {
                let i = choose|i: int| 0 <= i < s.len() && (#[trigger] s[i]).0 == k;
                assert((s.drop_last()[i]).0 == k);
            }
        }
    }
}

/// The domain of an association-list map is always finite.
pub proof fn lemma_assoc_finite(s: Seq<(Position, Piece)>)
    ensures
        assoc_map(s).dom().finite(),
    decreases s.len(),
{
    if s.len() > 0 {
        lemma_assoc_finite(s.drop_last());
    }
}

/// Under unique keys, the entry at any index gives the key's value.
pub proof fn lemma_assoc_get(s: Seq<(Position, Piece)>, i: int)
    requires
        no_dup_keys(s),
        0 <= i < s.len(),
    ensures
        assoc_map(s).contains_key(s[i].0),
        assoc_map(s)[s[i].0] == s[i].1,
    decreases s.len(),
{
    if i == s.len() - 1 {
        lemma_assoc_contains(s, s[i].0);
    } else {
        lemma_assoc_get(s.drop_last(), i);
        assert(s.drop_last()[i] == s[i]);
        assert(s[i].0 != s.last().0);
    }
}

/// Under unique keys, the map has exactly one element per entry.
pub proof fn lemma_assoc_len(s: Seq<(Position, Piece)>)
    requires
        no_dup_keys(s),
    ensures
        assoc_map(s).dom().finite(),
        assoc_map(s).len() == s.len(),
    decreases s.len(),
{
    lemma_assoc_finite(s);
    if s.len() > 0 {
        lemma_assoc_len(s.drop_last());
        lemma_assoc_contains(s.drop_last(), s.last().0);
    }
}

/// Overwriting the entry that holds a key updates the map at that key.
pub proof fn lemma_assoc_update(s: Seq<(Position, Piece)>, i: int, v: Piece)
    requires
        no_dup_keys(s),
        0 <= i < s.len(),
    ensures
        assoc_map(s.update(i, (s[i].0, v))) == assoc_map(s).insert(s[i].0, v),
    decreases s.len(),
{
    let k = s[i].0;
    let t = s.update(i, (k, v));
    if i == s.len() - 1 {
        assert(t.drop_last() =~= s.drop_last());
        assert(assoc_map(t) =~= assoc_map(s).insert(k, v));
    } else {
        assert(t.drop_last() =~= s.drop_last().update(i, (k, v)));
        lemma_assoc_update(s.drop_last(), i, v);
        assert(s.drop_last()[i] == s[i]);
        assert(k != s.last().0);
        assert(t.last() == s.last());
        assert(assoc_map(t) =~= assoc_map(s).insert(k, v));
    }
}

/// Removing the entry that holds a key removes the key from the map.
pub proof fn lemma_assoc_remove(s: Seq<(Position, Piece)>, i: int)
    requires
        no_dup_keys(s),
        0 <= i < s.len(),
    ensures
        assoc_map(s.remove(i)) == assoc_map(s).remove(s[i].0),
    decreases s.len(),
{
    let k = s[i].0;
    let t = s.remove(i);
    if i == s.len() - 1 {
        assert(t =~= s.drop_last());
        lemma_assoc_contains(s.drop_last(), k);
        assert(assoc_map(s.drop_last()) =~= assoc_map(s).remove(k));
    } else {
        assert(t.drop_last() =~= s.drop_last().remove(i));
        lemma_assoc_remove(s.drop_last(), i);
        assert(s.drop_last()[i] == s[i]);
        assert(k != s.last().0);
        assert(t.last() == s.last());
        assert(assoc_map(t) =~= assoc_map(s).remove(k));
    }
}

/// The pieces of one side, keyed by the cell each piece stands on.
#[derive(Debug)]
pub struct PieceMap {
    entries: Vec<(Position, Piece)>,
}

impl View for PieceMap {
    type V = Map<Position, Piece>;

    closed spec fn view(&self) -> Map<Position, Piece> {
        assoc_map(self.entries@)
    }
}

impl PieceMap {
    /// The representation keeps one entry per cell.
    pub closed spec fn inv(&self) -> bool {
        no_dup_keys(self.entries@)
    }

    /// A well-formed map always has finitely many pieces, one per entry.
    pub proof fn lemma_finite(&self)
        requires
            self.inv(),
        ensures
            self@.dom().finite(),
    {
        lemma_assoc_len(self.entries@);
    }

    pub fn new() -> (r: PieceMap)
        ensures
            r.inv(),
            r@ == Map::<Position, Piece>::empty(),
    {
        PieceMap { entries: Vec::new() }
    }

    /// The index of the entry holding `p`, if the cell is occupied.
    fn find(&self, p: Position) -> (r: Option<usize>)
        ensures
            match r {
                Some(i) => i < self.entries@.len() && self.entries@[i as int].0 == p,
                None => forall|j: int|
                    0 <= j < self.entries@.len() ==> (#[trigger] self.entries@[j]).0 != p,
            },
    {
        let mut i: usize = 0;
        while i < self.entries.len()
            invariant
                i <= self.entries@.len(),
                forall|j: int| 0 <= j < i ==> (#[trigger] self.entries@[j]).0 != p,
            decreases self.entries@.len() - i,
        {
            if self.entries[i].0 == p {
                return Some(i);
            }
            i = i + 1;
        }
        None
    }

    pub fn contains_key(&self, p: Position) -> (r: bool)
        ensures
            r == self@.contains_key(p),
    {
        let found = self.find(p);
        proof {
            lemma_assoc_contains(self.entries@, p);
        }
        found.is_some()
    }

    pub fn get(&self, p: Position) -> (r: Option<Piece>)
        requires
            self.inv(),
        ensures
            r == if self@.contains_key(p) {
                Some(self@[p])
            } else {
                None::<Piece>
            },
    {
        proof {
            lemma_assoc_contains(self.entries@, p);
        }
        match self.find(p) {
            Some(i) => {
                proof {
                    lemma_assoc_get(self.entries@, i as int);
                }
                Some(self.entries[i].1)
            },
            None => None,
        }
    }

    /// Puts `piece` on cell `p`, replacing whatever stood there.
    pub fn insert(&mut self, p: Position, piece: Piece)
        requires
            old(self).inv(),
        ensures
            final(self).inv(),
            final(self)@ == old(self)@.insert(p, piece),
    {
        match self.find(p) {
            Some(i) => {
                proof {
                    lemma_assoc_update(self.entries@, i as int, piece);
                }
                self.entries.set(i, (p, piece));
            },
            None => {
                proof {
                    let s = self.entries@.push((p, piece));
                    assert(s.drop_last() =~= self.entries@);
                    assert(assoc_map(s) == assoc_map(self.entries@).insert(p, piece));
                }
                self.entries.push((p, piece));
            },
        }
    }

    /// Empties cell `p`; a vacant cell stays vacant.
    pub fn remove(&mut self, p: Position)
        requires
            old(self).inv(),
        ensures
            final(self).inv(),
            final(self)@ == old(self)@.remove(p),
    {
        match self.find(p) {
            Some(i) => {
                proof {
                    lemma_assoc_remove(self.entries@, i as int);
                    let s = self.entries@;
                    assert forall|a: int, b: int|
                        0 <= a < b < s.remove(i as int).len() implies (#[trigger] s.remove(
                        i as int,
                    )[a]).0 != (#[trigger] s.remove(i as int)[b]).0 by {
                        assert(s.remove(i as int)[a] == if a < i as int {
                            s[a]
                        } else {
                            s[a + 1]
                        });
                        assert(s.remove(i as int)[b] == if b < i as int {
                            s[b]
                        } else {
                            s[b + 1]
                        });
                    }
                }
                self.entries.remove(i);
            },
            None => {
                proof {
                    lemma_assoc_contains(self.entries@, p);
                    assert(self@.remove(p) =~= self@);
                }
            },
        }
    }

    /// How many pieces the side still has.
    pub fn len(&self) -> (n: usize)
        requires
            self.inv(),
        ensures
            n == self@.len(),
    {
        proof {
            lemma_assoc_len(self.entries@);
        }
        self.entries.len()
    }

    /// Whether the side has no pieces left.
    pub fn is_empty(&self) -> (r: bool)
        requires
            self.inv(),
        ensures
            r == (self@.len() == 0),
    {
        self.len() == 0
    }

    /// The occupied cells and their pieces, one entry per cell.
    pub fn entries(&self) -> (r: &Vec<(Position, Piece)>)
        requires
            self.inv(),
        ensures
            r@.len() == self@.len(),
            no_dup_keys(r@),
            forall|i: int|
                0 <= i < r@.len() ==> self@.contains_key((#[trigger] r@[i]).0) && self@[r@[i].0]
                    == r@[i].1,
            forall|p: Position|
                self@.contains_key(p) ==> exists|i: int|
                    0 <= i < r@.len() && (#[trigger] r@[i]).0 == p,
    {
        proof {
            lemma_assoc_len(self.entries@);
            lemma_assoc_contains(self.entries@, arbitrary());
            assert forall|i: int|
                0 <= i < self.entries@.len() implies self@.contains_key(
                (#[trigger] self.entries@[i]).0,
            ) && self@[self.entries@[i].0] == self.entries@[i].1 by {
                lemma_assoc_get(self.entries@, i);
            }
            assert forall|p: Position| self@.contains_key(p) implies exists|i: int|
                0 <= i < self.entries@.len() && (#[trigger] self.entries@[i]).0 == p by {
                lemma_assoc_contains(self.entries@, p);
            }
        }
        &self.entries
    }

    /// A copy holding the same pieces on the same cells.
    pub fn duplicate(&self) -> (r: PieceMap)
        ensures
            r@ == self@,
            self.inv() ==> r.inv(),
    {
        let mut copy: Vec<(Position, Piece)> = Vec::new();
        let mut i: usize = 0;
        while i < self.entries.len()
            invariant
                i <= self.entries@.len(),
                copy@ == self.entries@.take(i as int),
            decreases self.entries@.len() - i,
        {
            copy.push(self.entries[i]);
            proof {
                assert(copy@ =~= self.entries@.take(i + 1 as int));
            }
            i = i + 1;
        }
        proof {
            assert(copy@ =~= self.entries@);
        }
        PieceMap { entries: copy }
    }
}

} // verus!
