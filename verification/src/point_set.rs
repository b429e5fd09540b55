use vstd::prelude::*;

use crate::position::Point;

verus! {

/// An unordered collection of distinct dots, the building block of every
/// point-set in this crate.  Backed by a vector that never holds the same
/// dot twice; its mathematical content is the set of coordinate pairs.
pub struct DotSet {
    items: Vec<Point>,
}

impl DotSet {
    /// The stored dots as a sequence of coordinate pairs.
    pub closed spec fn seq(&self) -> Seq<(int, int)> {
        self.items@.map_values(|p: Point| (p.x as int, p.y as int))
    }

    /// The set of dots this collection holds.
    pub open spec fn dots(&self) -> Set<(int, int)> {
        self.seq().to_set()
    }

    /// No dot is stored twice.
    pub closed spec fn inv(&self) -> bool {
        self.seq().no_duplicates()
    }

    pub fn new() -> (r: DotSet)
        ensures
            r.inv(),
            r.seq().len() == 0,
            r.dots() == Set::<(int, int)>::empty(),
    {
        let r = DotSet { items: Vec::new() };
        proof {
            assert(r.seq() =~= Seq::<(int, int)>::empty());
            assert(r.dots() =~= Set::<(int, int)>::empty());
        }
        r
    }

    pub fn len(&self) -> (r: usize)
        ensures
            r == self.seq().len(),
            self.inv() ==> r == self.dots().len(),
    {
        proof {
            if self.inv() {
                self.seq().unique_seq_to_set();
            }
        }
        self.items.len()
    }

    pub fn is_empty(&self) -> (r: bool)
        ensures
            r == self.dots().is_empty(),
    {
        proof {
            if self.items@.len() == 0 {
                assert(self.dots() =~= Set::<(int, int)>::empty());
            } else {
                assert(self.seq()[0] == (self.items@[0].x as int, self.items@[0].y as int));
                assert(self.seq().contains(self.seq()[0]));
                assert(self.dots().contains(self.seq()[0]));
            }
        }
        self.items.len() == 0
    }

    /// Fetch the stored dot at one position; used to walk the collection.
    pub fn get(&self, i: usize) -> (r: Point)
        requires
            i < self.seq().len(),
        ensures
            (r.x as int, r.y as int) == self.seq()[i as int],
            self.dots().contains((r.x as int, r.y as int)),
    {
        let p = self.items[i];
        proof {
            assert(self.seq()[i as int] == (p.x as int, p.y as int));
            assert(self.seq().contains(self.seq()[i as int]));
        }
        p
    }

    pub fn contains(&self, p: &Point) -> (r: bool)
        ensures
            r == self.dots().contains((p.x as int, p.y as int)),
    {
        let n = self.items.len();
        let mut i: usize = 0;
        while i < n
            invariant
                n == self.items@.len(),
                i <= n,
                forall|j: int| 0 <= j < i ==> self.seq()[j] != (p.x as int, p.y as int),
            decreases n - i,
        {
            let q = self.items[i];
            if q.x == p.x && q.y == p.y {
                proof {
                    assert(self.seq()[i as int] == (p.x as int, p.y as int));
                    assert(self.seq().contains(self.seq()[i as int]));
                }
                return true;
            }
            proof {
                assert(self.seq()[i as int] == (q.x as int, q.y as int));
            }
            i = i + 1;
        }
        proof {
            assert(forall|j: int|
                0 <= j < self.seq().len() ==> self.seq()[j] != (p.x as int, p.y as int));
            assert(!self.seq().contains((p.x as int, p.y as int)));
        }
        false
    }

    /// Add a dot; adding one already present leaves the collection as it was.
    pub fn insert(&mut self, p: Point)
        requires
            old(self).inv(),
        ensures
            final(self).inv(),
            final(self).dots() == old(self).dots().insert((p.x as int, p.y as int)),
    {
        let present = self.contains(&p);
        if !present {
            proof {
                assert(!self.seq().contains((p.x as int, p.y as int)));
            }
            self.items.push(p);
            proof {
                assert(self.seq() =~= old(self).seq().push((p.x as int, p.y as int)));
                assert(self.seq().no_duplicates());
                assert forall|q: (int, int)| self.dots().contains(q)
                    <==> old(self).dots().insert((p.x as int, p.y as int)).contains(q)
                by {
                    if self.dots().contains(q) {
                        let j = choose|j: int| 0 <= j < self.seq().len() && self.seq()[j] == q;
                        if j < old(self).seq().len() {
                            assert(old(self).seq().contains(q));
                        }
                    }
                    if old(self).dots().contains(q) {
                        let j = choose|j: int|
                            0 <= j < old(self).seq().len() && old(self).seq()[j] == q;
                        assert(self.seq()[j] == q);
                        assert(self.seq().contains(q));
                    }
                    if q == (p.x as int, p.y as int) {
                        assert(self.seq()[self.seq().len() - 1] == q);
                        assert(self.seq().contains(q));
                    }
                }
                assert(self.dots() =~= old(self).dots().insert((p.x as int, p.y as int)));
            }
        } else {
            proof {
                assert(self.dots() =~= old(self).dots().insert((p.x as int, p.y as int)));
            }
        }
    }

    /// Take a dot out; removing one not present leaves the collection as it was.
    pub fn remove(&mut self, p: &Point)
        requires
            old(self).inv(),
        ensures
            final(self).inv(),
            final(self).dots() == old(self).dots().remove((p.x as int, p.y as int)),
    {
        let n = self.items.len();
        let mut i: usize = 0;
        while i < n
            invariant
                n == self.items@.len(),
                i <= n,
                self.inv(),
                self == old(self),
                forall|j: int| 0 <= j < i ==> self.seq()[j] != (p.x as int, p.y as int),
            decreases n - i,
        {
            let q = self.items[i];
            proof {
                assert(self.seq()[i as int] == (q.x as int, q.y as int));
            }
            if q.x == p.x && q.y == p.y {
                self.items.swap_remove(i);
                proof {
                    let old_seq = old(self).seq();
                    let k = old_seq.len() - 1;
                    assert(self.seq() =~= old_seq.update(i as int, old_seq[k]).drop_last());
                    assert forall|a: int, b: int|
                        0 <= a < self.seq().len() && 0 <= b < self.seq().len() && a != b
                        implies self.seq()[a] != self.seq()[b]
                    by {
                        let map_a: int = if a == i { k } else { a };
                        let map_b: int = if b == i { k } else { b };
                        assert(self.seq()[a] == old_seq[map_a]);
                        assert(self.seq()[b] == old_seq[map_b]);
                    }
                    assert(self.seq().no_duplicates());
                    assert forall|q2: (int, int)| self.dots().contains(q2)
                        <==> old(self).dots().remove((p.x as int, p.y as int)).contains(q2)
                    by {
                        if self.dots().contains(q2) {
                            let j = choose|j: int|
                                0 <= j < self.seq().len() && self.seq()[j] == q2;
                            let mj: int = if j == i { k } else { j };
                            assert(old_seq[mj] == q2);
                            assert(old_seq.contains(q2));
                            assert(q2 != (p.x as int, p.y as int));
                        }
                        if old(self).dots().contains(q2) && q2 != (p.x as int, p.y as int) {
                            let j = choose|j: int|
                                0 <= j < old_seq.len() && old_seq[j] == q2;
                            if j < k {
                                if j == i {
                                    assert(old_seq[i as int] == (p.x as int, p.y as int));
                                } else {
                                    assert(self.seq()[j] == q2);
                                    assert(self.seq().contains(q2));
                                }
                            } else {
                                if i < k {
                                    assert(self.seq()[i as int] == old_seq[k]);
                                    assert(self.seq().contains(q2));
                                } else {
                                    assert(old_seq[i as int] == (p.x as int, p.y as int));
                                }
                            }
                        }
                    }
                    assert(self.dots() =~= old(self).dots().remove((p.x as int, p.y as int)));
                }
                return;
            }
            i = i + 1;
        }
        proof {
            assert forall|q2: (int, int)|
                old(self).dots().contains(q2) implies q2 != (p.x as int, p.y as int)
            by {
                let j = choose|j: int|
                    0 <= j < old(self).seq().len() && old(self).seq()[j] == q2;
            }
            assert(self.dots() =~= old(self).dots().remove((p.x as int, p.y as int)));
        }
    }
}

/// Anything that exposes a current point-set together with its cached
/// bounding corner.  Point-set sprites expose their own dots; animation
/// sequences expose the dots of whichever frame is current.
pub trait PointSet {
    /// The dots of the current point-set; empty when there is none.
    spec fn ps_dots(&self) -> Set<(int, int)>;

    /// Whether a current point-set exists at all.
    spec fn ps_some(&self) -> bool;

    /// The cached bounding corner (inclusive) reported for the current point-set.
    spec fn ps_max(&self) -> (int, int);

    /// Impl-specific meaning of emptiness.
    spec fn ps_is_empty(&self) -> bool;

    /// Well-formedness of the implementing value.
    spec fn ps_inv(&self) -> bool;

    /// The bounding corner is never negative and bounds every current dot.
    proof fn ps_props(&self)
        requires
            self.ps_inv(),
        ensures
            0 <= self.ps_max().0,
            0 <= self.ps_max().1,
            forall|d: (int, int)| #[trigger] self.ps_dots().contains(d)
                ==> d.0 <= self.ps_max().0 && d.1 <= self.ps_max().1,
    ;

    fn get_point_set(&self) -> (r: Option<&DotSet>)
        requires
            self.ps_inv(),
        ensures
            (match r {
                Some(ds) => self.ps_some() && ds.inv() && ds.dots() == self.ps_dots(),
                None => !self.ps_some() && self.ps_dots() == Set::<(int, int)>::empty(),
            }),
    ;

    fn get_max(&self) -> (r: Point)
        requires
            self.ps_inv(),
        ensures
            (r.x as int, r.y as int) == self.ps_max(),
            0 <= r.x,
            0 <= r.y,
    ;

    fn is_empty(&self) -> (r: bool)
        requires
            self.ps_inv(),
        ensures
            r == self.ps_is_empty(),
    ;
}

} // verus!
