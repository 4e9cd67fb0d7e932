use vstd::prelude::*;

verus! {

/// A 4-ary spatial tree: either a single leaf holding a payload, or a stem
/// holding exactly four children in quadrant order 0, 1, 2, 3.
#[derive(Debug)]
pub enum Quadtree<T: Clone> {
    Leaf(T),
    Stem(Box<(Quadtree<T>, Quadtree<T>, Quadtree<T>, Quadtree<T>)>),
}

impl<T: Clone> Quadtree<T> {
    /// The child in quadrant `k` (0..=3) of a stem.
    pub open spec fn kid(self, k: int) -> Quadtree<T>
        recommends
            self is Stem,
            0 <= k < 4,
    {
        let c = self->Stem_0;
        if k == 0 {
            c.0
        } else if k == 1 {
            c.1
        } else if k == 2 {
            c.2
        } else {
            c.3
        }
    }

    /// Length of the longest root-to-leaf path.
    pub open spec fn height(self) -> nat
        decreases self,
    {
        match self {
            Quadtree::Leaf(_) => 0,
            Quadtree::Stem(c) => {
                let h0 = c.0.height();
                let h1 = c.1.height();
                let h2 = c.2.height();
                let h3 = c.3.height();
                let m01 = if h0 >= h1 { h0 } else { h1 };
                let m23 = if h2 >= h3 { h2 } else { h3 };
                1 + if m01 >= m23 { m01 } else { m23 }
            },
        }
    }

    /// `new` is `old` with every leaf replaced by a stem of four leaves, each
    /// holding a clone of that leaf's payload.
    pub open spec fn subdivided(old: Quadtree<T>, new: Quadtree<T>) -> bool
        decreases old,
    {
        match old {
            Quadtree::Leaf(v) => {
                &&& new is Stem
                &&& forall|k: int|
                    0 <= k < 4 ==> {
                        &&& (#[trigger] new.kid(k)) is Leaf
                        &&& cloned(v, new.kid(k)->Leaf_0)
                    }
            },
            Quadtree::Stem(c) => {
                &&& new is Stem
                &&& Self::subdivided(c.0, new->Stem_0.0)
                &&& Self::subdivided(c.1, new->Stem_0.1)
                &&& Self::subdivided(c.2, new->Stem_0.2)
                &&& Self::subdivided(c.3, new->Stem_0.3)
            },
        }
    }

    /// A copy of the tree with every payload cloned.
    pub fn duplicate(&self) -> (r: Self)
        ensures
            Self::same_shape_cloned(*self, r),
        decreases self,
    {
        match self {
            Quadtree::Leaf(v) => Quadtree::Leaf(v.clone()),
            Quadtree::Stem(c) => {
                let a = c.0.duplicate();
                let b = c.1.duplicate();
                let d = c.2.duplicate();
                let e = c.3.duplicate();
                Quadtree::Stem(Box::new((a, b, d, e)))
            },
        }
    }

    /// `b` has the shape of `a`, and each payload of `b` is a clone of the
    /// payload at the same place in `a`.
    pub open spec fn same_shape_cloned(a: Quadtree<T>, b: Quadtree<T>) -> bool
        decreases a,
    {
        match a {
            Quadtree::Leaf(v) => b is Leaf && cloned(v, b->Leaf_0),
            Quadtree::Stem(c) => {
                &&& b is Stem
                &&& Self::same_shape_cloned(c.0, b->Stem_0.0)
                &&& Self::same_shape_cloned(c.1, b->Stem_0.1)
                &&& Self::same_shape_cloned(c.2, b->Stem_0.2)
                &&& Self::same_shape_cloned(c.3, b->Stem_0.3)
            },
        }
    }

    /// Subdividing deepens the tree by exactly one level.
    pub proof fn lemma_subdivided_height(old: Quadtree<T>, new: Quadtree<T>)
        requires
            Self::subdivided(old, new),
        ensures
            new.height() == old.height() + 1,
        decreases old,
    {
        match old {
            Quadtree::Leaf(v) => {
                assert(new.kid(0) is Leaf);
                assert(new.kid(1) is Leaf);
                assert(new.kid(2) is Leaf);
                assert(new.kid(3) is Leaf);
                assert(new->Stem_0.0.height() == 0);
                assert(new->Stem_0.1.height() == 0);
                assert(new->Stem_0.2.height() == 0);
                assert(new->Stem_0.3.height() == 0);
            },
            Quadtree::Stem(c) => {
                Self::lemma_subdivided_height(c.0, new->Stem_0.0);
                Self::lemma_subdivided_height(c.1, new->Stem_0.1);
                Self::lemma_subdivided_height(c.2, new->Stem_0.2);
                Self::lemma_subdivided_height(c.3, new->Stem_0.3);
            },
        }
    }

    /// A single leaf holding `item`.
    pub fn new(item: T) -> (r: Self)
        ensures
            r == Quadtree::Leaf(item),
    {
        Quadtree::Leaf(item)
    }

    /// Deepens the tree by one level: a leaf becomes a stem of four clones of
    /// itself, and a stem subdivides each of its children.
    pub fn subdivide(&mut self)
        ensures
            Self::subdivided(*old(self), *final(self)),
            final(self).height() == old(self).height() + 1,
        decreases old(self).height(),
    {
        match self {
            Quadtree::Stem(c) => {
                c.0.subdivide();
                c.1.subdivide();
                c.2.subdivide();
                c.3.subdivide();
            },
            Quadtree::Leaf(item) => {
                let a = Quadtree::Leaf(item.clone());
                let b = Quadtree::Leaf(item.clone());
                let c = Quadtree::Leaf(item.clone());
                let d = Quadtree::Leaf(item.clone());
                *self = Quadtree::Stem(Box::new((a, b, c, d)));
            },
        }
        proof {
            Self::lemma_subdivided_height(*old(self), *self);
        }
    }

    /// The payload of a leaf; `None` for a stem.
    pub fn value(&self) -> (r: Option<&T>)
        ensures
            r == (match *self {
                Quadtree::Leaf(v) => Some(&v),
                Quadtree::Stem(_) => None,
            }),
    {
        match self {
            Quadtree::Stem(_) => None,
            Quadtree::Leaf(value) => Some(value),
        }
    }

    /// The child in quadrant `n` of a stem; `None` for a leaf or a quadrant
    /// past 3.
    pub fn child(&self, n: usize) -> (r: Option<&Quadtree<T>>)
        ensures
            r == if *self is Stem && n < 4 {
                Some(&self.kid(n as int))
            } else {
                None
            },
    {
        match self {
            Quadtree::Leaf(_) => None,
            Quadtree::Stem(c) => {
                if n == 0 {
                    Some(&c.0)
                } else if n == 1 {
                    Some(&c.1)
                } else if n == 2 {
                    Some(&c.2)
                } else if n == 3 {
                    Some(&c.3)
                } else {
                    None
                }
            },
        }
    }

    /// Replaces the child in quadrant `n` of a stem with `t`. A leaf or a
    /// quadrant past 3 is refused and the tree left as it was.
    pub fn set_child(&mut self, n: usize, t: Quadtree<T>) -> (r: bool)
        ensures
            r == (*old(self) is Stem && n < 4),
            r ==> *final(self) is Stem && final(self).kid(n as int) == t && forall|k: int|
                0 <= k < 4 && k != n ==> #[trigger] final(self).kid(k) == old(self).kid(k),
            !r ==> *final(self) == *old(self),
    {
        match self {
            Quadtree::Leaf(_) => false,
            Quadtree::Stem(c) => {
                if n == 0 {
                    c.0 = t;
                } else if n == 1 {
                    c.1 = t;
                } else if n == 2 {
                    c.2 = t;
                } else if n == 3 {
                    c.3 = t;
                } else {
                    return false;
                }
                true
            },
        }
    }

    pub fn is_leaf(&self) -> (r: bool)
        ensures
            r == (*self is Leaf),
    {
        match self {
            Quadtree::Leaf(_) => true,
            Quadtree::Stem(_) => false,
        }
    }
}

/// Subdividing a fresh leaf twice gives a stem of four stems whose sixteen
/// grandchildren are all leaves, each holding a clone of the clone of the
/// original value that its parent held.
pub proof fn lemma_subdivide_twice<T: Clone>(v: T, once: Quadtree<T>, twice: Quadtree<T>)
    requires
        Quadtree::subdivided(Quadtree::Leaf(v), once),
        Quadtree::subdivided(once, twice),
    ensures
        twice is Stem,
        forall|k: int, m: int|
            0 <= k < 4 && 0 <= m < 4 ==> {
                &&& (#[trigger] twice.kid(k)) is Stem
                &&& (#[trigger] twice.kid(k).kid(m)) is Leaf
                &&& once.kid(k) is Leaf
                &&& cloned(v, once.kid(k)->Leaf_0)
                &&& cloned(once.kid(k)->Leaf_0, twice.kid(k).kid(m)->Leaf_0)
            },
{
    assert forall|k: int, m: int| 0 <= k < 4 && 0 <= m < 4 implies {
        &&& (#[trigger] twice.kid(k)) is Stem
        &&& (#[trigger] twice.kid(k).kid(m)) is Leaf
        &&& once.kid(k) is Leaf
        &&& cloned(v, once.kid(k)->Leaf_0)
        &&& cloned(once.kid(k)->Leaf_0, twice.kid(k).kid(m)->Leaf_0)
    } by {
        assert(once.kid(k) is Leaf);
        assert(Quadtree::subdivided(once.kid(k), twice.kid(k)));
        assert(twice.kid(k).kid(m) is Leaf);
    }
}

/// For integer payloads, whose clones are exact, subdividing a fresh leaf
/// twice gives a stem of four stems whose sixteen grandchildren are leaves
/// holding the original value.
pub proof fn lemma_subdivide_twice_keeps_value(v: u16, once: Quadtree<u16>, twice: Quadtree<u16>)
    requires
        Quadtree::subdivided(Quadtree::Leaf(v), once),
        Quadtree::subdivided(once, twice),
    ensures
        twice is Stem,
        forall|k: int, m: int|
            0 <= k < 4 && 0 <= m < 4 ==> (#[trigger] twice.kid(k)) is Stem && #[trigger] twice.kid(k).kid(m)
                == Quadtree::Leaf(v),
{
    lemma_subdivide_twice(v, once, twice);
}

impl<T: Clone> Clone for Quadtree<T> {
    fn clone(&self) -> (r: Self)
        ensures
            Self::same_shape_cloned(*self, r),
    {
        self.duplicate()
    }
}

} // verus!
