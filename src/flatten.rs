use vstd::prelude::*;
use vstd::arithmetic::div_mod::{lemma_mod_mod, lemma_mod_multiples_vanish, lemma_small_mod};
use vstd::arithmetic::power2::{lemma_pow2_adds, lemma2_to64, pow2};
use vstd::bits::lemma_u32_shl_is_mul;

use crate::quadtree::Quadtree;

verus! {

/// One leaf of a flattened quadtree: the leaf's path encoding and a
/// reference to its payload.
pub struct QuadtreeFlat<'a, T: Clone> {
    position: u32,
    data: &'a T,
}

impl<'a, T: Clone> QuadtreeFlat<'a, T> {
    /// The entry as a (path, payload) pair.
    pub closed spec fn entry(self) -> (u32, T) {
        (self.position, *self.data)
    }

    pub fn new(pos: u32, data: &'a T) -> (r: Self)
        ensures
            r.entry() == (pos, *data),
    {
        QuadtreeFlat { position: pos, data }
    }

    /// The path encoding: two bits per level, the shallowest level lowest.
    pub fn position(&self) -> (r: u32)
        ensures
            r == self.entry().0,
    {
        self.position
    }

    /// The payload of the leaf.
    pub fn data(&self) -> (r: &'a T)
        ensures
            *r == self.entry().1,
    {
        self.data
    }
}

/// 4 to the power `d`.
pub open spec fn pow4(d: nat) -> nat
    decreases d,
{
    if d == 0 {
        1
    } else {
        4 * pow4((d - 1) as nat)
    }
}

/// The path of quadrant `k` below a node at `depth` whose path is `pos`.
pub open spec fn child_pos(pos: u32, k: u32, depth: nat) -> u32 {
    pos | (k << ((2 * depth) as u32))
}

/// The (path, payload) pairs of the leaves of `t`, depth first in quadrant
/// order, for a node at `depth` whose path is `pos`.
pub open spec fn flat<T: Clone>(t: Quadtree<T>, pos: u32, depth: nat) -> Seq<(u32, T)>
    decreases t,
{
    match t {
        Quadtree::Leaf(v) => seq![(pos, v)],
        Quadtree::Stem(c) => {
            flat(c.0, child_pos(pos, 0, depth), depth + 1) + flat(
                c.1,
                child_pos(pos, 1, depth),
                depth + 1,
            ) + flat(c.2, child_pos(pos, 2, depth), depth + 1) + flat(
                c.3,
                child_pos(pos, 3, depth),
                depth + 1,
            )
        },
    }
}

/// Flattens `tree` into one entry per leaf, depth first in quadrant order.
/// The path of each leaf is `pos` with the quadrant index taken at each level
/// `l` below `depth` placed at bits `2 * l`.
pub fn iter<'a, T: Clone>(tree: &'a Quadtree<T>, pos: u32, depth: u16) -> (r: Vec<
    QuadtreeFlat<'a, T>,
>)
    requires
        depth + tree.height() <= 16,
    ensures
        r@.len() == flat(*tree, pos, depth as nat).len(),
        forall|k: int| 0 <= k < r@.len() ==> #[trigger] r@[k].entry() == flat(*tree, pos, depth as nat)[k],
    decreases tree,
{
    match tree {
        Quadtree::Leaf(item) => {
            let mut items = Vec::new();
            items.push(QuadtreeFlat::new(pos, item));
            items
        },
        Quadtree::Stem(c) => {
            let shift: u32 = 2 * depth as u32;
            let mut items = Vec::new();
            let mut a = iter(&c.0, pos | (0u32 << shift), depth + 1);
            items.append(&mut a);
            let mut b = iter(&c.1, pos | (1u32 << shift), depth + 1);
            items.append(&mut b);
            let mut d = iter(&c.2, pos | (2u32 << shift), depth + 1);
            items.append(&mut d);
            let mut e = iter(&c.3, pos | (3u32 << shift), depth + 1);
            items.append(&mut e);
            proof {
                let f = flat(*tree, pos, depth as nat);
                assert(forall|k: int| 0 <= k < items@.len() ==> #[trigger] items@[k].entry() == f[k]);
            }
            items
        },
    }
}

/// Every leaf of `t` lies at depth exactly `d` below it.
pub open spec fn full<T: Clone>(t: Quadtree<T>, d: nat) -> bool
    decreases t,
{
    match t {
        Quadtree::Leaf(_) => d == 0,
        Quadtree::Stem(c) => {
            &&& d > 0
            &&& full(c.0, (d - 1) as nat)
            &&& full(c.1, (d - 1) as nat)
            &&& full(c.2, (d - 1) as nat)
            &&& full(c.3, (d - 1) as nat)
        },
    }
}

/// No two entries share a path.
pub open spec fn distinct_paths<T>(s: Seq<(u32, T)>) -> bool {
    forall|i: int, j: int| 0 <= i < j < s.len() ==> (#[trigger] s[i]).0 != (#[trigger] s[j]).0
}

proof fn lemma_pow4_pos(d: nat)
    ensures
        pow4(d) > 0,
    decreases d,
{
    if d > 0 {
        lemma_pow4_pos((d - 1) as nat);
    }
}

proof fn lemma_pow4_mono(a: nat, b: nat)
    requires
        a <= b,
    ensures
        pow4(a) <= pow4(b),
    decreases b,
{
    if a < b {
        lemma_pow4_mono(a, (b - 1) as nat);
        lemma_pow4_pos((b - 1) as nat);
    }
}

proof fn lemma_pow4_is_pow2(d: nat)
    ensures
        pow4(d) == pow2(2 * d),
    decreases d,
{
    lemma2_to64();
    if d > 0 {
        lemma_pow4_is_pow2((d - 1) as nat);
        lemma_pow2_adds((2 * d - 2) as nat, 2);
    }
}

/// Below a node whose path `pos` uses only the bits of shallower levels, the
/// child's path is the parent's plus the quadrant index times `4^depth`.
proof fn lemma_child_pos(pos: u32, k: u32, depth: nat)
    requires
        pos < pow4(depth),
        k < 4,
        depth < 16,
    ensures
        child_pos(pos, k, depth) == pos + k * pow4(depth),
        child_pos(pos, k, depth) < pow4(depth + 1),
{
    let s = (2 * depth) as u32;
    lemma_pow4_is_pow2(depth);
    lemma_pow4_pos(depth);
    assert(pow4(depth) * 4 <= 0x1_0000_0000) by {
        assert(depth <= 15);
        lemma_pow4_mono(depth, 15);
        lemma_pow4_is_pow2(15);
        lemma2_to64();
    }
    let m = pow4(depth) as int;
    assert(k * m <= 3 * m) by (nonlinear_arith)
        requires
            k < 4,
            m > 0,
    ;
    lemma_u32_shl_is_mul(1, s);
    lemma_u32_shl_is_mul(k, s);
    assert(pos < (1u32 << s));
    assert((pos | (k << s)) == pos + (k << s)) by (bit_vector)
        requires
            pos < (1u32 << s),
            s < 32,
            k < 4,
            k * (1u32 << s) <= 0xffff_ffff,
    ;
}

/// A path whose residue modulo `4m` is `pos + q * m` has residue `pos`
/// modulo `m`.
proof fn lemma_residue(x: int, q: int, pos: int, m: int)
    requires
        0 <= pos < m,
        0 <= q < 4,
        x % (m * 4) == pos + q * m,
    ensures
        x % m == pos,
{
    lemma_mod_mod(x, m, 4);
    lemma_mod_multiples_vanish(q, pos, m);
    lemma_small_mod(pos as nat, m as nat);
}

/// A concatenation keeps paths distinct when the two parts share no path.
proof fn lemma_concat_distinct<T>(a: Seq<(u32, T)>, b: Seq<(u32, T)>)
    requires
        distinct_paths(a),
        distinct_paths(b),
        forall|i: int, j: int| 0 <= i < a.len() && 0 <= j < b.len() ==> (#[trigger] a[i]).0 != (#[trigger] b[j]).0,
    ensures
        distinct_paths(a + b),
{
    let s = a + b;
    assert forall|i: int, j: int| 0 <= i < j < s.len() implies (#[trigger] s[i]).0 != (#[trigger] s[j]).0 by {
        if j < a.len() {
            assert(s[i] == a[i] && s[j] == a[j]);
        } else if i >= a.len() {
            assert(s[i] == b[i - a.len()] && s[j] == b[j - a.len()]);
        } else {
            assert(s[i] == a[i] && s[j] == b[j - a.len()]);
        }
    }
}

/// The paths below a node at `depth` with path `pos` all agree with `pos` on
/// the shallower levels, fit in the levels down to the deepest leaf, and are
/// pairwise distinct.
proof fn lemma_flat_paths<T: Clone>(t: Quadtree<T>, pos: u32, depth: nat)
    requires
        pos < pow4(depth),
        depth + t.height() <= 16,
    ensures
        distinct_paths(flat(t, pos, depth)),
        forall|k: int|
            0 <= k < flat(t, pos, depth).len() ==> {
                &&& (#[trigger] flat(t, pos, depth)[k]).0 as int % pow4(depth) as int == pos
                &&& flat(t, pos, depth)[k].0 < pow4(depth + t.height())
            },
    decreases t,
{
    lemma_pow4_pos(depth);
    match t {
        Quadtree::Leaf(v) => {
            lemma_small_mod(pos as nat, pow4(depth));
        },
        Quadtree::Stem(c) => {
            let m = pow4(depth);
            let pos0 = child_pos(pos, 0, depth);
            let pos1 = child_pos(pos, 1, depth);
            let pos2 = child_pos(pos, 2, depth);
            let pos3 = child_pos(pos, 3, depth);
            lemma_child_pos(pos, 0, depth);
            lemma_child_pos(pos, 1, depth);
            lemma_child_pos(pos, 2, depth);
            lemma_child_pos(pos, 3, depth);
            lemma_flat_paths(c.0, pos0, depth + 1);
            lemma_flat_paths(c.1, pos1, depth + 1);
            lemma_flat_paths(c.2, pos2, depth + 1);
            lemma_flat_paths(c.3, pos3, depth + 1);
            let a = flat(c.0, pos0, depth + 1);
            let b = flat(c.1, pos1, depth + 1);
            let e = flat(c.2, pos2, depth + 1);
            let g = flat(c.3, pos3, depth + 1);
            assert(pow4(depth + 1) == 4 * m);
            lemma_pow4_mono(depth + 1 + c.0.height(), depth + t.height());
            lemma_pow4_mono(depth + 1 + c.1.height(), depth + t.height());
            lemma_pow4_mono(depth + 1 + c.2.height(), depth + t.height());
            lemma_pow4_mono(depth + 1 + c.3.height(), depth + t.height());
            lemma_concat_distinct(a, b);
            lemma_concat_distinct(a + b, e);
            lemma_concat_distinct(a + b + e, g);
            let f = flat(t, pos, depth);
            assert(f == a + b + e + g);
            assert forall|k: int| 0 <= k < f.len() implies {
                &&& (#[trigger] f[k]).0 as int % pow4(depth) as int == pos
                &&& f[k].0 < pow4(depth + t.height())
            } by {
                if k < a.len() {
                    assert(f[k] == a[k]);
                    lemma_residue(f[k].0 as int, 0, pos as int, m as int);
                } else if k < a.len() + b.len() {
                    assert(f[k] == b[k - a.len()]);
                    lemma_residue(f[k].0 as int, 1, pos as int, m as int);
                } else if k < a.len() + b.len() + e.len() {
                    assert(f[k] == e[k - a.len() - b.len()]);
                    lemma_residue(f[k].0 as int, 2, pos as int, m as int);
                } else {
                    assert(f[k] == g[k - a.len() - b.len() - e.len()]);
                    lemma_residue(f[k].0 as int, 3, pos as int, m as int);
                }
            }
        },
    }
}

proof fn lemma_flat_len_full<T: Clone>(t: Quadtree<T>, pos: u32, depth: nat, d: nat)
    requires
        full(t, d),
    ensures
        flat(t, pos, depth).len() == pow4(d),
        t.height() == d,
    decreases t,
{
    match t {
        Quadtree::Leaf(_) => {},
        Quadtree::Stem(c) => {
            lemma_flat_len_full(c.0, child_pos(pos, 0, depth), depth + 1, (d - 1) as nat);
            lemma_flat_len_full(c.1, child_pos(pos, 1, depth), depth + 1, (d - 1) as nat);
            lemma_flat_len_full(c.2, child_pos(pos, 2, depth), depth + 1, (d - 1) as nat);
            lemma_flat_len_full(c.3, child_pos(pos, 3, depth), depth + 1, (d - 1) as nat);
        },
    }
}

/// Flattening a tree whose leaves all lie at depth `d` gives exactly `4^d`
/// entries, with pairwise distinct paths, each below `4^d`.
pub proof fn lemma_flatten_full<T: Clone>(t: Quadtree<T>, d: nat)
    requires
        full(t, d),
        d <= 16,
    ensures
        flat(t, 0, 0).len() == pow4(d),
        distinct_paths(flat(t, 0, 0)),
        forall|k: int| 0 <= k < flat(t, 0, 0).len() ==> (#[trigger] flat(t, 0, 0)[k]).0 < pow4(d),
{
    lemma_flat_len_full(t, 0, 0, d);
    lemma_flat_paths(t, 0, 0);
}

} // verus!
