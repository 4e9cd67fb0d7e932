use vstd::prelude::*;
use rand::Rng;

use crate::error::LevelError;
use crate::quadtree::Quadtree;

verus! {

/// The deepest subdivision depth the weight table covers.
pub const MAX_DEPTH: usize = 5;

/// Rolls are drawn uniformly from `0 .. ROLL_RANGE`.
pub const ROLL_RANGE: u32 = 10;

/// Chance, in tenths, that a quadrant at depth index `n` is subdivided
/// further: 0.0, 0.1, 0.2, 0.7, 0.9, 1.0 for `n` = 0 ..= 5.
pub open spec fn split_weight(n: nat) -> nat {
    if n == 0 {
        0
    } else if n == 1 {
        1
    } else if n == 2 {
        2
    } else if n == 3 {
        7
    } else if n == 4 {
        9
    } else {
        10
    }
}

/// A tree that generation at depth `n` can produce: a stem each of whose
/// quadrants is either a leaf holding the size class `n - 1` (unless the
/// depth's weight makes subdivision certain) or, for `n > 1` with a
/// non-zero weight, a tree generated at depth `n - 1`.
pub open spec fn generated(t: Quadtree<u16>, n: nat) -> bool
    decreases n, 1nat,
{
    &&& t is Stem
    &&& quadrant_generated(t->Stem_0.0, n)
    &&& quadrant_generated(t->Stem_0.1, n)
    &&& quadrant_generated(t->Stem_0.2, n)
    &&& quadrant_generated(t->Stem_0.3, n)
}

/// What one quadrant of a tree generated at depth `n` may be.
pub open spec fn quadrant_generated(c: Quadtree<u16>, n: nat) -> bool
    decreases n, 0nat,
{
    ||| c == Quadtree::Leaf((n - 1) as u16) && !(n > 1 && split_weight(n) == ROLL_RANGE)
    ||| (n > 1 && split_weight(n) > 0 && generated(c, (n - 1) as nat))
}

/// Every leaf of `t` lies at depth at most `d` and holds at most `m`.
pub open spec fn leaves_bounded(t: Quadtree<u16>, d: nat, m: nat) -> bool
    decreases t,
{
    match t {
        Quadtree::Leaf(v) => v <= m,
        Quadtree::Stem(c) => {
            &&& d > 0
            &&& leaves_bounded(c.0, (d - 1) as nat, m)
            &&& leaves_bounded(c.1, (d - 1) as nat, m)
            &&& leaves_bounded(c.2, (d - 1) as nat, m)
            &&& leaves_bounded(c.3, (d - 1) as nat, m)
        },
    }
}

/// Relies on rand's `thread_rng().gen_range`: a value drawn from the
/// half-open range `0 .. bound`, which it refuses (panics) when empty.
#[verifier::external_body]
fn roll_below(bound: u32) -> (r: u32)
    requires
        bound > 0,
    ensures
        r < bound,
{
    rand::thread_rng().gen_range(0..bound)
}

/// The split weight of depth index `n`, in tenths.
pub fn weight_of(n: usize) -> (r: u32)
    requires
        n <= MAX_DEPTH,
    ensures
        r == split_weight(n as nat),
{
    match n {
        0 => 0,
        1 => 1,
        2 => 2,
        3 => 7,
        4 => 9,
        _ => 10,
    }
}

/// Whether a quadrant at depth index `n` is subdivided further, given a
/// roll drawn from `0 .. 10`: the roll must fall under the depth's weight,
/// and depth 1 always terminates.
pub fn should_split(roll: u32, n: usize) -> (r: bool)
    requires
        n <= MAX_DEPTH,
    ensures
        r == (roll < split_weight(n as nat) && n > 1),
{
    roll < weight_of(n) && n > 1
}

/// Generates one quadrant at depth `n`: either recurses, or becomes a leaf
/// holding the size class `n - 1`.
fn generate_quadrant(c: &mut Quadtree<u16>, n: usize)
    requires
        1 <= n <= MAX_DEPTH,
    ensures
        quadrant_generated(*final(c), n as nat),
    decreases n, 0nat,
{
    let roll = roll_below(ROLL_RANGE);
    if should_split(roll, n) {
        generate_subtree(c, n - 1);
    } else {
        *c = Quadtree::Leaf((n - 1) as u16);
    }
}

fn generate_subtree(tree: &mut Quadtree<u16>, n: usize)
    requires
        1 <= n <= MAX_DEPTH,
    ensures
        generated(*final(tree), n as nat),
    decreases n, 1nat,
{
    tree.subdivide();
    match tree {
        Quadtree::Stem(c) => {
            generate_quadrant(&mut c.0, n);
            generate_quadrant(&mut c.1, n);
            generate_quadrant(&mut c.2, n);
            generate_quadrant(&mut c.3, n);
        },
        Quadtree::Leaf(_) => {},
    }
}

/// Randomised recursive subdivision: subdivides `tree` once, then gives each
/// of its four quadrants either a deeper generated subtree (with the depth's
/// weight as probability, never at depth 1) or a leaf holding the room-size
/// class `n - 1`. Depths outside `1 ..= 5` are refused and leave the tree
/// as it was.
pub fn quadtree_gen(tree: &mut Quadtree<u16>, n: usize) -> (r: Result<(), LevelError>)
    ensures
        r is Err <==> (n == 0 || n > MAX_DEPTH),
        r is Err ==> r == Err::<(), LevelError>(LevelError::Configuration) && *final(tree) == *old(
            tree,
        ),
        r is Ok ==> generated(*final(tree), n as nat),
{
    if n == 0 || n > MAX_DEPTH {
        return Err(LevelError::Configuration);
    }
    generate_subtree(tree, n);
    Ok(())
}

/// A tree generated at depth `n >= 1` has all its leaves at depth at most
/// `n`, holding size classes in `0 ..= n - 1`.
pub proof fn lemma_generated_bounds(t: Quadtree<u16>, n: nat)
    requires
        n >= 1,
        generated(t, n),
    ensures
        leaves_bounded(t, n, (n - 1) as nat),
        t.height() <= n,
    decreases n,
{
    let c = t->Stem_0;
    assert forall|q: Quadtree<u16>|
        #![trigger quadrant_generated(q, n)]
        quadrant_generated(q, n) implies leaves_bounded(q, (n - 1) as nat, (n - 1) as nat)
        && q.height() <= n - 1 by {
        if q == Quadtree::<u16>::Leaf((n - 1) as u16) {
        } else {
            lemma_generated_bounds(q, (n - 1) as nat);
            lemma_bounded_weaken(q, (n - 1) as nat, (n - 2) as nat, (n - 1) as nat);
        }
    }
    assert(quadrant_generated(c.0, n));
    assert(quadrant_generated(c.1, n));
    assert(quadrant_generated(c.2, n));
    assert(quadrant_generated(c.3, n));
}

proof fn lemma_bounded_weaken(t: Quadtree<u16>, d: nat, m: nat, m2: nat)
    requires
        leaves_bounded(t, d, m),
        m <= m2,
    ensures
        leaves_bounded(t, d, m2),
    decreases t,
{
    match t {
        Quadtree::Leaf(_) => {},
        Quadtree::Stem(c) => {
            lemma_bounded_weaken(c.0, (d - 1) as nat, m, m2);
            lemma_bounded_weaken(c.1, (d - 1) as nat, m, m2);
            lemma_bounded_weaken(c.2, (d - 1) as nat, m, m2);
            lemma_bounded_weaken(c.3, (d - 1) as nat, m, m2);
        },
    }
}

} // verus!
