use vstd::prelude::*;
use indexmap::IndexMap;

use crate::tile::Tile;

verus! {

#[verifier::external_type_specification]
#[verifier::external_body]
#[verifier::reject_recursive_types(K)]
#[verifier::reject_recursive_types(V)]
#[verifier::reject_recursive_types(S)]
pub struct ExIndexMap<K, V, S>(IndexMap<K, V, S>);

/// The (name, tile) pairs an index map holds, in its order.
pub uninterp spec fn map_entries(m: IndexMap<String, Tile>) -> Seq<(Seq<char>, Tile)>;

/// No name occurs twice.
pub open spec fn names_unique(s: Seq<(Seq<char>, Tile)>) -> bool {
    forall|i: int, j: int| 0 <= i < s.len() && 0 <= j < s.len() && i != j ==> (#[trigger] s[i]).0 != (
    #[trigger] s[j]).0
}

/// The position of `name` in `s`, if it occurs.
pub open spec fn position_of(s: Seq<(Seq<char>, Tile)>, name: Seq<char>) -> Option<int> {
    if exists|i: int| 0 <= i < s.len() && (#[trigger] s[i]).0 == name {
        Some(choose|i: int| 0 <= i < s.len() && (#[trigger] s[i]).0 == name)
    } else {
        None
    }
}

/// Relies on `IndexMap::new`: an empty map.
#[verifier::external_body]
fn map_new() -> (r: IndexMap<String, Tile>)
    ensures
        map_entries(r) == Seq::<(Seq<char>, Tile)>::empty(),
{
    IndexMap::new()
}

/// Relies on `IndexMap::insert`: an existing equal key keeps its place and
/// takes the new value, the old value being returned; otherwise the pair is
/// appended last and `None` returned.
#[verifier::external_body]
fn map_insert(m: &mut IndexMap<String, Tile>, name: String, tile: Tile) -> (r: Option<Tile>)
    ensures
        ({
            let before = map_entries(*old(m));
            let after = map_entries(*final(m));
            match position_of(before, name@) {
                Some(i) => after == before.update(i, (name@, tile)) && r == Some(before[i].1),
                None => after == before.push((name@, tile)) && r is None,
            }
        }),
{
    m.insert(name, tile)
}

/// Relies on `IndexMap::get_index`: the pair at `index`, if `index` is below
/// the length.
#[verifier::external_body]
fn map_get_index(m: &IndexMap<String, Tile>, index: usize) -> (r: Option<(&String, &Tile)>)
    ensures
        index < map_entries(*m).len() <==> r is Some,
        r matches Some(p) ==> (p.0@, *p.1) == map_entries(*m)[index as int],
{
    m.get_index(index)
}

/// Relies on `IndexMap::get_index_of`: the position of the key equal to
/// `name`, if there is one.
#[verifier::external_body]
fn map_get_index_of(m: &IndexMap<String, Tile>, name: &str) -> (r: Option<usize>)
    ensures
        r is None ==> forall|i: int| 0 <= i < map_entries(*m).len() ==> (#[trigger] map_entries(*m)[i]).0 != name@,
        r matches Some(i) ==> i < map_entries(*m).len() && map_entries(*m)[i as int].0 == name@,
{
    m.get_index_of(name)
}

/// Relies on `IndexMap::len`: the number of pairs.
#[verifier::external_body]
fn map_len(m: &IndexMap<String, Tile>) -> (r: usize)
    ensures
        r == map_entries(*m).len(),
{
    m.len()
}

/// The tile palette: tiles by name, in insertion order. A tile's position is
/// its index, the value the level grid stores.
pub struct Palette {
    map: IndexMap<String, Tile>,
}

impl Palette {
    /// The (name, tile) pairs in order.
    pub closed spec fn entries(self) -> Seq<(Seq<char>, Tile)> {
        map_entries(self.map)
    }

    #[verifier::type_invariant]
    spec fn inv(self) -> bool {
        names_unique(map_entries(self.map))
    }

    pub fn new() -> (r: Self)
        ensures
            r.entries() == Seq::<(Seq<char>, Tile)>::empty(),
            names_unique(r.entries()),
    {
        Palette { map: map_new() }
    }

    /// Adds `tile` under `name` at the end, or replaces the tile already
    /// named so in its place, returning the replaced tile.
    pub fn insert(&mut self, name: String, tile: Tile) -> (r: Option<Tile>)
        ensures
            match position_of(old(self).entries(), name@) {
                Some(i) => final(self).entries() == old(self).entries().update(i, (name@, tile)) && r
                    == Some(old(self).entries()[i].1),
                None => final(self).entries() == old(self).entries().push((name@, tile)) && r is None,
            },
            names_unique(final(self).entries()),
    {
        proof {
            use_type_invariant(&*self);
        }
        let mut map = map_new();
        std::mem::swap(&mut self.map, &mut map);
        let r = map_insert(&mut map, name, tile);
        proof {
            let before = old(self).entries();
            let after = map_entries(map);
            match position_of(before, name@) {
                Some(i) => {
                    assert forall|a: int, b: int|
                        0 <= a < after.len() && 0 <= b < after.len() && a != b implies (#[trigger] after[a]).0
                        != (#[trigger] after[b]).0 by {
                        assert(before[i].0 == name@);
                        if a != i && b != i {
                            assert(after[a] == before[a] && after[b] == before[b]);
                        } else if a == i {
                            assert(after[b] == before[b]);
                        } else {
                            assert(after[a] == before[a]);
                        }
                    }
                },
                None => {
                    assert forall|a: int, b: int|
                        0 <= a < after.len() && 0 <= b < after.len() && a != b implies (#[trigger] after[a]).0
                        != (#[trigger] after[b]).0 by {
                        if a < before.len() && b < before.len() {
                            assert(after[a] == before[a] && after[b] == before[b]);
                        } else if a < before.len() {
                            assert(after[a] == before[a]);
                        } else {
                            assert(after[b] == before[b]);
                        }
                    }
                },
            }
        }
        *self = Palette { map };
        r
    }

    /// The number of tiles; the names are pairwise distinct.
    pub fn len(&self) -> (r: usize)
        ensures
            r == self.entries().len(),
            names_unique(self.entries()),
    {
        proof {
            use_type_invariant(self);
        }
        map_len(&self.map)
    }

    /// The tile at `index`, if there is one.
    pub fn tile(&self, index: usize) -> (r: Option<Tile>)
        ensures
            index < self.entries().len() <==> r is Some,
            r matches Some(t) ==> t == self.entries()[index as int].1,
    {
        match map_get_index(&self.map, index) {
            Some(p) => Some(*p.1),
            None => None,
        }
    }

    /// The name at `index`, if there is one.
    pub fn name(&self, index: usize) -> (r: Option<String>)
        ensures
            index < self.entries().len() <==> r is Some,
            r matches Some(n) ==> n@ == self.entries()[index as int].0,
    {
        match map_get_index(&self.map, index) {
            Some(p) => Some(p.0.clone()),
            None => None,
        }
    }

    /// The index of the tile named `name`, if there is one.
    pub fn index_of(&self, name: &str) -> (r: Option<usize>)
        ensures
            r is None <==> position_of(self.entries(), name@) is None,
            r matches Some(i) ==> position_of(self.entries(), name@) == Some(i as int),
            names_unique(self.entries()),
    {
        proof {
            use_type_invariant(self);
        }
        let r = map_get_index_of(&self.map, name);
        proof {
            let s = self.entries();
            if let Some(i) = r {
                assert(s[i as int].0 == name@);
                let j = choose|j: int| 0 <= j < s.len() && (#[trigger] s[j]).0 == name@;
                assert(j == i);
            }
        }
        r
    }
}

} // verus!
