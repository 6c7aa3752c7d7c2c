//! The colour index: for every colour of a grid, the coordinates of the
//! pixels that have it.
//!
//! The colours are kept in the order in which a row-major scan first meets
//! them, and the coordinates of a colour in the order of that scan. The
//! coordinates are held in a hash multimap keyed by the packed colour; the
//! order of the colours is held beside it, since a hash map has none.

use crate::color::Rgb;
use crate::grid::{coord_of, PixelGrid};
use multimap::MultiMap;
use vstd::prelude::*;

verus! {

/// `multimap::MultiMap`, a hash map from keys to vectors of values. Nothing
/// is known of a value of it but what `blocks_of` gives.
#[verifier::external_type_specification]
#[verifier::external_body]
#[verifier::reject_recursive_types(K)]
#[verifier::reject_recursive_types(V)]
#[verifier::reject_recursive_types(S)]
pub struct ExMultiMap<K, V, S>(MultiMap<K, V, S>);

/// What a multimap from packed colours to coordinates holds: for every key
/// that is present, its values in the order in which they were inserted.
pub uninterp spec fn blocks_of(map: MultiMap<u32, (u32, u32)>) -> Map<u32, Seq<(u32, u32)>>;

/// A multimap that holds nothing.
pub open spec fn no_blocks() -> Map<u32, Seq<(u32, u32)>> {
    Map::empty()
}

/// `MultiMap::new`: the new multimap holds nothing.
#[verifier::external_body]
fn blocks_new() -> (blocks: MultiMap<u32, (u32, u32)>)
    ensures
        blocks_of(blocks) == no_blocks(),
{
    MultiMap::new()
}

/// `MultiMap::insert`: the value is pushed to the end of the key's values,
/// or becomes the key's only value where the key was absent. Other keys
/// keep their values.
#[verifier::external_body]
fn blocks_insert(map: &mut MultiMap<u32, (u32, u32)>, key: u32, value: (u32, u32))
    ensures
        blocks_of(*final(map)) == blocks_of(*old(map)).insert(
            key,
            if blocks_of(*old(map)).dom().contains(key) {
                blocks_of(*old(map))[key].push(value)
            } else {
                seq![value]
            },
        ),
{
    map.insert(key, value)
}

/// `MultiMap::get_vec`: the values of a key that is present, in insertion
/// order; none for an absent key.
#[verifier::external_body]
fn blocks_get_vec(map: &MultiMap<u32, (u32, u32)>, key: u32) -> (found: Option<&Vec<(u32, u32)>>)
    ensures
        match found {
            Some(coords) => blocks_of(*map).dom().contains(key) && coords@ == blocks_of(*map)[key],
            None => !blocks_of(*map).dom().contains(key),
        },
{
    map.get_vec(&key)
}

/// `MultiMap::remove`: the key leaves the multimap, and its values, if it
/// was present, are returned in insertion order. Other keys keep theirs.
#[verifier::external_body]
fn blocks_remove(map: &mut MultiMap<u32, (u32, u32)>, key: u32) -> (removed: Option<
    Vec<(u32, u32)>,
>)
    ensures
        blocks_of(*final(map)) == blocks_of(*old(map)).remove(key),
        match removed {
            Some(coords) => blocks_of(*old(map)).dom().contains(key) && coords@ == blocks_of(
                *old(map),
            )[key],
            None => !blocks_of(*old(map)).dom().contains(key),
        },
{
    map.remove(&key)
}

/// The three channels of a colour in one integer. Distinct colours give
/// distinct integers.
pub open spec fn pack(c: Rgb) -> u32 {
    (c.red * 65536 + c.green * 256 + c.blue) as u32
}

/// The key under which the multimap holds the coordinates of `c`.
fn pack_color(c: Rgb) -> (key: u32)
    ensures
        key == pack(c),
{
    (c.red as u32) * 65536 + (c.green as u32) * 256 + (c.blue as u32)
}

/// The colours of `pixels`, each once, in the order in which they first
/// occur.
pub open spec fn first_seen(pixels: Seq<Rgb>) -> Seq<Rgb>
    decreases pixels.len(),
{
    if pixels.len() == 0 {
        Seq::<Rgb>::empty()
    } else {
        let before = first_seen(pixels.drop_last());
        if before.contains(pixels.last()) {
            before
        } else {
            before.push(pixels.last())
        }
    }
}

/// The coordinates of the pixels of `pixels` that have the colour `c`, in
/// the order of the row-major scan of a grid that is `width` wide.
pub open spec fn coords_of_color(pixels: Seq<Rgb>, width: nat, c: Rgb) -> Seq<(u32, u32)>
    decreases pixels.len(),
{
    if pixels.len() == 0 {
        Seq::<(u32, u32)>::empty()
    } else {
        let before = coords_of_color(pixels.drop_last(), width, c);
        if pixels.last() == c {
            before.push(coord_of(pixels.len() - 1, width))
        } else {
            before
        }
    }
}

/// One colour with the coordinates of its pixels.
pub struct Block {
    pub color: Rgb,
    pub coords: Seq<(u32, u32)>,
}

/// The colour index of a grid: one block for each colour, in the order in
/// which the colours first occur.
pub open spec fn blocks_of_pixels(pixels: Seq<Rgb>, width: nat) -> Seq<Block> {
    Seq::new(
        first_seen(pixels).len(),
        |i: int|
            Block {
                color: first_seen(pixels)[i],
                coords: coords_of_color(pixels, width, first_seen(pixels)[i]),
            },
    )
}

/// A mapping from colours to the coordinates that have them.
pub struct ColorIndex {
    keys: Vec<Rgb>,
    blocks: MultiMap<u32, (u32, u32)>,
}

impl ColorIndex {
    /// The index is consistent: no colour is listed twice, the listed
    /// colours are those with coordinates, and each has at least one.
    pub closed spec fn wf(&self) -> bool {
        &&& self.keys@.no_duplicates()
        &&& forall|c: Rgb|
            self.keys@.contains(c) <==> blocks_of(self.blocks).dom().contains(#[trigger] pack(c))
        &&& forall|c: Rgb|
            self.keys@.contains(c) ==> blocks_of(self.blocks)[#[trigger] pack(c)].len() > 0
    }

    /// The colours of the index, in the order in which they came.
    pub closed spec fn colors(&self) -> Seq<Rgb> {
        self.keys@
    }

    /// The coordinates of the colour `c`, in the order in which they came;
    /// empty for a colour that the index does not hold.
    pub closed spec fn coords(&self, c: Rgb) -> Seq<(u32, u32)> {
        if blocks_of(self.blocks).dom().contains(pack(c)) {
            blocks_of(self.blocks)[pack(c)]
        } else {
            Seq::<(u32, u32)>::empty()
        }
    }

    /// The index as a sequence of blocks.
    pub open spec fn view(&self) -> Seq<Block> {
        Seq::new(
            self.colors().len(),
            |i: int| Block { color: self.colors()[i], coords: self.coords(self.colors()[i]) },
        )
    }

    /// What consistency means for the colours and coordinates of an index.
    pub proof fn lemma_wf(&self)
        requires
            self.wf(),
        ensures
            self.colors().no_duplicates(),
            forall|c: Rgb| self.colors().contains(c) <==> #[trigger] self.coords(c).len() > 0,
    {
        assert forall|c: Rgb| self.colors().contains(c) <==> #[trigger] self.coords(c).len()
            > 0 by {
            let _ = pack(c);
        }
    }

    /// An index that holds nothing.
    pub fn new() -> (index: ColorIndex)
        ensures
            index.wf(),
            index.colors() == Seq::<Rgb>::empty(),
            forall|c: Rgb| #[trigger] index.coords(c) == Seq::<(u32, u32)>::empty(),
    {
        let index = ColorIndex { keys: Vec::new(), blocks: blocks_new() };
        assert(index.keys@ =~= Seq::<Rgb>::empty());
        index
    }

    /// The number of colours of the index.
    pub fn len(&self) -> (n: usize)
        ensures
            n == self.colors().len(),
    {
        self.keys.len()
    }

    /// The colours of the index, in the order in which they came.
    pub fn keys(&self) -> (keys: &Vec<Rgb>)
        ensures
            keys@ == self.colors(),
    {
        &self.keys
    }

    /// Adds the coordinate `at` to those of `color`. A colour that is new to
    /// the index comes last in the order of its colours.
    pub fn insert(&mut self, color: Rgb, at: (u32, u32))
        requires
            old(self).wf(),
        ensures
            final(self).wf(),
            final(self).colors() == if old(self).colors().contains(color) {
                old(self).colors()
            } else {
                old(self).colors().push(color)
            },
            final(self).coords(color) == old(self).coords(color).push(at),
            forall|c: Rgb| c != color ==> #[trigger] final(self).coords(c) == old(self).coords(c),
    {
        let key: u32 = pack_color(color);
        let is_new: bool = blocks_get_vec(&self.blocks, key).is_none();
        blocks_insert(&mut self.blocks, key, at);
        if is_new {
            self.keys.push(color);
        }
        proof {
            let old_keys = old(self).keys@;
            let new_keys = self.keys@;
            assert(old_keys.contains(color) <==> !is_new) by {
                let _ = pack(color);
            }
            if is_new {
                assert(new_keys[old_keys.len() as int] == color);
                assert forall|c: Rgb| new_keys.contains(c) <==> (old_keys.contains(c) || c
                    == color) by {
                    if old_keys.contains(c) {
                        let i = choose|i: int| 0 <= i < old_keys.len() && old_keys[i] == c;
                        assert(new_keys[i] == c);
                    }
                }
            }
            assert forall|c: Rgb|
                self.keys@.contains(c) <==> blocks_of(self.blocks).dom().contains(
                    #[trigger] pack(c),
                ) by {
                if c != color {
                    assert(pack(c) != pack(color));
                }
            }
            assert forall|c: Rgb| self.keys@.contains(c) implies blocks_of(
                self.blocks,
            )[#[trigger] pack(c)].len() > 0 by {
                if c != color {
                    assert(pack(c) != pack(color));
                }
            }
            assert forall|c: Rgb| c != color implies #[trigger] self.coords(c) == old(
                self,
            ).coords(c) by {
                assert(pack(c) != pack(color));
            }
            assert(self.coords(color) =~= old(self).coords(color).push(at));
        }
    }

    /// The coordinates of `color`, in the order in which they came; none
    /// for a colour that the index does not hold.
    pub fn get_vec(&self, color: Rgb) -> (found: Option<&Vec<(u32, u32)>>)
        requires
            self.wf(),
        ensures
            match found {
                Some(coords) => self.colors().contains(color) && coords@ == self.coords(color),
                None => !self.colors().contains(color),
            },
    {
        let key: u32 = pack_color(color);
        blocks_get_vec(&self.blocks, key)
    }

    /// Takes `color` out of the index and returns its coordinates; none,
    /// and no change, for a colour that the index does not hold. The other
    /// colours keep their order and their coordinates.
    pub fn remove(&mut self, color: Rgb) -> (removed: Option<Vec<(u32, u32)>>)
        requires
            old(self).wf(),
        ensures
            final(self).wf(),
            match removed {
                Some(coords) => exists|i: int|
                    0 <= i < old(self)@.len() && #[trigger] old(self)@[i].color == color && old(
                        self,
                    )@[i].coords == coords@ && final(self)@ == old(self)@.remove(i),
                None => !old(self).colors().contains(color) && final(self)@ == old(self)@,
            },
    {
        let key: u32 = pack_color(color);
        let removed = blocks_remove(&mut self.blocks, key);
        let mut i: usize = 0;
        while i < self.keys.len() && !same_color(self.keys[i], color)
            invariant
                i <= self.keys.len(),
                self.keys@ == old(self).keys@,
                forall|j: int| 0 <= j < i ==> self.keys@[j] != color,
            decreases self.keys.len() - i,
        {
            i = i + 1;
        }
        if i < self.keys.len() {
            self.keys.remove(i);
        }
        proof {
            let old_keys = old(self).keys@;
            let new_keys = self.keys@;
            assert(old_keys.contains(color) <==> removed is Some) by {
                let _ = pack(color);
            }
            if removed is Some {
                assert(i < old_keys.len());
                assert(new_keys =~= old_keys.remove(i as int));
                assert forall|c: Rgb| new_keys.contains(c) <==> (old_keys.contains(c) && c
                    != color) by {
                    if old_keys.contains(c) && c != color {
                        let j = choose|j: int| 0 <= j < old_keys.len() && old_keys[j] == c;
                        if j < i {
                            assert(new_keys[j] == c);
                        } else {
                            assert(new_keys[j - 1] == c);
                        }
                    }
                    if new_keys.contains(c) {
                        let j = choose|j: int| 0 <= j < new_keys.len() && new_keys[j] == c;
                        if j < i {
                            assert(old_keys[j] == c);
                        } else {
                            assert(old_keys[j + 1] == c);
                        }
                    }
                }
                assert(new_keys.no_duplicates()) by {
                    assert forall|a: int, b: int|
                        0 <= a < new_keys.len() && 0 <= b < new_keys.len() && a
                            != b implies new_keys[a] != new_keys[b] by {
                        let a0 = if a < i { a } else { a + 1 };
                        let b0 = if b < i { b } else { b + 1 };
                        assert(new_keys[a] == old_keys[a0]);
                        assert(new_keys[b] == old_keys[b0]);
                    }
                }
            } else {
                assert(i == old_keys.len()) by {
                    if i < old_keys.len() {
                        assert(old_keys[i as int] == color);
                    }
                }
                assert(blocks_of(self.blocks) =~= blocks_of(old(self).blocks));
            }
            assert forall|c: Rgb|
                self.keys@.contains(c) <==> blocks_of(self.blocks).dom().contains(
                    #[trigger] pack(c),
                ) by {
                if c != color {
                    assert(pack(c) != pack(color));
                }
            }
            assert forall|c: Rgb| self.keys@.contains(c) implies blocks_of(
                self.blocks,
            )[#[trigger] pack(c)].len() > 0 by {
                if c != color {
                    assert(pack(c) != pack(color));
                }
            }
            assert forall|c: Rgb| c != color implies #[trigger] self.coords(c) == old(
                self,
            ).coords(c) by {
                assert(pack(c) != pack(color));
            }
            if removed is Some {
                assert(old(self)@[i as int].color == color);
                assert(self@ =~= old(self)@.remove(i as int));
            } else {
                assert(self@ =~= old(self)@);
            }
        }
        removed
    }
}

/// Whether two colours are the same.
fn same_color(a: Rgb, b: Rgb) -> (same: bool)
    ensures
        same == (a == b),
{
    a.red == b.red && a.green == b.green && a.blue == b.blue
}

/// Indexes the pixels of a grid by colour, in one row-major scan.
pub fn index_colors(grid: &PixelGrid) -> (index: ColorIndex)
    ensures
        index.wf(),
        index@ == blocks_of_pixels(grid@, grid.spec_width() as nat),
{
    let pixels = grid.pixels();
    let width: u32 = grid.width();
    let height: u32 = grid.height();
    let mut index = ColorIndex::new();
    let mut i: usize = 0;
    assert(pixels@.take(0) =~= Seq::<Rgb>::empty());
    while i < pixels.len()
        invariant
            i <= pixels.len(),
            pixels@.len() == width * height,
            index.wf(),
            index.colors() == first_seen(pixels@.take(i as int)),
            forall|c: Rgb|
                #[trigger] index.coords(c) == coords_of_color(
                    pixels@.take(i as int),
                    width as nat,
                    c,
                ),
        decreases pixels.len() - i,
    {
        assert(width > 0 && i / (width as usize) < height) by (nonlinear_arith)
            requires
                i < width * height,
                0 <= width,
                0 <= height,
        ;
        let x: u32 = (i % (width as usize)) as u32;
        let y: u32 = (i / (width as usize)) as u32;
        let color: Rgb = pixels[i];
        let ghost before = index;
        index.insert(color, (x, y));
        proof {
            let done = pixels@.take(i as int);
            let next = pixels@.take(i + 1);
            assert(next.drop_last() =~= done);
            assert(next.last() == color);
            assert(coord_of(i as int, width as nat) == (x, y));
            assert forall|c: Rgb|
                #[trigger] index.coords(c) == coords_of_color(next, width as nat, c) by {
                if c != color {
                    assert(index.coords(c) == before.coords(c));
                }
            }
        }
        i = i + 1;
    }
    assert(pixels@.take(i as int) =~= pixels@);
    assert(index@ =~= blocks_of_pixels(grid@, grid.spec_width() as nat));
    index
}

} // verus!
