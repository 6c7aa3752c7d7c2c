//! From a colour index to a coat of arms: the colour with the most pixels
//! becomes the background, and every other colour an emblem with one
//! instance for each of its pixels.

use crate::color::{Pattern, Rgb, Texture};
use crate::index::{Block, ColorIndex};
use crate::model::{coa_text, Coa, CoaView, Emblem, EmblemView, Instance};
use crate::number::Scalar;
use vstd::prelude::*;

verus! {

/// The place of the block that gives the background: the first of the
/// blocks with the most coordinates. Zero for no blocks at all.
pub open spec fn largest_block(blocks: Seq<Block>) -> int
    decreases blocks.len(),
{
    if blocks.len() <= 1 {
        0
    } else {
        let before = largest_block(blocks.drop_last());
        if blocks.last().coords.len() > blocks[before].coords.len() {
            blocks.len() - 1
        } else {
            before
        }
    }
}

/// The block at `b` has the most coordinates, and it is the first of those
/// that have as many.
pub open spec fn is_background(blocks: Seq<Block>, b: int) -> bool {
    &&& 0 <= b < blocks.len()
    &&& forall|j: int|
        0 <= j < blocks.len() ==> (#[trigger] blocks[j]).coords.len() <= blocks[b].coords.len()
    &&& forall|j: int| 0 <= j < b ==> (#[trigger] blocks[j]).coords.len() < blocks[b].coords.len()
}

/// The background colour that `blocks` give: that of the largest block,
/// and black where there is no block.
pub open spec fn background_color(blocks: Seq<Block>) -> Rgb {
    if blocks.len() == 0 {
        Rgb { red: 0, green: 0, blue: 0 }
    } else {
        blocks[largest_block(blocks)].color
    }
}

/// The blocks that become emblems: all but the largest, in their order.
pub open spec fn emblem_blocks(blocks: Seq<Block>) -> Seq<Block> {
    if blocks.len() == 0 {
        blocks
    } else {
        blocks.remove(largest_block(blocks))
    }
}

/// The instance that stands for the pixel at `at` of a grid that is `width`
/// wide: both coordinates divided by the width, and a scale of one pixel.
pub open spec fn instance_at(at: (u32, u32), width: u32) -> Instance {
    Instance {
        position: Some(
            (
                Scalar { numerator: at.0, denominator: width },
                Scalar { numerator: at.1, denominator: width },
            ),
        ),
        scale: Some(
            (
                Scalar { numerator: 1, denominator: width },
                Scalar { numerator: 1, denominator: width },
            ),
        ),
        depth: None,
        rotation: None,
    }
}

/// The emblem of a block: its one colour, the block texture, and one
/// instance for each coordinate, in order.
pub open spec fn emblem_of(block: Block, width: u32) -> EmblemView {
    EmblemView {
        colors: seq![block.color],
        texture: Texture::Block,
        instances: Seq::new(block.coords.len(), |i: int| instance_at(block.coords[i], width)),
    }
}

/// The coat of arms that `blocks` give: a solid pattern in the background
/// colour, and one emblem for every other block, in order.
pub open spec fn coa_of(blocks: Seq<Block>, is_title: bool, width: u32) -> CoaView {
    CoaView {
        pattern: Pattern::Solid,
        colors: seq![background_color(blocks)],
        emblems: Seq::new(
            emblem_blocks(blocks).len(),
            |i: int| emblem_of(emblem_blocks(blocks)[i], width),
        ),
        is_title,
    }
}

/// The largest block is a background in the sense of `is_background`.
pub proof fn lemma_largest_block(blocks: Seq<Block>)
    requires
        blocks.len() > 0,
    ensures
        is_background(blocks, largest_block(blocks)),
    decreases blocks.len(),
{
    if blocks.len() > 1 {
        let shorter = blocks.drop_last();
        lemma_largest_block(shorter);
        let before = largest_block(shorter);
        let b = largest_block(blocks);
        assert forall|j: int| 0 <= j < blocks.len() implies (#[trigger] blocks[j]).coords.len()
            <= blocks[b].coords.len() by {
            if j < shorter.len() {
                assert(shorter[j] == blocks[j]);
            }
        }
        assert forall|j: int| 0 <= j < b implies (#[trigger] blocks[j]).coords.len()
            < blocks[b].coords.len() by {
            assert(shorter[j] == blocks[j]);
        }
    }
}

/// Only one block is a background.
pub proof fn lemma_background_unique(blocks: Seq<Block>, b: int)
    requires
        is_background(blocks, b),
    ensures
        b == largest_block(blocks),
{
    lemma_largest_block(blocks);
    let l = largest_block(blocks);
    if b < l {
        assert(blocks[b].coords.len() < blocks[l].coords.len());
    } else if l < b {
        assert(blocks[l].coords.len() < blocks[b].coords.len());
    }
}

/// Builds the instance of the pixel at `at`.
fn build_instance(at: (u32, u32), width: u32) -> (instance: Instance)
    ensures
        instance == instance_at(at, width),
{
    Instance {
        position: Some((Scalar::new(at.0, width), Scalar::new(at.1, width))),
        scale: Some((Scalar::new(1, width), Scalar::new(1, width))),
        depth: None,
        rotation: None,
    }
}

/// Builds the emblem of one colour from its coordinates.
pub fn build_emblem(color: Rgb, coords: &Vec<(u32, u32)>, width: u32) -> (emblem: Emblem)
    ensures
        emblem@ == emblem_of(Block { color, coords: coords@ }, width),
{
    let mut colors: Vec<Rgb> = Vec::new();
    colors.push(color);
    let mut instances: Vec<Instance> = Vec::new();
    let mut i: usize = 0;
    while i < coords.len()
        invariant
            i <= coords.len(),
            instances@.len() == i,
            forall|j: int| 0 <= j < i ==> instances@[j] == instance_at(coords@[j], width),
        decreases coords.len() - i,
    {
        instances.push(build_instance(coords[i], width));
        i = i + 1;
    }
    let emblem = Emblem { colors, texture: Texture::Block, instances };
    assert(emblem@.colors =~= seq![color]);
    assert(emblem@.instances =~= emblem_of(Block { color, coords: coords@ }, width).instances);
    emblem
}

/// Finds the colour with the most coordinates, the first of several with
/// as many; black for an index that holds nothing.
pub fn find_background(index: &ColorIndex) -> (color: Rgb)
    requires
        index.wf(),
    ensures
        color == background_color(index@),
        index@.len() > 0 ==> index@[largest_block(index@)].color == color && is_background(
            index@,
            largest_block(index@),
        ),
{
    let mut max: usize = 0;
    let mut color: Rgb = Rgb::new(0, 0, 0);
    let keys = index.keys();
    let ghost blocks = index@;
    let mut i: usize = 0;
    proof {
        index.lemma_wf();
    }
    while i < keys.len()
        invariant
            i <= keys.len(),
            index.wf(),
            keys@ == index.colors(),
            blocks == index@,
            forall|c: Rgb| index.colors().contains(c) <==> #[trigger] index.coords(c).len() > 0,
            i == 0 ==> max == 0 && color == (Rgb { red: 0, green: 0, blue: 0 }),
            i > 0 ==> {
                let b = largest_block(blocks.take(i as int));
                &&& 0 <= b < i
                &&& max == blocks[b].coords.len()
                &&& color == blocks[b].color
            },
        decreases keys.len() - i,
    {
        let key: Rgb = keys[i];
        let size: usize = match index.get_vec(key) {
            Some(coords) => coords.len(),
            None => 0,
        };
        proof {
            assert(index.colors().contains(key));
            assert(size == blocks[i as int].coords.len());
            assert(size > 0);
            let done = blocks.take(i as int);
            let next = blocks.take(i + 1);
            assert(next.drop_last() =~= done);
            assert(next.last() == blocks[i as int]);
            if i > 0 {
                assert(next[largest_block(done)] == blocks[largest_block(done)]);
            }
        }
        if size > max {
            max = size;
            color = key;
        }
        i = i + 1;
    }
    proof {
        assert(blocks.take(i as int) =~= blocks);
        if blocks.len() > 0 {
            lemma_largest_block(blocks);
        }
    }
    color
}

/// Builds the coat of arms of a colour index. The background colour leaves
/// the index; the colours that stay are those of the emblems.
pub fn build_coa(index: &mut ColorIndex, is_title: bool, width: u32) -> (coa: Coa)
    requires
        old(index).wf(),
    ensures
        final(index).wf(),
        final(index)@ == emblem_blocks(old(index)@),
        coa@ == coa_of(old(index)@, is_title, width),
{
    let background: Rgb = find_background(index);
    let ghost all = index@;
    proof {
        index.lemma_wf();
    }
    let removed = index.remove(background);
    proof {
        if all.len() > 0 {
            let b = largest_block(all);
            assert(all[b].color == background);
            assert(index@ =~= emblem_blocks(all)) by {
                let i = choose|i: int|
                    0 <= i < all.len() && #[trigger] all[i].color == background && all.remove(i)
                        == index@;
                assert(old(index).colors()[i] == old(index).colors()[b]);
            }
        } else {
            assert(index@ =~= emblem_blocks(all));
        }
        index.lemma_wf();
    }
    let mut colors: Vec<Rgb> = Vec::new();
    colors.push(background);
    let mut emblems: Vec<Emblem> = Vec::new();
    let keys = index.keys();
    let ghost rest = index@;
    let mut i: usize = 0;
    while i < keys.len()
        invariant
            i <= keys.len(),
            index.wf(),
            keys@ == index.colors(),
            rest == index@,
            emblems@.len() == i,
            forall|j: int| 0 <= j < i ==> (#[trigger] emblems@[j])@ == emblem_of(rest[j], width),
        decreases keys.len() - i,
    {
        let key: Rgb = keys[i];
        match index.get_vec(key) {
            Some(coords) => {
                let emblem = build_emblem(key, coords, width);
                assert(rest[i as int] == (Block { color: key, coords: coords@ }));
                emblems.push(emblem);
            },
            None => {
                assert(index.colors().contains(key));
                assert(false);
            },
        }
        i = i + 1;
    }
    let coa = Coa { pattern: Pattern::Solid, colors, emblems, is_title };
    proof {
        assert(coa@.colors =~= seq![background_color(all)]);
        assert(coa@.emblems =~= coa_of(all, is_title, width).emblems);
    }
    coa
}

/// Builds the coat of arms of a colour index and gives its text. The
/// background colour leaves the index.
pub fn parse_map(colored_blocks: &mut ColorIndex, is_title: bool, width: u32) -> (text: String)
    requires
        old(colored_blocks).wf(),
    ensures
        final(colored_blocks).wf(),
        final(colored_blocks)@ == emblem_blocks(old(colored_blocks)@),
        text@ == coa_text(coa_of(old(colored_blocks)@, is_title, width)),
{
    let coa = build_coa(colored_blocks, is_title, width);
    coa.to_string()
}

} // verus!
