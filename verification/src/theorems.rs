//! What holds of every conversion, stated over the models that the
//! contracts of the library use.

use crate::builder::{
    background_color, coa_of, emblem_blocks, emblem_of, instance_at, is_background,
    largest_block, lemma_largest_block,
};
use crate::color::{closest_match, lemma_reference_color_matches_itself, Rgb};
use crate::grid::{coord_of, vanilla_pixels};
use crate::index::{blocks_of_pixels, coords_of_color, first_seen, Block};
use crate::model::{EmblemView, Instance};
use crate::number::{lemma_scalar_at_most_one, lemma_scalar_positive, Scalar};
use vstd::prelude::*;

verus! {

/// Resolving to the reference colours a second time changes nothing: the
/// colours are reference colours already.
pub proof fn lemma_vanilla_idempotent(pixels: Seq<Rgb>)
    ensures
        vanilla_pixels(vanilla_pixels(pixels)) == vanilla_pixels(pixels),
{
    let once = vanilla_pixels(pixels);
    assert forall|i: int| 0 <= i < once.len() implies closest_match(once[i]).rgb() == once[i] by {
        lemma_reference_color_matches_itself(closest_match(pixels[i]));
    }
    assert(vanilla_pixels(once) =~= once);
}

/// The colours of an index are those of the pixels: each occurs once.
pub proof fn lemma_first_seen(pixels: Seq<Rgb>)
    ensures
        first_seen(pixels).no_duplicates(),
        forall|c: Rgb| first_seen(pixels).contains(c) <==> pixels.contains(c),
        first_seen(pixels).len() <= pixels.len(),
        pixels.len() > 0 ==> first_seen(pixels).len() > 0,
    decreases pixels.len(),
{
    if pixels.len() > 0 {
        let shorter = pixels.drop_last();
        let last = pixels.last();
        lemma_first_seen(shorter);
        let before = first_seen(shorter);
        let now = first_seen(pixels);
        assert forall|c: Rgb| now.contains(c) <==> pixels.contains(c) by {
            if now.contains(c) {
                let i = choose|i: int| 0 <= i < now.len() && now[i] == c;
                if i < before.len() {
                    assert(before[i] == c);
                    assert(before.contains(c));
                    assert(shorter.contains(c));
                    let j = choose|j: int| 0 <= j < shorter.len() && shorter[j] == c;
                    assert(pixels[j] == c);
                } else {
                    assert(pixels[pixels.len() - 1] == c);
                }
            }
            if pixels.contains(c) {
                let j = choose|j: int| 0 <= j < pixels.len() && pixels[j] == c;
                if j < shorter.len() {
                    assert(shorter[j] == c);
                    assert(shorter.contains(c));
                    assert(before.contains(c));
                    let i = choose|i: int| 0 <= i < before.len() && before[i] == c;
                    assert(now[i] == c);
                } else {
                    if before.contains(c) {
                        let i = choose|i: int| 0 <= i < before.len() && before[i] == c;
                        assert(now[i] == c);
                    } else {
                        assert(now[before.len() as int] == c);
                    }
                }
            }
        }
        if !before.contains(last) {
            assert(now[before.len() as int] == last);
        } else {
            let i = choose|i: int| 0 <= i < before.len() && before[i] == last;
            assert(now.len() > 0);
        }
    }
}

/// The number of colours of an index is the number of distinct colours of
/// the pixels.
pub proof fn lemma_distinct_colors(pixels: Seq<Rgb>)
    ensures
        first_seen(pixels).len() == pixels.to_set().len(),
{
    lemma_first_seen(pixels);
    first_seen(pixels).unique_seq_to_set();
    assert(first_seen(pixels).to_set() =~= pixels.to_set());
}

/// A grid with at least one pixel gives one emblem less than it has
/// distinct colours: every colour but the background.
pub proof fn lemma_emblem_count(pixels: Seq<Rgb>, width: u32, is_title: bool)
    requires
        pixels.len() > 0,
    ensures
        coa_of(blocks_of_pixels(pixels, width as nat), is_title, width).emblems.len() + 1
            == pixels.to_set().len(),
        coa_of(blocks_of_pixels(pixels, width as nat), is_title, width).colors.len() == 1,
{
    lemma_distinct_colors(pixels);
    lemma_first_seen(pixels);
    let blocks = blocks_of_pixels(pixels, width as nat);
    lemma_largest_block(blocks);
    blocks.remove_ensures(largest_block(blocks));
}

/// The number of pixels of `pixels` that have the colour `c`.
pub open spec fn count_color(pixels: Seq<Rgb>, c: Rgb) -> nat
    decreases pixels.len(),
{
    if pixels.len() == 0 {
        0
    } else {
        count_color(pixels.drop_last(), c) + if pixels.last() == c {
            1nat
        } else {
            0nat
        }
    }
}

/// The number of coordinates of all of `blocks` together.
pub open spec fn total_coords(blocks: Seq<Block>) -> nat
    decreases blocks.len(),
{
    if blocks.len() == 0 {
        0
    } else {
        total_coords(blocks.drop_last()) + blocks.last().coords.len()
    }
}

/// The number of instances of all of `emblems` together.
pub open spec fn total_instances(emblems: Seq<EmblemView>) -> nat
    decreases emblems.len(),
{
    if emblems.len() == 0 {
        0
    } else {
        total_instances(emblems.drop_last()) + emblems.last().instances.len()
    }
}

/// A colour has one coordinate for each pixel that has it.
pub proof fn lemma_coords_count(pixels: Seq<Rgb>, width: nat, c: Rgb)
    ensures
        coords_of_color(pixels, width, c).len() == count_color(pixels, c),
    decreases pixels.len(),
{
    if pixels.len() > 0 {
        lemma_coords_count(pixels.drop_last(), width, c);
    }
}

/// Over colours that are all different, the pixels that have one of them
/// are counted once each: together they are at most all pixels, and they
/// are all pixels where every colour of the pixels is among them.
proof fn lemma_count_sum(pixels: Seq<Rgb>, colors: Seq<Rgb>)
    requires
        colors.no_duplicates(),
    ensures
        sum_counts(pixels, colors) == covered(pixels, colors),
    decreases pixels.len(),
{
    if pixels.len() == 0 {
        lemma_sum_counts_empty(colors);
        assert(pixels =~= Seq::<Rgb>::empty());
    } else {
        let shorter = pixels.drop_last();
        lemma_count_sum(shorter, colors);
        lemma_sum_counts_step(shorter, pixels.last(), colors);
        assert(shorter.push(pixels.last()) =~= pixels);
    }
}

/// The sum over `colors` of the number of pixels that have each.
spec fn sum_counts(pixels: Seq<Rgb>, colors: Seq<Rgb>) -> nat
    decreases colors.len(),
{
    if colors.len() == 0 {
        0
    } else {
        sum_counts(pixels, colors.drop_last()) + count_color(pixels, colors.last())
    }
}

/// The number of pixels whose colour is among `colors`.
spec fn covered(pixels: Seq<Rgb>, colors: Seq<Rgb>) -> nat
    decreases pixels.len(),
{
    if pixels.len() == 0 {
        0
    } else {
        covered(pixels.drop_last(), colors) + if colors.contains(pixels.last()) {
            1nat
        } else {
            0nat
        }
    }
}

proof fn lemma_sum_counts_empty(colors: Seq<Rgb>)
    ensures
        sum_counts(Seq::<Rgb>::empty(), colors) == 0,
    decreases colors.len(),
{
    if colors.len() > 0 {
        lemma_sum_counts_empty(colors.drop_last());
    }
}

/// One more pixel adds one to the sum if its colour is among `colors`, and
/// nothing otherwise.
proof fn lemma_sum_counts_step(pixels: Seq<Rgb>, p: Rgb, colors: Seq<Rgb>)
    requires
        colors.no_duplicates(),
    ensures
        sum_counts(pixels.push(p), colors) == sum_counts(pixels, colors) + if colors.contains(p) {
            1nat
        } else {
            0nat
        },
    decreases colors.len(),
{
    assert(pixels.push(p).drop_last() =~= pixels);
    if colors.len() > 0 {
        let fewer = colors.drop_last();
        let last = colors.last();
        assert(fewer.no_duplicates()) by {
            assert forall|i: int, j: int|
                0 <= i < fewer.len() && 0 <= j < fewer.len() && i != j implies fewer[i]
                != fewer[j] by {
                assert(fewer[i] == colors[i] && fewer[j] == colors[j]);
            }
        }
        lemma_sum_counts_step(pixels, p, fewer);
        if fewer.contains(p) {
            let i = choose|i: int| 0 <= i < fewer.len() && fewer[i] == p;
            assert(colors[i] == p);
            assert(last != p);
        } else if last == p {
            assert(colors[colors.len() - 1] == p);
        } else {
            if colors.contains(p) {
                let i = choose|i: int| 0 <= i < colors.len() && colors[i] == p;
                assert(fewer[i] == p);
            }
        }
    }
}

/// Where every colour of the pixels is among `colors`, all pixels are
/// covered.
proof fn lemma_covered_all(pixels: Seq<Rgb>, colors: Seq<Rgb>)
    requires
        forall|c: Rgb| pixels.contains(c) ==> colors.contains(c),
    ensures
        covered(pixels, colors) == pixels.len(),
    decreases pixels.len(),
{
    if pixels.len() > 0 {
        let shorter = pixels.drop_last();
        assert forall|c: Rgb| shorter.contains(c) implies colors.contains(c) by {
            let j = choose|j: int| 0 <= j < shorter.len() && shorter[j] == c;
            assert(pixels[j] == c);
        }
        lemma_covered_all(shorter, colors);
        assert(pixels[pixels.len() - 1] == pixels.last());
    }
}

/// The blocks of the first `n` colours of an index hold as many coordinates
/// as those colours have pixels.
proof fn lemma_total_coords_prefix(pixels: Seq<Rgb>, width: nat, n: int)
    requires
        0 <= n <= first_seen(pixels).len(),
    ensures
        total_coords(blocks_of_pixels(pixels, width).take(n)) == sum_counts(
            pixels,
            first_seen(pixels).take(n),
        ),
    decreases n,
{
    let blocks = blocks_of_pixels(pixels, width);
    let colors = first_seen(pixels);
    if n > 0 {
        lemma_total_coords_prefix(pixels, width, n - 1);
        assert(blocks.take(n).drop_last() =~= blocks.take(n - 1));
        assert(colors.take(n).drop_last() =~= colors.take(n - 1));
        assert(blocks.take(n).last() == blocks[n - 1]);
        assert(colors.take(n).last() == colors[n - 1]);
        lemma_coords_count(pixels, width, colors[n - 1]);
    }
}

/// An index holds every pixel exactly once: its blocks together have as
/// many coordinates as there are pixels.
pub proof fn lemma_index_covers(pixels: Seq<Rgb>, width: nat)
    ensures
        total_coords(blocks_of_pixels(pixels, width)) == pixels.len(),
{
    let blocks = blocks_of_pixels(pixels, width);
    let colors = first_seen(pixels);
    lemma_first_seen(pixels);
    lemma_total_coords_prefix(pixels, width, colors.len() as int);
    assert(blocks.take(colors.len() as int) =~= blocks);
    assert(colors.take(colors.len() as int) =~= colors);
    lemma_count_sum(pixels, colors);
    lemma_covered_all(pixels, colors);
}

/// Taking one block out takes its coordinates out of the total.
pub proof fn lemma_total_coords_remove(blocks: Seq<Block>, i: int)
    requires
        0 <= i < blocks.len(),
    ensures
        total_coords(blocks.remove(i)) + blocks[i].coords.len() == total_coords(blocks),
    decreases blocks.len(),
{
    let shorter = blocks.drop_last();
    if i == blocks.len() - 1 {
        assert(blocks.remove(i) =~= shorter);
    } else {
        lemma_total_coords_remove(shorter, i);
        assert(blocks.remove(i).drop_last() =~= shorter.remove(i));
        assert(blocks.remove(i).last() == blocks.last());
        assert(shorter[i] == blocks[i]);
    }
}

/// The emblems of a list of blocks have one instance for each coordinate.
pub proof fn lemma_total_instances(blocks: Seq<Block>, width: u32)
    ensures
        total_instances(Seq::new(blocks.len(), |i: int| emblem_of(blocks[i], width)))
            == total_coords(blocks),
    decreases blocks.len(),
{
    let emblems = Seq::new(blocks.len(), |i: int| emblem_of(blocks[i], width));
    if blocks.len() > 0 {
        let shorter = blocks.drop_last();
        lemma_total_instances(shorter, width);
        assert(emblems.drop_last() =~= Seq::new(
            shorter.len(),
            |i: int| emblem_of(shorter[i], width),
        ));
    }
}

/// No pixel is lost and none is counted twice: the instances of all
/// emblems and the pixels of the background colour are, together, as many
/// as the pixels of the grid, which are its width times its height.
pub proof fn lemma_coverage(pixels: Seq<Rgb>, width: u32, is_title: bool)
    ensures
        total_instances(coa_of(blocks_of_pixels(pixels, width as nat), is_title, width).emblems)
            + count_color(pixels, background_color(blocks_of_pixels(pixels, width as nat)))
            == pixels.len(),
{
    let blocks = blocks_of_pixels(pixels, width as nat);
    lemma_first_seen(pixels);
    if pixels.len() > 0 {
        let b = largest_block(blocks);
        lemma_largest_block(blocks);
        lemma_index_covers(pixels, width as nat);
        lemma_total_coords_remove(blocks, b);
        lemma_total_instances(emblem_blocks(blocks), width);
        lemma_coords_count(pixels, width as nat, blocks[b].color);
    } else {
        assert(coa_of(blocks, is_title, width).emblems =~= Seq::<EmblemView>::empty());
    }
}

/// The background has at least as many pixels as any other colour of the
/// grid, and it is the first colour met among those that have as many.
pub proof fn lemma_background_is_largest(pixels: Seq<Rgb>, width: nat, c: Rgb)
    requires
        pixels.len() > 0,
    ensures
        count_color(pixels, c) <= count_color(
            pixels,
            background_color(blocks_of_pixels(pixels, width)),
        ),
        is_background(blocks_of_pixels(pixels, width), largest_block(blocks_of_pixels(pixels, width))),
{
    let blocks = blocks_of_pixels(pixels, width);
    let colors = first_seen(pixels);
    lemma_first_seen(pixels);
    lemma_largest_block(blocks);
    let b = largest_block(blocks);
    lemma_coords_count(pixels, width, blocks[b].color);
    lemma_coords_count(pixels, width, c);
    if colors.contains(c) {
        let i = choose|i: int| 0 <= i < colors.len() && colors[i] == c;
        assert(blocks[i].coords.len() <= blocks[b].coords.len());
    } else {
        lemma_count_absent(pixels, c);
    }
}

/// A colour that no pixel has is the colour of no pixel.
pub proof fn lemma_count_absent(pixels: Seq<Rgb>, c: Rgb)
    requires
        !pixels.contains(c),
    ensures
        count_color(pixels, c) == 0,
    decreases pixels.len(),
{
    if pixels.len() > 0 {
        let shorter = pixels.drop_last();
        assert(pixels[pixels.len() - 1] != c);
        assert(!shorter.contains(c)) by {
            if shorter.contains(c) {
                let j = choose|j: int| 0 <= j < shorter.len() && shorter[j] == c;
                assert(pixels[j] == c);
            }
        }
        lemma_count_absent(shorter, c);
    }
}

/// Every coordinate of a colour is that of a pixel of the grid that has
/// the colour.
pub proof fn lemma_coords_in_grid(pixels: Seq<Rgb>, width: nat, c: Rgb, k: int)
    requires
        0 <= k < coords_of_color(pixels, width, c).len(),
    ensures
        exists|j: int|
            0 <= j < pixels.len() && pixels[j] == c && coords_of_color(pixels, width, c)[k]
                == #[trigger] coord_of(j, width),
    decreases pixels.len(),
{
    let shorter = pixels.drop_last();
    let before = coords_of_color(shorter, width, c);
    if k < before.len() {
        lemma_coords_in_grid(shorter, width, c, k);
        let j = choose|j: int|
            0 <= j < shorter.len() && shorter[j] == c && before[k] == #[trigger] coord_of(
                j,
                width,
            );
        assert(pixels[j] == c && coords_of_color(pixels, width, c)[k] == coord_of(j, width));
    } else {
        let j = pixels.len() - 1;
        assert(pixels[j] == c && coords_of_color(pixels, width, c)[k] == coord_of(j, width));
    }
}

/// The coordinate of a pixel of a grid lies in the grid.
pub proof fn lemma_coord_in_grid(j: int, width: u32, height: u32)
    requires
        0 <= j < width * height,
    ensures
        coord_of(j, width as nat).0 < width,
        coord_of(j, width as nat).1 < height,
        coord_of(j, width as nat).1 * width + coord_of(j, width as nat).0 == j,
{
    let w = width as int;
    assert(w > 0) by (nonlinear_arith)
        requires
            0 <= j < w * height,
            0 <= w,
    ;
    assert(0 <= j % w < w && 0 <= j / w < height && (j / w) * w + j % w == j) by (nonlinear_arith)
        requires
            0 <= j < w * height,
            0 < w,
    ;
}

/// The instance is that of a pixel of a grid of the given size: its
/// position is the pixel's column and row over the width, its scale is one
/// over the width, and it has neither depth nor rotation.
pub open spec fn is_pixel_instance(instance: Instance, width: u32, height: u32) -> bool {
    exists|x: u32, y: u32|
        x < width && y < height && instance == #[trigger] instance_at((x, y), width)
}

/// Every instance of every emblem stands for a pixel of the grid. Its
/// horizontal position is at most one and its scale is positive and at
/// most one; in a grid that is no higher than wide its vertical position is
/// at most one too.
pub proof fn lemma_instances_normalized(
    pixels: Seq<Rgb>,
    width: u32,
    height: u32,
    is_title: bool,
    e: int,
    k: int,
)
    requires
        pixels.len() == width * height,
        0 <= e < coa_of(blocks_of_pixels(pixels, width as nat), is_title, width).emblems.len(),
        0 <= k < coa_of(blocks_of_pixels(pixels, width as nat), is_title, width).emblems[e].instances.len(),
    ensures
        ({
            let instance = coa_of(
                blocks_of_pixels(pixels, width as nat),
                is_title,
                width,
            ).emblems[e].instances[k];
            &&& is_pixel_instance(instance, width, height)
            &&& instance.position matches Some(p) && p.0.at_most_one() && (height <= width
                ==> p.1.at_most_one())
            &&& instance.scale matches Some(s) && s.0 == s.1 && s.0.is_positive()
                && s.0.at_most_one()
            &&& instance.depth is None
            &&& instance.rotation is None
        }),
{
    let blocks = blocks_of_pixels(pixels, width as nat);
    let rest = emblem_blocks(blocks);
    let b = largest_block(blocks);
    assert(blocks.len() > 0);
    lemma_largest_block(blocks);
    blocks.remove_ensures(b);
    let at = if e < b {
        e
    } else {
        e + 1
    };
    assert(rest[e] == blocks[at]);
    let c = blocks[at].color;
    lemma_coords_in_grid(pixels, width as nat, c, k);
    let j = choose|j: int|
        0 <= j < pixels.len() && pixels[j] == c && coords_of_color(pixels, width as nat, c)[k]
            == #[trigger] coord_of(j, width as nat);
    lemma_coord_in_grid(j, width, height);
    let (x, y) = coord_of(j, width as nat);
    let instance = coa_of(blocks, is_title, width).emblems[e].instances[k];
    assert(instance == instance_at((x, y), width));
    lemma_scalar_at_most_one(Scalar { numerator: x, denominator: width });
    if height <= width {
        lemma_scalar_at_most_one(Scalar { numerator: y, denominator: width });
    }
    lemma_scalar_at_most_one(Scalar { numerator: 1, denominator: width });
    lemma_scalar_positive(Scalar { numerator: 1, denominator: width });
}

} // verus!
