//! The shape of the text of a coat of arms: how many lines of each kind it
//! has.

use crate::builder::{coa_of, emblem_blocks};
use crate::index::Block;
use crate::model::{
    coa_key, coa_lines, color_line, color_lines, depth_lines, emblem_lines, emblems_lines,
    instance_lines, instances_lines, pair_line, pattern_text, position_lines, rotation_lines,
    scale_lines, tabs, texture_text, CoaView, EmblemView, Instance,
};
use crate::number::{decimal, digit_char};
use crate::theorems::total_instances;
use vstd::prelude::*;

verus! {

/// The kinds of line that are counted.
pub enum LineKind {
    /// A colour of the coat of arms itself: `color`, a number and a value,
    /// one level deep.
    TopColor,
    /// A colour of an emblem: the same, two levels deep.
    EmblemColor,
    /// The line that opens an instance.
    InstanceOpening,
}

/// `c` is a decimal digit.
pub open spec fn is_digit(c: char) -> bool {
    exists|d: int| 0 <= d <= 9 && c == #[trigger] digit_char(d)
}

/// `line` begins with `prefix`.
pub open spec fn has_prefix(line: Seq<char>, prefix: Seq<char>) -> bool {
    line.len() >= prefix.len() && forall|k: int|
        0 <= k < prefix.len() ==> #[trigger] line[k] == prefix[k]
}

/// `line` is a colour line at nesting depth `depth`: that many tabs, the
/// word `color`, and then a digit.
pub open spec fn is_color_line(line: Seq<char>, depth: nat) -> bool {
    has_prefix(line, tabs(depth) + "color"@) && line.len() > depth + 5 && is_digit(
        line[depth as int + 5],
    )
}

/// `line` is of the kind `kind`.
pub open spec fn is_kind(line: Seq<char>, kind: LineKind) -> bool {
    match kind {
        LineKind::TopColor => is_color_line(line, 1),
        LineKind::EmblemColor => is_color_line(line, 2),
        LineKind::InstanceOpening => line == tabs(2) + "instance={"@,
    }
}

/// The number of lines of `lines` that are of the kind `kind`.
pub open spec fn count_lines(lines: Seq<Seq<char>>, kind: LineKind) -> nat
    decreases lines.len(),
{
    if lines.len() == 0 {
        0
    } else {
        count_lines(lines.drop_last(), kind) + if is_kind(lines.last(), kind) {
            1nat
        } else {
            0nat
        }
    }
}

/// The number of colours of all of `emblems` together.
pub open spec fn total_colors(emblems: Seq<EmblemView>) -> nat
    decreases emblems.len(),
{
    if emblems.len() == 0 {
        0
    } else {
        total_colors(emblems.drop_last()) + emblems.last().colors.len()
    }
}

/// The lines of two runs are counted run by run.
pub proof fn lemma_count_concat(a: Seq<Seq<char>>, b: Seq<Seq<char>>, kind: LineKind)
    ensures
        count_lines(a + b, kind) == count_lines(a, kind) + count_lines(b, kind),
    decreases b.len(),
{
    if b.len() == 0 {
        assert(a + b =~= a);
    } else {
        assert((a + b).drop_last() =~= a + b.drop_last());
        assert((a + b).last() == b.last());
        lemma_count_concat(a, b.drop_last(), kind);
    }
}

/// One line counts as one if it is of the kind, and as none otherwise.
pub proof fn lemma_count_one(line: Seq<char>, kind: LineKind)
    ensures
        count_lines(seq![line], kind) == if is_kind(line, kind) {
            1nat
        } else {
            0nat
        },
{
    assert(seq![line].drop_last() =~= Seq::<Seq<char>>::empty());
    assert(count_lines(seq![line].drop_last(), kind) == 0);
    assert(seq![line].last() == line);
}

/// A number in decimal begins with a digit.
pub proof fn lemma_decimal_begins_with_digit(n: nat)
    ensures
        decimal(n).len() >= 1,
        is_digit(decimal(n)[0]),
    decreases n,
{
    if n < 10 {
        assert(decimal(n)[0] == digit_char(n as int));
    } else {
        lemma_decimal_begins_with_digit(n / 10);
        assert(decimal(n)[0] == decimal(n / 10)[0]);
    }
}

/// The letter `e` is no digit.
proof fn lemma_e_is_no_digit()
    ensures
        !is_digit('e'),
{
    assert forall|d: int| 0 <= d <= 9 implies 'e' != #[trigger] digit_char(d) by {}
}

/// A line that does not have a tab at `k` below `depth`, or the letter `c`
/// at `depth`, is no colour line at that depth.
proof fn lemma_not_color_line(line: Seq<char>, depth: nat, k: int)
    requires
        depth == 1 || depth == 2,
        0 <= k <= depth,
        line.len() <= k || (k < depth && line[k] != '\t') || (k == depth && line[k] != 'c'),
    ensures
        !is_color_line(line, depth),
{
    reveal_strlit("color");
    let prefix = tabs(depth) + "color"@;
    if line.len() > k {
        if k < depth {
            assert(prefix[k] == '\t');
        } else {
            assert(prefix[k] == "color"@[0]);
        }
    }
}

/// A line that begins with three tabs is of no kind that is counted.
proof fn lemma_deep_line(rest: Seq<char>, kind: LineKind)
    ensures
        !is_kind(tabs(3) + rest, kind),
{
    reveal_strlit("instance={");
    let line = tabs(3) + rest;
    assert(line[1] == '\t' && line[2] == '\t');
    match kind {
        LineKind::TopColor => {
            lemma_not_color_line(line, 1, 1);
        },
        LineKind::EmblemColor => {
            lemma_not_color_line(line, 2, 2);
        },
        LineKind::InstanceOpening => {
            let opening = tabs(2) + "instance={"@;
            assert(opening[2] == "instance={"@[0]);
        },
    }
}

/// A colour line at one depth is a colour line at that depth only, and it
/// opens no instance.
pub proof fn lemma_color_line_kind(depth: nat, i: int, c: crate::color::Rgb, kind: LineKind)
    requires
        depth == 1 || depth == 2,
        0 <= i,
    ensures
        is_kind(color_line(depth, i, c), kind) <==> (depth == 1 && kind is TopColor) || (depth
            == 2 && kind is EmblemColor),
{
    reveal_strlit("color");
    reveal_strlit("instance={");
    let line = color_line(depth, i, c);
    let number = decimal((i + 1) as nat);
    lemma_decimal_begins_with_digit((i + 1) as nat);
    let prefix = tabs(depth) + "color"@;
    assert(line.len() > depth + 5);
    assert(line[depth as int + 5] == number[0]);
    assert forall|k: int| 0 <= k < prefix.len() implies #[trigger] line[k] == prefix[k] by {}
    assert(is_color_line(line, depth));
    assert(line[depth as int] == 'c');
    if depth == 1 {
        lemma_not_color_line(line, 2, 1);
    } else {
        assert(line[1] == '\t');
        lemma_not_color_line(line, 1, 1);
    }
    let opening = tabs(2) + "instance={"@;
    assert(opening[1] == '\t');
    assert(opening[2] == "instance={"@[0]);
    assert(line != opening);
}

/// The colour lines of a list are as many as its colours, at their own
/// depth, and none at the other; none of them opens an instance.
pub proof fn lemma_count_color_lines(depth: nat, colors: Seq<crate::color::Rgb>, kind: LineKind)
    requires
        depth == 1 || depth == 2,
    ensures
        count_lines(color_lines(depth, colors), kind) == if (depth == 1 && kind is TopColor) || (
        depth == 2 && kind is EmblemColor) {
            colors.len()
        } else {
            0nat
        },
    decreases colors.len(),
{
    let lines = color_lines(depth, colors);
    if colors.len() > 0 {
        let fewer = colors.drop_last();
        lemma_count_color_lines(depth, fewer, kind);
        assert(lines.drop_last() =~= color_lines(depth, fewer));
        assert(lines.last() == color_line(depth, colors.len() - 1, colors.last()));
        lemma_color_line_kind(depth, colors.len() - 1, colors.last(), kind);
    }
}

/// The line `tabs(depth) + word + rest`, whose word begins with a letter
/// other than `c` and `i`, is of no kind that is counted.
proof fn lemma_other_line(depth: nat, first: char, rest: Seq<char>, kind: LineKind)
    requires
        depth <= 2,
        first != 'c',
        first != 'i',
        first != '\t',
    ensures
        !is_kind(tabs(depth) + seq![first] + rest, kind),
{
    reveal_strlit("instance={");
    let line = tabs(depth) + seq![first] + rest;
    assert(line[depth as int] == first);
    let opening = tabs(2) + "instance={"@;
    assert(opening[0] == '\t' && opening[1] == '\t');
    assert(opening[2] == "instance={"@[0]);
    if depth == 0 {
        lemma_not_color_line(line, 1, 0);
        lemma_not_color_line(line, 2, 0);
    } else if depth == 1 {
        assert(line[0] == '\t');
        lemma_not_color_line(line, 1, 1);
        lemma_not_color_line(line, 2, 1);
    } else {
        assert(line[0] == '\t' && line[1] == '\t');
        lemma_not_color_line(line, 1, 1);
        lemma_not_color_line(line, 2, 2);
    }
    assert(line != opening);
}

/// The lines of an instance: one opens it, and none is a colour line.
pub proof fn lemma_count_instance(instance: Instance, kind: LineKind)
    ensures
        count_lines(instance_lines(instance), kind) == if kind is InstanceOpening {
            1nat
        } else {
            0nat
        },
{
    reveal_strlit("instance={");
    reveal_strlit("}");
    let l0 = seq![tabs(2) + "instance={"@];
    let l1 = position_lines(instance.position);
    let l2 = scale_lines(instance.scale);
    let l3 = depth_lines(instance.depth);
    let l4 = rotation_lines(instance.rotation);
    let l5 = seq![tabs(2) + "}"@];
    // the opening line
    let opening = tabs(2) + "instance={"@;
    assert(opening[1] == '\t');
    assert(opening[2] == 'i');
    lemma_not_color_line(opening, 1, 1);
    lemma_not_color_line(opening, 2, 2);
    lemma_count_one(opening, kind);
    // the fields
    match instance.position {
        Some(p) => {
            let rest = "position"@ + "={ "@ + crate::number::scalar_text(p.0) + " "@
                + crate::number::scalar_text(p.1) + " }"@;
            assert(pair_line("position"@, p) =~= tabs(3) + rest);
            lemma_deep_line(rest, kind);
            lemma_count_one(pair_line("position"@, p), kind);
        },
        None => {},
    }
    match instance.scale {
        Some(s) => {
            let rest = "scale"@ + "={ "@ + crate::number::scalar_text(s.0) + " "@
                + crate::number::scalar_text(s.1) + " }"@;
            assert(pair_line("scale"@, s) =~= tabs(3) + rest);
            lemma_deep_line(rest, kind);
            lemma_count_one(pair_line("scale"@, s), kind);
        },
        None => {},
    }
    match instance.depth {
        Some(d) => {
            let rest = "depth="@ + crate::number::scalar_text(d);
            assert(tabs(3) + "depth="@ + crate::number::scalar_text(d) =~= tabs(3) + rest);
            lemma_deep_line(rest, kind);
            lemma_count_one(tabs(3) + "depth="@ + crate::number::scalar_text(d), kind);
        },
        None => {},
    }
    match instance.rotation {
        Some(r) => {
            let rest = "rotation="@ + decimal(r as nat);
            assert(tabs(3) + "rotation="@ + decimal(r as nat) =~= tabs(3) + rest);
            lemma_deep_line(rest, kind);
            lemma_count_one(tabs(3) + "rotation="@ + decimal(r as nat), kind);
        },
        None => {},
    }
    // the closing line
    let closing = tabs(2) + "}"@;
    assert(closing =~= tabs(2) + seq!['}'] + Seq::<char>::empty());
    lemma_other_line(2, '}', Seq::<char>::empty(), kind);
    lemma_count_one(closing, kind);
    lemma_count_concat(l0, l1, kind);
    lemma_count_concat(l0 + l1, l2, kind);
    lemma_count_concat(l0 + l1 + l2, l3, kind);
    lemma_count_concat(l0 + l1 + l2 + l3, l4, kind);
    lemma_count_concat(l0 + l1 + l2 + l3 + l4, l5, kind);
}

/// The lines of a list of instances: one opening line for each, and no
/// colour line.
pub proof fn lemma_count_instances(instances: Seq<Instance>, kind: LineKind)
    ensures
        count_lines(instances_lines(instances), kind) == if kind is InstanceOpening {
            instances.len()
        } else {
            0nat
        },
    decreases instances.len(),
{
    if instances.len() > 0 {
        lemma_count_instances(instances.drop_last(), kind);
        lemma_count_instance(instances.last(), kind);
        lemma_count_concat(
            instances_lines(instances.drop_last()),
            instance_lines(instances.last()),
            kind,
        );
    }
}

/// What the lines of an emblem count to: its colours two levels deep, one
/// opening line for each of its instances, and no colour one level deep.
pub open spec fn emblem_count(e: EmblemView, kind: LineKind) -> nat {
    match kind {
        LineKind::TopColor => 0,
        LineKind::EmblemColor => e.colors.len(),
        LineKind::InstanceOpening => e.instances.len(),
    }
}

/// An emblem block has exactly one colour line for each of its colours and
/// exactly one opening line for each of its instances.
pub proof fn lemma_count_emblem(e: EmblemView, kind: LineKind)
    ensures
        count_lines(emblem_lines(e), kind) == emblem_count(e, kind),
{
    reveal_strlit("colored_emblem={");
    reveal_strlit("texture=\"");
    reveal_strlit("color");
    reveal_strlit("instance={");
    reveal_strlit("}");
    let opening = tabs(1) + "colored_emblem={"@;
    let texture = tabs(2) + "texture=\""@ + texture_text(e.texture) + "\""@;
    let closing = tabs(1) + "}"@;
    let l0 = seq![opening];
    let l1 = color_lines(2, e.colors);
    let l2 = seq![texture];
    let l3 = instances_lines(e.instances);
    let l4 = seq![closing];
    // the opening line reads `color` one level deep, but no digit follows
    assert(opening[1] == 'c');
    assert(opening[6] == 'e');
    lemma_e_is_no_digit();
    lemma_not_color_line(opening, 2, 1);
    let instance_opening = tabs(2) + "instance={"@;
    assert(instance_opening[1] == '\t');
    assert(opening != instance_opening);
    lemma_count_one(opening, kind);
    lemma_count_color_lines(2, e.colors, kind);
    assert(texture =~= tabs(2) + seq!['t'] + ("texture=\""@.subrange(1, 9) + texture_text(
        e.texture,
    ) + "\""@));
    lemma_other_line(2, 't', "texture=\""@.subrange(1, 9) + texture_text(e.texture) + "\""@, kind);
    lemma_count_one(texture, kind);
    lemma_count_instances(e.instances, kind);
    assert(closing =~= tabs(1) + seq!['}'] + Seq::<char>::empty());
    lemma_other_line(1, '}', Seq::<char>::empty(), kind);
    lemma_count_one(closing, kind);
    lemma_count_concat(l0, l1, kind);
    lemma_count_concat(l0 + l1, l2, kind);
    lemma_count_concat(l0 + l1 + l2, l3, kind);
    lemma_count_concat(l0 + l1 + l2 + l3, l4, kind);
}

/// What the lines of a list of emblems count to.
pub open spec fn emblems_count(emblems: Seq<EmblemView>, kind: LineKind) -> nat {
    match kind {
        LineKind::TopColor => 0,
        LineKind::EmblemColor => total_colors(emblems),
        LineKind::InstanceOpening => total_instances(emblems),
    }
}

/// The lines of a list of emblems are counted emblem by emblem.
pub proof fn lemma_count_emblems(emblems: Seq<EmblemView>, kind: LineKind)
    ensures
        count_lines(emblems_lines(emblems), kind) == emblems_count(emblems, kind),
    decreases emblems.len(),
{
    if emblems.len() > 0 {
        lemma_count_emblems(emblems.drop_last(), kind);
        lemma_count_emblem(emblems.last(), kind);
        lemma_count_concat(emblems_lines(emblems.drop_last()), emblem_lines(emblems.last()), kind);
    }
}

/// The text of a coat of arms has exactly one colour line one level deep
/// for each of its own colours, one colour line two levels deep for each
/// colour of an emblem, and one opening line for each instance.
pub proof fn lemma_count_coa(coa: CoaView, kind: LineKind)
    ensures
        count_lines(coa_lines(coa), kind) == match kind {
            LineKind::TopColor => coa.colors.len(),
            LineKind::EmblemColor => total_colors(coa.emblems),
            LineKind::InstanceOpening => total_instances(coa.emblems),
        },
{
    reveal_strlit("coa_rd_title");
    reveal_strlit("coa_rd_dynasty_0000000000");
    reveal_strlit("pattern=\"");
    reveal_strlit("}");
    let key = coa_key(coa.is_title) + "={"@;
    let pattern = tabs(1) + "pattern=\""@ + pattern_text(coa.pattern) + "\""@;
    let closing = "}"@;
    let l0 = seq![key];
    let l1 = seq![pattern];
    let l2 = color_lines(1, coa.colors);
    let l3 = emblems_lines(coa.emblems);
    let l4 = seq![closing];
    let key_rest = coa_key(coa.is_title).subrange(1, coa_key(coa.is_title).len() as int) + "={"@;
    assert(key =~= tabs(0) + seq!['c'] + key_rest);
    assert(key[0] == 'c');
    lemma_not_color_line(key, 1, 0);
    lemma_not_color_line(key, 2, 0);
    let instance_opening = tabs(2) + "instance={"@;
    assert(instance_opening[0] == '\t');
    assert(key != instance_opening);
    lemma_count_one(key, kind);
    assert(pattern =~= tabs(1) + seq!['p'] + ("pattern=\""@.subrange(1, 9) + pattern_text(
        coa.pattern,
    ) + "\""@));
    lemma_other_line(1, 'p', "pattern=\""@.subrange(1, 9) + pattern_text(coa.pattern) + "\""@, kind);
    lemma_count_one(pattern, kind);
    lemma_count_color_lines(1, coa.colors, kind);
    lemma_count_emblems(coa.emblems, kind);
    assert(closing =~= tabs(0) + seq!['}'] + Seq::<char>::empty());
    lemma_other_line(0, '}', Seq::<char>::empty(), kind);
    lemma_count_one(closing, kind);
    lemma_count_concat(l0, l1, kind);
    lemma_count_concat(l0 + l1, l2, kind);
    lemma_count_concat(l0 + l1 + l2, l3, kind);
    lemma_count_concat(l0 + l1 + l2 + l3, l4, kind);
}

/// The text built from the blocks of an index has exactly one colour line
/// at the top, which is that of the background; and the block of each
/// emblem has exactly one colour line and one opening line for each of the
/// coordinates of its colour.
pub proof fn lemma_built_shape(blocks: Seq<Block>, is_title: bool, width: u32, e: int)
    requires
        0 <= e < emblem_blocks(blocks).len(),
    ensures
        count_lines(coa_lines(coa_of(blocks, is_title, width)), LineKind::TopColor) == 1,
        count_lines(
            emblem_lines(coa_of(blocks, is_title, width).emblems[e]),
            LineKind::EmblemColor,
        ) == 1,
        count_lines(
            emblem_lines(coa_of(blocks, is_title, width).emblems[e]),
            LineKind::InstanceOpening,
        ) == emblem_blocks(blocks)[e].coords.len(),
        count_lines(emblem_lines(coa_of(blocks, is_title, width).emblems[e]), LineKind::TopColor)
            == 0,
{
    let coa = coa_of(blocks, is_title, width);
    lemma_count_coa(coa, LineKind::TopColor);
    lemma_count_emblem(coa.emblems[e], LineKind::EmblemColor);
    lemma_count_emblem(coa.emblems[e], LineKind::InstanceOpening);
    lemma_count_emblem(coa.emblems[e], LineKind::TopColor);
}

} // verus!
