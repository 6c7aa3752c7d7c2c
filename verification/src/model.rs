//! The coat of arms and its text.
//!
//! The text is line-oriented: every entity gives a sequence of lines, and
//! the text is those lines, each ended by a line feed.

use crate::color::{Color, Pattern, Rgb, Texture};
use crate::number::{append_decimal, append_scalar, decimal, scalar_text, Scalar};
use vstd::prelude::*;
use vstd::string::*;

verus! {

/// One placement of an emblem. A field that is absent gives no line.
#[derive(Debug, PartialEq, Eq, Clone, Copy)]
pub struct Instance {
    pub position: Option<(Scalar, Scalar)>,
    pub scale: Option<(Scalar, Scalar)>,
    pub depth: Option<Scalar>,
    pub rotation: Option<u32>,
}

/// An emblem: its colours, its texture, and its placements.
#[derive(Debug)]
pub struct Emblem {
    pub colors: Vec<Rgb>,
    pub texture: Texture,
    pub instances: Vec<Instance>,
}

/// The root of a coat of arms.
#[derive(Debug)]
pub struct Coa {
    pub pattern: Pattern,
    pub colors: Vec<Rgb>,
    pub emblems: Vec<Emblem>,
    pub is_title: bool,
}

/// What an emblem holds, as plain values.
pub struct EmblemView {
    pub colors: Seq<Rgb>,
    pub texture: Texture,
    pub instances: Seq<Instance>,
}

/// What a coat of arms holds, as plain values.
pub struct CoaView {
    pub pattern: Pattern,
    pub colors: Seq<Rgb>,
    pub emblems: Seq<EmblemView>,
    pub is_title: bool,
}

/// The views of a list of emblems, in order.
pub open spec fn emblem_views(emblems: Seq<Emblem>) -> Seq<EmblemView> {
    Seq::new(emblems.len(), |i: int| emblems[i]@)
}

impl View for Emblem {
    type V = EmblemView;

    open spec fn view(&self) -> EmblemView {
        EmblemView { colors: self.colors@, texture: self.texture, instances: self.instances@ }
    }
}

impl View for Coa {
    type V = CoaView;

    open spec fn view(&self) -> CoaView {
        CoaView {
            pattern: self.pattern,
            colors: self.colors@,
            emblems: emblem_views(self.emblems@),
            is_title: self.is_title,
        }
    }
}

/// The text of `lines`: each line followed by a line feed.
pub open spec fn text_of(lines: Seq<Seq<char>>) -> Seq<char>
    decreases lines.len(),
{
    if lines.len() == 0 {
        Seq::<char>::empty()
    } else {
        text_of(lines.drop_last()) + lines.last().push('\n')
    }
}

/// `n` tabs.
pub open spec fn tabs(n: nat) -> Seq<char> {
    Seq::new(n, |i: int| '\t')
}

/// A colour as text: its three channels between braces.
pub open spec fn rgb_text(c: Rgb) -> Seq<char> {
    "{ "@ + decimal(c.red as nat) + " "@ + decimal(c.green as nat) + " "@ + decimal(c.blue as nat)
        + " }"@
}

/// The file name of a pattern.
pub open spec fn pattern_text(p: Pattern) -> Seq<char> {
    match p {
        Pattern::Solid => "pattern_solid.dds"@,
    }
}

/// The file name of a texture.
pub open spec fn texture_text(t: Texture) -> Seq<char> {
    match t {
        Texture::Block => "ce_block_02.dds"@,
    }
}

/// The name of a reference colour.
pub open spec fn color_name(c: Color) -> Seq<char> {
    match c {
        Color::Red => "red"@,
        Color::Orange => "orange"@,
        Color::Yellow => "yellow"@,
        Color::YellowLight => "yellow_light"@,
        Color::White => "white"@,
        Color::Grey => "grey"@,
        Color::Black => "black"@,
        Color::Brown => "brown"@,
        Color::Green => "green"@,
        Color::GreenLight => "green_light"@,
        Color::BlueLight => "blue_light"@,
        Color::Blue => "blue"@,
        Color::Purple => "purple"@,
    }
}

/// The line of the colour at place `i` (from zero) of a list, at nesting
/// depth `depth`. Colours are numbered from one.
pub open spec fn color_line(depth: nat, i: int, c: Rgb) -> Seq<char> {
    tabs(depth) + "color"@ + decimal((i + 1) as nat) + "="@ + rgb_text(c)
}

/// One line for each colour of a list, in order.
pub open spec fn color_lines(depth: nat, colors: Seq<Rgb>) -> Seq<Seq<char>> {
    Seq::new(colors.len(), |i: int| color_line(depth, i, colors[i]))
}

/// The line of a pair of scalars under the key `key`.
pub open spec fn pair_line(key: Seq<char>, pair: (Scalar, Scalar)) -> Seq<char> {
    tabs(3) + key + "={ "@ + scalar_text(pair.0) + " "@ + scalar_text(pair.1) + " }"@
}

/// The line of a position, if there is one.
pub open spec fn position_lines(position: Option<(Scalar, Scalar)>) -> Seq<Seq<char>> {
    match position {
        Some(p) => seq![pair_line("position"@, p)],
        None => Seq::<Seq<char>>::empty(),
    }
}

/// The line of a scale, if there is one.
pub open spec fn scale_lines(scale: Option<(Scalar, Scalar)>) -> Seq<Seq<char>> {
    match scale {
        Some(s) => seq![pair_line("scale"@, s)],
        None => Seq::<Seq<char>>::empty(),
    }
}

/// The line of a depth, if there is one.
pub open spec fn depth_lines(depth: Option<Scalar>) -> Seq<Seq<char>> {
    match depth {
        Some(d) => seq![tabs(3) + "depth="@ + scalar_text(d)],
        None => Seq::<Seq<char>>::empty(),
    }
}

/// The line of a rotation, if there is one.
pub open spec fn rotation_lines(rotation: Option<u32>) -> Seq<Seq<char>> {
    match rotation {
        Some(r) => seq![tabs(3) + "rotation="@ + decimal(r as nat)],
        None => Seq::<Seq<char>>::empty(),
    }
}

/// The lines of one instance: the fields that are present, in the order
/// position, scale, depth, rotation, between an opening and a closing line.
pub open spec fn instance_lines(i: Instance) -> Seq<Seq<char>> {
    seq![tabs(2) + "instance={"@] + position_lines(i.position) + scale_lines(i.scale)
        + depth_lines(i.depth) + rotation_lines(i.rotation) + seq![tabs(2) + "}"@]
}

/// The lines of a list of instances, in order.
pub open spec fn instances_lines(instances: Seq<Instance>) -> Seq<Seq<char>>
    decreases instances.len(),
{
    if instances.len() == 0 {
        Seq::<Seq<char>>::empty()
    } else {
        instances_lines(instances.drop_last()) + instance_lines(instances.last())
    }
}

/// The lines of one emblem: its colours, its texture, then its instances,
/// between an opening and a closing line.
pub open spec fn emblem_lines(e: EmblemView) -> Seq<Seq<char>> {
    seq![tabs(1) + "colored_emblem={"@] + color_lines(2, e.colors) + seq![
        tabs(2) + "texture=\""@ + texture_text(e.texture) + "\""@,
    ] + instances_lines(e.instances) + seq![tabs(1) + "}"@]
}

/// The lines of a list of emblems, in order.
pub open spec fn emblems_lines(emblems: Seq<EmblemView>) -> Seq<Seq<char>>
    decreases emblems.len(),
{
    if emblems.len() == 0 {
        Seq::<Seq<char>>::empty()
    } else {
        emblems_lines(emblems.drop_last()) + emblem_lines(emblems.last())
    }
}

/// The key of the whole object: one for a landed title, one for a dynasty.
pub open spec fn coa_key(is_title: bool) -> Seq<char> {
    if is_title {
        "coa_rd_title"@
    } else {
        "coa_rd_dynasty_0000000000"@
    }
}

/// The lines of a coat of arms: the pattern, the colours, then the emblems,
/// between an opening and a closing line.
pub open spec fn coa_lines(coa: CoaView) -> Seq<Seq<char>> {
    seq![coa_key(coa.is_title) + "={"@] + seq![
        tabs(1) + "pattern=\""@ + pattern_text(coa.pattern) + "\""@,
    ] + color_lines(1, coa.colors) + emblems_lines(coa.emblems) + seq!["}"@]
}

/// The text of a whole coat of arms.
pub open spec fn coa_text(coa: CoaView) -> Seq<char> {
    text_of(coa_lines(coa))
}

/// The text of one line is the line and a line feed.
pub proof fn lemma_text_of_one(line: Seq<char>)
    ensures
        text_of(seq![line]) == line.push('\n'),
{
    assert(seq![line].drop_last() =~= Seq::<Seq<char>>::empty());
    assert(text_of(seq![line].drop_last()) =~= Seq::<char>::empty());
    assert(text_of(seq![line]) =~= line.push('\n'));
}

/// The text of two runs of lines is the text of the first, then that of the
/// second.
pub proof fn lemma_text_of_concat(a: Seq<Seq<char>>, b: Seq<Seq<char>>)
    ensures
        text_of(a + b) == text_of(a) + text_of(b),
    decreases b.len(),
{
    if b.len() == 0 {
        assert(a + b =~= a);
        assert(text_of(a) + text_of(b) =~= text_of(a));
    } else {
        assert((a + b).drop_last() =~= a + b.drop_last());
        assert((a + b).last() == b.last());
        lemma_text_of_concat(a, b.drop_last());
        assert(text_of(a + b) =~= text_of(a) + text_of(b));
    }
}

/// Appends `n` tabs to `out`.
fn append_tabs(out: &mut String, n: u8)
    ensures
        final(out)@ == old(out)@ + tabs(n as nat),
{
    let mut k: u8 = 0;
    while k < n
        invariant
            k <= n,
            out@ == old(out)@ + tabs(k as nat),
        decreases n - k,
    {
        out.append("\t");
        proof {
            reveal_strlit("\t");
            assert(out@ =~= old(out)@ + tabs((k + 1) as nat));
        }
        k = k + 1;
    }
    assert(out@ =~= old(out)@ + tabs(n as nat));
}

/// Ends the current line of `out`.
fn end_line(out: &mut String)
    ensures
        final(out)@ == old(out)@.push('\n'),
{
    out.append("\n");
    proof {
        reveal_strlit("\n");
        assert(out@ =~= old(out)@.push('\n'));
    }
}

/// Appends the text of a colour to `out`.
fn append_rgb(out: &mut String, c: Rgb)
    ensures
        final(out)@ == old(out)@ + rgb_text(c),
{
    out.append("{ ");
    append_decimal(out, c.red as u64);
    out.append(" ");
    append_decimal(out, c.green as u64);
    out.append(" ");
    append_decimal(out, c.blue as u64);
    out.append(" }");
    assert(out@ =~= old(out)@ + rgb_text(c));
}

/// Appends one line for each colour of `colors` to `out`.
fn append_color_lines(out: &mut String, depth: u8, colors: &Vec<Rgb>)
    ensures
        final(out)@ == old(out)@ + text_of(color_lines(depth as nat, colors@)),
{
    let ghost lines = color_lines(depth as nat, colors@);
    let mut i: usize = 0;
    assert(lines.take(0) =~= Seq::<Seq<char>>::empty());
    assert(out@ =~= old(out)@ + text_of(lines.take(0)));
    while i < colors.len()
        invariant
            i <= colors.len(),
            lines == color_lines(depth as nat, colors@),
            out@ == old(out)@ + text_of(lines.take(i as int)),
        decreases colors.len() - i,
    {
        let ghost before = out@;
        append_tabs(out, depth);
        out.append("color");
        append_decimal(out, (i + 1) as u64);
        out.append("=");
        append_rgb(out, colors[i]);
        end_line(out);
        proof {
            let line = color_line(depth as nat, i as int, colors@[i as int]);
            assert(out@ =~= before + line.push('\n'));
            assert(lines.take(i + 1).drop_last() =~= lines.take(i as int));
            assert(lines.take(i + 1).last() == line);
            assert(out@ =~= old(out)@ + text_of(lines.take(i + 1)));
        }
        i = i + 1;
    }
    assert(lines.take(i as int) =~= lines);
}

/// Appends the line of a pair of scalars under `key` to `out`.
fn append_pair_line(out: &mut String, key: &str, pair: (Scalar, Scalar))
    ensures
        final(out)@ == old(out)@ + text_of(seq![pair_line(key@, pair)]),
{
    append_tabs(out, 3);
    out.append(key);
    out.append("={ ");
    append_scalar(out, pair.0);
    out.append(" ");
    append_scalar(out, pair.1);
    out.append(" }");
    end_line(out);
    proof {
        lemma_text_of_one(pair_line(key@, pair));
        assert(out@ =~= old(out)@ + pair_line(key@, pair).push('\n'));
    }
}

/// Appends the line `content` at nesting depth `depth` to `out`.
fn append_plain_line(out: &mut String, depth: u8, content: &str)
    ensures
        final(out)@ == old(out)@ + text_of(seq![tabs(depth as nat) + content@]),
{
    append_tabs(out, depth);
    out.append(content);
    end_line(out);
    proof {
        lemma_text_of_one(tabs(depth as nat) + content@);
        assert(out@ =~= old(out)@ + (tabs(depth as nat) + content@).push('\n'));
    }
}

/// Appends the line of a position, if there is one, to `out`.
fn append_position(out: &mut String, position: Option<(Scalar, Scalar)>)
    ensures
        final(out)@ == old(out)@ + text_of(position_lines(position)),
{
    if let Some(p) = position {
        append_pair_line(out, "position", p);
    } else {
        assert(out@ =~= old(out)@ + text_of(position_lines(position)));
    }
}

/// Appends the line of a scale, if there is one, to `out`.
fn append_scale(out: &mut String, scale: Option<(Scalar, Scalar)>)
    ensures
        final(out)@ == old(out)@ + text_of(scale_lines(scale)),
{
    if let Some(s) = scale {
        append_pair_line(out, "scale", s);
    } else {
        assert(out@ =~= old(out)@ + text_of(scale_lines(scale)));
    }
}

/// Appends the line of a depth, if there is one, to `out`.
fn append_depth(out: &mut String, depth: Option<Scalar>)
    ensures
        final(out)@ == old(out)@ + text_of(depth_lines(depth)),
{
    if let Some(d) = depth {
        append_tabs(out, 3);
        out.append("depth=");
        append_scalar(out, d);
        end_line(out);
        proof {
            lemma_text_of_one(tabs(3) + "depth="@ + scalar_text(d));
            assert(out@ =~= old(out)@ + (tabs(3) + "depth="@ + scalar_text(d)).push('\n'));
        }
    } else {
        assert(out@ =~= old(out)@ + text_of(depth_lines(depth)));
    }
}

/// Appends the line of a rotation, if there is one, to `out`.
fn append_rotation(out: &mut String, rotation: Option<u32>)
    ensures
        final(out)@ == old(out)@ + text_of(rotation_lines(rotation)),
{
    if let Some(r) = rotation {
        append_tabs(out, 3);
        out.append("rotation=");
        append_decimal(out, r as u64);
        end_line(out);
        proof {
            lemma_text_of_one(tabs(3) + "rotation="@ + decimal(r as nat));
            assert(out@ =~= old(out)@ + (tabs(3) + "rotation="@ + decimal(r as nat)).push('\n'));
        }
    } else {
        assert(out@ =~= old(out)@ + text_of(rotation_lines(rotation)));
    }
}

/// Text that grew by one run of lines and then by another grew by both.
proof fn lemma_grow(base: Seq<char>, a: Seq<Seq<char>>, b: Seq<Seq<char>>)
    ensures
        base + text_of(a) + text_of(b) == base + text_of(a + b),
{
    lemma_text_of_concat(a, b);
    assert(base + text_of(a) + text_of(b) =~= base + (text_of(a) + text_of(b)));
}

/// Appends the lines of one instance to `out`.
fn append_instance(out: &mut String, instance: &Instance)
    ensures
        final(out)@ == old(out)@ + text_of(instance_lines(*instance)),
{
    let ghost base = old(out)@;
    let ghost l0 = seq![tabs(2) + "instance={"@];
    let ghost l1 = l0 + position_lines(instance.position);
    let ghost l2 = l1 + scale_lines(instance.scale);
    let ghost l3 = l2 + depth_lines(instance.depth);
    let ghost l4 = l3 + rotation_lines(instance.rotation);
    append_plain_line(out, 2, "instance={");
    append_position(out, instance.position);
    proof {
        lemma_grow(base, l0, position_lines(instance.position));
    }
    append_scale(out, instance.scale);
    proof {
        lemma_grow(base, l1, scale_lines(instance.scale));
    }
    append_depth(out, instance.depth);
    proof {
        lemma_grow(base, l2, depth_lines(instance.depth));
    }
    append_rotation(out, instance.rotation);
    proof {
        lemma_grow(base, l3, rotation_lines(instance.rotation));
    }
    append_plain_line(out, 2, "}");
    proof {
        lemma_grow(base, l4, seq![tabs(2) + "}"@]);
    }
}

/// Appends the lines of a list of instances to `out`.
fn append_instances(out: &mut String, instances: &Vec<Instance>)
    ensures
        final(out)@ == old(out)@ + text_of(instances_lines(instances@)),
{
    let mut i: usize = 0;
    assert(instances@.take(0) =~= Seq::<Instance>::empty());
    assert(out@ =~= old(out)@ + text_of(instances_lines(instances@.take(0))));
    while i < instances.len()
        invariant
            i <= instances.len(),
            out@ == old(out)@ + text_of(instances_lines(instances@.take(i as int))),
        decreases instances.len() - i,
    {
        append_instance(out, &instances[i]);
        proof {
            let done = instances@.take(i as int);
            let next = instances@.take(i + 1);
            assert(next.drop_last() =~= done);
            assert(next.last() == instances@[i as int]);
            lemma_text_of_concat(instances_lines(done), instance_lines(instances@[i as int]));
            assert(out@ =~= old(out)@ + text_of(instances_lines(next)));
        }
        i = i + 1;
    }
    assert(instances@.take(i as int) =~= instances@);
}

/// Appends the line of a texture to `out`.
fn append_texture_line(out: &mut String, texture: Texture)
    ensures
        final(out)@ == old(out)@ + text_of(
            seq![tabs(2) + "texture=\""@ + texture_text(texture) + "\""@],
        ),
{
    append_tabs(out, 2);
    out.append("texture=\"");
    append_texture(out, texture);
    out.append("\"");
    end_line(out);
    proof {
        let line = tabs(2) + "texture=\""@ + texture_text(texture) + "\""@;
        lemma_text_of_one(line);
        assert(out@ =~= old(out)@ + line.push('\n'));
    }
}

/// Appends the lines of one emblem to `out`.
fn append_emblem(out: &mut String, emblem: &Emblem)
    ensures
        final(out)@ == old(out)@ + text_of(emblem_lines(emblem@)),
{
    let ghost base = old(out)@;
    let ghost l0 = seq![tabs(1) + "colored_emblem={"@];
    let ghost l1 = l0 + color_lines(2, emblem.colors@);
    let ghost l2 = l1 + seq![tabs(2) + "texture=\""@ + texture_text(emblem.texture) + "\""@];
    let ghost l3 = l2 + instances_lines(emblem.instances@);
    append_plain_line(out, 1, "colored_emblem={");
    append_color_lines(out, 2, &emblem.colors);
    proof {
        lemma_grow(base, l0, color_lines(2, emblem.colors@));
    }
    append_texture_line(out, emblem.texture);
    proof {
        lemma_grow(
            base,
            l1,
            seq![tabs(2) + "texture=\""@ + texture_text(emblem.texture) + "\""@],
        );
    }
    append_instances(out, &emblem.instances);
    proof {
        lemma_grow(base, l2, instances_lines(emblem.instances@));
    }
    append_plain_line(out, 1, "}");
    proof {
        lemma_grow(base, l3, seq![tabs(1) + "}"@]);
    }
}

/// Appends the lines of a list of emblems to `out`.
fn append_emblems(out: &mut String, emblems: &Vec<Emblem>)
    ensures
        final(out)@ == old(out)@ + text_of(emblems_lines(emblem_views(emblems@))),
{
    let ghost views = emblem_views(emblems@);
    let mut i: usize = 0;
    assert(views.take(0) =~= Seq::<EmblemView>::empty());
    assert(out@ =~= old(out)@ + text_of(emblems_lines(views.take(0))));
    while i < emblems.len()
        invariant
            i <= emblems.len(),
            views == emblem_views(emblems@),
            out@ == old(out)@ + text_of(emblems_lines(views.take(i as int))),
        decreases emblems.len() - i,
    {
        append_emblem(out, &emblems[i]);
        proof {
            let done = views.take(i as int);
            let next = views.take(i + 1);
            assert(next.drop_last() =~= done);
            assert(next.last() == emblems@[i as int]@);
            lemma_text_of_concat(emblems_lines(done), emblem_lines(emblems@[i as int]@));
            assert(out@ =~= old(out)@ + text_of(emblems_lines(next)));
        }
        i = i + 1;
    }
    assert(views.take(i as int) =~= views);
}

/// Appends the file name of a texture to `out`.
fn append_texture(out: &mut String, texture: Texture)
    ensures
        final(out)@ == old(out)@ + texture_text(texture),
{
    match texture {
        Texture::Block => out.append("ce_block_02.dds"),
    }
}

/// Appends the file name of a pattern to `out`.
fn append_pattern(out: &mut String, pattern: Pattern)
    ensures
        final(out)@ == old(out)@ + pattern_text(pattern),
{
    match pattern {
        Pattern::Solid => out.append("pattern_solid.dds"),
    }
}

impl Rgb {
    /// The colour as text: its three channels between braces.
    pub fn to_string(&self) -> (text: String)
        ensures
            text@ == rgb_text(*self),
    {
        let mut text = String::new();
        append_rgb(&mut text, *self);
        assert(text@ =~= rgb_text(*self));
        text
    }
}

impl Texture {
    /// The file name of the texture.
    pub fn to_string(&self) -> (text: String)
        ensures
            text@ == texture_text(*self),
    {
        let mut text = String::new();
        append_texture(&mut text, *self);
        assert(text@ =~= texture_text(*self));
        text
    }
}

impl Pattern {
    /// The file name of the pattern.
    pub fn to_string(&self) -> (text: String)
        ensures
            text@ == pattern_text(*self),
    {
        let mut text = String::new();
        append_pattern(&mut text, *self);
        assert(text@ =~= pattern_text(*self));
        text
    }
}

impl Color {
    /// The name of the reference colour.
    pub fn to_string(&self) -> (text: String)
        ensures
            text@ == color_name(*self),
    {
        let name = match self {
            Color::Red => "red",
            Color::Orange => "orange",
            Color::Yellow => "yellow",
            Color::YellowLight => "yellow_light",
            Color::White => "white",
            Color::Grey => "grey",
            Color::Black => "black",
            Color::Brown => "brown",
            Color::Green => "green",
            Color::GreenLight => "green_light",
            Color::BlueLight => "blue_light",
            Color::Blue => "blue",
            Color::Purple => "purple",
        };
        String::from_str(name)
    }
}

impl Instance {
    /// The text of the instance: its lines, each ended by a line feed.
    pub fn to_string(&self) -> (text: String)
        ensures
            text@ == text_of(instance_lines(*self)),
    {
        let mut text = String::new();
        append_instance(&mut text, self);
        assert(text@ =~= text_of(instance_lines(*self)));
        text
    }
}

impl Emblem {
    /// The text of the emblem: its lines, each ended by a line feed.
    pub fn to_string(&self) -> (text: String)
        ensures
            text@ == text_of(emblem_lines(self@)),
    {
        let mut text = String::new();
        append_emblem(&mut text, self);
        assert(text@ =~= text_of(emblem_lines(self@)));
        text
    }
}

/// Appends the opening line of a coat of arms to `out`.
fn append_coa_key_line(out: &mut String, is_title: bool)
    ensures
        final(out)@ == old(out)@ + text_of(seq![coa_key(is_title) + "={"@]),
{
    if is_title {
        out.append("coa_rd_title");
    } else {
        out.append("coa_rd_dynasty_0000000000");
    }
    out.append("={");
    end_line(out);
    proof {
        lemma_text_of_one(coa_key(is_title) + "={"@);
        assert(out@ =~= old(out)@ + (coa_key(is_title) + "={"@).push('\n'));
    }
}

/// Appends the line of a pattern to `out`.
fn append_pattern_line(out: &mut String, pattern: Pattern)
    ensures
        final(out)@ == old(out)@ + text_of(
            seq![tabs(1) + "pattern=\""@ + pattern_text(pattern) + "\""@],
        ),
{
    append_tabs(out, 1);
    out.append("pattern=\"");
    append_pattern(out, pattern);
    out.append("\"");
    end_line(out);
    proof {
        let line = tabs(1) + "pattern=\""@ + pattern_text(pattern) + "\""@;
        lemma_text_of_one(line);
        assert(out@ =~= old(out)@ + line.push('\n'));
    }
}

impl Coa {
    /// The text of the coat of arms: its lines, each ended by a line feed.
    pub fn to_string(&self) -> (text: String)
        ensures
            text@ == coa_text(self@),
    {
        let ghost base = Seq::<char>::empty();
        let ghost l0 = seq![coa_key(self.is_title) + "={"@];
        let ghost l1 = l0 + seq![tabs(1) + "pattern=\""@ + pattern_text(self.pattern) + "\""@];
        let ghost l2 = l1 + color_lines(1, self.colors@);
        let ghost l3 = l2 + emblems_lines(emblem_views(self.emblems@));
        let mut text = String::new();
        append_coa_key_line(&mut text, self.is_title);
        append_pattern_line(&mut text, self.pattern);
        proof {
            lemma_grow(
                base,
                l0,
                seq![tabs(1) + "pattern=\""@ + pattern_text(self.pattern) + "\""@],
            );
        }
        append_color_lines(&mut text, 1, &self.colors);
        proof {
            lemma_grow(base, l1, color_lines(1, self.colors@));
        }
        append_emblems(&mut text, &self.emblems);
        proof {
            lemma_grow(base, l2, emblems_lines(emblem_views(self.emblems@)));
        }
        append_plain_line(&mut text, 0, "}");
        proof {
            lemma_grow(base, l3, seq![tabs(0) + "}"@]);
            assert(tabs(0) + "}"@ =~= "}"@);
            assert(text@ =~= coa_text(self@));
        }
        text
    }
}

} // verus!
