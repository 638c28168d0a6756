//! Painting: the box tree is walked in paint order into a flat display
//! list of solid-color commands, and the commands are rasterized into a
//! pixel buffer, clipped to the buffer bounds.

use vstd::prelude::*;
use vstd::arithmetic::div_mod::{lemma_fundamental_div_mod, lemma_fundamental_div_mod_converse};
use crate::css::{Color, Value};
use crate::layout::{BoxType, LayoutBox, Rect};
use crate::px::{sat, sat_add, sat_sub};

verus! {

/// One paint instruction: fill a rectangle with a solid color.
#[derive(PartialEq, Eq, Structural, Clone, Copy, Debug)]
pub enum DisplayCommand {
    SolidColor(Color, Rect),
}

pub type DisplayList = Vec<DisplayCommand>;

/// The color a box resolves for a property, if it resolves one at all.
/// Anonymous boxes have no styled node and resolve nothing.
pub open spec fn get_color_spec(b: LayoutBox, name: Seq<char>) -> Option<Color> {
    match b.box_type {
        BoxType::BlockNode(pm) => match pm.get_spec(name) {
            Option::Some(v) => match v {
                Value::ColorValue(color) => Option::Some(color),
                _ => Option::None,
            },
            Option::None => Option::None,
        },
        BoxType::InlinedNode(pm) => match pm.get_spec(name) {
            Option::Some(v) => match v {
                Value::ColorValue(color) => Option::Some(color),
                _ => Option::None,
            },
            Option::None => Option::None,
        },
        BoxType::AnonymousBlock => Option::None,
    }
}

/// The background of a box: its border box filled with the resolved
/// `background` color, or nothing.
pub open spec fn background_cmds(b: LayoutBox) -> Seq<DisplayCommand> {
    match get_color_spec(b, "background"@) {
        Option::Some(color) => seq![
            DisplayCommand::SolidColor(color, b.dimensions.border_box_spec()),
        ],
        Option::None => Seq::empty(),
    }
}

/// The four border edges of a box in the fixed order left, right, top,
/// bottom, each sized by its border width and spanning the border box's
/// other dimension: the right edge is anchored to the border box's
/// right, the bottom edge to its bottom. Nothing is painted without a
/// resolved `border-color`.
pub open spec fn border_cmds(b: LayoutBox) -> Seq<DisplayCommand> {
    match get_color_spec(b, "border-color"@) {
        Option::None => Seq::empty(),
        Option::Some(color) => {
            let d = b.dimensions;
            let bb = d.border_box_spec();
            seq![
                DisplayCommand::SolidColor(
                    color,
                    Rect { x: bb.x, y: bb.y, width: d.border.left, height: bb.height },
                ),
                DisplayCommand::SolidColor(
                    color,
                    Rect {
                        x: sat(sat(bb.x + bb.width) - d.border.right) as i64,
                        y: bb.y,
                        width: d.border.right,
                        height: bb.height,
                    },
                ),
                DisplayCommand::SolidColor(
                    color,
                    Rect { x: bb.x, y: bb.y, width: bb.width, height: d.border.top },
                ),
                DisplayCommand::SolidColor(
                    color,
                    Rect {
                        x: bb.x,
                        y: sat(sat(bb.y + bb.height) - d.border.bottom) as i64,
                        width: bb.width,
                        height: d.border.bottom,
                    },
                ),
            ]
        },
    }
}

/// The concatenation of the first `k` per-child command lists.
pub open spec fn cat_parts(parts: Seq<Seq<DisplayCommand>>, k: int) -> Seq<DisplayCommand>
    decreases k,
{
    if k <= 0 {
        Seq::empty()
    } else {
        cat_parts(parts, k - 1) + parts[k - 1]
    }
}

/// The display list of a box tree: the box's own background, then its
/// border edges, then its children's lists in document order — paint
/// order is back to front.
pub open spec fn rendered(b: LayoutBox, cmds: Seq<DisplayCommand>) -> bool
    decreases b,
        via rendered_decreases
{
    exists|parts: Seq<Seq<DisplayCommand>>|
        #![trigger parts.len()]
        {
            let n = b.children@.len() as int;
            &&& parts.len() == n
            &&& forall|i: int| 0 <= i < n ==> rendered(#[trigger] b.children@[i], parts[i])
            &&& cmds == background_cmds(b) + border_cmds(b) + cat_parts(parts, n)
        }
}

#[via_fn]
proof fn rendered_decreases(b: LayoutBox, cmds: Seq<DisplayCommand>) {
    assert forall|i: int| 0 <= i < b.children@.len() implies decreases_to!(
        b => b.children@[i]
    ) by {
        assert(decreases_to!(b => b.children));
        assert(decreases_to!(b.children => b.children[i]));
    }
}

fn get_color(layout_box: &LayoutBox, name: &str) -> (r: Option<Color>)
    ensures
        r == get_color_spec(*layout_box, name@),
{
    match &layout_box.box_type {
        BoxType::BlockNode(pm) => match pm.get(name) {
            Some(Value::ColorValue(color)) => Some(*color),
            _ => None,
        },
        BoxType::InlinedNode(pm) => match pm.get(name) {
            Some(Value::ColorValue(color)) => Some(*color),
            _ => None,
        },
        BoxType::AnonymousBlock => None,
    }
}

fn render_background(list: &mut DisplayList, layout_box: &LayoutBox)
    ensures
        final(list)@ == old(list)@ + background_cmds(*layout_box),
{
    let ghost pre = list@;
    match get_color(layout_box, "background") {
        Some(color) => {
            list.push(DisplayCommand::SolidColor(color, layout_box.dimensions.border_box()));
            proof {
                assert(list@ =~= pre + background_cmds(*layout_box));
            }
        },
        None => {
            proof {
                assert(list@ =~= pre + background_cmds(*layout_box));
            }
        },
    }
}

fn render_borders(list: &mut DisplayList, layout_box: &LayoutBox)
    ensures
        final(list)@ == old(list)@ + border_cmds(*layout_box),
{
    let ghost pre = list@;
    let color = match get_color(layout_box, "border-color") {
        Some(color) => color,
        None => {
            proof {
                assert(list@ =~= pre + border_cmds(*layout_box));
            }
            return ;
        },
    };
    let d = &layout_box.dimensions;
    let border_box = d.border_box();
    list.push(
        DisplayCommand::SolidColor(
            color,
            Rect { x: border_box.x, y: border_box.y, width: d.border.left, height: border_box.height },
        ),
    );
    list.push(
        DisplayCommand::SolidColor(
            color,
            Rect {
                x: sat_sub(sat_add(border_box.x, border_box.width), d.border.right),
                y: border_box.y,
                width: d.border.right,
                height: border_box.height,
            },
        ),
    );
    list.push(
        DisplayCommand::SolidColor(
            color,
            Rect { x: border_box.x, y: border_box.y, width: border_box.width, height: d.border.top },
        ),
    );
    list.push(
        DisplayCommand::SolidColor(
            color,
            Rect {
                x: border_box.x,
                y: sat_sub(sat_add(border_box.y, border_box.height), d.border.bottom),
                width: border_box.width,
                height: d.border.bottom,
            },
        ),
    );
    proof {
        assert(list@ =~= pre + border_cmds(*layout_box));
    }
}

#[verifier::loop_isolation(false)]
fn render_layout_box(list: &mut DisplayList, layout_box: &LayoutBox)
    ensures
        exists|cmds: Seq<DisplayCommand>|
            #[trigger] rendered(*layout_box, cmds) && final(list)@ == old(list)@ + cmds,
    decreases *layout_box,
{
    let ghost pre = list@;
    render_background(list, layout_box);
    render_borders(list, layout_box);
    let ghost own = background_cmds(*layout_box) + border_cmds(*layout_box);
    let ghost mut parts: Seq<Seq<DisplayCommand>> = Seq::empty();
    let n = layout_box.children.len();
    let mut i: usize = 0;
    proof {
        assert(list@ =~= pre + own + cat_parts(parts, 0));
    }
    while i < n
        invariant
            0 <= i <= n,
            n == layout_box.children@.len(),
            parts.len() == i,
            forall|j: int|
                0 <= j < i ==> rendered(#[trigger] layout_box.children@[j], parts[j]),
            list@ == pre + own + cat_parts(parts, i as int),
        decreases n - i,
    {
        proof {
            assert(decreases_to!(*layout_box => layout_box.children));
            assert(decreases_to!(layout_box.children => layout_box.children[i as int]));
            assert(decreases_to!(*layout_box => layout_box.children@[i as int]));
        }
        let ghost before = list@;
        render_layout_box(list, &layout_box.children[i]);
        proof {
            let cmds = choose|cmds: Seq<DisplayCommand>|
                #[trigger] rendered(layout_box.children@[i as int], cmds) && list@ == before + cmds;
            let parts0 = parts;
            parts = parts.push(cmds);
            assert(parts[i as int] == cmds);
            assert forall|j: int| 0 <= j <= i implies cat_parts(parts, j) == cat_parts(
                parts0,
                j,
            ) by {
                lemma_cat_parts_prefix(parts0, parts, j);
            }
            assert(cat_parts(parts, i as int + 1) == cat_parts(parts0, i as int) + cmds);
            assert(list@ =~= pre + own + cat_parts(parts, i as int + 1));
        }
        i = i + 1;
    }
    proof {
        let cmds = own + cat_parts(parts, n as int);
        assert(rendered(*layout_box, cmds));
        assert(list@ =~= pre + cmds);
    }
}

proof fn lemma_cat_parts_prefix(s1: Seq<Seq<DisplayCommand>>, s2: Seq<Seq<DisplayCommand>>, k: int)
    requires
        0 <= k <= s1.len(),
        k <= s2.len(),
        forall|j: int| 0 <= j < k ==> s1[j] == s2[j],
    ensures
        cat_parts(s1, k) == cat_parts(s2, k),
    decreases k,
{
    if k > 0 {
        lemma_cat_parts_prefix(s1, s2, k - 1);
    }
}

/// Walks the box tree in paint order and collects the display list.
pub fn build_display_list(layout_root: &LayoutBox) -> (list: DisplayList)
    ensures
        rendered(*layout_root, list@),
{
    let mut list = Vec::new();
    render_layout_box(&mut list, layout_root);
    proof {
        let cmds = choose|cmds: Seq<DisplayCommand>|
            #[trigger] rendered(*layout_root, cmds) && list@ == Seq::<DisplayCommand>::empty()
                + cmds;
        assert(list@ =~= cmds);
    }
    list
}

/// Opaque white, the initial color of every pixel.
pub open spec fn white() -> Color {
    Color { r: 255, g: 255, b: 255, a: 255 }
}

/// A buffer of `n` white pixels.
pub open spec fn white_pixels(n: int) -> Seq<Color> {
    Seq::new(n as nat, |i: int| white())
}

/// Clamps a pixel coordinate into `[0, hi]`.
pub open spec fn clamp_spec(v: int, hi: int) -> int {
    if v < 0 {
        0
    } else if v > hi {
        hi
    } else {
        v
    }
}

fn clamp_to(v: i64, hi: usize) -> (r: usize)
    ensures
        r as int == clamp_spec(v as int, hi as int),
{
    if v < 0 {
        0
    } else if (v as u64) > (hi as u64) {
        hi
    } else {
        (v as u64) as usize
    }
}

/// The color of a command.
pub open spec fn cmd_color(cmd: DisplayCommand) -> Color {
    match cmd {
        DisplayCommand::SolidColor(color, _) => color,
    }
}

/// Whether a command covers the pixel at row-major index `idx` of a
/// `w` by `h` buffer: the command's rectangle, with each edge clamped
/// to the buffer bounds, contains the pixel's column and row.
pub open spec fn cmd_covers(cmd: DisplayCommand, w: int, h: int, idx: int) -> bool {
    match cmd {
        DisplayCommand::SolidColor(_, rect) => {
            let x0 = clamp_spec(rect.x as int, w);
            let x1 = clamp_spec(sat(rect.x + rect.width), w);
            let y0 = clamp_spec(rect.y as int, h);
            let y1 = clamp_spec(sat(rect.y + rect.height), h);
            x0 <= idx % w < x1 && y0 <= idx / w < y1
        },
    }
}

/// The buffer after one command: every covered pixel takes the
/// command's color, every other pixel keeps its value. There is no
/// blending; the alpha channel is carried along, never applied.
pub open spec fn apply_cmd(px: Seq<Color>, w: int, h: int, cmd: DisplayCommand) -> Seq<Color> {
    Seq::new(
        px.len(),
        |i: int|
            if cmd_covers(cmd, w, h, i) {
                cmd_color(cmd)
            } else {
                px[i]
            },
    )
}

/// The buffer after a whole display list, applied in list order.
pub open spec fn apply_cmds(px: Seq<Color>, w: int, h: int, cmds: Seq<DisplayCommand>) -> Seq<
    Color,
>
    decreases cmds.len(),
{
    if cmds.len() == 0 {
        px
    } else {
        apply_cmd(apply_cmds(px, w, h, cmds.drop_last()), w, h, cmds.last())
    }
}

/// A fixed-size pixel buffer, row-major.
#[derive(Debug)]
pub struct Canvas {
    pub pixels: Vec<Color>,
    pub width: usize,
    pub height: usize,
}

impl Canvas {
    /// The buffer holds one pixel per cell of the width-by-height grid.
    pub open spec fn wf(&self) -> bool {
        self.pixels@.len() == self.width * self.height
    }

    /// A canvas of the given size with every pixel opaque white.
    pub fn new(width: usize, height: usize) -> (c: Canvas)
        requires
            width * height <= usize::MAX,
        ensures
            c.wf(),
            c.width == width,
            c.height == height,
            c.pixels@ == white_pixels((width * height) as int),
    {
        let total = width * height;
        let mut pixels: Vec<Color> = Vec::new();
        let mut i: usize = 0;
        while i < total
            invariant
                0 <= i <= total,
                pixels@.len() == i,
                forall|j: int| 0 <= j < i ==> pixels@[j] == white(),
            decreases total - i,
        {
            pixels.push(Color { r: 255, g: 255, b: 255, a: 255 });
            i = i + 1;
        }
        proof {
            assert(pixels@ =~= white_pixels(total as int));
        }
        Canvas { pixels, width, height }
    }

    /// Rasterizes one command: clamps the rectangle to the buffer and
    /// overwrites every covered pixel with the command's color.
    #[verifier::loop_isolation(false)]
    pub fn paint_item(&mut self, item: &DisplayCommand)
        requires
            old(self).wf(),
        ensures
            final(self).wf(),
            final(self).width == old(self).width,
            final(self).height == old(self).height,
            final(self).pixels@ == apply_cmd(
                old(self).pixels@,
                old(self).width as int,
                old(self).height as int,
                *item,
            ),
    {
        let ghost px0 = self.pixels@;
        let ghost w = self.width as int;
        let ghost h = self.height as int;
        let DisplayCommand::SolidColor(color, rect) = *item;
        let x0 = clamp_to(rect.x, self.width);
        let x1 = clamp_to(sat_add(rect.x, rect.width), self.width);
        let y0 = clamp_to(rect.y, self.height);
        let y1 = clamp_to(sat_add(rect.y, rect.height), self.height);
        let mut y = y0;
        while y < y1
            invariant
                y0 <= y,
                y <= y1 || y == y0,
                self.width == old(self).width,
                self.height == old(self).height,
                self.pixels@.len() == px0.len(),
                forall|k: int|
                    0 <= k < px0.len() ==> self.pixels@[k] == (if x0 <= k % w < x1 && y0 <= k / w
                        < y {
                        color
                    } else {
                        px0[k]
                    }),
            decreases y1 - y,
        {
            let mut x = x0;
            while x < x1
                invariant
                    x0 <= x,
                    x <= x1 || x == x0,
                    y0 <= y < y1,
                    self.width == old(self).width,
                    self.height == old(self).height,
                    self.pixels@.len() == px0.len(),
                    forall|k: int|
                        0 <= k < px0.len() ==> self.pixels@[k] == (if (x0 <= k % w < x1 && y0 <= k
                            / w < y) || (k / w == y && x0 <= k % w < x) {
                            color
                        } else {
                            px0[k]
                        }),
                decreases x1 - x,
            {
                proof {
                    let xi = x as int;
                    let yi = y as int;
                    assert(0 <= xi + yi * w && xi + yi * w < w * h) by (nonlinear_arith)
                        requires
                            0 <= xi,
                            xi < w,
                            0 <= yi,
                            yi < h,
                    ;
                    assert(px0.len() == w * h);
                    assert(self.pixels.len() <= usize::MAX);
                }
                let idx = x + y * self.width;
                proof {
                    lemma_fundamental_div_mod_converse(idx as int, w, y as int, x as int);
                }
                let ghost pix_before = self.pixels@;
                self.pixels[idx] = color;
                proof {
                    assert(self.pixels@ == pix_before.update(idx as int, color));
                    assert forall|k: int| 0 <= k < px0.len() implies self.pixels@[k] == (if (x0
                        <= k % w < x1 && y0 <= k / w < y) || (k / w == y && x0 <= k % w < x + 1) {
                        color
                    } else {
                        px0[k]
                    }) by {
                        lemma_fundamental_div_mod(k, w);
                        lemma_fundamental_div_mod(idx as int, w);
                        if k == idx as int {
                            assert(k / w == y as int && k % w == x as int);
                            assert(self.pixels@[k] == color);
                        } else {
                            assert(self.pixels@[k] == pix_before[k]);
                            assert(!(k / w == y as int && k % w == x as int));
                            assert(pix_before[k] == (if (x0 <= k % w < x1 && y0 <= k / w < y) || (
                            k / w == y && x0 <= k % w < x) {
                                color
                            } else {
                                px0[k]
                            }));
                        }
                    }
                }
                x = x + 1;
            }
            y = y + 1;
        }
        proof {
            assert(self.pixels@ =~= apply_cmd(px0, w, h, *item));
        }
    }
}

/// The width or height a canvas gets from a pixel length: negative
/// lengths give an empty extent.
pub open spec fn canvas_dim(v: i64) -> int {
    if v < 0 {
        0
    } else {
        v as int
    }
}

fn to_canvas_dim(v: i64) -> (r: usize)
    requires
        canvas_dim(v) <= usize::MAX,
    ensures
        r as int == canvas_dim(v),
{
    if v < 0 {
        0
    } else {
        v as usize
    }
}

/// Paints a laid-out box tree onto a fresh canvas sized by `bounds`:
/// the display list is built in paint order and rasterized command by
/// command onto an initially white buffer.
pub fn paint(layout_root: &LayoutBox, bounds: Rect) -> (c: Canvas)
    requires
        canvas_dim(bounds.width) <= usize::MAX,
        canvas_dim(bounds.height) <= usize::MAX,
        canvas_dim(bounds.width) * canvas_dim(bounds.height) <= usize::MAX,
    ensures
        c.wf(),
        c.width as int == canvas_dim(bounds.width),
        c.height as int == canvas_dim(bounds.height),
        c.pixels@.len() == canvas_dim(bounds.width) * canvas_dim(bounds.height),
        exists|cmds: Seq<DisplayCommand>|
            #[trigger] rendered(*layout_root, cmds) && c.pixels@ == apply_cmds(
                white_pixels(canvas_dim(bounds.width) * canvas_dim(bounds.height)),
                canvas_dim(bounds.width),
                canvas_dim(bounds.height),
                cmds,
            ),
{
    let display_list = build_display_list(layout_root);
    let w = to_canvas_dim(bounds.width);
    let h = to_canvas_dim(bounds.height);
    let mut canvas = Canvas::new(w, h);
    let n = display_list.len();
    let mut i: usize = 0;
    proof {
        assert(display_list@.subrange(0, 0) =~= Seq::<DisplayCommand>::empty());
    }
    while i < n
        invariant
            0 <= i <= n,
            n == display_list@.len(),
            canvas.wf(),
            canvas.width == w,
            canvas.height == h,
            canvas.pixels@ == apply_cmds(
                white_pixels(w as int * h as int),
                w as int,
                h as int,
                display_list@.subrange(0, i as int),
            ),
        decreases n - i,
    {
        canvas.paint_item(&display_list[i]);
        proof {
            let pre = display_list@.subrange(0, i as int + 1);
            assert(pre.drop_last() =~= display_list@.subrange(0, i as int));
            assert(pre.last() == display_list@[i as int]);
        }
        i = i + 1;
    }
    proof {
        assert(display_list@.subrange(0, n as int) =~= display_list@);
    }
    canvas
}

} // verus!
