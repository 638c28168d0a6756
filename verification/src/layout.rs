//! Block-model layout: the box tree built from a styled tree, and the
//! recursive width/position/height computation over it.

use vstd::prelude::*;
use vstd::pervasive::unreached;
use crate::css::{Unit, Value};
use crate::px::{half, half_spec, sat, sat_add, sat_sub};
use crate::style::{PropertyMap, StyledNode};

verus! {

/// Display classification of a styled node.
#[derive(PartialEq, Eq, Structural, Clone, Copy, Debug)]
pub enum Display {
    Inline,
    Block,
    DisplayNone,
}

/// A rectangle in pixels.
#[derive(PartialEq, Eq, Structural, Clone, Copy, Debug)]
pub struct Rect {
    pub x: i64,
    pub y: i64,
    pub width: i64,
    pub height: i64,
}

/// Edge widths in pixels: left, right, top, bottom.
#[derive(PartialEq, Eq, Structural, Clone, Copy, Debug)]
pub struct EdgeSizes {
    pub left: i64,
    pub right: i64,
    pub top: i64,
    pub bottom: i64,
}

/// The content rectangle of a box together with its padding, border and
/// margin edge widths.
#[derive(PartialEq, Eq, Structural, Clone, Copy, Debug)]
pub struct Dimensions {
    pub content: Rect,
    pub padding: EdgeSizes,
    pub border: EdgeSizes,
    pub margin: EdgeSizes,
}

impl Rect {
    pub open spec fn zero() -> Rect {
        Rect { x: 0, y: 0, width: 0, height: 0 }
    }

    /// The rectangle grown by the given edges: the origin moves up and
    /// left by the top and left edges, the extent grows by both edges of
    /// each axis.
    pub open spec fn expanded_by_spec(self, edge: EdgeSizes) -> Rect {
        Rect {
            x: sat(self.x - edge.left) as i64,
            y: sat(self.y - edge.top) as i64,
            width: sat(sat(self.width + edge.left) + edge.right) as i64,
            height: sat(sat(self.height + edge.top) + edge.bottom) as i64,
        }
    }

    pub fn expanded_by(self, edge: EdgeSizes) -> (r: Rect)
        ensures
            r == self.expanded_by_spec(edge),
    {
        Rect {
            x: sat_sub(self.x, edge.left),
            y: sat_sub(self.y, edge.top),
            width: sat_add(sat_add(self.width, edge.left), edge.right),
            height: sat_add(sat_add(self.height, edge.top), edge.bottom),
        }
    }
}

impl EdgeSizes {
    pub open spec fn zero() -> EdgeSizes {
        EdgeSizes { left: 0, right: 0, top: 0, bottom: 0 }
    }
}

impl Default for Rect {
    fn default() -> (r: Rect)
        ensures
            r == Rect::zero(),
    {
        Rect { x: 0, y: 0, width: 0, height: 0 }
    }
}

impl Default for EdgeSizes {
    fn default() -> (r: EdgeSizes)
        ensures
            r == EdgeSizes::zero(),
    {
        EdgeSizes { left: 0, right: 0, top: 0, bottom: 0 }
    }
}

impl Dimensions {
    pub open spec fn zero() -> Dimensions {
        Dimensions {
            content: Rect::zero(),
            padding: EdgeSizes::zero(),
            border: EdgeSizes::zero(),
            margin: EdgeSizes::zero(),
        }
    }

    pub open spec fn padding_box_spec(self) -> Rect {
        self.content.expanded_by_spec(self.padding)
    }

    pub open spec fn border_box_spec(self) -> Rect {
        self.padding_box_spec().expanded_by_spec(self.border)
    }

    pub open spec fn margin_box_spec(self) -> Rect {
        self.border_box_spec().expanded_by_spec(self.margin)
    }

    /// The content area expanded by the padding edges.
    pub fn padding_box(self) -> (r: Rect)
        ensures
            r == self.padding_box_spec(),
    {
        self.content.expanded_by(self.padding)
    }

    /// The padding box expanded by the border edges.
    pub fn border_box(self) -> (r: Rect)
        ensures
            r == self.border_box_spec(),
    {
        self.padding_box().expanded_by(self.border)
    }

    /// The border box expanded by the margin edges.
    pub fn margin_box(self) -> (r: Rect)
        ensures
            r == self.margin_box_spec(),
    {
        self.border_box().expanded_by(self.margin)
    }
}

impl Default for Dimensions {
    fn default() -> (r: Dimensions)
        ensures
            r == Dimensions::zero(),
    {
        Dimensions {
            content: Rect::default(),
            padding: EdgeSizes::default(),
            border: EdgeSizes::default(),
            margin: EdgeSizes::default(),
        }
    }
}

/// What a layout box stands for: a block-level styled node, an
/// inline-level styled node (each carrying the node's specified values),
/// or an anonymous block synthesized around a run of inline content.
#[derive(Debug)]
pub enum BoxType {
    BlockNode(PropertyMap),
    InlinedNode(PropertyMap),
    AnonymousBlock,
}

/// A box in the layout tree: its computed dimensions, what it stands
/// for, and its child boxes in order.
#[derive(Debug)]
pub struct LayoutBox {
    pub dimensions: Dimensions,
    pub box_type: BoxType,
    pub children: Vec<LayoutBox>,
}

impl LayoutBox {
    pub fn new(box_type: BoxType) -> (b: LayoutBox)
        ensures
            b.box_type == box_type,
            b.dimensions == Dimensions::zero(),
            b.children@ =~= Seq::<LayoutBox>::empty(),
    {
        LayoutBox { box_type, dimensions: Dimensions::default(), children: Vec::new() }
    }

    /// The specified values of the box's styled node. An anonymous box
    /// has no styled node; asking for one is a caller error.
    pub fn get_style_node(&self) -> (r: &PropertyMap)
        requires
            !(self.box_type is AnonymousBlock),
        ensures
            match self.box_type {
                BoxType::BlockNode(pm) => *r == pm,
                BoxType::InlinedNode(pm) => *r == pm,
                BoxType::AnonymousBlock => false,
            },
    {
        match &self.box_type {
            BoxType::BlockNode(pm) => pm,
            BoxType::InlinedNode(pm) => pm,
            BoxType::AnonymousBlock => unreached(),
        }
    }
}

/// One step of appending an inline-level box into its container: inside
/// an inline parent it becomes a direct child; inside a block parent it
/// goes into the trailing anonymous box, opened first if the last child
/// is not already anonymous.
pub open spec fn inline_appended(
    acc: Seq<LayoutBox>,
    cb: LayoutBox,
    inline_parent: bool,
    out: Seq<LayoutBox>,
) -> bool {
    if inline_parent {
        out == acc.push(cb)
    } else if acc.len() > 0 && acc.last().box_type is AnonymousBlock {
        &&& out.len() == acc.len()
        &&& forall|j: int| 0 <= j < acc.len() - 1 ==> out[j] == acc[j]
        &&& out.last().box_type is AnonymousBlock
        &&& out.last().dimensions == acc.last().dimensions
        &&& out.last().children@ == acc.last().children@.push(cb)
    } else {
        &&& out.len() == acc.len() + 1
        &&& forall|j: int| 0 <= j < acc.len() ==> out[j] == acc[j]
        &&& out.last().box_type is AnonymousBlock
        &&& out.last().dimensions == Dimensions::zero()
        &&& out.last().children@ == seq![cb]
    }
}


/// One child of the parent handed to its container: a `display: none`
/// child leaves the collected boxes alone, a block child is appended
/// directly, an inline child goes through [`inline_appended`].
pub open spec fn build_step(
    disp: Display,
    acc: Seq<LayoutBox>,
    cb: LayoutBox,
    inline_parent: bool,
    next: Seq<LayoutBox>,
) -> bool {
    match disp {
        Display::DisplayNone => next == acc,
        Display::Block => next == acc.push(cb),
        Display::Inline => inline_appended(acc, cb, inline_parent, next),
    }
}

/// The box tree built for a styled node: the box variant follows the
/// node's display classification and carries its specified values; the
/// child boxes are collected left to right, one [`build_step`] per
/// styled child, so that block children stay direct children, runs of
/// inline children collapse into anonymous boxes, and `display: none`
/// children are dropped with their whole subtrees. `cbs` holds the box
/// built for each child (unconstrained for a dropped child) and `accs`
/// the collected boxes after each step.
pub open spec fn built(s: StyledNode, b: LayoutBox) -> bool
    decreases s,
        via built_decreases
{
    &&& b.dimensions == Dimensions::zero()
    &&& match s.display_spec() {
        Display::Block => b.box_type == BoxType::BlockNode(s.specified_values),
        Display::Inline => b.box_type == BoxType::InlinedNode(s.specified_values),
        Display::DisplayNone => false,
    }
    &&& exists|cbs: Seq<LayoutBox>, accs: Seq<Seq<LayoutBox>>|
        #![trigger cbs.len(), accs.len()]
        {
            let n = s.children@.len() as int;
            let inline_parent = s.display_spec() == Display::Inline;
            &&& cbs.len() == n
            &&& accs.len() == n + 1
            &&& accs[0] == Seq::<LayoutBox>::empty()
            &&& accs[n] == b.children@
            &&& forall|i: int|
                0 <= i < n ==> build_step(
                    s.children@[i].display_spec(),
                    accs[i],
                    #[trigger] cbs[i],
                    inline_parent,
                    accs[i + 1],
                )
            &&& forall|i: int|
                0 <= i < n && s.children@[i].display_spec() != Display::DisplayNone ==> built(
                    s.children@[i],
                    #[trigger] cbs[i],
                )
        }
}

#[via_fn]
proof fn built_decreases(s: StyledNode, b: LayoutBox) {
    assert forall|i: int| 0 <= i < s.children@.len() implies decreases_to!(
        s => s.children@[i]
    ) by {
        assert(decreases_to!(s => s.children));
        assert(decreases_to!(s.children => s.children[i]));
    }
}

/// Appends an inline-level box under a block parent: into the trailing
/// anonymous box if there is one, else into a fresh one.
fn append_to_inline_container(children: &mut Vec<LayoutBox>, cb: LayoutBox)
    ensures
        inline_appended(old(children)@, cb, false, final(children)@),
{
    let len = children.len();
    if len > 0 {
        let is_anon = match &children[len - 1].box_type {
            BoxType::AnonymousBlock => true,
            _ => false,
        };
        if is_anon {
            match children.pop() {
                Some(mut last) => {
                    last.children.push(cb);
                    children.push(last);
                },
                None => unreached(),
            }
            return;
        }
    }
    let mut anon = LayoutBox::new(BoxType::AnonymousBlock);
    anon.children.push(cb);
    children.push(anon);
    proof {
        assert(anon.children@ =~= seq![cb]);
    }
}

/// Builds the box tree for a styled node. A root classified
/// `display: none` has no box; the caller must not ask for one.
#[verifier::loop_isolation(false)]
pub fn build_layout_tree(style_node: StyledNode) -> (b: LayoutBox)
    requires
        style_node.display_spec() != Display::DisplayNone,
    ensures
        built(style_node, b),
    decreases style_node,
{
    let ghost orig = style_node;
    let disp = style_node.display();
    let inline_parent = disp == Display::Inline;
    let StyledNode { specified_values, children } = style_node;
    let box_type = match disp {
        Display::Block => BoxType::BlockNode(specified_values),
        Display::Inline => BoxType::InlinedNode(specified_values),
        Display::DisplayNone => unreached(),
    };
    let mut root = LayoutBox::new(box_type);
    let mut kids = children;
    let n = kids.len();
    let mut i: usize = 0;
    let ghost mut cbs: Seq<LayoutBox> = Seq::empty();
    let ghost mut accs: Seq<Seq<LayoutBox>> = seq![Seq::<LayoutBox>::empty()];
    proof {
        assert(kids@ =~= orig.children@.subrange(0, n as int));
        assert(root.children@ =~= Seq::<LayoutBox>::empty());
    }
    while i < n
        invariant
            0 <= i <= n,
            kids@ == orig.children@.subrange(i as int, n as int),
            root.box_type == (match orig.display_spec() {
                Display::Block => BoxType::BlockNode(orig.specified_values),
                Display::Inline => BoxType::InlinedNode(orig.specified_values),
                Display::DisplayNone => BoxType::AnonymousBlock,
            }),
            root.dimensions == Dimensions::zero(),
            cbs.len() == i,
            accs.len() == i + 1,
            accs[0] == Seq::<LayoutBox>::empty(),
            accs[i as int] == root.children@,
            forall|j: int|
                0 <= j < i ==> build_step(
                    orig.children@[j].display_spec(),
                    accs[j],
                    #[trigger] cbs[j],
                    inline_parent,
                    accs[j + 1],
                ),
            forall|j: int|
                0 <= j < i && orig.children@[j].display_spec() != Display::DisplayNone ==> built(
                    orig.children@[j],
                    #[trigger] cbs[j],
                ),
        decreases n - i,
    {
        proof {
            assert(kids@[0] == orig.children@[i as int]);
            assert(kids@.drop_first() =~= orig.children@.subrange(i as int + 1, n as int));
            assert(decreases_to!(orig => orig.children));
            assert(decreases_to!(orig.children => orig.children[i as int]));
            assert(decreases_to!(orig => orig.children@[i as int]));
        }
        let child = kids.remove(0);
        let child_disp = child.display();
        if child_disp == Display::Block {
            let cb = build_layout_tree(child);
            proof {
                cbs = cbs.push(cb);
            }
            root.children.push(cb);
            proof {
                accs = accs.push(root.children@);
            }
        } else if child_disp == Display::Inline {
            let cb = build_layout_tree(child);
            proof {
                cbs = cbs.push(cb);
            }
            if inline_parent {
                root.children.push(cb);
            } else {
                append_to_inline_container(&mut root.children, cb);
            }
            proof {
                accs = accs.push(root.children@);
            }
        } else {
            proof {
                cbs = cbs.push(vstd::pervasive::arbitrary());
                accs = accs.push(root.children@);
            }
        }
        i = i + 1;
    }
    proof {
        assert(cbs.len() == orig.children@.len());
        assert(accs.len() == orig.children@.len() + 1);
        assert(accs[orig.children@.len() as int] == root.children@);
    }
    root
}

/// The resolved horizontal values of a block box, in pixels.
pub struct ResolvedWidths {
    pub width: int,
    pub margin_left: int,
    pub margin_right: int,
    pub border_left: int,
    pub border_right: int,
    pub padding_left: int,
    pub padding_right: int,
}

/// The CSS block width resolution: reads the specified width and the six
/// horizontal edges (each with its shorthand fallback), then settles the
/// values that were `auto` so that the margin box fills the containing
/// content width `cw`. When everything is fixed, the excess is absorbed
/// by recomputing margin-left from margin-right plus the underflow — an
/// unconventional convention that is kept deliberately.
pub open spec fn resolve_widths(pm: PropertyMap, cw: int) -> ResolvedWidths {
    let zero = Value::Length(0i64, Unit::Px);
    let w_opt = pm.get_spec("width"@);
    let w_auto = match w_opt {
        Option::Some(v) => v.is_auto_spec(),
        Option::None => true,
    };
    let w_px = match w_opt {
        Option::Some(v) => v.to_px_spec(),
        Option::None => 0,
    };
    let ml_v = pm.lookup_spec("margin-left"@, "margin"@, zero);
    let mr_v = pm.lookup_spec("margin-right"@, "margin"@, zero);
    let bl = pm.lookup_spec("border-left-width"@, "border-width"@, zero).to_px_spec();
    let br = pm.lookup_spec("border-right-width"@, "border-width"@, zero).to_px_spec();
    let pl = pm.lookup_spec("padding-left"@, "padding"@, zero).to_px_spec();
    let pr = pm.lookup_spec("padding-right"@, "padding"@, zero).to_px_spec();
    let total = sat(
        sat(sat(sat(sat(sat(sat(0 + ml_v.to_px_spec()) + mr_v.to_px_spec()) + bl) + br) + pl) + pr)
            + w_px,
    );
    let over = !w_auto && total > cw;
    let ml_auto = ml_v.is_auto_spec() && !over;
    let ml_px = if over && ml_v.is_auto_spec() {
        0
    } else {
        ml_v.to_px_spec()
    };
    let mr_auto = mr_v.is_auto_spec() && !over;
    let mr_px = if over && mr_v.is_auto_spec() {
        0
    } else {
        mr_v.to_px_spec()
    };
    let underflow = sat(cw - total);
    if !w_auto && !ml_auto && !mr_auto {
        ResolvedWidths {
            width: w_px,
            margin_left: sat(mr_px + underflow),
            margin_right: mr_px,
            border_left: bl,
            border_right: br,
            padding_left: pl,
            padding_right: pr,
        }
    } else if !w_auto && !ml_auto && mr_auto {
        ResolvedWidths {
            width: w_px,
            margin_left: ml_px,
            margin_right: underflow,
            border_left: bl,
            border_right: br,
            padding_left: pl,
            padding_right: pr,
        }
    } else if !w_auto && ml_auto && !mr_auto {
        ResolvedWidths {
            width: w_px,
            margin_left: underflow,
            margin_right: mr_px,
            border_left: bl,
            border_right: br,
            padding_left: pl,
            padding_right: pr,
        }
    } else if w_auto {
        let ml1 = if ml_auto {
            0
        } else {
            ml_px
        };
        let mr1 = if mr_auto {
            0
        } else {
            mr_px
        };
        if underflow > 0 {
            ResolvedWidths {
                width: underflow,
                margin_left: ml1,
                margin_right: mr1,
                border_left: bl,
                border_right: br,
                padding_left: pl,
                padding_right: pr,
            }
        } else {
            ResolvedWidths {
                width: 0,
                margin_left: ml1,
                margin_right: sat(mr1 + underflow),
                border_left: bl,
                border_right: br,
                padding_left: pl,
                padding_right: pr,
            }
        }
    } else {
        ResolvedWidths {
            width: w_px,
            margin_left: half_spec(underflow),
            margin_right: half_spec(underflow),
            border_left: bl,
            border_right: br,
            padding_left: pl,
            padding_right: pr,
        }
    }
}

/// The dimensions after width resolution: the resolved width and the six
/// horizontal edges are written, everything else is kept.
pub open spec fn width_step(pm: PropertyMap, d: Dimensions, cw: int) -> Dimensions {
    let rw = resolve_widths(pm, cw);
    Dimensions {
        content: Rect { width: rw.width as i64, ..d.content },
        margin: EdgeSizes { left: rw.margin_left as i64, right: rw.margin_right as i64, ..d.margin },
        border: EdgeSizes { left: rw.border_left as i64, right: rw.border_right as i64, ..d.border },
        padding: EdgeSizes {
            left: rw.padding_left as i64,
            right: rw.padding_right as i64,
            ..d.padding
        },
    }
}

/// The dimensions after position resolution: the vertical margins and
/// paddings are read (with shorthand fallbacks), and the content origin
/// is placed inside the containing block, below the height its earlier
/// children have already stacked up.
pub open spec fn position_step(pm: PropertyMap, d: Dimensions, cb: Dimensions) -> Dimensions {
    let zero = Value::Length(0i64, Unit::Px);
    let mt = pm.lookup_spec("margin-top"@, "margin"@, zero).to_px_spec();
    let mb = pm.lookup_spec("margin-bottom"@, "margin"@, zero).to_px_spec();
    let pt = pm.lookup_spec("padding-top"@, "padding"@, zero).to_px_spec();
    let pb = pm.lookup_spec("padding-bottom"@, "padding"@, zero).to_px_spec();
    let x = sat(sat(sat(cb.content.x + d.margin.left) + d.border.left) + d.padding.left);
    let y = sat(sat(sat(sat(cb.content.height + cb.content.y) + mt) + d.border.top) + pt);
    Dimensions {
        content: Rect { x: x as i64, y: y as i64, ..d.content },
        margin: EdgeSizes { top: mt as i64, bottom: mb as i64, ..d.margin },
        padding: EdgeSizes { top: pt as i64, bottom: pb as i64, ..d.padding },
        border: d.border,
    }
}

/// The dimensions after height resolution: an explicit pixel height
/// overrides the height accumulated from the children.
pub open spec fn height_step(pm: PropertyMap, d: Dimensions) -> Dimensions {
    match pm.get_spec("height"@) {
        Option::Some(v) => match v {
            Value::Length(h, Unit::Px) => Dimensions {
                content: Rect { height: h, ..d.content },
                ..d
            },
            _ => d,
        },
        Option::None => d,
    }
}

/// The same dimensions with the content height replaced.
pub open spec fn with_height(d: Dimensions, h: int) -> Dimensions {
    Dimensions { content: Rect { height: h as i64, ..d.content }, ..d }
}

/// The height of a box's margin box.
pub open spec fn mb_height(b: LayoutBox) -> int {
    b.dimensions.margin_box_spec().height as int
}

/// The content height after the first `i` children have stacked their
/// margin boxes onto a starting height `h0`.
pub open spec fn stacked_height(kids: Seq<LayoutBox>, i: int, h0: int) -> int
    decreases i,
{
    if i <= 0 {
        h0
    } else {
        sat(stacked_height(kids, i - 1, h0) + mb_height(kids[i - 1]))
    }
}

proof fn lemma_stacked_prefix(s1: Seq<LayoutBox>, s2: Seq<LayoutBox>, i: int, h0: int)
    requires
        0 <= i <= s1.len(),
        i <= s2.len(),
        forall|j: int| 0 <= j < i ==> s1[j] == s2[j],
    ensures
        stacked_height(s1, i, h0) == stacked_height(s2, i, h0),
    decreases i,
{
    if i > 0 {
        lemma_stacked_prefix(s1, s2, i - 1, h0);
    }
}

/// The block layout of a box within its containing block: a block-level
/// box resolves its width, takes its position below the already stacked
/// height of the containing block, lays out its children in document
/// order — each one seeing the height its earlier siblings stacked up —
/// and takes its height from its children unless an explicit height is
/// given. Inline and anonymous boxes are left untouched, a deliberate
/// limitation of this block-only engine.
pub open spec fn laid_out(b: LayoutBox, cb: Dimensions, a: LayoutBox) -> bool
    decreases b,
        via laid_out_decreases
{
    match b.box_type {
        BoxType::InlinedNode(_) => a == b,
        BoxType::AnonymousBlock => a == b,
        BoxType::BlockNode(pm) => {
            let d1 = position_step(pm, width_step(pm, b.dimensions, cb.content.width as int), cb);
            let n = b.children@.len() as int;
            &&& a.box_type == b.box_type
            &&& a.children@.len() == n
            &&& forall|i: int|
                0 <= i < n ==> laid_out(
                    #[trigger] b.children@[i],
                    with_height(d1, stacked_height(a.children@, i, d1.content.height as int)),
                    a.children@[i],
                )
            &&& a.dimensions == height_step(
                pm,
                with_height(d1, stacked_height(a.children@, n, d1.content.height as int)),
            )
        },
    }
}

#[via_fn]
proof fn laid_out_decreases(b: LayoutBox, cb: Dimensions, a: LayoutBox) {
    assert forall|i: int| 0 <= i < b.children@.len() implies decreases_to!(
        b => b.children@[i]
    ) by {
        assert(decreases_to!(b => b.children));
        assert(decreases_to!(b.children => b.children[i]));
    }
}

/// Resolves the width and horizontal edges of a block box.
pub fn calculate_block_width(pm: &PropertyMap, d: Dimensions, containing_block: Dimensions) -> (nd:
    Dimensions)
    ensures
        nd == width_step(*pm, d, containing_block.content.width as int),
{
    let width_opt = pm.value("width");
    let w_is_auto = match &width_opt {
        Some(v) => v.is_auto(),
        None => true,
    };
    let w_px = match &width_opt {
        Some(v) => v.to_px(),
        None => 0,
    };
    let zero = Value::Length(0, Unit::Px);
    let margin_left = pm.lookup("margin-left", "margin", &zero);
    let margin_right = pm.lookup("margin-right", "margin", &zero);
    let border_left = pm.lookup("border-left-width", "border-width", &zero);
    let border_right = pm.lookup("border-right-width", "border-width", &zero);
    let padding_left = pm.lookup("padding-left", "padding", &zero);
    let padding_right = pm.lookup("padding-right", "padding", &zero);
    let total = sat_add(
        sat_add(
            sat_add(
                sat_add(
                    sat_add(sat_add(sat_add(0, margin_left.to_px()), margin_right.to_px()),
                        border_left.to_px()),
                    border_right.to_px(),
                ),
                padding_left.to_px(),
            ),
            padding_right.to_px(),
        ),
        w_px,
    );
    let over = !w_is_auto && total > containing_block.content.width;
    let mut ml_auto = margin_left.is_auto();
    let mut ml_px = margin_left.to_px();
    if over && ml_auto {
        ml_auto = false;
        ml_px = 0;
    }
    let mut mr_auto = margin_right.is_auto();
    let mut mr_px = margin_right.to_px();
    if over && mr_auto {
        mr_auto = false;
        mr_px = 0;
    }
    let underflow = sat_sub(containing_block.content.width, total);
    let mut w_final = w_px;
    let mut ml_final = ml_px;
    let mut mr_final = mr_px;
    if !w_is_auto && !ml_auto && !mr_auto {
        ml_final = sat_add(mr_px, underflow);
    } else if !w_is_auto && !ml_auto && mr_auto {
        mr_final = underflow;
    } else if !w_is_auto && ml_auto && !mr_auto {
        ml_final = underflow;
    } else if w_is_auto {
        if ml_auto {
            ml_final = 0;
        }
        if mr_auto {
            mr_final = 0;
        }
        if underflow > 0 {
            w_final = underflow;
        } else {
            w_final = 0;
            mr_final = sat_add(mr_final, underflow);
        }
    } else {
        let h = half(underflow);
        ml_final = h;
        mr_final = h;
    }
    let mut nd = d;
    nd.content.width = w_final;
    nd.margin.left = ml_final;
    nd.margin.right = mr_final;
    nd.border.left = border_left.to_px();
    nd.border.right = border_right.to_px();
    nd.padding.left = padding_left.to_px();
    nd.padding.right = padding_right.to_px();
    nd
}

/// Resolves the vertical edges of a block box and places its content
/// origin inside the containing block.
pub fn calculate_block_position(pm: &PropertyMap, d: Dimensions, containing_block: Dimensions) -> (nd:
    Dimensions)
    ensures
        nd == position_step(*pm, d, containing_block),
{
    let zero = Value::Length(0, Unit::Px);
    let mut nd = d;
    nd.margin.top = pm.lookup("margin-top", "margin", &zero).to_px();
    nd.margin.bottom = pm.lookup("margin-bottom", "margin", &zero).to_px();
    nd.padding.top = pm.lookup("padding-top", "padding", &zero).to_px();
    nd.padding.bottom = pm.lookup("padding-bottom", "padding", &zero).to_px();
    nd.content.x = sat_add(
        sat_add(sat_add(containing_block.content.x, nd.margin.left), nd.border.left),
        nd.padding.left,
    );
    nd.content.y = sat_add(
        sat_add(
            sat_add(
                sat_add(containing_block.content.height, containing_block.content.y),
                nd.margin.top,
            ),
            nd.border.top,
        ),
        nd.padding.top,
    );
    nd
}

/// Overrides the accumulated height with an explicit pixel height, if
/// one is specified.
pub fn calculate_block_height(pm: &PropertyMap, d: Dimensions) -> (nd: Dimensions)
    ensures
        nd == height_step(*pm, d),
{
    match pm.value("height") {
        Some(Value::Length(h, Unit::Px)) => {
            let mut nd = d;
            nd.content.height = h;
            nd
        },
        _ => d,
    }
}

impl LayoutBox {
    /// Lays the box out within its containing block. Only a block-level
    /// box is positioned and sized.
    pub fn layout(self, containing_block: Dimensions) -> (r: LayoutBox)
        ensures
            laid_out(self, containing_block, r),
        decreases self, 1int,
    {
        let is_block = match &self.box_type {
            BoxType::BlockNode(_) => true,
            _ => false,
        };
        if is_block {
            self.layout_block(containing_block)
        } else {
            self
        }
    }

    #[verifier::loop_isolation(false)]
    fn layout_block(self, containing_block: Dimensions) -> (r: LayoutBox)
        requires
            self.box_type is BlockNode,
        ensures
            laid_out(self, containing_block, r),
        decreases self, 0int,
    {
        let ghost orig = self;
        let LayoutBox { dimensions, box_type, children } = self;
        match box_type {
            BoxType::BlockNode(pm) => {
                let d1 = calculate_block_width(&pm, dimensions, containing_block);
                let d2 = calculate_block_position(&pm, d1, containing_block);
                let ghost h0 = d2.content.height as int;
                let mut d = d2;
                let mut kids = children;
                let mut out: Vec<LayoutBox> = Vec::new();
                let n = kids.len();
                let mut i: usize = 0;
                proof {
                    assert(kids@ =~= orig.children@.subrange(0, n as int));
                }
                while i < n
                    invariant
                        0 <= i <= n,
                        kids@ == orig.children@.subrange(i as int, n as int),
                        out@.len() == i,
                        d == with_height(d2, stacked_height(out@, i as int, h0)),
                        forall|j: int|
                            0 <= j < i ==> laid_out(
                                #[trigger] orig.children@[j],
                                with_height(d2, stacked_height(out@, j, h0)),
                                out@[j],
                            ),
                    decreases n - i,
                {
                    proof {
                        assert(kids@[0] == orig.children@[i as int]);
                        assert(kids@.drop_first() =~= orig.children@.subrange(
                            i as int + 1,
                            n as int,
                        ));
                        assert(decreases_to!(orig => orig.children));
                        assert(decreases_to!(orig.children => orig.children[i as int]));
                        assert(decreases_to!(orig => orig.children@[i as int]));
                    }
                    let ghost out0 = out@;
                    let c = kids.remove(0);
                    let c2 = c.layout(d);
                    let mbh = c2.dimensions.margin_box().height;
                    d.content.height = sat_add(d.content.height, mbh);
                    out.push(c2);
                    proof {
                        assert forall|j: int| 0 <= j <= i implies stacked_height(out@, j, h0)
                            == stacked_height(out0, j, h0) by {
                            lemma_stacked_prefix(out@, out0, j, h0);
                        }
                        assert(out@[i as int] == c2);
                        assert(stacked_height(out@, i as int + 1, h0) == sat(
                            stacked_height(out@, i as int, h0) + mb_height(c2),
                        ));
                    }
                    i = i + 1;
                }
                let d3 = calculate_block_height(&pm, d);
                let result = LayoutBox {
                    dimensions: d3,
                    box_type: BoxType::BlockNode(pm),
                    children: out,
                };
                proof {
                    assert(laid_out(orig, containing_block, result));
                }
                result
            },
            _ => unreached(),
        }
    }
}

/// Builds the box tree for a styled node and lays it out against the
/// given containing block, whose stacked height starts at zero.
pub fn layout_tree(node: StyledNode, containing_block: Dimensions) -> (r: LayoutBox)
    requires
        node.display_spec() != Display::DisplayNone,
    ensures
        exists|b: LayoutBox|
            #[trigger] built(node, b) && laid_out(b, with_height(containing_block, 0), r),
{
    let mut cb = containing_block;
    cb.content.height = 0;
    let root_box = build_layout_tree(node);
    let ghost b0 = root_box;
    let r = root_box.layout(cb);
    proof {
        assert(cb == with_height(containing_block, 0));
        assert(built(node, b0) && laid_out(b0, cb, r));
    }
    r
}

/// A `display: none` child is absent from the box tree: inserting one
/// anywhere among a node's children leaves every box tree built for the
/// node a box tree of the changed node too. Since block layout is a
/// function of the box tree and the containing block alone, such a child
/// also contributes nothing to the stacking of its siblings.
pub proof fn lemma_display_none_child_dropped(
    s1: StyledNode,
    s2: StyledNode,
    nc: StyledNode,
    k: int,
    b: LayoutBox,
)
    requires
        0 <= k <= s1.children@.len(),
        nc.display_spec() == Display::DisplayNone,
        s2.specified_values == s1.specified_values,
        s2.children@ == s1.children@.insert(k, nc),
        built(s1, b),
    ensures
        built(s2, b),
{
    let n = s1.children@.len() as int;
    let ip = s1.display_spec() == Display::Inline;
    assert(s2.display_spec() == s1.display_spec());
    let (cbs, accs) = choose|cbs: Seq<LayoutBox>, accs: Seq<Seq<LayoutBox>>|
        #![trigger cbs.len(), accs.len()]
        {
            &&& cbs.len() == n
            &&& accs.len() == n + 1
            &&& accs[0] == Seq::<LayoutBox>::empty()
            &&& accs[n] == b.children@
            &&& forall|i: int|
                0 <= i < n ==> build_step(
                    s1.children@[i].display_spec(),
                    accs[i],
                    #[trigger] cbs[i],
                    ip,
                    accs[i + 1],
                )
            &&& forall|i: int|
                0 <= i < n && s1.children@[i].display_spec() != Display::DisplayNone ==> built(
                    s1.children@[i],
                    #[trigger] cbs[i],
                )
        };
    let cbs2 = cbs.insert(k, b);
    let accs2 = accs.insert(k + 1, accs[k]);
    assert(cbs2.len() == n + 1);
    assert(accs2.len() == n + 2);
    assert(accs2[0] == Seq::<LayoutBox>::empty());
    assert(accs2[n + 1] == b.children@);
    assert forall|i: int| 0 <= i < n + 1 implies build_step(
        s2.children@[i].display_spec(),
        accs2[i],
        #[trigger] cbs2[i],
        ip,
        accs2[i + 1],
    ) by {
        if i < k {
            assert(s2.children@[i] == s1.children@[i]);
            assert(accs2[i] == accs[i]);
            assert(accs2[i + 1] == accs[i + 1]);
            assert(cbs2[i] == cbs[i]);
        } else if i == k {
            assert(s2.children@[k] == nc);
            assert(accs2[k] == accs[k]);
            assert(accs2[k + 1] == accs[k]);
        } else {
            assert(s2.children@[i] == s1.children@[i - 1]);
            assert(accs2[i] == accs[i - 1]);
            assert(accs2[i + 1] == accs[i]);
            assert(cbs2[i] == cbs[i - 1]);
        }
    }
    assert forall|i: int|
        0 <= i < n + 1 && s2.children@[i].display_spec() != Display::DisplayNone implies built(
        s2.children@[i],
        #[trigger] cbs2[i],
    ) by {
        if i < k {
            assert(s2.children@[i] == s1.children@[i]);
            assert(cbs2[i] == cbs[i]);
        } else if i > k {
            assert(s2.children@[i] == s1.children@[i - 1]);
            assert(cbs2[i] == cbs[i - 1]);
        }
    }
}

/// No two anonymous boxes stand side by side.
pub open spec fn no_adjacent_anonymous(s: Seq<LayoutBox>) -> bool {
    forall|i: int|
        0 <= i < s.len() - 1 ==> !((#[trigger] s[i]).box_type is AnonymousBlock
            && s[i + 1].box_type is AnonymousBlock)
}

proof fn lemma_built_not_anonymous(s: StyledNode, b: LayoutBox)
    requires
        built(s, b),
    ensures
        !(b.box_type is AnonymousBlock),
{
}

proof fn lemma_collect_no_adjacent(
    s: StyledNode,
    cbs: Seq<LayoutBox>,
    accs: Seq<Seq<LayoutBox>>,
    k: int,
)
    requires
        0 <= k <= s.children@.len(),
        cbs.len() == s.children@.len(),
        accs.len() == s.children@.len() + 1,
        accs[0] == Seq::<LayoutBox>::empty(),
        forall|i: int|
            0 <= i < s.children@.len() ==> build_step(
                s.children@[i].display_spec(),
                accs[i],
                #[trigger] cbs[i],
                s.display_spec() == Display::Inline,
                accs[i + 1],
            ),
        forall|i: int|
            0 <= i < s.children@.len() && s.children@[i].display_spec() != Display::DisplayNone
                ==> built(s.children@[i], #[trigger] cbs[i]),
    ensures
        no_adjacent_anonymous(accs[k]),
    decreases k,
{
    if k > 0 {
        lemma_collect_no_adjacent(s, cbs, accs, k - 1);
        let prev = accs[k - 1];
        let cur = accs[k];
        let cb = cbs[k - 1];
        match s.children@[k - 1].display_spec() {
            Display::DisplayNone => {},
            Display::Block => {
                lemma_built_not_anonymous(s.children@[k - 1], cb);
                assert(cur == prev.push(cb));
                assert forall|i: int|
                    0 <= i < cur.len() - 1 implies !((#[trigger] cur[i]).box_type
                    is AnonymousBlock && cur[i + 1].box_type is AnonymousBlock) by {
                    if i + 1 < prev.len() {
                        assert(cur[i] == prev[i]);
                        assert(cur[i + 1] == prev[i + 1]);
                    } else {
                        assert(cur[i + 1] == cb);
                    }
                }
            },
            Display::Inline => {
                lemma_built_not_anonymous(s.children@[k - 1], cb);
                if s.display_spec() == Display::Inline {
                    assert(cur == prev.push(cb));
                    assert forall|i: int|
                        0 <= i < cur.len() - 1 implies !((#[trigger] cur[i]).box_type
                        is AnonymousBlock && cur[i + 1].box_type is AnonymousBlock) by {
                        if i + 1 < prev.len() {
                            assert(cur[i] == prev[i]);
                            assert(cur[i + 1] == prev[i + 1]);
                        } else {
                            assert(cur[i + 1] == cb);
                        }
                    }
                } else if prev.len() > 0 && prev.last().box_type is AnonymousBlock {
                    assert forall|i: int|
                        0 <= i < cur.len() - 1 implies !((#[trigger] cur[i]).box_type
                        is AnonymousBlock && cur[i + 1].box_type is AnonymousBlock) by {
                        if i + 1 < cur.len() - 1 {
                            assert(cur[i] == prev[i]);
                            assert(cur[i + 1] == prev[i + 1]);
                        } else {
                            assert(i == cur.len() - 2);
                            assert(cur[i] == prev[i]);
                            assert(prev[prev.len() - 2] == prev[prev.len() - 1 - 1]);
                            assert(!(prev[prev.len() - 2].box_type is AnonymousBlock));
                        }
                    }
                } else {
                    assert forall|i: int|
                        0 <= i < cur.len() - 1 implies !((#[trigger] cur[i]).box_type
                        is AnonymousBlock && cur[i + 1].box_type is AnonymousBlock) by {
                        if i + 1 < prev.len() {
                            assert(cur[i] == prev[i]);
                            assert(cur[i + 1] == prev[i + 1]);
                        } else {
                            assert(i == prev.len() - 1);
                            assert(cur[i] == prev[i]);
                        }
                    }
                }
            },
        }
    }
}

/// Runs of inline children collapse into single anonymous boxes: among
/// the children of any box in a built tree, no two anonymous boxes are
/// adjacent.
pub proof fn lemma_no_adjacent_anonymous(s: StyledNode, b: LayoutBox)
    requires
        built(s, b),
    ensures
        no_adjacent_anonymous(b.children@),
{
    let n = s.children@.len() as int;
    let ip = s.display_spec() == Display::Inline;
    let (cbs, accs) = choose|cbs: Seq<LayoutBox>, accs: Seq<Seq<LayoutBox>>|
        #![trigger cbs.len(), accs.len()]
        {
            &&& cbs.len() == n
            &&& accs.len() == n + 1
            &&& accs[0] == Seq::<LayoutBox>::empty()
            &&& accs[n] == b.children@
            &&& forall|i: int|
                0 <= i < n ==> build_step(
                    s.children@[i].display_spec(),
                    accs[i],
                    #[trigger] cbs[i],
                    ip,
                    accs[i + 1],
                )
            &&& forall|i: int|
                0 <= i < n && s.children@[i].display_spec() != Display::DisplayNone ==> built(
                    s.children@[i],
                    #[trigger] cbs[i],
                )
        };
    lemma_collect_no_adjacent(s, cbs, accs, n);
}

} // verus!
