//! Rendering support: the display list a laid-out view tree produces, and
//! the pixel-level primitives the host uses to rasterize it — rectangle
//! fills, glyph-mask conversion, alpha blending, and a glyph-bitmap cache
//! with a generational sweep.

use vstd::prelude::*;
use std::collections::HashMap;
use crate::background::{spec_pack_rgb, Background, Color};
use crate::geometry::{sat_add, Rectangle};
use crate::layout::{cap, lemma_models_of, models_of, spec_font_size, Node, NodeModel, DEFAULT_FONT_SIZE};
use crate::view::ViewTree;
use crate::widget::Element;

verus! {

broadcast use vstd::std_specs::hash::group_hash_axioms;

/// One drawing instruction, in absolute window coordinates.
#[derive(Debug)]
pub enum DrawCommand {
    /// Fill a rectangle with a solid color.
    Quad { bounds: Rectangle, color: Color },
    /// Draw a string at a font size inside a rectangle.
    Glyphs { content: String, bounds: Rectangle, font_size: u32, color: Color },
}

/// The mathematical shape of a `DrawCommand`.
#[verifier::ext_equal]
pub enum CommandModel {
    Quad(Rectangle, Color),
    Glyphs(Seq<char>, Rectangle, u32, Color),
}

impl DrawCommand {
    /// The mathematical shape of this command.
    pub open spec fn model(self) -> CommandModel {
        match self {
            DrawCommand::Quad { bounds, color } => CommandModel::Quad(bounds, color),
            DrawCommand::Glyphs { content, bounds, font_size, color } => CommandModel::Glyphs(
                content@,
                bounds,
                font_size,
                color,
            ),
        }
    }
}

/// The models of a command list, in order.
pub open spec fn command_models_of(cs: Seq<DrawCommand>) -> Seq<CommandModel>
    decreases cs,
{
    if cs.len() == 0 {
        Seq::empty()
    } else {
        command_models_of(cs.drop_last()).push(cs.last().model())
    }
}

/// The default text color: opaque black.
pub open spec fn spec_text_color(c: Option<Color>) -> Color {
    match c {
        Some(color) => color,
        None => Color { r: 0, g: 0, b: 0, a: 255 },
    }
}

/// A node's bounds shifted into absolute coordinates by the parent offset.
pub open spec fn spec_abs_bounds(node: NodeModel, ox: int, oy: int) -> Rectangle {
    Rectangle {
        x: cap(ox + node.bounds.x) as u32,
        y: cap(oy + node.bounds.y) as u32,
        width: node.bounds.width,
        height: node.bounds.height,
    }
}

/// The display list a view tree produces with its layout node, relative to
/// the parent offset `(ox, oy)`: a text draws its string; a button draws its
/// background (if any) and its label; a stack draws its background (if any)
/// and then its children in order, zipped positionally with the node's
/// children and truncated to the shorter list.
pub open spec fn spec_display(v: ViewTree, node: NodeModel, ox: int, oy: int) -> Seq<CommandModel>
    decreases v, 1int,
{
    let abs = spec_abs_bounds(node, ox, oy);
    match v {
        ViewTree::Text(t) => seq![
            CommandModel::Glyphs(t.string@, abs, spec_font_size(t.size), spec_text_color(t.color)),
        ],
        ViewTree::Button(b) => {
            let label = CommandModel::Glyphs(
                b.label@,
                abs,
                spec_font_size(b.text_size),
                spec_text_color(b.text_color),
            );
            match b.background {
                Some(Background::Color(c)) => seq![CommandModel::Quad(abs, c), label],
                None => seq![label],
            }
        },
        ViewTree::VStack(s) => {
            let children = spec_display_children(
                s.children@,
                node.children,
                abs.x as int,
                abs.y as int,
            );
            match s.background {
                Some(Background::Color(c)) => seq![CommandModel::Quad(abs, c)] + children,
                None => children,
            }
        },
        ViewTree::HStack(s) => {
            let children = spec_display_children(
                s.children@,
                node.children,
                abs.x as int,
                abs.y as int,
            );
            match s.background {
                Some(Background::Color(c)) => seq![CommandModel::Quad(abs, c)] + children,
                None => children,
            }
        },
    }
}

/// The concatenated display lists of paired view and node children.
pub open spec fn spec_display_children(
    ws: Seq<ViewTree>,
    ns: Seq<NodeModel>,
    ox: int,
    oy: int,
) -> Seq<CommandModel>
    decreases ws, 0int,
{
    if ws.len() == 0 || ns.len() == 0 {
        Seq::empty()
    } else {
        spec_display(ws[0], ns[0], ox, oy) + spec_display_children(
            ws.subrange(1, ws.len() as int),
            ns.subrange(1, ns.len() as int),
            ox,
            oy,
        )
    }
}

/// Produces the display list for a laid-out view tree, every command in
/// absolute coordinates offset by `(ox, oy)`.
pub fn display_list(view: &ViewTree, node: &Node, ox: u32, oy: u32) -> (r: Vec<DrawCommand>)
    ensures
        command_models_of(r@) == spec_display(*view, node.model(), ox as int, oy as int),
{
    let mut out: Vec<DrawCommand> = Vec::new();
    draw_into(view, node, ox, oy, &mut out);
    proof {
        assert(command_models_of(Seq::<DrawCommand>::empty()) + spec_display(*view, node.model(),
            ox as int, oy as int) =~= spec_display(*view, node.model(), ox as int, oy as int));
    }
    out
}

/// Appends the display list of one view and its node to `out`.
fn draw_into(view: &ViewTree, node: &Node, ox: u32, oy: u32, out: &mut Vec<DrawCommand>)
    ensures
        command_models_of(final(out)@) == command_models_of(old(out)@) + spec_display(
            *view,
            node.model(),
            ox as int,
            oy as int,
        ),
    decreases view, 1int,
{
    let ax = sat_add(ox, node.bounds.x);
    let ay = sat_add(oy, node.bounds.y);
    let abs = Rectangle { x: ax, y: ay, width: node.bounds.width, height: node.bounds.height };
    let ghost entry = out@;
    match view {
        ViewTree::Text(t) => {
            let font_size = match t.size {
                Some(s) => s,
                None => crate::layout::DEFAULT_FONT_SIZE,
            };
            let color = match t.color {
                Some(c) => c,
                None => Color { r: 0, g: 0, b: 0, a: 255 },
            };
            let cmd = DrawCommand::Glyphs {
                content: t.string.clone(),
                bounds: abs,
                font_size,
                color,
            };
            proof {
                lemma_push_model(entry, cmd);
            }
            out.push(cmd);
            proof {
                assert(command_models_of(out@) =~= command_models_of(entry) + spec_display(*view,
                    node.model(), ox as int, oy as int));
            }
        },
        ViewTree::Button(b) => {
            if let Some(Background::Color(c)) = b.background {
                let cmd = DrawCommand::Quad { bounds: abs, color: c };
                proof {
                    lemma_push_model(out@, cmd);
                }
                out.push(cmd);
            }
            let font_size = match b.text_size {
                Some(s) => s,
                None => crate::layout::DEFAULT_FONT_SIZE,
            };
            let color = match b.text_color {
                Some(c) => c,
                None => Color { r: 0, g: 0, b: 0, a: 255 },
            };
            let cmd = DrawCommand::Glyphs {
                content: b.label.clone(),
                bounds: abs,
                font_size,
                color,
            };
            proof {
                lemma_push_model(out@, cmd);
            }
            out.push(cmd);
            proof {
                assert(command_models_of(out@) =~= command_models_of(entry) + spec_display(*view,
                    node.model(), ox as int, oy as int));
            }
        },
        ViewTree::VStack(s) => {
            if let Some(Background::Color(c)) = s.background {
                let cmd = DrawCommand::Quad { bounds: abs, color: c };
                proof {
                    lemma_push_model(out@, cmd);
                }
                out.push(cmd);
            }
            draw_children_into(
                s.children.as_slice(),
                node.children.as_slice(),
                ax,
                ay,
                out,
            );
            proof {
                assert(command_models_of(out@) =~= command_models_of(entry) + spec_display(*view,
                    node.model(), ox as int, oy as int));
            }
        },
        ViewTree::HStack(s) => {
            if let Some(Background::Color(c)) = s.background {
                let cmd = DrawCommand::Quad { bounds: abs, color: c };
                proof {
                    lemma_push_model(out@, cmd);
                }
                out.push(cmd);
            }
            draw_children_into(
                s.children.as_slice(),
                node.children.as_slice(),
                ax,
                ay,
                out,
            );
            proof {
                assert(command_models_of(out@) =~= command_models_of(entry) + spec_display(*view,
                    node.model(), ox as int, oy as int));
            }
        },
    }
}

/// Pushing one command appends its model.
proof fn lemma_push_model(cs: Seq<DrawCommand>, c: DrawCommand)
    ensures
        command_models_of(cs.push(c)) == command_models_of(cs).push(c.model()),
{
    assert(cs.push(c).drop_last() =~= cs);
    assert(cs.push(c).last() == c);
}

/// Appends the display lists of paired view and node children to `out`.
fn draw_children_into(
    ws: &[ViewTree],
    ns: &[Node],
    ox: u32,
    oy: u32,
    out: &mut Vec<DrawCommand>,
)
    ensures
        command_models_of(final(out)@) == command_models_of(old(out)@) + spec_display_children(
            ws@,
            models_of(ns@),
            ox as int,
            oy as int,
        ),
    decreases ws@, 0int,
{
    if ws.len() == 0 || ns.len() == 0 {
        proof {
            lemma_models_of(ns@);
            assert(command_models_of(out@) + Seq::<CommandModel>::empty() =~= command_models_of(
                out@,
            ));
        }
        return ;
    }
    proof {
        lemma_models_of(ns@);
    }
    draw_into(&ws[0], &ns[0], ox, oy, out);
    draw_children_into(&ws[1..ws.len()], &ns[1..ns.len()], ox, oy, out);
    proof {
        let all = models_of(ns@);
        let tail_ns = ns@.subrange(1, ns@.len() as int);
        lemma_models_of(tail_ns);
        assert forall|k: int| 0 <= k < tail_ns.len() implies models_of(tail_ns)[k] == all.subrange(
            1,
            all.len() as int,
        )[k] by {
            assert(tail_ns[k] == ns@[k + 1]);
            assert(models_of(tail_ns)[k] == tail_ns[k].model());
        }
        assert(models_of(tail_ns) =~= all.subrange(1, all.len() as int));
        assert(command_models_of(out@) =~= command_models_of(old(out)@) + spec_display_children(
            ws@,
            all,
            ox as int,
            oy as int,
        ));
    }
}

/// The display list a widget tree produces with its layout node: a text or
/// button draws its string or label; a stack draws its background (if any)
/// and then its children in order, zipped positionally and truncated to the
/// shorter list.
pub open spec fn spec_elem_display<Message>(
    e: Element<Message>,
    node: NodeModel,
    ox: int,
    oy: int,
) -> Seq<CommandModel>
    decreases e, 1int,
{
    let abs = spec_abs_bounds(node, ox, oy);
    let black = Color { r: 0, g: 0, b: 0, a: 255 };
    match e {
        Element::Text(t) => seq![
            CommandModel::Glyphs(t.string@, abs, spec_font_size(t.size), black),
        ],
        Element::Button(b) => seq![
            CommandModel::Glyphs(b.label@, abs, DEFAULT_FONT_SIZE, black),
        ],
        Element::VStack(s) => {
            let children = spec_elem_display_children(
                s.children@,
                node.children,
                abs.x as int,
                abs.y as int,
            );
            match s.background {
                Some(c) => seq![CommandModel::Quad(abs, c)] + children,
                None => children,
            }
        },
        Element::HStack(s) => {
            let children = spec_elem_display_children(
                s.children@,
                node.children,
                abs.x as int,
                abs.y as int,
            );
            match s.background {
                Some(c) => seq![CommandModel::Quad(abs, c)] + children,
                None => children,
            }
        },
    }
}

/// The concatenated display lists of paired widget and node children.
pub open spec fn spec_elem_display_children<Message>(
    ws: Seq<Element<Message>>,
    ns: Seq<NodeModel>,
    ox: int,
    oy: int,
) -> Seq<CommandModel>
    decreases ws, 0int,
{
    if ws.len() == 0 || ns.len() == 0 {
        Seq::empty()
    } else {
        spec_elem_display(ws[0], ns[0], ox, oy) + spec_elem_display_children(
            ws.subrange(1, ws.len() as int),
            ns.subrange(1, ns.len() as int),
            ox,
            oy,
        )
    }
}

/// Produces the display list for a laid-out widget tree, every command in
/// absolute coordinates offset by `(ox, oy)`.
pub fn elem_display_list<Message>(elem: &Element<Message>, node: &Node, ox: u32, oy: u32) -> (r:
    Vec<DrawCommand>)
    ensures
        command_models_of(r@) == spec_elem_display(*elem, node.model(), ox as int, oy as int),
{
    let mut out: Vec<DrawCommand> = Vec::new();
    elem_draw_into(elem, node, ox, oy, &mut out);
    proof {
        assert(command_models_of(Seq::<DrawCommand>::empty()) + spec_elem_display(*elem,
            node.model(), ox as int, oy as int) =~= spec_elem_display(*elem, node.model(),
            ox as int, oy as int));
    }
    out
}

/// Appends the display list of one widget and its node to `out`.
fn elem_draw_into<Message>(
    elem: &Element<Message>,
    node: &Node,
    ox: u32,
    oy: u32,
    out: &mut Vec<DrawCommand>,
)
    ensures
        command_models_of(final(out)@) == command_models_of(old(out)@) + spec_elem_display(
            *elem,
            node.model(),
            ox as int,
            oy as int,
        ),
    decreases elem, 1int,
{
    let ax = sat_add(ox, node.bounds.x);
    let ay = sat_add(oy, node.bounds.y);
    let abs = Rectangle { x: ax, y: ay, width: node.bounds.width, height: node.bounds.height };
    let black = Color { r: 0, g: 0, b: 0, a: 255 };
    let ghost entry = out@;
    match elem {
        Element::Text(t) => {
            let font_size = match t.size {
                Some(s) => s,
                None => DEFAULT_FONT_SIZE,
            };
            let cmd = DrawCommand::Glyphs {
                content: t.string.clone(),
                bounds: abs,
                font_size,
                color: black,
            };
            proof {
                lemma_push_model(entry, cmd);
            }
            out.push(cmd);
            proof {
                assert(command_models_of(out@) =~= command_models_of(entry) + spec_elem_display(
                    *elem, node.model(), ox as int, oy as int));
            }
        },
        Element::Button(b) => {
            let cmd = DrawCommand::Glyphs {
                content: b.label.clone(),
                bounds: abs,
                font_size: DEFAULT_FONT_SIZE,
                color: black,
            };
            proof {
                lemma_push_model(entry, cmd);
            }
            out.push(cmd);
            proof {
                assert(command_models_of(out@) =~= command_models_of(entry) + spec_elem_display(
                    *elem, node.model(), ox as int, oy as int));
            }
        },
        Element::VStack(s) => {
            if let Some(c) = s.background {
                let cmd = DrawCommand::Quad { bounds: abs, color: c };
                proof {
                    lemma_push_model(out@, cmd);
                }
                out.push(cmd);
            }
            elem_draw_children_into(
                s.children.as_slice(),
                node.children.as_slice(),
                ax,
                ay,
                out,
            );
            proof {
                assert(command_models_of(out@) =~= command_models_of(entry) + spec_elem_display(
                    *elem, node.model(), ox as int, oy as int));
            }
        },
        Element::HStack(s) => {
            if let Some(c) = s.background {
                let cmd = DrawCommand::Quad { bounds: abs, color: c };
                proof {
                    lemma_push_model(out@, cmd);
                }
                out.push(cmd);
            }
            elem_draw_children_into(
                s.children.as_slice(),
                node.children.as_slice(),
                ax,
                ay,
                out,
            );
            proof {
                assert(command_models_of(out@) =~= command_models_of(entry) + spec_elem_display(
                    *elem, node.model(), ox as int, oy as int));
            }
        },
    }
}

/// Appends the display lists of paired widget and node children to `out`.
fn elem_draw_children_into<Message>(
    ws: &[Element<Message>],
    ns: &[Node],
    ox: u32,
    oy: u32,
    out: &mut Vec<DrawCommand>,
)
    ensures
        command_models_of(final(out)@) == command_models_of(old(out)@)
            + spec_elem_display_children(ws@, models_of(ns@), ox as int, oy as int),
    decreases ws@, 0int,
{
    if ws.len() == 0 || ns.len() == 0 {
        proof {
            lemma_models_of(ns@);
            assert(command_models_of(out@) + Seq::<CommandModel>::empty() =~= command_models_of(
                out@,
            ));
        }
        return ;
    }
    proof {
        lemma_models_of(ns@);
    }
    elem_draw_into(&ws[0], &ns[0], ox, oy, out);
    elem_draw_children_into(&ws[1..ws.len()], &ns[1..ns.len()], ox, oy, out);
    proof {
        let all = models_of(ns@);
        let tail_ns = ns@.subrange(1, ns@.len() as int);
        lemma_models_of(tail_ns);
        assert forall|k: int| 0 <= k < tail_ns.len() implies models_of(tail_ns)[k] == all.subrange(
            1,
            all.len() as int,
        )[k] by {
            assert(tail_ns[k] == ns@[k + 1]);
            assert(models_of(tail_ns)[k] == tail_ns[k].model());
        }
        assert(models_of(tail_ns) =~= all.subrange(1, all.len() as int));
        assert(command_models_of(out@) =~= command_models_of(old(out)@)
            + spec_elem_display_children(ws@, all, ox as int, oy as int));
    }
}

/// Whether pixel `p` is covered by the rectangle and lies before the fill
/// position `(y, x)` in row-major order.
pub open spec fn spec_covered_before(
    p: int,
    width: int,
    height: int,
    rect: Rectangle,
    y: int,
    x: int,
) -> bool {
    spec_covered(p, width, height, rect) && (p / width < y || (p / width == y && p % width < x))
}

/// Whether pixel index `p` of a row-major frame of the given width and
/// height lies inside the rectangle.
pub open spec fn spec_covered(p: int, width: int, height: int, rect: Rectangle) -> bool {
    let x = p % width;
    let y = p / width;
    &&& rect.x <= x < rect.x + rect.width
    &&& x < width
    &&& rect.y <= y < rect.y + rect.height
    &&& y < height
}

/// Fills the intersection of `rect` with the frame with `pixel`; every other
/// pixel is untouched. The frame is row-major, `width * height` pixels.
pub fn fill_rect(frame: &mut Vec<u32>, width: u32, height: u32, rect: Rectangle, pixel: u32)
    requires
        old(frame)@.len() == width as int * height as int,
    ensures
        final(frame)@.len() == old(frame)@.len(),
        forall|p: int| 0 <= p < old(frame)@.len() ==> final(frame)@[p] == (if spec_covered(
            p,
            width as int,
            height as int,
            rect,
        ) {
            pixel
        } else {
            old(frame)@[p]
        }),
{
    let x_end = {
        let e = sat_add(rect.x, rect.width);
        if e < width {
            e
        } else {
            width
        }
    };
    let y_end = {
        let e = sat_add(rect.y, rect.height);
        if e < height {
            e
        } else {
            height
        }
    };
    let mut y = rect.y;
    while y < y_end
        invariant
            frame@.len() == width as int * height as int,
            y_end <= height,
            x_end <= width,
            x_end as int <= rect.x + rect.width,
            y_end as int <= rect.y + rect.height,
            sat_add_like(rect.x as int, rect.width as int, x_end as int, width as int),
            sat_add_like(rect.y as int, rect.height as int, y_end as int, height as int),
            rect.y <= y,
            y <= y_end || y == rect.y,
            forall|p: int| 0 <= p < frame@.len() ==> frame@[p] == (if spec_covered_before(
                p,
                width as int,
                height as int,
                rect,
                y as int,
                rect.x as int,
            ) {
                pixel
            } else {
                old(frame)@[p]
            }),
        decreases y_end - y,
    {
        let mut x = rect.x;
        while x < x_end
            invariant
                frame@.len() == width as int * height as int,
                rect.y <= y < y_end,
                y_end <= height,
                x_end <= width,
                x_end as int <= rect.x + rect.width,
                y_end as int <= rect.y + rect.height,
                sat_add_like(rect.x as int, rect.width as int, x_end as int, width as int),
                sat_add_like(rect.y as int, rect.height as int, y_end as int, height as int),
                rect.x <= x,
                x <= x_end || x == rect.x,
                forall|p: int| 0 <= p < frame@.len() ==> frame@[p] == (if spec_covered_before(
                    p,
                    width as int,
                    height as int,
                    rect,
                    y as int,
                    x as int,
                ) {
                    pixel
                } else {
                    old(frame)@[p]
                }),
            decreases x_end - x,
        {
            let flen = frame.len();
            proof {
                assert(y as int * width as int + x < width as int * height as int)
                    by (nonlinear_arith)
                    requires
                        (y as int) < (height as int),
                        0 <= y,
                        0 <= x,
                        (x as int) < (width as int),
                ;
                assert(y as int * width as int + x < flen as int);
            }
            let idx: usize = y as usize * width as usize + x as usize;
            let ghost prev = frame@;
            let el = vstd::std_specs::vec::vec_index_mut(frame, idx);
            *el = pixel;
            proof {
                vstd::arithmetic::div_mod::lemma_fundamental_div_mod_converse(
                    idx as int,
                    width as int,
                    y as int,
                    x as int,
                );
                assert forall|p: int| 0 <= p < frame@.len() implies frame@[p] == (if spec_covered_before(
                    p,
                    width as int,
                    height as int,
                    rect,
                    y as int,
                    x as int + 1,
                ) {
                    pixel
                } else {
                    old(frame)@[p]
                }) by {
                    if p == idx {
                        assert(spec_covered(p, width as int, height as int, rect));
                    } else {
                        assert(frame@[p] == prev[p]);
                        vstd::arithmetic::div_mod::lemma_fundamental_div_mod(p, width as int);
                        if p / width as int == y && p % width as int == x {
                            assert(width as int * (p / width as int) == (p / width as int)
                                * width as int) by (nonlinear_arith);
                            assert(p == idx);
                        }
                    }
                }
            }
            x = x + 1;
        }
        y = y + 1;
    }
}

/// Relates a clipped end coordinate to the unclipped extent: the end is the
/// smaller of `start + extent` and the frame dimension.
pub open spec fn sat_add_like(start: int, extent: int, end: int, dim: int) -> bool {
    end == if start + extent < dim {
        start + extent
    } else {
        dim
    }
}

/// The top byte of a packed ARGB pixel: its alpha.
pub open spec fn spec_alpha(p: int) -> int {
    p / 0x1000000
}

/// Integer alpha blending of a glyph pixel over a background pixel, channel
/// by channel: `(fg * a + bg * (255 - a)) / 255`, packed as `0x00RRGGBB`.
pub open spec fn spec_blend(bg: int, fg: int) -> int {
    let a = fg / 0x1000000;
    let fr = (fg / 0x10000) % 0x100;
    let fgr = (fg / 0x100) % 0x100;
    let fb = fg % 0x100;
    let br = (bg / 0x10000) % 0x100;
    let bgr = (bg / 0x100) % 0x100;
    let bb = bg % 0x100;
    let r = (fr * a + br * (255 - a)) / 255;
    let g = (fgr * a + bgr * (255 - a)) / 255;
    let b = (fb * a + bb * (255 - a)) / 255;
    r * 0x10000 + g * 0x100 + b
}

/// Blends a glyph pixel over a background pixel.
pub fn blend_pixel(bg: u32, fg: u32) -> (r: u32)
    ensures
        r == spec_blend(bg as int, fg as int),
{
    let a = fg / 0x1000000;
    let fr = (fg / 0x10000) % 0x100;
    let fgr = (fg / 0x100) % 0x100;
    let fb = fg % 0x100;
    let br = (bg / 0x10000) % 0x100;
    let bgr = (bg / 0x100) % 0x100;
    let bb = bg % 0x100;
    proof {
        assert(a <= 255 && fr <= 255 && fgr <= 255 && fb <= 255 && br <= 255 && bgr <= 255 && bb
            <= 255);
        assert(fr * a + br * (255 - a) <= 255 * 255) by (nonlinear_arith)
            requires
                0 <= fr <= 255,
                0 <= br <= 255,
                0 <= a <= 255,
        ;
        assert(fgr * a + bgr * (255 - a) <= 255 * 255) by (nonlinear_arith)
            requires
                0 <= fgr <= 255,
                0 <= bgr <= 255,
                0 <= a <= 255,
        ;
        assert(fb * a + bb * (255 - a) <= 255 * 255) by (nonlinear_arith)
            requires
                0 <= fb <= 255,
                0 <= bb <= 255,
                0 <= a <= 255,
        ;
    }
    let r = (fr * a + br * (255 - a)) / 255;
    let g = (fgr * a + bgr * (255 - a)) / 255;
    let b = (fb * a + bb * (255 - a)) / 255;
    r * 0x10000 + g * 0x100 + b
}

/// Converts an alpha mask (one byte per pixel) into packed ARGB pixels of
/// the given color: zero stays zero, anything else carries the mask byte as
/// alpha over the color's channels.
pub fn mask_to_pixels(data: &[u8], color: Color) -> (r: Vec<u32>)
    ensures
        r@.len() == data@.len(),
        forall|i: int| 0 <= i < data@.len() ==> r@[i] == (if data@[i] > 0 {
            data@[i] as int * 0x1000000 + spec_pack_rgb(color)
        } else {
            0
        }),
{
    let rgb = color.to_u32();
    let mut out: Vec<u32> = Vec::new();
    let mut i: usize = 0;
    while i < data.len()
        invariant
            0 <= i <= data@.len(),
            out@.len() == i,
            rgb == spec_pack_rgb(color),
            forall|k: int| 0 <= k < i ==> out@[k] == (if data@[k] > 0 {
                data@[k] as int * 0x1000000 + spec_pack_rgb(color)
            } else {
                0
            }),
        decreases data@.len() - i,
    {
        let alpha = data[i];
        if alpha > 0 {
            out.push(alpha as u32 * 0x1000000 + rgb);
        } else {
            out.push(0);
        }
        i = i + 1;
    }
    out
}

/// Converts an RGBA byte image (four bytes per pixel, alpha last) into
/// packed ARGB pixels.
pub fn rgba_to_pixels(data: &[u8]) -> (r: Vec<u32>)
    requires
        data@.len() % 4 == 0,
    ensures
        r@.len() == data@.len() / 4,
        forall|i: int| 0 <= i < r@.len() ==> r@[i] == data@[4 * i + 3] as int * 0x1000000
            + data@[4 * i + 2] as int * 0x10000 + data@[4 * i + 1] as int * 0x100
            + data@[4 * i] as int,
{
    let mut out: Vec<u32> = Vec::new();
    let mut i: usize = 0;
    let dlen: usize = data.len();
    let count = dlen / 4;
    while i < count
        invariant
            data@.len() % 4 == 0,
            dlen == data@.len(),
            count == data@.len() / 4,
            0 <= i <= count,
            out@.len() == i,
            forall|k: int| 0 <= k < i ==> out@[k] == data@[4 * k + 3] as int * 0x1000000
                + data@[4 * k + 2] as int * 0x10000 + data@[4 * k + 1] as int * 0x100
                + data@[4 * k] as int,
        decreases count - i,
    {
        proof {
            vstd::arithmetic::div_mod::lemma_fundamental_div_mod(data@.len() as int, 4);
            assert(4 * i as int + 3 < data@.len());
        }
        let p = data[4 * i + 3] as u32 * 0x1000000 + data[4 * i + 2] as u32 * 0x10000 + data[4 * i
            + 1] as u32 * 0x100 + data[4 * i] as u32;
        out.push(p);
        i = i + 1;
    }
    out
}

/// What one frame pixel holds after a glyph bitmap is composited at
/// `(left, top)`: pixels under a glyph cell with positive alpha are blended,
/// all others keep their value.
pub open spec fn spec_composited(
    frame: Seq<u32>,
    glyph: Seq<u32>,
    width: int,
    gw: int,
    gh: int,
    left: int,
    top: int,
    p: int,
) -> u32 {
    let x = p % width;
    let y = p / width;
    if left <= x < left + gw && top <= y < top + gh {
        let g = glyph[(y - top) * gw + (x - left)];
        if spec_alpha(g as int) > 0 {
            spec_blend(frame[p] as int, g as int) as u32
        } else {
            frame[p]
        }
    } else {
        frame[p]
    }
}

/// Whether the frame pixel `p` lies under a glyph cell strictly before the
/// sweep position `(gy, gx)` in row-major glyph order.
pub open spec fn spec_glyph_before(
    width: int,
    gw: int,
    gh: int,
    left: int,
    top: int,
    p: int,
    gy: int,
    gx: int,
) -> bool {
    let x = p % width;
    let y = p / width;
    &&& left <= x < left + gw
    &&& top <= y < top + gh
    &&& (y - top < gy || (y - top == gy && x - left < gx))
}

/// Composites a glyph bitmap over the frame at `(left, top)`, clipping to
/// the frame and blending only glyph pixels with positive alpha.
pub fn composite_glyph(
    frame: &mut Vec<u32>,
    width: u32,
    height: u32,
    glyph: &Vec<u32>,
    gw: u32,
    gh: u32,
    left: i64,
    top: i64,
)
    requires
        old(frame)@.len() == width as int * height as int,
        glyph@.len() == gw as int * gh as int,
        left + gw <= i64::MAX,
        top + gh <= i64::MAX,
    ensures
        final(frame)@.len() == old(frame)@.len(),
        forall|p: int| 0 <= p < old(frame)@.len() ==> final(frame)@[p] == spec_composited(
            old(frame)@,
            glyph@,
            width as int,
            gw as int,
            gh as int,
            left as int,
            top as int,
            p,
        ),
{
    let mut gy: u32 = 0;
    while gy < gh
        invariant
            frame@.len() == width as int * height as int,
            glyph@.len() == gw as int * gh as int,
            left + gw <= i64::MAX,
            top + gh <= i64::MAX,
            0 <= gy <= gh,
            forall|p: int| 0 <= p < frame@.len() ==> frame@[p] == (if spec_glyph_before(
                width as int,
                gw as int,
                gh as int,
                left as int,
                top as int,
                p,
                gy as int,
                0,
            ) {
                spec_composited(old(frame)@, glyph@, width as int, gw as int, gh as int,
                    left as int, top as int, p)
            } else {
                old(frame)@[p]
            }),
        decreases gh - gy,
    {
        let py: i64 = top + gy as i64;
        if 0 <= py && py < height as i64 {
            let mut gx: u32 = 0;
            while gx < gw
                invariant
                    frame@.len() == width as int * height as int,
                    glyph@.len() == gw as int * gh as int,
                    left + gw <= i64::MAX,
                    top + gh <= i64::MAX,
                    0 <= gy < gh,
                    py == top + gy,
                    0 <= py < height,
                    0 <= gx <= gw,
                    forall|p: int| 0 <= p < frame@.len() ==> frame@[p] == (if spec_glyph_before(
                        width as int,
                        gw as int,
                        gh as int,
                        left as int,
                        top as int,
                        p,
                        gy as int,
                        gx as int,
                    ) {
                        spec_composited(old(frame)@, glyph@, width as int, gw as int, gh as int,
                            left as int, top as int, p)
                    } else {
                        old(frame)@[p]
                    }),
                decreases gw - gx,
            {
                let px: i64 = left + gx as i64;
                let ghost pre = frame@;
                if 0 <= px && px < width as i64 {
                    let glen = glyph.len();
                    proof {
                        assert(gy as int * gw as int + gx < gw as int * gh as int)
                            by (nonlinear_arith)
                            requires
                                0 <= gy,
                                0 <= gx,
                                (gy as int) < (gh as int),
                                (gx as int) < (gw as int),
                        ;
                        assert(gy as int * gw as int + gx < glen as int);
                    }
                    let gidx: usize = gy as usize * gw as usize + gx as usize;
                    let g = glyph[gidx];
                    if g / 0x1000000 > 0 {
                        let flen = frame.len();
                        proof {
                            assert(py as int * width as int + px < width as int * height as int)
                                by (nonlinear_arith)
                                requires
                                    0 <= py,
                                    0 <= px,
                                    (py as int) < (height as int),
                                    (px as int) < (width as int),
                            ;
                            assert(py as int * width as int + px < flen as int);
                        }
                        let idx: usize = py as usize * width as usize + px as usize;
                        let blended = blend_pixel(frame[idx], g);
                        let el = vstd::std_specs::vec::vec_index_mut(frame, idx);
                        *el = blended;
                        proof {
                            vstd::arithmetic::div_mod::lemma_fundamental_div_mod_converse(
                                idx as int,
                                width as int,
                                py as int,
                                px as int,
                            );
                            assert(pre[idx as int] == old(frame)@[idx as int]);
                        }
                    }
                }
                proof {
                    assert forall|p: int| 0 <= p < frame@.len() implies frame@[p] == (if
                        spec_glyph_before(
                        width as int,
                        gw as int,
                        gh as int,
                        left as int,
                        top as int,
                        p,
                        gy as int,
                        gx as int + 1,
                    ) {
                        spec_composited(old(frame)@, glyph@, width as int, gw as int, gh as int,
                            left as int, top as int, p)
                    } else {
                        old(frame)@[p]
                    }) by {
                        assert(width as int > 0) by (nonlinear_arith)
                            requires
                                0 <= p,
                                p < width as int * height as int,
                        ;
                        vstd::arithmetic::div_mod::lemma_fundamental_div_mod(p, width as int);
                        if p % width as int == px && p / width as int == py {
                            assert(width as int * (p / width as int) == (p / width as int)
                                * width as int) by (nonlinear_arith);
                            assert(p == py as int * width as int + px);
                        } else {
                            assert(frame@[p] == pre[p]);
                        }
                    }
                }
                gx = gx + 1;
            }
        } else {
            // The whole glyph row lies outside the frame: nothing to draw,
            // and no frame pixel maps to it.
            proof {
                assert forall|p: int| 0 <= p < frame@.len() implies frame@[p] == (if
                    spec_glyph_before(
                    width as int,
                    gw as int,
                    gh as int,
                    left as int,
                    top as int,
                    p,
                    gy as int + 1,
                    0,
                ) {
                    spec_composited(old(frame)@, glyph@, width as int, gw as int, gh as int,
                        left as int, top as int, p)
                } else {
                    old(frame)@[p]
                }) by {
                    assert(width as int > 0) by (nonlinear_arith)
                        requires
                            0 <= p,
                            p < width as int * height as int,
                    ;
                    vstd::arithmetic::div_mod::lemma_fundamental_div_mod(p, width as int);
                    assert((p / width as int) < (height as int)) by (nonlinear_arith)
                        requires
                            0 <= p,
                            p < width as int * height as int,
                            width as int > 0,
                            p == width as int * (p / width as int) + p % width as int,
                            0 <= p % width as int,
                            (p % width as int) < (width as int),
                    ;
                }
            }
        }
        gy = gy + 1;
    }
    proof {
        assert forall|p: int| 0 <= p < frame@.len() implies frame@[p] == spec_composited(
            old(frame)@,
            glyph@,
            width as int,
            gw as int,
            gh as int,
            left as int,
            top as int,
            p,
        ) by {
            if !spec_glyph_before(width as int, gw as int, gh as int, left as int, top as int, p,
                gh as int, 0) {
                assert(frame@[p] == old(frame)@[p]);
            }
        }
    }
}

/// A rasterized glyph bitmap: packed ARGB pixels, row-major, with its
/// placement relative to the pen position.
#[derive(Debug)]
pub struct Glyph {
    pub pixels: Vec<u32>,
    pub width: u32,
    pub height: u32,
    pub left: i32,
    pub top: i32,
}

/// Every how many sweeps `trim` actually clears unused entries.
pub const TRIM_INTERVAL: u64 = 300;

/// The number of cached glyphs a sweep reduces the cache to at most.
pub const CAPACITY_LIMIT: usize = 16384;

/// A glyph-bitmap cache with a generational sweep: every `TRIM_INTERVAL`th
/// trim, entries not marked used since the last sweep are evicted, and the
/// cache is cut to `CAPACITY_LIMIT` entries, dropping arbitrary further
/// entries. An approximate recency scheme: callers must not rely on strict
/// ordering.
pub struct GlyphCache {
    entries: HashMap<u128, Glyph>,
    marked: HashMap<u128, bool>,
    marked_order: Vec<u128>,
    trim_count: u64,
}

impl GlyphCache {
    /// The cached glyphs by key.
    pub closed spec fn entries_map(&self) -> Map<u128, Glyph> {
        self.entries@
    }

    /// The keys marked used since the last sweep.
    pub closed spec fn marked_set(&self) -> Set<u128> {
        self.marked@.dom()
    }

    /// How many trims have happened since the last sweep.
    pub closed spec fn count(&self) -> u64 {
        self.trim_count
    }

    /// The cache's internal consistency: the mark list and the mark set hold
    /// the same keys, and the trim counter stays below the sweep interval.
    pub closed spec fn wf(&self) -> bool {
        &&& (forall|i: int| 0 <= i < self.marked_order@.len() ==> self.marked@.dom().contains(
            #[trigger] self.marked_order@[i],
        ))
        &&& (forall|k: u128| self.marked@.dom().contains(k) ==> self.marked_order@.contains(k))
        &&& self.trim_count < TRIM_INTERVAL
    }

    /// An empty cache.
    pub fn new() -> (c: GlyphCache)
        ensures
            c.wf(),
            c.entries_map() == Map::<u128, Glyph>::empty(),
            c.marked_set() == Set::<u128>::empty(),
            c.count() == 0,
    {
        let c = GlyphCache {
            entries: HashMap::new(),
            marked: HashMap::new(),
            marked_order: Vec::new(),
            trim_count: 0,
        };
        proof {
            assert(c.marked_set() =~= Set::<u128>::empty());
        }
        c
    }

    /// Marks a key as used since the last sweep.
    pub fn mark(&mut self, key: u128)
        requires
            old(self).wf(),
        ensures
            final(self).wf(),
            final(self).entries_map() == old(self).entries_map(),
            final(self).marked_set() == old(self).marked_set().insert(key),
            final(self).count() == old(self).count(),
    {
        if !self.marked.contains_key(&key) {
            self.marked.insert(key, true);
            self.marked_order.push(key);
            proof {
                let prior = old(self).marked_order@;
                assert(self.marked_order@ == prior.push(key));
                assert forall|i: int| 0 <= i < self.marked_order@.len() implies
                    self.marked@.dom().contains(#[trigger] self.marked_order@[i]) by {
                    if i < prior.len() {
                        assert(self.marked_order@[i] == prior[i]);
                    } else {
                        assert(self.marked_order@[i] == key);
                    }
                }
                assert forall|k: u128| self.marked@.dom().contains(k) implies
                    self.marked_order@.contains(k) by {
                    if k == key {
                        assert(self.marked_order@[prior.len() as int] == key);
                    } else {
                        assert(old(self).wf());
                        assert(old(self).marked@.dom().contains(k));
                        assert(prior.contains(k));
                        let i = choose|i: int| 0 <= i < prior.len() && prior[i] == k;
                        assert(self.marked_order@[i] == prior[i]);
                        assert(self.marked_order@.contains(k));
                    }
                }
                assert(self.marked_set() =~= old(self).marked_set().insert(key));
            }
        } else {
            proof {
                assert(self.marked_set() =~= old(self).marked_set().insert(key));
            }
        }
    }

    /// The cached glyph for a key, if any.
    pub fn lookup(&self, key: u128) -> (r: Option<&Glyph>)
        ensures
            match r {
                Some(g) => self.entries_map().contains_key(key) && *g == self.entries_map()[key],
                None => !self.entries_map().contains_key(key),
            },
    {
        self.entries.get(&key)
    }

    /// Caches a glyph and marks its key used.
    pub fn insert(&mut self, key: u128, glyph: Glyph)
        requires
            old(self).wf(),
        ensures
            final(self).wf(),
            final(self).entries_map() == old(self).entries_map().insert(key, glyph),
            final(self).marked_set() == old(self).marked_set().insert(key),
            final(self).count() == old(self).count(),
    {
        self.mark(key);
        self.entries.insert(key, glyph);
    }

    /// Counts one draw pass; every `TRIM_INTERVAL`th call sweeps: only
    /// entries marked used since the last sweep survive, at most
    /// `CAPACITY_LIMIT` of them, and the marks reset.
    pub fn trim(&mut self)
        requires
            old(self).wf(),
        ensures
            final(self).wf(),
            final(self).count() == if old(self).count() + 1 == TRIM_INTERVAL {
                0u64
            } else {
                (old(self).count() + 1) as u64
            },
            old(self).count() + 1 < TRIM_INTERVAL ==> final(self).entries_map() == old(self).entries_map() && final(self).marked_set() == old(self).marked_set(),
            old(self).count() + 1 == TRIM_INTERVAL ==> {
                &&& final(self).marked_set() == Set::<u128>::empty()
                &&& final(self).entries_map().dom().len() <= CAPACITY_LIMIT
                &&& forall|k: u128| final(self).entries_map().contains_key(k) ==> old(self).entries_map().contains_key(k) && old(self).marked_set().contains(k) && final(self).entries_map()[k] == old(self).entries_map()[k]
                &&& old(self).marked_set().intersect(old(self).entries_map().dom()).len()
                    <= CAPACITY_LIMIT ==> forall|k: u128| old(self).marked_set().contains(k)
                    && old(self).entries_map().contains_key(k) ==> #[trigger] final(self).entries_map().contains_key(k)
            },
    {
        let c = self.trim_count + 1;
        if c < TRIM_INTERVAL {
            self.trim_count = c;
            return ;
        }
        let mut kept: HashMap<u128, Glyph> = HashMap::new();
        let mut i: usize = 0;
        let ghost entries0 = self.entries@;
        let ghost marked0 = self.marked@.dom();
        let ghost order0 = self.marked_order@;
        // The cached entries marked used since the last sweep: these survive
        // whenever they all fit under the capacity bound.
        let ghost live = marked0.intersect(entries0.dom());
        proof {
            assert(entries0.dom().finite());
            assert(marked0.finite());
            assert(live.finite());
        }
        while i < self.marked_order.len()
            invariant
                self.marked_order@ == order0,
                self.marked@.dom() == marked0,
                live == marked0.intersect(entries0.dom()),
                live.finite(),
                forall|j: int| 0 <= j < order0.len() ==> marked0.contains(#[trigger] order0[j]),
                0 <= i <= order0.len(),
                kept@.dom().len() <= CAPACITY_LIMIT,
                forall|k: u128| #[trigger] kept@.contains_key(k) ==> entries0.contains_key(k)
                    && marked0.contains(k) && kept@[k] == entries0[k],
                forall|k: u128| #[trigger] self.entries@.contains_key(k) ==> entries0.contains_key(
                    k,
                ) && self.entries@[k] == entries0[k],
                forall|k: u128| #[trigger] entries0.contains_key(k) && !kept@.contains_key(k)
                    ==> self.entries@.contains_key(k),
                live.len() <= CAPACITY_LIMIT ==> forall|k: u128| live.contains(k)
                    && order0.take(i as int).contains(k) ==> #[trigger] kept@.contains_key(k),
            decreases order0.len() - i,
        {
            let k = self.marked_order[i];
            let ghost kept_at_entry = kept@;
            let ghost pre = kept@;
            let ghost before_entries = self.entries@;
            let klen = kept.len();
            if klen < CAPACITY_LIMIT {
                if let Some(g) = self.entries.remove(&k) {
                    proof {
                        assert(self.entries@ == before_entries.remove(k));
                        assert(before_entries.contains_key(k) && g == before_entries[k]);
                        assert(entries0.contains_key(k));
                        assert(marked0.contains(k));
                        assert(g == entries0[k]);
                    }
                    kept.insert(k, g);
                    proof {
                        assert(kept@ == pre.insert(k, g));
                        vstd::set::axiom_set_insert_len(pre.dom(), k);
                        assert forall|k2: u128| kept@.contains_key(k2) implies entries0.contains_key(
                            k2,
                        ) && marked0.contains(k2) && kept@[k2] == entries0[k2] by {
                            if k2 != k {
                                assert(pre.contains_key(k2));
                                assert(kept@[k2] == pre[k2]);
                            }
                        }
                        assert forall|k2: u128| self.entries@.contains_key(k2) implies
                            entries0.contains_key(k2) && self.entries@[k2] == entries0[k2] by {
                            assert(before_entries.contains_key(k2));
                            assert(self.entries@[k2] == before_entries[k2]);
                        }
                    }
                }
            } else {
                proof {
                    // The cache is full, but everything full of is live: when
                    // the live entries fit the capacity at all, the kept map
                    // already holds every one of them.
                    if live.len() <= CAPACITY_LIMIT {
                        assert(kept@.dom().subset_of(live)) by {
                            assert forall|x: u128| kept@.dom().contains(x) implies live.contains(
                                x,
                            ) by {
                                assert(kept@.contains_key(x));
                            }
                        }
                        assert(kept@.dom().len() == CAPACITY_LIMIT);
                        lemma_full_subset(kept@.dom(), live);
                    }
                }
            }
            proof {
                assert(order0.take(i as int + 1).drop_last() =~= order0.take(i as int));
                assert(order0.take(i as int + 1).last() == order0[i as int]);
                if live.len() <= CAPACITY_LIMIT {
                    assert forall|k2: u128| live.contains(k2) && order0.take(i as int + 1).contains(
                        k2,
                    ) implies #[trigger] kept@.contains_key(k2) by {
                        if order0.take(i as int).contains(k2) {
                            assert(kept_at_entry.contains_key(k2));
                            if klen < CAPACITY_LIMIT {
                                assert(kept@.contains_key(k2));
                            }
                        } else {
                            let j = choose|j: int| 0 <= j < order0.take(i as int + 1).len()
                                && #[trigger] order0.take(i as int + 1)[j] == k2;
                            assert(k2 == order0[i as int]);
                            assert(k2 == k);
                            if klen < CAPACITY_LIMIT {
                                // Either the entry was just moved into the
                                // kept map, or it had already been: had it
                                // still been cached, the removal would have
                                // found it.
                                assert(entries0.contains_key(k));
                                if !kept@.contains_key(k) {
                                    assert(kept_at_entry == kept@);
                                    assert(before_entries.contains_key(k));
                                    assert(false);
                                }
                            }
                        }
                    }
                }
            }
            i = i + 1;
        }
        proof {
            assert(order0.take(order0.len() as int) =~= order0);
        }
        self.entries = kept;
        self.marked = HashMap::new();
        self.marked_order = Vec::new();
        self.trim_count = 0;
        proof {
            assert(self.marked_set() =~= Set::<u128>::empty());
            if live.len() <= CAPACITY_LIMIT {
                assert forall|k: u128| marked0.contains(k) && entries0.contains_key(k) implies
                    #[trigger] self.entries@.contains_key(k) by {
                    assert(live.contains(k));
                    assert(order0.contains(k));
                }
            }
        }
    }
}

/// A subset of a finite set that has at least the set's cardinality contains
/// every element of the set.
proof fn lemma_full_subset(sub: Set<u128>, sup: Set<u128>)
    requires
        sub.subset_of(sup),
        sup.finite(),
        sub.len() >= sup.len(),
    ensures
        forall|x: u128| sup.contains(x) ==> sub.contains(x),
{
    assert forall|x: u128| sup.contains(x) implies sub.contains(x) by {
        if !sub.contains(x) {
            assert(sub.subset_of(sup.remove(x)));
            vstd::set::axiom_set_remove_len(sup, x);
            vstd::set::axiom_set_remove_finite(sup, x);
            vstd::set_lib::lemma_len_subset(sub, sup.remove(x));
        }
    }
}

} // verus!
