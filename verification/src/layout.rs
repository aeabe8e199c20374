//! The layout engine: it turns a view tree plus box constraints into a
//! positioned node tree.
//!
//! The algorithm is a single-pass, non-flexible box model: every child of a
//! stack is laid out against the same limits, then the stack resolves its own
//! size by clamping the content size into the limits and distributes any
//! leftover main-axis room according to the justify policy. All dimension
//! arithmetic saturates at `u32::MAX`; divisions used by the justify and
//! alignment policies truncate.

use vstd::prelude::*;
use crate::geometry::{
    clamp, clamp_spec, sat_add, sat_add_spec, sat_mul, sat_mul_spec, sat_sub_spec, Limits,
    Rectangle, Size,
};
use crate::view::{Alignment, Justify, ViewTree};

verus! {

/// The default font size in logical pixels, used when a text sets none.
pub const DEFAULT_FONT_SIZE: u32 = 16;

/// The result of layout: a rectangle relative to the parent, child nodes in
/// 1:1 positional correspondence with the view's children, and an optional
/// identifier used for hit testing.
#[derive(Debug)]
pub struct Node {
    pub bounds: Rectangle,
    pub children: Vec<Node>,
    pub view_id: Option<u64>,
}

/// The mathematical shape of a `Node`: the same tree with ghost sequences
/// for the child lists.
#[verifier::ext_equal]
pub struct NodeModel {
    pub bounds: Rectangle,
    pub children: Seq<NodeModel>,
    pub view_id: Option<u64>,
}

/// The models of a sequence of nodes, in order.
pub open spec fn models_of(nodes: Seq<Node>) -> Seq<NodeModel>
    decreases nodes,
{
    if nodes.len() == 0 {
        Seq::empty()
    } else {
        models_of(nodes.drop_last()).push(nodes.last().model())
    }
}

/// `models_of` maps `model` over the sequence, element by element.
pub proof fn lemma_models_of(nodes: Seq<Node>)
    ensures
        models_of(nodes).len() == nodes.len(),
        forall|i: int| 0 <= i < nodes.len() ==> models_of(nodes)[i] == #[trigger] nodes[i].model(),
    decreases nodes.len(),
{
    if nodes.len() > 0 {
        lemma_models_of(nodes.drop_last());
        assert forall|i: int| 0 <= i < nodes.len() implies models_of(nodes)[i]
            == #[trigger] nodes[i].model() by {
            if i < nodes.len() - 1 {
                assert(nodes.drop_last()[i] == nodes[i]);
            }
        }
    }
}

impl Node {
    /// The mathematical shape of this node.
    pub open spec fn model(self) -> NodeModel
        decreases self,
    {
        NodeModel {
            bounds: self.bounds,
            children: models_of(self.children@),
            view_id: self.view_id,
        }
    }

    pub fn new(bounds: Rectangle) -> (n: Node)
        ensures
            n.model() == (NodeModel { bounds, children: Seq::empty(), view_id: None }),
    {
        let n = Node { bounds, children: Vec::new(), view_id: None };
        proof {
            assert(n.model().children =~= Seq::<NodeModel>::empty());
            assert(n.model() =~= (NodeModel { bounds, children: Seq::empty(), view_id: None }));
        }
        n
    }

    pub fn new_with_id(bounds: Rectangle, view_id: u64) -> (n: Node)
        ensures
            n.model() == (NodeModel { bounds, children: Seq::empty(), view_id: Some(view_id) }),
    {
        let n = Node { bounds, children: Vec::new(), view_id: Some(view_id) };
        proof {
            assert(n.model() =~= (NodeModel {
                bounds,
                children: Seq::empty(),
                view_id: Some(view_id),
            }));
        }
        n
    }

    pub fn with_children(bounds: Rectangle, children: Vec<Node>) -> (n: Node)
        ensures
            n.model() == (NodeModel { bounds, children: models_of(children@), view_id: None }),
    {
        Node { bounds, children, view_id: None }
    }

    pub fn with_children_and_id(bounds: Rectangle, children: Vec<Node>, view_id: u64) -> (n: Node)
        ensures
            n.model() == (NodeModel {
                bounds,
                children: models_of(children@),
                view_id: Some(view_id),
            }),
    {
        Node { bounds, children, view_id: Some(view_id) }
    }

    pub fn size(&self) -> (s: Size)
        ensures
            s.width == self.bounds.width,
            s.height == self.bounds.height,
    {
        Size { width: self.bounds.width, height: self.bounds.height }
    }
}

/// Measures the intrinsic size of a string at a font size. The embedding
/// host supplies the real implementation; the library only relies on the
/// declared relation between `measure` and `spec_measure`.
pub trait TextMeasurer {
    /// The size this measurer reports for a string at a font size.
    spec fn spec_measure(&self, text: Seq<char>, font_size: u32) -> Size;

    /// Returns the intrinsic size of `text` at `font_size`.
    fn measure(&self, text: &str, font_size: u32) -> (s: Size)
        ensures
            s == self.spec_measure(text@, font_size),
    ;
}

/// A measurer used before a font is loaded: a fixed-width box per character,
/// at least one pixel wide, twenty pixels tall.
#[derive(Debug, Default)]
pub struct PlaceholderMeasurer;

impl TextMeasurer for PlaceholderMeasurer {
    open spec fn spec_measure(&self, text: Seq<char>, font_size: u32) -> Size {
        let w = sat_mul_spec(8, text.len() as int);
        Size { width: if w < 1 { 1u32 } else { w as u32 }, height: 20 }
    }

    fn measure(&self, text: &str, font_size: u32) -> (s: Size)
        ensures
            s == self.spec_measure(text@, font_size),
    {
        let n = text.unicode_len();
        let w = sat_mul(8, n);
        Size { width: if w < 1 { 1 } else { w }, height: 20 }
    }
}

/// A measurer that reports the same size for every string; convenient for
/// tests and hosts that pre-measure.
#[derive(Debug)]
pub struct FixedMeasurer {
    pub size: Size,
}

impl TextMeasurer for FixedMeasurer {
    open spec fn spec_measure(&self, text: Seq<char>, font_size: u32) -> Size {
        self.size
    }

    fn measure(&self, text: &str, font_size: u32) -> (s: Size)
        ensures
            s == self.spec_measure(text@, font_size),
    {
        Size { width: self.size.width, height: self.size.height }
    }
}

/// What a table lookup of a measured string yields: the size recorded for
/// the first entry with the same string and font size, or the fallback.
pub open spec fn spec_table_lookup(
    entries: Seq<(String, u32, Size)>,
    text: Seq<char>,
    font_size: u32,
    fallback: Size,
) -> Size
    decreases entries.len(),
{
    if entries.len() == 0 {
        fallback
    } else if entries[0].0@ == text && entries[0].1 == font_size {
        entries[0].2
    } else {
        spec_table_lookup(entries.subrange(1, entries.len() as int), text, font_size, fallback)
    }
}

/// A measurer backed by a table of pre-measured strings. The host measures
/// every string a view tree asks about (see `text_requests`) and hands the
/// results over; strings the table misses fall back to a fixed size.
#[derive(Debug)]
pub struct TableMeasurer {
    pub entries: Vec<(String, u32, Size)>,
    pub fallback: Size,
}

impl TextMeasurer for TableMeasurer {
    open spec fn spec_measure(&self, text: Seq<char>, font_size: u32) -> Size {
        spec_table_lookup(self.entries@, text, font_size, self.fallback)
    }

    fn measure(&self, text: &str, font_size: u32) -> (s: Size)
        ensures
            s == self.spec_measure(text@, font_size),
    {
        let wanted = text.to_owned();
        let n = self.entries.len();
        proof {
            assert(self.entries@.subrange(0, n as int) =~= self.entries@);
        }
        let mut i: usize = 0;
        while i < n
            invariant
                n == self.entries@.len(),
                0 <= i <= n,
                wanted@ == text@,
                spec_table_lookup(self.entries@, text@, font_size, self.fallback)
                    == spec_table_lookup(
                    self.entries@.subrange(i as int, n as int),
                    text@,
                    font_size,
                    self.fallback,
                ),
            decreases n - i,
        {
            let ghost suffix = self.entries@.subrange(i as int, n as int);
            let entry = &self.entries[i];
            proof {
                assert(suffix[0] == self.entries@[i as int]);
                assert(suffix.subrange(1, suffix.len() as int) =~= self.entries@.subrange(
                    i as int + 1,
                    n as int,
                ));
            }
            if entry.1 == font_size && entry.0 == wanted {
                return Size { width: entry.2.width, height: entry.2.height };
            }
            i = i + 1;
        }
        proof {
            assert(self.entries@.subrange(n as int, n as int) =~= Seq::<(String, u32,
                Size)>::empty());
        }
        Size { width: self.fallback.width, height: self.fallback.height }
    }
}

/// The measurement requests a view tree makes during layout: the string and
/// font size of every text and button label, in tree order.
pub open spec fn spec_text_requests(v: ViewTree) -> Seq<(Seq<char>, u32)>
    decreases v, 1int,
{
    match v {
        ViewTree::Text(t) => seq![(t.string@, spec_font_size(t.size))],
        ViewTree::Button(b) => seq![(b.label@, spec_font_size(b.text_size))],
        ViewTree::VStack(s) => spec_text_requests_of(s.children@),
        ViewTree::HStack(s) => spec_text_requests_of(s.children@),
    }
}

/// The concatenated measurement requests of a list of views.
pub open spec fn spec_text_requests_of(ws: Seq<ViewTree>) -> Seq<(Seq<char>, u32)>
    decreases ws, 0int,
{
    if ws.len() == 0 {
        Seq::empty()
    } else {
        spec_text_requests(ws[0]) + spec_text_requests_of(ws.subrange(1, ws.len() as int))
    }
}

/// The view of a request list: each string as a character sequence.
pub open spec fn requests_view(rs: Seq<(String, u32)>) -> Seq<(Seq<char>, u32)>
    decreases rs,
{
    if rs.len() == 0 {
        Seq::empty()
    } else {
        requests_view(rs.drop_last()).push((rs.last().0@, rs.last().1))
    }
}

/// Lists every string a view tree will ask a measurer about, with its font
/// size, in tree order; the host measures these and builds a
/// `TableMeasurer` from the results.
pub fn text_requests(view: &ViewTree) -> (r: Vec<(String, u32)>)
    ensures
        requests_view(r@) == spec_text_requests(*view),
{
    let mut out: Vec<(String, u32)> = Vec::new();
    collect_requests(view, &mut out);
    proof {
        assert(requests_view(Seq::<(String, u32)>::empty()) + spec_text_requests(*view)
            =~= spec_text_requests(*view));
    }
    out
}

proof fn lemma_requests_push(rs: Seq<(String, u32)>, r: (String, u32))
    ensures
        requests_view(rs.push(r)) == requests_view(rs).push((r.0@, r.1)),
{
    assert(rs.push(r).drop_last() =~= rs);
    assert(rs.push(r).last() == r);
}

/// Appends one view's measurement requests to `out`.
fn collect_requests(view: &ViewTree, out: &mut Vec<(String, u32)>)
    ensures
        requests_view(final(out)@) == requests_view(old(out)@) + spec_text_requests(*view),
    decreases view, 1int,
{
    let ghost entry = out@;
    match view {
        ViewTree::Text(t) => {
            let font_size = match t.size {
                Some(s) => s,
                None => DEFAULT_FONT_SIZE,
            };
            let r = (t.string.clone(), font_size);
            proof {
                lemma_requests_push(entry, r);
            }
            out.push(r);
            proof {
                assert(requests_view(out@) =~= requests_view(entry) + spec_text_requests(*view));
            }
        },
        ViewTree::Button(b) => {
            let font_size = match b.text_size {
                Some(s) => s,
                None => DEFAULT_FONT_SIZE,
            };
            let r = (b.label.clone(), font_size);
            proof {
                lemma_requests_push(entry, r);
            }
            out.push(r);
            proof {
                assert(requests_view(out@) =~= requests_view(entry) + spec_text_requests(*view));
            }
        },
        ViewTree::VStack(s) => {
            collect_requests_of(s.children.as_slice(), out);
            proof {
                assert(requests_view(out@) =~= requests_view(entry) + spec_text_requests(*view));
            }
        },
        ViewTree::HStack(s) => {
            collect_requests_of(s.children.as_slice(), out);
            proof {
                assert(requests_view(out@) =~= requests_view(entry) + spec_text_requests(*view));
            }
        },
    }
}

/// Appends the measurement requests of a list of views to `out`.
fn collect_requests_of(ws: &[ViewTree], out: &mut Vec<(String, u32)>)
    ensures
        requests_view(final(out)@) == requests_view(old(out)@) + spec_text_requests_of(ws@),
    decreases ws@, 0int,
{
    if ws.len() == 0 {
        proof {
            assert(requests_view(out@) + Seq::<(Seq<char>, u32)>::empty() =~= requests_view(out@));
        }
        return ;
    }
    collect_requests(&ws[0], out);
    collect_requests_of(&ws[1..ws.len()], out);
    proof {
        assert(requests_view(out@) =~= requests_view(old(out)@) + spec_text_requests_of(ws@));
    }
}

/// A dimension capped at `u32::MAX`.
pub open spec fn cap(v: int) -> int {
    if v > u32::MAX {
        u32::MAX as int
    } else {
        v
    }
}

/// Capping is compatible with addition of non-negative values: capping an
/// intermediate sum does not change the capped total.
pub proof fn lemma_cap_add(a: int, b: int)
    requires
        a >= 0,
        b >= 0,
    ensures
        cap(cap(a) + b) == cap(a + b),
        cap(a + cap(b)) == cap(a + b),
        cap(cap(a) + cap(b)) == cap(a + b),
{
}

/// The main-axis extent of a laid-out node.
pub open spec fn node_main(n: NodeModel, vertical: bool) -> int {
    if vertical {
        n.bounds.height as int
    } else {
        n.bounds.width as int
    }
}

/// The cross-axis extent of a laid-out node.
pub open spec fn node_cross(n: NodeModel, vertical: bool) -> int {
    if vertical {
        n.bounds.width as int
    } else {
        n.bounds.height as int
    }
}

/// The exact sum of the children's main-axis extents.
pub open spec fn sum_main(nodes: Seq<NodeModel>, vertical: bool) -> int
    decreases nodes,
{
    if nodes.len() == 0 {
        0
    } else {
        sum_main(nodes.drop_last(), vertical) + node_main(nodes.last(), vertical)
    }
}

/// The maximum of the children's cross-axis extents (zero when empty).
pub open spec fn max_cross(nodes: Seq<NodeModel>, vertical: bool) -> int
    decreases nodes,
{
    if nodes.len() == 0 {
        0
    } else {
        let rest = max_cross(nodes.drop_last(), vertical);
        let last = node_cross(nodes.last(), vertical);
        if last > rest {
            last
        } else {
            rest
        }
    }
}

pub proof fn lemma_sum_main_step(nodes: Seq<NodeModel>, i: int, vertical: bool)
    requires
        0 <= i < nodes.len(),
    ensures
        sum_main(nodes.take(i + 1), vertical) == sum_main(nodes.take(i), vertical) + node_main(
            nodes[i],
            vertical,
        ),
        max_cross(nodes.take(i + 1), vertical) == if node_cross(nodes[i], vertical) > max_cross(
            nodes.take(i),
            vertical,
        ) {
            node_cross(nodes[i], vertical)
        } else {
            max_cross(nodes.take(i), vertical)
        },
{
    assert(nodes.take(i + 1).drop_last() =~= nodes.take(i));
    assert(nodes.take(i + 1).last() == nodes[i]);
}

pub proof fn lemma_sum_main_nonneg(nodes: Seq<NodeModel>, vertical: bool)
    ensures
        sum_main(nodes, vertical) >= 0,
        max_cross(nodes, vertical) >= 0,
    decreases nodes.len(),
{
    if nodes.len() > 0 {
        lemma_sum_main_nonneg(nodes.drop_last(), vertical);
    }
}

/// What the justify policy contributes: the offset of the first child along
/// the main axis, and the extra gap added between adjacent children, given
/// the leftover space and the child count. Divisions truncate; when there is
/// no leftover, every policy degenerates to `Start`.
pub open spec fn justify_offsets(justify: Justify, extra: int, n: int) -> (int, int) {
    match justify {
        Justify::Start => (0, 0),
        Justify::End => (if extra > 0 { extra } else { 0 }, 0),
        Justify::Center => ((if extra > 0 { extra } else { 0 }) / 2, 0),
        Justify::SpaceBetween => if n > 1 && extra > 0 {
            (0, extra / (n - 1))
        } else {
            (0, 0)
        },
        Justify::SpaceAround => if extra > 0 {
            ((extra / n) / 2, extra / n)
        } else {
            (0, 0)
        },
        Justify::SpaceEvenly => if extra > 0 {
            (extra / (n + 1), extra / (n + 1))
        } else {
            (0, 0)
        },
    }
}

/// The cross-axis offset of a child: the leftover cross space times the
/// alignment factor (start = 0, center = 1/2, end = 1), truncating.
pub open spec fn align_offset_spec(alignment: Alignment, leftover: int) -> int {
    match alignment {
        Alignment::Start | Alignment::Default => 0,
        Alignment::Center => leftover / 2,
        Alignment::End => leftover,
    }
}

/// A zero-size node with no children.
pub open spec fn zero_node() -> NodeModel {
    NodeModel {
        bounds: Rectangle { x: 0, y: 0, width: 0, height: 0 },
        children: Seq::empty(),
        view_id: None,
    }
}

/// Child `i` of a stack, placed: the main-axis position is the start offset
/// plus the preceding children's extents plus `i` gaps of
/// `spacing + extra_gap`; the cross-axis position comes from the alignment.
pub open spec fn placed_child(
    nodes: Seq<NodeModel>,
    i: int,
    start: int,
    spacing: int,
    gap: int,
    cross_size: int,
    alignment: Alignment,
    vertical: bool,
) -> NodeModel {
    let child = nodes[i];
    let main_pos = cap(start + sum_main(nodes.take(i), vertical) + i * (spacing + gap));
    let c = node_cross(child, vertical);
    let leftover = if cross_size >= c {
        cross_size - c
    } else {
        0
    };
    let cross_pos = align_offset_spec(alignment, leftover);
    NodeModel {
        bounds: Rectangle {
            x: if vertical {
                cross_pos as u32
            } else {
                main_pos as u32
            },
            y: if vertical {
                main_pos as u32
            } else {
                cross_pos as u32
            },
            width: child.bounds.width,
            height: child.bounds.height,
        },
        children: child.children,
        view_id: child.view_id,
    }
}

/// The layout of a stack whose children have already been laid out to
/// `nodes`: the container clamps its content size into the limits and places
/// each child per the spacing, alignment, and justify policy. An empty stack
/// is a zero-size node whatever the policies say.
pub open spec fn spec_stack_nodes(
    nodes: Seq<NodeModel>,
    spacing: int,
    alignment: Alignment,
    justify: Justify,
    vertical: bool,
    limits: Limits,
) -> NodeModel {
    if nodes.len() == 0 {
        zero_node()
    } else {
        let n = nodes.len() as int;
        let content_main = cap(sum_main(nodes, vertical) + sat_mul_spec(spacing, n - 1));
        let min_main = if vertical {
            limits.min_height as int
        } else {
            limits.min_width as int
        };
        let max_main = if vertical {
            limits.max_height as int
        } else {
            limits.max_width as int
        };
        let min_cr = if vertical {
            limits.min_width as int
        } else {
            limits.min_height as int
        };
        let max_cr = if vertical {
            limits.max_width as int
        } else {
            limits.max_height as int
        };
        let main_size = clamp_spec(content_main, min_main, max_main);
        let cross_size = clamp_spec(max_cross(nodes, vertical), min_cr, max_cr);
        let extra = main_size - content_main;
        let off = justify_offsets(justify, extra, n);
        NodeModel {
            bounds: Rectangle {
                x: 0,
                y: 0,
                width: if vertical {
                    cross_size as u32
                } else {
                    main_size as u32
                },
                height: if vertical {
                    main_size as u32
                } else {
                    cross_size as u32
                },
            },
            children: Seq::new(
                nodes.len(),
                |i: int| placed_child(nodes, i, off.0, spacing, off.1, cross_size, alignment,
                    vertical),
            ),
            view_id: None,
        }
    }
}

/// Lays out a stack from its children's already-computed nodes.
pub fn stack_nodes(
    child_nodes: Vec<Node>,
    spacing: u32,
    alignment: Alignment,
    justify: Justify,
    vertical: bool,
    limits: Limits,
) -> (r: Node)
    ensures
        r.model() == spec_stack_nodes(
            models_of(child_nodes@),
            spacing as int,
            alignment,
            justify,
            vertical,
            limits,
        ),
{
    let ghost m = models_of(child_nodes@);
    proof {
        lemma_models_of(child_nodes@);
    }
    let n = child_nodes.len();
    if n == 0 {
        let r = Node::new(Rectangle::new(0, 0, 0, 0));
        proof {
            assert(r.model() =~= zero_node());
        }
        return r;
    }
    // First pass: accumulate the main-axis sum (saturating) and the
    // cross-axis maximum of the children.
    let mut main_sum: u32 = 0;
    let mut cross_mx: u32 = 0;
    let mut i: usize = 0;
    while i < n
        invariant
            n == child_nodes.len(),
            m == models_of(child_nodes@),
            m.len() == n,
            forall|k: int| 0 <= k < n ==> m[k] == #[trigger] child_nodes@[k].model(),
            0 <= i <= n,
            main_sum == cap(sum_main(m.take(i as int), vertical)),
            cross_mx == max_cross(m.take(i as int), vertical),
        decreases n - i,
    {
        let b = &child_nodes[i].bounds;
        let (main_d, cross_d) = if vertical {
            (b.height, b.width)
        } else {
            (b.width, b.height)
        };
        proof {
            assert(m[i as int] == child_nodes@[i as int].model());
            assert(child_nodes@[i as int].model().bounds == child_nodes@[i as int].bounds);
            assert(node_main(m[i as int], vertical) == main_d);
            lemma_sum_main_step(m, i as int, vertical);
            lemma_sum_main_nonneg(m.take(i as int), vertical);
            lemma_cap_add(sum_main(m.take(i as int), vertical), main_d as int);
            assert(sum_main(m.take(i as int + 1), vertical) == sum_main(m.take(i as int), vertical)
                + main_d);
        }
        main_sum = sat_add(main_sum, main_d);
        cross_mx = if cross_d > cross_mx {
            cross_d
        } else {
            cross_mx
        };
        i = i + 1;
    }
    proof {
        assert(m.take(n as int) =~= m);
    }
    let total_spacing = sat_mul(spacing, n - 1);
    let content_main = sat_add(main_sum, total_spacing);
    proof {
        lemma_sum_main_nonneg(m, vertical);
        lemma_cap_add(sum_main(m, vertical), sat_mul_spec(spacing as int, n as int - 1));
        assert(sat_mul_spec(spacing as int, n as int - 1) >= 0) by {
            if spacing as int * (n as int - 1) < 0 {
                assert(spacing as int * (n as int - 1) >= 0) by (nonlinear_arith)
                    requires
                        spacing as int >= 0,
                        n as int - 1 >= 0,
                ;
            }
        }
    }
    let (min_main, max_main) = if vertical {
        (limits.min_height, limits.max_height)
    } else {
        (limits.min_width, limits.max_width)
    };
    let (min_cr, max_cr) = if vertical {
        (limits.min_width, limits.max_width)
    } else {
        (limits.min_height, limits.max_height)
    };
    let main_size = clamp(content_main, min_main, max_main);
    let cross_size = clamp(cross_mx, min_cr, max_cr);

    let ghost extra = main_size as int - content_main as int;
    let extra_pos: u32 = if main_size > content_main {
        main_size - content_main
    } else {
        0
    };
    let has_extra = main_size > content_main;
    let (start_offset, gap): (u32, u32) = match justify {
        Justify::Start => (0, 0),
        Justify::End => (extra_pos, 0),
        Justify::Center => (extra_pos / 2, 0),
        Justify::SpaceBetween => {
            if n > 1 && has_extra {
                (0, ((extra_pos as u64) / ((n - 1) as u64)) as u32)
            } else {
                (0, 0)
            }
        },
        Justify::SpaceAround => {
            if has_extra {
                let per = ((extra_pos as u64) / (n as u64)) as u32;
                (per / 2, per)
            } else {
                (0, 0)
            }
        },
        Justify::SpaceEvenly => {
            if has_extra {
                let per = ((extra_pos as u128) / ((n as u128) + 1)) as u32;
                (per, per)
            } else {
                (0, 0)
            }
        },
    };
    proof {
        assert((start_offset as int, gap as int) == justify_offsets(justify, extra, n as int));
    }

    // Second pass: place each child. The cursor runs along the main axis,
    // advancing by the child's extent plus `spacing + gap` between children.
    let step = sat_add(spacing, gap);
    let mut nodes = child_nodes;
    let mut cursor: u32 = start_offset;
    let mut j: usize = 0;
    while j < n
        invariant
            n == nodes.len(),
            m.len() == n,
            0 <= j <= n,
            start_offset as int == justify_offsets(justify, extra, n as int).0,
            gap as int == justify_offsets(justify, extra, n as int).1,
            step == cap(spacing as int + gap as int),
            j < n ==> cursor == cap(
                start_offset + sum_main(m.take(j as int), vertical) + j as int * (spacing as int
                    + gap as int),
            ),
            forall|k: int| j <= k < n ==> m[k] == #[trigger] nodes@[k].model(),
            forall|k: int|
                0 <= k < j ==> #[trigger] nodes@[k].model() == placed_child(
                    m,
                    k,
                    start_offset as int,
                    spacing as int,
                    gap as int,
                    cross_size as int,
                    alignment,
                    vertical,
                ),
        decreases n - j,
    {
        let b = nodes[j].bounds;
        let (main_d, cross_d) = if vertical {
            (b.height, b.width)
        } else {
            (b.width, b.height)
        };
        let leftover = if cross_size >= cross_d {
            cross_size - cross_d
        } else {
            0
        };
        let cross_pos: u32 = match alignment {
            Alignment::Start | Alignment::Default => 0,
            Alignment::Center => leftover / 2,
            Alignment::End => leftover,
        };
        let rect = if vertical {
            Rectangle { x: cross_pos, y: cursor, width: b.width, height: b.height }
        } else {
            Rectangle { x: cursor, y: cross_pos, width: b.width, height: b.height }
        };
        proof {
            assert(m[j as int] == nodes@[j as int].model());
            assert(nodes@[j as int].model().bounds == nodes@[j as int].bounds);
            assert(node_main(m[j as int], vertical) == main_d);
            assert(node_cross(m[j as int], vertical) == cross_d);
            lemma_sum_main_nonneg(m.take(j as int), vertical);
            assert(j as int * (spacing as int + gap as int) >= 0) by (nonlinear_arith)
                requires
                    j as int >= 0,
                    spacing as int + gap as int >= 0,
            ;
        }
        let el = vstd::std_specs::vec::vec_index_mut(&mut nodes, j);
        el.bounds = rect;
        proof {
            assert(nodes@[j as int].model().children == models_of(nodes@[j as int].children@));
            assert(nodes@[j as int].model() == placed_child(
                m,
                j as int,
                start_offset as int,
                spacing as int,
                gap as int,
                cross_size as int,
                alignment,
                vertical,
            ));
        }
        // Advance the cursor: the child's extent, then one gap between
        // children (not after the last).
        proof {
            lemma_sum_main_step(m, j as int, vertical);
            lemma_cap_add(
                start_offset + sum_main(m.take(j as int), vertical) + j as int * (spacing as int
                    + gap as int),
                main_d as int,
            );
        }
        cursor = sat_add(cursor, main_d);
        if j < n - 1 {
            proof {
                lemma_cap_add(
                    start_offset + sum_main(m.take(j as int + 1), vertical) + j as int * (
                    spacing as int + gap as int),
                    spacing as int + gap as int,
                );
                assert((j as int + 1) * (spacing as int + gap as int) == j as int * (spacing as int
                    + gap as int) + (spacing as int + gap as int)) by (nonlinear_arith);
            }
            cursor = sat_add(cursor, step);
        }
        j = j + 1;
    }

    let (tw, th) = if vertical {
        (cross_size, main_size)
    } else {
        (main_size, cross_size)
    };
    let ghost placed = nodes@;
    let r = Node::with_children(Rectangle::new(0, 0, tw, th), nodes);
    proof {
        lemma_models_of(placed);
        let s = spec_stack_nodes(m, spacing as int, alignment, justify, vertical, limits);
        assert forall|k: int| 0 <= k < n implies models_of(placed)[k] == s.children[k] by {
            assert(models_of(placed)[k] == placed[k].model());
        }
        assert(models_of(placed) =~= s.children);
        assert(r.model() =~= s);
    }
    r
}

/// The font size a text or button label is measured at.
pub open spec fn spec_font_size(size: Option<u32>) -> u32 {
    match size {
        Some(s) => s,
        None => DEFAULT_FONT_SIZE,
    }
}

/// A leaf node: the intrinsic size clamped into the limits, each axis
/// independently.
pub open spec fn leaf_node(intrinsic: Size, limits: Limits) -> NodeModel {
    NodeModel {
        bounds: Rectangle {
            x: 0,
            y: 0,
            width: clamp_spec(
                intrinsic.width as int,
                limits.min_width as int,
                limits.max_width as int,
            ) as u32,
            height: clamp_spec(
                intrinsic.height as int,
                limits.min_height as int,
                limits.max_height as int,
            ) as u32,
        },
        children: Seq::empty(),
        view_id: None,
    }
}

/// A padded stack's node: the content node grown by twice the padding, its
/// direct children shifted by the padding on both axes.
pub open spec fn spec_pad(inner: NodeModel, p: int) -> NodeModel {
    NodeModel {
        bounds: Rectangle {
            x: 0,
            y: 0,
            width: cap(inner.bounds.width + 2 * p) as u32,
            height: cap(inner.bounds.height + 2 * p) as u32,
        },
        children: Seq::new(
            inner.children.len(),
            |i: int| NodeModel {
                bounds: Rectangle {
                    x: cap(inner.children[i].bounds.x + p) as u32,
                    y: cap(inner.children[i].bounds.y + p) as u32,
                    width: inner.children[i].bounds.width,
                    height: inner.children[i].bounds.height,
                },
                children: inner.children[i].children,
                view_id: inner.children[i].view_id,
            },
        ),
        view_id: None,
    }
}

/// The layout of every child in order, each against the same limits.
pub open spec fn lay_children(
    children: Seq<ViewTree>,
    limits: Limits,
    m: spec_fn(Seq<char>, u32) -> Size,
) -> Seq<NodeModel>
    decreases children, 0int,
{
    if children.len() == 0 {
        Seq::empty()
    } else {
        lay_children(children.drop_last(), limits, m).push(
            spec_layout(children.last(), limits, m),
        )
    }
}

/// The layout of a stack: no children gives a zero node; a padded stack lays
/// its content out against limits shrunk by twice the padding and then grows
/// the result back; otherwise the children are laid out against the stack's
/// own limits and combined by `spec_stack_nodes`.
pub open spec fn spec_stack_layout(
    children: Seq<ViewTree>,
    spacing: int,
    alignment: Alignment,
    justify: Justify,
    padding: int,
    vertical: bool,
    limits: Limits,
    m: spec_fn(Seq<char>, u32) -> Size,
) -> NodeModel
    decreases children, 1int,
{
    if children.len() == 0 {
        zero_node()
    } else {
        let inner_limits = if padding > 0 {
            limits.spec_shrink(padding)
        } else {
            limits
        };
        let content = spec_stack_nodes(
            lay_children(children, inner_limits, m),
            spacing,
            alignment,
            justify,
            vertical,
            inner_limits,
        );
        if padding > 0 {
            spec_pad(content, padding)
        } else {
            content
        }
    }
}

/// What `layout` returns: a leaf's intrinsic size clamped into the limits
/// (a button's label grows by twice the button padding first), and stacks
/// per `spec_stack_layout`.
pub open spec fn spec_layout(
    v: ViewTree,
    limits: Limits,
    m: spec_fn(Seq<char>, u32) -> Size,
) -> NodeModel
    decreases v, 2int,
{
    match v {
        ViewTree::Text(t) => leaf_node(m(t.string@, spec_font_size(t.size)), limits),
        ViewTree::Button(b) => {
            let ts = m(b.label@, spec_font_size(b.text_size));
            leaf_node(
                Size {
                    width: cap(ts.width + 2 * b.padding) as u32,
                    height: cap(ts.height + 2 * b.padding) as u32,
                },
                limits,
            )
        },
        ViewTree::VStack(s) => spec_stack_layout(
            s.children@,
            s.spacing as int,
            s.alignment,
            s.justify,
            s.padding as int,
            true,
            limits,
            m,
        ),
        ViewTree::HStack(s) => spec_stack_layout(
            s.children@,
            s.spacing as int,
            s.alignment,
            s.justify,
            s.padding as int,
            false,
            limits,
            m,
        ),
    }
}

/// Runs layout on a view tree against the given limits; the returned node
/// tree has one node per view, positioned relative to its parent.
pub fn layout<M: TextMeasurer>(view: &ViewTree, limits: Limits, measurer: &M) -> (r: Node)
    ensures
        r.model() == spec_layout(*view, limits, |t: Seq<char>, fs: u32| measurer.spec_measure(t,
            fs)),
    decreases view, 1int,
{
    match view {
        ViewTree::Text(t) => {
            let font_size = match t.size {
                Some(s) => s,
                None => DEFAULT_FONT_SIZE,
            };
            let size = measurer.measure(t.string.as_str(), font_size);
            let w = clamp(size.width, limits.min_width, limits.max_width);
            let h = clamp(size.height, limits.min_height, limits.max_height);
            let r = Node::new(Rectangle::new(0, 0, w, h));
            proof {
                assert(r.model() =~= spec_layout(*view, limits, |t: Seq<char>, fs: u32|
                    measurer.spec_measure(t, fs)));
            }
            r
        },
        ViewTree::Button(b) => {
            let font_size = match b.text_size {
                Some(s) => s,
                None => DEFAULT_FONT_SIZE,
            };
            let text_size = measurer.measure(b.label.as_str(), font_size);
            let double = sat_mul(b.padding, 2);
            let iw = sat_add(text_size.width, double);
            let ih = sat_add(text_size.height, double);
            let w = clamp(iw, limits.min_width, limits.max_width);
            let h = clamp(ih, limits.min_height, limits.max_height);
            let r = Node::new(Rectangle::new(0, 0, w, h));
            proof {
                assert(r.model() =~= spec_layout(*view, limits, |t: Seq<char>, fs: u32|
                    measurer.spec_measure(t, fs)));
            }
            r
        },
        ViewTree::VStack(s) => layout_stack(
            &s.children,
            s.spacing,
            s.alignment,
            s.justify,
            s.padding,
            true,
            limits,
            measurer,
        ),
        ViewTree::HStack(s) => layout_stack(
            &s.children,
            s.spacing,
            s.alignment,
            s.justify,
            s.padding,
            false,
            limits,
            measurer,
        ),
    }
}

/// Lays out one stack: children first, then the stack around them, then the
/// padding wrapper if any.
fn layout_stack<M: TextMeasurer>(
    children: &Vec<ViewTree>,
    spacing: u32,
    alignment: Alignment,
    justify: Justify,
    padding: u32,
    vertical: bool,
    limits: Limits,
    measurer: &M,
) -> (r: Node)
    ensures
        r.model() == spec_stack_layout(
            children@,
            spacing as int,
            alignment,
            justify,
            padding as int,
            vertical,
            limits,
            (|t: Seq<char>, fs: u32| measurer.spec_measure(t, fs)),
        ),
    decreases children, 0int,
{
    let ghost mm = |t: Seq<char>, fs: u32| measurer.spec_measure(t, fs);
    let n = children.len();
    if n == 0 {
        let r = Node::new(Rectangle::new(0, 0, 0, 0));
        proof {
            assert(r.model() =~= zero_node());
        }
        return r;
    }
    let inner_limits = if padding > 0 {
        limits.shrink(padding)
    } else {
        limits
    };
    let mut child_nodes: Vec<Node> = Vec::new();
    let mut i: usize = 0;
    while i < n
        invariant
            n == children.len(),
            0 <= i <= n,
            child_nodes.len() == i,
            mm == (|t: Seq<char>, fs: u32| measurer.spec_measure(t, fs)),
            inner_limits == if padding > 0 {
                limits.spec_shrink(padding as int)
            } else {
                limits
            },
            models_of(child_nodes@) == lay_children(children@.take(i as int), inner_limits, mm),
        decreases n - i,
    {
        let node = layout(&children[i], inner_limits, measurer);
        proof {
            let prev = child_nodes@;
            lemma_models_of(prev);
            assert(children@.take(i as int + 1).drop_last() =~= children@.take(i as int));
            assert(children@.take(i as int + 1).last() == children@[i as int]);
            assert(models_of(prev.push(node)) == models_of(prev).push(node.model())) by {
                assert(prev.push(node).drop_last() =~= prev);
                assert(prev.push(node).last() == node);
            }
        }
        child_nodes.push(node);
        i = i + 1;
    }
    proof {
        assert(children@.take(n as int) =~= children@);
    }
    let content = stack_nodes(child_nodes, spacing, alignment, justify, vertical, inner_limits);
    if padding > 0 {
        let r = pad_node(content, padding);
        proof {
            assert(r.model() =~= spec_stack_layout(children@, spacing as int, alignment, justify,
                padding as int, vertical, limits, mm));
        }
        r
    } else {
        proof {
            assert(content.model() =~= spec_stack_layout(children@, spacing as int, alignment,
                justify, padding as int, vertical, limits, mm));
        }
        content
    }
}

/// Grows a content node by twice the padding and shifts its direct children
/// by the padding on both axes.
pub(crate) fn pad_node(content: Node, padding: u32) -> (r: Node)
    ensures
        r.model() == spec_pad(content.model(), padding as int),
{
    let ghost inner = content.model();
    let double = sat_mul(padding, 2);
    let w = sat_add(content.bounds.width, double);
    let h = sat_add(content.bounds.height, double);
    let mut children = content.children;
    let ghost orig = children@;
    proof {
        lemma_models_of(orig);
    }
    let n = children.len();
    let mut i: usize = 0;
    while i < n
        invariant
            n == children.len(),
            0 <= i <= n,
            orig.len() == n,
            inner.children.len() == n,
            forall|k: int| 0 <= k < n ==> inner.children[k] == #[trigger] orig[k].model(),
            forall|k: int| i <= k < n ==> orig[k] == #[trigger] children@[k],
            forall|k: int|
                0 <= k < i ==> #[trigger] children@[k].model() == spec_pad(inner,
                    padding as int).children[k],
        decreases n - i,
    {
        let el = vstd::std_specs::vec::vec_index_mut(&mut children, i);
        let nx = sat_add(el.bounds.x, padding);
        let ny = sat_add(el.bounds.y, padding);
        el.bounds = Rectangle { x: nx, y: ny, width: el.bounds.width, height: el.bounds.height };
        proof {
            assert(children@[i as int].children@ == orig[i as int].children@);
            assert(children@[i as int].view_id == orig[i as int].view_id);
            assert(inner.children[i as int] == orig[i as int].model());
            assert(nx as int == cap(inner.children[i as int].bounds.x + padding as int));
            assert(ny as int == cap(inner.children[i as int].bounds.y + padding as int));
            assert(children@[i as int].model().children == models_of(
                children@[i as int].children@,
            ));
            assert(children@[i as int].model() == spec_pad(inner, padding as int).children[i as int]);
        }
        i = i + 1;
    }
    let ghost shifted = children@;
    let r = Node::with_children(Rectangle::new(0, 0, w, h), children);
    proof {
        lemma_models_of(shifted);
        assert forall|k: int| 0 <= k < n implies models_of(shifted)[k] == spec_pad(inner,
            padding as int).children[k] by {
            assert(models_of(shifted)[k] == shifted[k].model());
        }
        assert(models_of(shifted) =~= spec_pad(inner, padding as int).children);
        assert(r.model() =~= spec_pad(inner, padding as int));
    }
    r
}

/// A stack with no children lays out as a zero-size node with no children,
/// whatever its spacing, alignment, justify policy, and padding.
pub proof fn lemma_empty_stack_zero(
    v: ViewTree,
    limits: Limits,
    m: spec_fn(Seq<char>, u32) -> Size,
)
    requires
        (v matches ViewTree::VStack(s) && s.children@.len() == 0) || (v
            matches ViewTree::HStack(s) && s.children@.len() == 0),
    ensures
        spec_layout(v, limits, m) == zero_node(),
{
}

/// With a single child, `SpaceBetween` places exactly like `Start`, and
/// `SpaceAround` places exactly like `SpaceEvenly` (both center the child in
/// the leftover space: a half-gap before the one child).
pub proof fn lemma_single_child_justify(
    nodes: Seq<NodeModel>,
    spacing: int,
    alignment: Alignment,
    vertical: bool,
    limits: Limits,
)
    requires
        nodes.len() == 1,
    ensures
        spec_stack_nodes(nodes, spacing, alignment, Justify::SpaceBetween, vertical, limits)
            == spec_stack_nodes(nodes, spacing, alignment, Justify::Start, vertical, limits),
        spec_stack_nodes(nodes, spacing, alignment, Justify::SpaceAround, vertical, limits)
            == spec_stack_nodes(nodes, spacing, alignment, Justify::SpaceEvenly, vertical, limits),
{
    let a = spec_stack_nodes(nodes, spacing, alignment, Justify::SpaceBetween, vertical, limits);
    let b = spec_stack_nodes(nodes, spacing, alignment, Justify::Start, vertical, limits);
    assert(a.children =~= b.children);
    assert(a =~= b);
    let c = spec_stack_nodes(nodes, spacing, alignment, Justify::SpaceAround, vertical, limits);
    let d = spec_stack_nodes(nodes, spacing, alignment, Justify::SpaceEvenly, vertical, limits);
    let content = cap(sum_main(nodes, vertical) + sat_mul_spec(spacing, 0));
    let max_main = if vertical {
        limits.max_height as int
    } else {
        limits.max_width as int
    };
    let min_main = if vertical {
        limits.min_height as int
    } else {
        limits.min_width as int
    };
    let extra = clamp_spec(content, min_main, max_main) - content;
    assert(extra / 1int == extra);
    // The two policies give the same start offset; their gaps differ but a
    // single child has no gap after it.
    assert(justify_offsets(Justify::SpaceAround, extra, 1).0 == justify_offsets(
        Justify::SpaceEvenly,
        extra,
        1,
    ).0);
    assert(c.children[0] == d.children[0]);
    assert(c.children =~= d.children);
    assert(c =~= d);
}

/// The padding invariant: a padded stack's bounds equal the same stack laid
/// out unpadded against the shrunk limits, grown by twice the padding, and
/// every direct child sits exactly `(p, p)` further, with identical size and
/// subtree. The growth is stated through the saturating cap; below the cap
/// it is plain addition, stated by the conditional clauses. Padding never
/// enters the main-axis spacing computation: the unpadded layout knows
/// nothing of `p`.
pub proof fn lemma_padding_offset(
    children: Seq<ViewTree>,
    spacing: int,
    alignment: Alignment,
    justify: Justify,
    p: int,
    vertical: bool,
    limits: Limits,
    m: spec_fn(Seq<char>, u32) -> Size,
)
    requires
        p > 0,
        children.len() > 0,
    ensures
        ({
            let padded = spec_stack_layout(children, spacing, alignment, justify, p, vertical,
                limits, m);
            let unpadded = spec_stack_layout(children, spacing, alignment, justify, 0, vertical,
                limits.spec_shrink(p), m);
            padded.bounds.width == cap(unpadded.bounds.width + 2 * p)
                && padded.bounds.height == cap(unpadded.bounds.height + 2 * p)
                && padded.children.len() == unpadded.children.len()
                && (unpadded.bounds.width + 2 * p <= u32::MAX ==> padded.bounds.width
                    == unpadded.bounds.width + 2 * p)
                && (unpadded.bounds.height + 2 * p <= u32::MAX ==> padded.bounds.height
                    == unpadded.bounds.height + 2 * p)
                && (forall|i: int| 0 <= i < padded.children.len()
                    ==> #[trigger] padded.children[i] == (NodeModel {
                        bounds: Rectangle {
                            x: cap(unpadded.children[i].bounds.x + p) as u32,
                            y: cap(unpadded.children[i].bounds.y + p) as u32,
                            width: unpadded.children[i].bounds.width,
                            height: unpadded.children[i].bounds.height,
                        },
                        children: unpadded.children[i].children,
                        view_id: unpadded.children[i].view_id,
                    }))
                && (forall|i: int| 0 <= i < padded.children.len()
                    && unpadded.children[i].bounds.x + p <= u32::MAX
                    && unpadded.children[i].bounds.y + p <= u32::MAX
                    ==> #[trigger] padded.children[i].bounds.x == unpadded.children[i].bounds.x + p
                    && padded.children[i].bounds.y == unpadded.children[i].bounds.y + p)
        }),
{
}

/// Spacing monotonicity: with the children and limits fixed, raising the
/// spacing by `delta` raises the stack's resolved main-axis size by exactly
/// `(n - 1) * delta`, as long as the unclamped content size stays within the
/// limits at both spacings.
pub proof fn lemma_spacing_monotonic(
    nodes: Seq<NodeModel>,
    spacing: int,
    delta: int,
    alignment: Alignment,
    justify: Justify,
    vertical: bool,
    limits: Limits,
)
    requires
        nodes.len() >= 1,
        spacing >= 0,
        delta >= 0,
        ({
            let n = nodes.len() as int;
            let min_main = if vertical {
                limits.min_height as int
            } else {
                limits.min_width as int
            };
            let max_main = if vertical {
                limits.max_height as int
            } else {
                limits.max_width as int
            };
            min_main <= sum_main(nodes, vertical) + spacing * (n - 1) && sum_main(nodes, vertical)
                + (spacing + delta) * (n - 1) <= max_main
        }),
    ensures
        ({
            let n = nodes.len() as int;
            let lo = spec_stack_nodes(nodes, spacing, alignment, justify, vertical, limits);
            let hi = spec_stack_nodes(nodes, spacing + delta, alignment, justify, vertical,
                limits);
            node_main(hi, vertical) == node_main(lo, vertical) + (n - 1) * delta && node_cross(
                hi,
                vertical,
            ) == node_cross(lo, vertical)
        }),
{
    let n = nodes.len() as int;
    lemma_sum_main_nonneg(nodes, vertical);
    assert((spacing + delta) * (n - 1) == spacing * (n - 1) + delta * (n - 1))
        by (nonlinear_arith);
    assert(spacing * (n - 1) >= 0) by (nonlinear_arith)
        requires
            spacing >= 0,
            n >= 1,
    ;
    assert(delta * (n - 1) >= 0) by (nonlinear_arith)
        requires
            delta >= 0,
            n >= 1,
    ;
}

/// Alignment factor correctness, child by child and for arbitrary child
/// sizes: with `Center`, the cross-axis offset is half the leftover
/// cross-axis space, truncating — exactly half whenever the leftover is
/// even; `Start` and `Default` place at zero, and `End` uses the whole
/// leftover (factors 0, 1/2, and 1 of the same leftover).
pub proof fn lemma_alignment_offset(
    nodes: Seq<NodeModel>,
    spacing: int,
    alignment: Alignment,
    justify: Justify,
    vertical: bool,
    limits: Limits,
    i: int,
)
    requires
        0 <= i < nodes.len(),
    ensures
        ({
            let r = spec_stack_nodes(nodes, spacing, alignment, justify, vertical, limits);
            let cross_size = node_cross(r, vertical);
            let c = node_cross(nodes[i], vertical);
            let leftover = if cross_size >= c {
                cross_size - c
            } else {
                0
            };
            let pos = if vertical {
                r.children[i].bounds.x as int
            } else {
                r.children[i].bounds.y as int
            };
            &&& pos == align_offset_spec(alignment, leftover)
            &&& (alignment == Alignment::Start || alignment == Alignment::Default) ==> pos == 0
            &&& alignment == Alignment::End ==> pos == leftover
            &&& alignment == Alignment::Center ==> pos == leftover / 2 && (leftover % 2 == 0
                ==> 2 * pos == leftover)
        }),
{
}

} // verus!

