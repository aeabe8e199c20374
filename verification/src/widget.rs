//! The stateful widget tree: a closed set of concrete widgets (text,
//! button, vertical and horizontal stacks) with the capability set the
//! runtime drives — tag, state, children, diff, layout, and update.

use vstd::prelude::*;
use crate::background::Color;
use crate::event::{spec_status_merge, Event, Status};
use crate::geometry::{sat_add, sat_mul, Length, Limits, Point, Size};
use crate::layout::{
    lemma_models_of, models_of, leaf_node, pad_node, spec_font_size, spec_pad, spec_stack_nodes,
    stack_nodes, zero_node, Node, NodeModel, TextMeasurer, DEFAULT_FONT_SIZE,
};
use crate::mouse;
use crate::mouse::{spec_over, Cursor, Interaction};
use crate::shell::Shell;
use crate::tree::{
    lemma_tree_models_of, tree_models_of, State, StateModel, Tag, Tree, TreeModel,
};
use crate::view::{Alignment, Justify};
use crate::window::{spec_redraw_min, RedrawRequest};

verus! {

/// A text widget displaying a string.
#[derive(Debug)]
pub struct Text {
    pub string: String,
    pub size: Option<u32>,
}

impl Text {
    pub fn new(s: String) -> (t: Text)
        ensures
            t.string@ == s@,
            t.size == Option::<u32>::None,
    {
        Text { string: s, size: None }
    }

    /// Sets the font size in pixels; unset means the default size.
    pub fn size(self, size: u32) -> (t: Text)
        ensures
            t.string@ == self.string@,
            t.size == Some(size),
    {
        Text { size: Some(size), ..self }
    }
}

/// A button widget; a press inside its bounds publishes `on_press`.
#[derive(Debug)]
pub struct Button<Message> {
    pub label: String,
    pub padding: u32,
    pub on_press: Option<Message>,
}

impl<Message> Button<Message> {
    pub fn new(label: String) -> (b: Button<Message>)
        ensures
            b.label@ == label@,
            b.padding == 8u32,
            b.on_press is None,
    {
        Button { label, padding: 8, on_press: None }
    }

    /// Sets the message published when the button is pressed.
    pub fn on_press(self, message: Message) -> (b: Button<Message>)
        ensures
            b.label@ == self.label@,
            b.padding == self.padding,
            b.on_press == Some(message),
    {
        Button { on_press: Some(message), ..self }
    }

    pub fn padding(self, padding: u32) -> (b: Button<Message>)
        ensures
            b.label@ == self.label@,
            b.padding == padding,
            b.on_press == self.on_press,
    {
        Button { padding, ..self }
    }
}

/// A vertical stack widget.
#[derive(Debug)]
pub struct VStack<Message> {
    pub spacing: u32,
    pub padding: u32,
    pub alignment: Alignment,
    pub justify: Justify,
    pub background: Option<Color>,
    pub children: Vec<Element<Message>>,
}

impl<Message> VStack<Message> {
    pub fn new(children: Vec<Element<Message>>) -> (s: VStack<Message>)
        ensures
            s.spacing == 8u32,
            s.padding == 0u32,
            s.alignment == Alignment::Default,
            s.justify == Justify::Start,
            s.background == Option::<Color>::None,
            s.children == children,
    {
        VStack {
            spacing: 8,
            padding: 0,
            alignment: Alignment::Default,
            justify: Justify::Start,
            background: None,
            children,
        }
    }

    pub fn spacing(self, spacing: u32) -> (s: VStack<Message>)
        ensures
            s == (VStack { spacing, ..self }),
    {
        VStack { spacing, ..self }
    }

    pub fn alignment(self, alignment: Alignment) -> (s: VStack<Message>)
        ensures
            s == (VStack { alignment, ..self }),
    {
        VStack { alignment, ..self }
    }

    pub fn justify(self, justify: Justify) -> (s: VStack<Message>)
        ensures
            s == (VStack { justify, ..self }),
    {
        VStack { justify, ..self }
    }

    pub fn padding(self, padding: u32) -> (s: VStack<Message>)
        ensures
            s == (VStack { padding, ..self }),
    {
        VStack { padding, ..self }
    }

    pub fn background(self, color: Color) -> (s: VStack<Message>)
        ensures
            s == (VStack { background: Some(color), ..self }),
    {
        VStack { background: Some(color), ..self }
    }

    /// Appends a child element.
    pub fn push(self, child: Element<Message>) -> (s: VStack<Message>)
        ensures
            s.spacing == self.spacing,
            s.padding == self.padding,
            s.alignment == self.alignment,
            s.justify == self.justify,
            s.background == self.background,
            s.children@ == self.children@.push(child),
    {
        let mut children = self.children;
        children.push(child);
        VStack { children, ..self }
    }
}

/// A horizontal stack widget.
#[derive(Debug)]
pub struct HStack<Message> {
    pub spacing: u32,
    pub padding: u32,
    pub alignment: Alignment,
    pub justify: Justify,
    pub background: Option<Color>,
    pub children: Vec<Element<Message>>,
}

impl<Message> HStack<Message> {
    pub fn new() -> (s: HStack<Message>)
        ensures
            s.spacing == 0u32,
            s.padding == 0u32,
            s.alignment == Alignment::Default,
            s.justify == Justify::Start,
            s.background == Option::<Color>::None,
            s.children@ == Seq::<Element<Message>>::empty(),
    {
        HStack {
            spacing: 0,
            padding: 0,
            alignment: Alignment::Default,
            justify: Justify::Start,
            background: None,
            children: Vec::new(),
        }
    }

    pub fn spacing(self, spacing: u32) -> (s: HStack<Message>)
        ensures
            s == (HStack { spacing, ..self }),
    {
        HStack { spacing, ..self }
    }

    pub fn alignment(self, alignment: Alignment) -> (s: HStack<Message>)
        ensures
            s == (HStack { alignment, ..self }),
    {
        HStack { alignment, ..self }
    }

    pub fn justify(self, justify: Justify) -> (s: HStack<Message>)
        ensures
            s == (HStack { justify, ..self }),
    {
        HStack { justify, ..self }
    }

    pub fn padding(self, padding: u32) -> (s: HStack<Message>)
        ensures
            s == (HStack { padding, ..self }),
    {
        HStack { padding, ..self }
    }

    pub fn background(self, color: Color) -> (s: HStack<Message>)
        ensures
            s == (HStack { background: Some(color), ..self }),
    {
        HStack { background: Some(color), ..self }
    }

    /// Appends a child element.
    pub fn push(self, child: Element<Message>) -> (s: HStack<Message>)
        ensures
            s.spacing == self.spacing,
            s.padding == self.padding,
            s.alignment == self.alignment,
            s.justify == self.justify,
            s.background == self.background,
            s.children@ == self.children@.push(child),
    {
        let mut children = self.children;
        children.push(child);
        HStack { children, ..self }
    }
}

/// A node of the widget tree: one of the library's widgets. Hosts drive it
/// through the runtime; per-widget state lives in the parallel `Tree`.
#[derive(Debug)]
pub enum Element<Message> {
    Text(Text),
    Button(Button<Message>),
    VStack(VStack<Message>),
    HStack(HStack<Message>),
}

impl<Message> Element<Message> {
    /// The tag of this widget's kind; each kind has its own.
    pub open spec fn spec_tag(&self) -> Tag {
        match self {
            Element::Text(_) => Tag(1),
            Element::Button(_) => Tag(2),
            Element::VStack(_) => Tag(3),
            Element::HStack(_) => Tag(4),
        }
    }

    /// Returns the tag of this widget's kind.
    pub fn tag(&self) -> (t: Tag)
        ensures
            t == self.spec_tag(),
    {
        match self {
            Element::Text(_) => Tag(1),
            Element::Button(_) => Tag(2),
            Element::VStack(_) => Tag(3),
            Element::HStack(_) => Tag(4),
        }
    }

    /// Returns this widget's initial internal state. The library's widgets
    /// keep no internal state of their own.
    pub fn state(&self) -> (s: State)
        ensures
            s.model() == StateModel::Vacant,
    {
        State::Vacant
    }

    /// The widget's child elements (empty for leaves).
    pub open spec fn spec_children(&self) -> Seq<Element<Message>> {
        match self {
            Element::Text(_) => Seq::empty(),
            Element::Button(_) => Seq::empty(),
            Element::VStack(s) => s.children@,
            Element::HStack(s) => s.children@,
        }
    }
}

/// The state tree that snapshotting a widget produces: the widget's tag, its
/// initial state, and fresh state trees for its children, recursively.
pub open spec fn spec_new_tree<Message>(w: Element<Message>) -> TreeModel
    decreases w, 1int,
{
    match w {
        Element::Text(_) | Element::Button(_) => TreeModel {
            tag: w.spec_tag(),
            state: StateModel::Vacant,
            children: Seq::empty(),
        },
        Element::VStack(s) => TreeModel {
            tag: w.spec_tag(),
            state: StateModel::Vacant,
            children: spec_new_children(s.children@),
        },
        Element::HStack(s) => TreeModel {
            tag: w.spec_tag(),
            state: StateModel::Vacant,
            children: spec_new_children(s.children@),
        },
    }
}

/// Fresh state trees for a sequence of widgets, in order.
pub open spec fn spec_new_children<Message>(ws: Seq<Element<Message>>) -> Seq<TreeModel>
    decreases ws, 0int,
{
    if ws.len() == 0 {
        Seq::empty()
    } else {
        spec_new_children(ws.drop_last()).push(spec_new_tree(ws.last()))
    }
}

pub proof fn lemma_spec_new_children<Message>(ws: Seq<Element<Message>>)
    ensures
        spec_new_children(ws).len() == ws.len(),
        forall|i: int| 0 <= i < ws.len() ==> spec_new_children(ws)[i] == spec_new_tree(
            #[trigger] ws[i],
        ),
    decreases ws.len(),
{
    if ws.len() > 0 {
        lemma_spec_new_children(ws.drop_last());
        assert forall|i: int| 0 <= i < ws.len() implies spec_new_children(ws)[i] == spec_new_tree(
            #[trigger] ws[i],
        ) by {
            if i < ws.len() - 1 {
                assert(ws.drop_last()[i] == ws[i]);
            }
        }
    }
}

/// Tag-gated reconciliation: a tree diffed against a widget of the same kind
/// keeps its state and reconciles its children; against a different kind the
/// whole subtree is rebuilt from scratch.
pub open spec fn spec_diff<Message>(t: TreeModel, w: Element<Message>) -> TreeModel
    decreases w, 3int,
{
    if t.tag == w.spec_tag() {
        spec_widget_diff(t, w)
    } else {
        spec_new_tree(w)
    }
}

/// What a widget's own diff does to a matching tree: leaves clear the
/// child list; stacks reconcile their children by truncate-then-extend.
/// The node's own tag and state are kept either way.
pub open spec fn spec_widget_diff<Message>(t: TreeModel, w: Element<Message>) -> TreeModel
    decreases w, 2int,
{
    match w {
        Element::Text(_) | Element::Button(_) => TreeModel {
            tag: t.tag,
            state: t.state,
            children: Seq::empty(),
        },
        Element::VStack(s) => TreeModel {
            tag: t.tag,
            state: t.state,
            children: spec_diff_children(t.children, s.children@),
        },
        Element::HStack(s) => TreeModel {
            tag: t.tag,
            state: t.state,
            children: spec_diff_children(t.children, s.children@),
        },
    }
}

/// Truncate-then-extend reconciliation of a child list: the overlapping
/// prefix is diffed pairwise, trailing stale state is dropped, and fresh
/// state is built for new trailing widgets.
pub open spec fn spec_diff_children<Message>(
    ts: Seq<TreeModel>,
    ws: Seq<Element<Message>>,
) -> Seq<TreeModel>
    decreases ws, 4int,
{
    if ws.len() == 0 {
        Seq::empty()
    } else {
        spec_diff_children(ts, ws.drop_last()).push(
            if ws.len() - 1 < ts.len() {
                spec_diff(ts[ws.len() - 1], ws.last())
            } else {
                spec_new_tree(ws.last())
            },
        )
    }
}

pub proof fn lemma_spec_diff_children<Message>(ts: Seq<TreeModel>, ws: Seq<Element<Message>>)
    ensures
        spec_diff_children(ts, ws).len() == ws.len(),
        forall|i: int| 0 <= i < ws.len() ==> spec_diff_children(ts, ws)[i] == (if i < ts.len() {
            spec_diff(ts[i], #[trigger] ws[i])
        } else {
            spec_new_tree(ws[i])
        }),
    decreases ws.len(),
{
    if ws.len() > 0 {
        lemma_spec_diff_children(ts, ws.drop_last());
        assert forall|i: int| 0 <= i < ws.len() implies spec_diff_children(ts, ws)[i] == (if i
            < ts.len() {
            spec_diff(ts[i], #[trigger] ws[i])
        } else {
            spec_new_tree(ws[i])
        }) by {
            if i < ws.len() - 1 {
                assert(ws.drop_last()[i] == ws[i]);
            }
        }
    }
}

impl<Message> Element<Message> {
    /// Returns fresh state trees for this widget's children.
    pub fn children(&self) -> (r: Vec<Tree>)
        ensures
            tree_models_of(r@) == spec_new_children(self.spec_children()),
        decreases self, 0int,
    {
        match self {
            Element::Text(_) | Element::Button(_) => {
                let r = Vec::new();
                proof {
                    assert(tree_models_of(r@) =~= spec_new_children(self.spec_children()));
                }
                r
            },
            Element::VStack(s) => new_trees(&s.children),
            Element::HStack(s) => new_trees(&s.children),
        }
    }

    /// Reconciles a tree that already matches this widget's kind: leaves
    /// clear the child list, stacks reconcile their children.
    pub fn diff(&self, tree: &mut Tree)
        ensures
            final(tree).model() == spec_widget_diff(old(tree).model(), *self),
        decreases self, 2int,
    {
        match self {
            Element::Text(_) | Element::Button(_) => {
                tree.children.clear();
                proof {
                    assert(tree.model().children =~= Seq::<TreeModel>::empty());
                    assert(tree.model() =~= spec_widget_diff(old(tree).model(), *self));
                }
            },
            Element::VStack(s) => {
                diff_children(tree, &s.children);
                proof {
                    assert(tree.model() =~= spec_widget_diff(old(tree).model(), *self));
                }
            },
            Element::HStack(s) => {
                diff_children(tree, &s.children);
                proof {
                    assert(tree.model() =~= spec_widget_diff(old(tree).model(), *self));
                }
            },
        }
    }
}

/// Fresh state trees for each widget in the list, in order.
fn new_trees<Message>(ws: &Vec<Element<Message>>) -> (r: Vec<Tree>)
    ensures
        tree_models_of(r@) == spec_new_children(ws@),
    decreases ws, 5int,
{
    let ghost all = ws@;
    proof {
        lemma_spec_new_children(all);
    }
    let mut r: Vec<Tree> = Vec::new();
    let mut i: usize = 0;
    while i < ws.len()
        invariant
            all == ws@,
            0 <= i <= ws.len(),
            r@.len() == i,
            forall|k: int| 0 <= k < i ==> #[trigger] r@[k].model() == spec_new_children(all)[k],
        decreases ws.len() - i,
    {
        let t = new_tree(&ws[i]);
        r.push(t);
        proof {
            lemma_spec_new_children(all);
            assert(r@[i as int].model() == spec_new_children(all)[i as int]);
        }
        i = i + 1;
    }
    proof {
        lemma_tree_models_of(r@);
        lemma_spec_new_children(all);
        assert forall|k: int| 0 <= k < ws@.len() implies tree_models_of(r@)[k]
            == spec_new_children(ws@)[k] by {
            assert(tree_models_of(r@)[k] == r@[k].model());
        }
        assert(tree_models_of(r@) =~= spec_new_children(ws@));
    }
    r
}

/// Snapshots a widget into a fresh state tree: its tag, its initial state,
/// and fresh trees for its children, recursively.
pub fn new_tree<Message>(widget: &Element<Message>) -> (t: Tree)
    ensures
        t.model() == spec_new_tree(*widget),
    decreases widget, 1int,
{
    let tag = widget.tag();
    let state = widget.state();
    let children = widget.children();
    let t = Tree { tag, state, children };
    proof {
        assert(t.model() =~= spec_new_tree(*widget));
    }
    t
}

/// Reconciles a tree against a widget: if the kinds match, the widget's own
/// diff runs; otherwise the whole subtree state is rebuilt.
pub fn diff_tree<Message>(tree: &mut Tree, new: &Element<Message>)
    ensures
        final(tree).model() == spec_diff(old(tree).model(), *new),
    decreases new, 3int,
{
    let matches_kind = tree.tag == new.tag();
    if matches_kind {
        new.diff(tree);
    } else {
        *tree = new_tree(new);
    }
}

/// Reconciles a tree's children against a widget list by
/// truncate-then-extend.
fn diff_children<Message>(tree: &mut Tree, ws: &Vec<Element<Message>>)
    ensures
        final(tree).tag == old(tree).tag,
        final(tree).state == old(tree).state,
        tree_models_of(final(tree).children@) == spec_diff_children(
            tree_models_of(old(tree).children@),
            ws@,
        ),
    decreases ws, 4int,
{
    let ghost old_models = tree_models_of(old(tree).children@);
    proof {
        lemma_tree_models_of(old(tree).children@);
        lemma_spec_diff_children(old_models, ws@);
    }
    let n = ws.len();
    if tree.children.len() > n {
        tree.children.truncate(n);
    }
    let ghost kept = tree.children@.len();
    let mut i: usize = 0;
    while i < tree.children.len()
        invariant
            n == ws@.len(),
            kept <= n,
            kept <= old_models.len(),
            tree.children@.len() == kept,
            tree.tag == old(tree).tag,
            tree.state == old(tree).state,
            old_models == tree_models_of(old(tree).children@),
            0 <= i <= kept,
            forall|k: int| i <= k < kept ==> #[trigger] tree.children@[k].model()
                == old_models[k],
            forall|k: int| 0 <= k < i ==> #[trigger] tree.children@[k].model() == spec_diff(
                old_models[k],
                ws@[k],
            ),
        decreases kept - i,
    {
        let el = vstd::std_specs::vec::vec_index_mut(&mut tree.children, i);
        diff_tree(el, &ws[i]);
        i = i + 1;
    }
    while tree.children.len() < n
        invariant
            n == ws@.len(),
            kept <= n,
            kept <= old_models.len(),
            kept <= tree.children@.len() <= n,
            tree.tag == old(tree).tag,
            tree.state == old(tree).state,
            forall|k: int| 0 <= k < kept ==> #[trigger] tree.children@[k].model() == spec_diff(
                old_models[k],
                ws@[k],
            ),
            forall|k: int| kept <= k < tree.children@.len() ==> #[trigger] tree.children@[
                k].model() == spec_new_tree(ws@[k]),
        decreases n - tree.children@.len(),
    {
        let i = tree.children.len();
        let t = new_tree(&ws[i]);
        tree.children.push(t);
    }
    proof {
        lemma_tree_models_of(tree.children@);
        lemma_spec_diff_children(old_models, ws@);
        if old(tree).children@.len() <= n {
            assert(kept == old_models.len());
        }
        assert forall|k: int| 0 <= k < ws@.len() implies tree_models_of(tree.children@)[k]
            == spec_diff_children(old_models, ws@)[k] by {
            assert(tree_models_of(tree.children@)[k] == tree.children@[k].model());
        }
        assert(tree_models_of(tree.children@) =~= spec_diff_children(old_models, ws@));
    }
}

/// The layout of every child element in order, each against the same limits.
pub open spec fn lay_elem_children<Message>(
    ws: Seq<Element<Message>>,
    limits: Limits,
    m: spec_fn(Seq<char>, u32) -> Size,
) -> Seq<NodeModel>
    decreases ws, 0int,
{
    if ws.len() == 0 {
        Seq::empty()
    } else {
        lay_elem_children(ws.drop_last(), limits, m).push(spec_elem_layout(ws.last(), limits, m))
    }
}

/// The layout of a stack of elements; the same algorithm the view tree uses.
pub open spec fn spec_elem_stack_layout<Message>(
    ws: Seq<Element<Message>>,
    spacing: int,
    alignment: Alignment,
    justify: Justify,
    padding: int,
    vertical: bool,
    limits: Limits,
    m: spec_fn(Seq<char>, u32) -> Size,
) -> NodeModel
    decreases ws, 1int,
{
    if ws.len() == 0 {
        zero_node()
    } else {
        let inner_limits = if padding > 0 {
            limits.spec_shrink(padding)
        } else {
            limits
        };
        let content = spec_stack_nodes(
            lay_elem_children(ws, inner_limits, m),
            spacing,
            alignment,
            justify,
            vertical,
            inner_limits,
        );
        if padding > 0 {
            spec_pad(content, padding)
        } else {
            content
        }
    }
}

/// What an element's layout returns: leaves clamp their intrinsic size into
/// the limits (a button grows its label by twice its padding first); stacks
/// lay out as the view stacks do.
pub open spec fn spec_elem_layout<Message>(
    e: Element<Message>,
    limits: Limits,
    m: spec_fn(Seq<char>, u32) -> Size,
) -> NodeModel
    decreases e, 2int,
{
    match e {
        Element::Text(t) => leaf_node(m(t.string@, spec_font_size(t.size)), limits),
        Element::Button(b) => {
            let ts = m(b.label@, DEFAULT_FONT_SIZE);
            leaf_node(
                Size {
                    width: crate::layout::cap(ts.width + 2 * b.padding) as u32,
                    height: crate::layout::cap(ts.height + 2 * b.padding) as u32,
                },
                limits,
            )
        },
        Element::VStack(s) => spec_elem_stack_layout(
            s.children@,
            s.spacing as int,
            s.alignment,
            s.justify,
            s.padding as int,
            true,
            limits,
            m,
        ),
        Element::HStack(s) => spec_elem_stack_layout(
            s.children@,
            s.spacing as int,
            s.alignment,
            s.justify,
            s.padding as int,
            false,
            limits,
            m,
        ),
    }
}

impl<Message> Element<Message> {
    /// The widget's size request on each axis: stacks and buttons shrink to
    /// their content; a text is shrink-wide and fixed-tall at five quarters
    /// of its font size.
    pub fn size(&self) -> (r: (Length, Length))
        ensures
            r == match self {
                Element::Text(t) => (
                    Length::Shrink,
                    Length::Fixed(
                        (crate::layout::cap(spec_font_size(t.size) * 5) / 4) as u32,
                    ),
                ),
                _ => (Length::Shrink, Length::Shrink),
            },
    {
        match self {
            Element::Text(t) => {
                let font_size = match t.size {
                    Some(s) => s,
                    None => DEFAULT_FONT_SIZE,
                };
                (Length::Shrink, Length::Fixed(sat_mul(font_size, 5) / 4))
            },
            _ => (Length::Shrink, Length::Shrink),
        }
    }

    /// A sizing hint for containers; the same as `size`.
    pub fn size_hint(&self) -> (r: (Length, Length))
        ensures
            r == match self {
                Element::Text(t) => (
                    Length::Shrink,
                    Length::Fixed(
                        (crate::layout::cap(spec_font_size(t.size) * 5) / 4) as u32,
                    ),
                ),
                _ => (Length::Shrink, Length::Shrink),
            },
    {
        self.size()
    }

    /// Runs layout on this widget against the given limits.
    pub fn layout<M: TextMeasurer>(&self, limits: Limits, measurer: &M) -> (r: Node)
        ensures
            r.model() == spec_elem_layout(*self, limits, |t: Seq<char>, fs: u32|
                measurer.spec_measure(t, fs)),
        decreases self, 7int,
    {
        match self {
            Element::Text(t) => {
                let font_size = match t.size {
                    Some(s) => s,
                    None => DEFAULT_FONT_SIZE,
                };
                let size = measurer.measure(t.string.as_str(), font_size);
                let w = crate::geometry::clamp(size.width, limits.min_width, limits.max_width);
                let h = crate::geometry::clamp(size.height, limits.min_height, limits.max_height);
                let r = Node::new(crate::geometry::Rectangle::new(0, 0, w, h));
                proof {
                    assert(r.model() =~= spec_elem_layout(*self, limits, |t: Seq<char>, fs: u32|
                        measurer.spec_measure(t, fs)));
                }
                r
            },
            Element::Button(b) => {
                let text_size = measurer.measure(b.label.as_str(), DEFAULT_FONT_SIZE);
                let double = sat_mul(b.padding, 2);
                let iw = sat_add(text_size.width, double);
                let ih = sat_add(text_size.height, double);
                let w = crate::geometry::clamp(iw, limits.min_width, limits.max_width);
                let h = crate::geometry::clamp(ih, limits.min_height, limits.max_height);
                let r = Node::new(crate::geometry::Rectangle::new(0, 0, w, h));
                proof {
                    assert(r.model() =~= spec_elem_layout(*self, limits, |t: Seq<char>, fs: u32|
                        measurer.spec_measure(t, fs)));
                }
                r
            },
            Element::VStack(s) => elem_layout_stack(
                &s.children,
                s.spacing,
                s.alignment,
                s.justify,
                s.padding,
                true,
                limits,
                measurer,
            ),
            Element::HStack(s) => elem_layout_stack(
                &s.children,
                s.spacing,
                s.alignment,
                s.justify,
                s.padding,
                false,
                limits,
                measurer,
            ),
        }
    }
}

/// Lays out one stack of elements: children first, then the stack around
/// them, then the padding wrapper if any.
fn elem_layout_stack<Message, M: TextMeasurer>(
    children: &Vec<Element<Message>>,
    spacing: u32,
    alignment: Alignment,
    justify: Justify,
    padding: u32,
    vertical: bool,
    limits: Limits,
    measurer: &M,
) -> (r: Node)
    ensures
        r.model() == spec_elem_stack_layout(
            children@,
            spacing as int,
            alignment,
            justify,
            padding as int,
            vertical,
            limits,
            (|t: Seq<char>, fs: u32| measurer.spec_measure(t, fs)),
        ),
    decreases children, 6int,
{
    let ghost mm = |t: Seq<char>, fs: u32| measurer.spec_measure(t, fs);
    let n = children.len();
    if n == 0 {
        let r = Node::new(crate::geometry::Rectangle::new(0, 0, 0, 0));
        proof {
            assert(r.model() =~= zero_node());
        }
        return r;
    }
    let inner_limits = if padding > 0 {
        limits.shrink(padding)
    } else {
        limits
    };
    let mut child_nodes: Vec<Node> = Vec::new();
    let mut i: usize = 0;
    while i < n
        invariant
            n == children.len(),
            0 <= i <= n,
            child_nodes.len() == i,
            mm == (|t: Seq<char>, fs: u32| measurer.spec_measure(t, fs)),
            inner_limits == if padding > 0 {
                limits.spec_shrink(padding as int)
            } else {
                limits
            },
            models_of(child_nodes@) == lay_elem_children(
                children@.take(i as int),
                inner_limits,
                mm,
            ),
        decreases n - i,
    {
        let node = children[i].layout(inner_limits, measurer);
        proof {
            let prev = child_nodes@;
            lemma_models_of(prev);
            assert(children@.take(i as int + 1).drop_last() =~= children@.take(i as int));
            assert(children@.take(i as int + 1).last() == children@[i as int]);
            assert(models_of(prev.push(node)) == models_of(prev).push(node.model())) by {
                assert(prev.push(node).drop_last() =~= prev);
                assert(prev.push(node).last() == node);
            }
        }
        child_nodes.push(node);
        i = i + 1;
    }
    proof {
        assert(children@.take(n as int) =~= children@);
    }
    let content = stack_nodes(child_nodes, spacing, alignment, justify, vertical, inner_limits);
    if padding > 0 {
        let r = pad_node(content, padding);
        proof {
            assert(r.model() =~= spec_elem_stack_layout(children@, spacing as int, alignment,
                justify, padding as int, vertical, limits, mm));
        }
        r
    } else {
        proof {
            assert(content.model() =~= spec_elem_stack_layout(children@, spacing as int, alignment,
                justify, padding as int, vertical, limits, mm));
        }
        content
    }
}

/// Whether an event is a press of the left mouse button.
pub open spec fn is_left_press(event: Event) -> bool {
    event matches Event::Mouse(mouse::Event::ButtonPressed { button: mouse::Button::Left, .. })
}

/// What dispatching one event into a widget does: the messages it publishes,
/// in order, and whether it captures the event. A text ignores everything; a
/// button with a message captures a left press inside its bounds and
/// publishes that message; a stack forwards the event to its children (the
/// cursor translated into its own frame) when the cursor is over its bounds.
pub open spec fn spec_update<Message>(
    e: Element<Message>,
    node: NodeModel,
    cursor: Point,
    event: Event,
) -> (Seq<Message>, bool)
    decreases e, 1int,
{
    match e {
        Element::Text(_) => (Seq::empty(), false),
        Element::Button(b) => {
            if is_left_press(event) && spec_over(cursor, node.bounds) {
                match b.on_press {
                    Some(msg) => (seq![msg], true),
                    None => (Seq::empty(), false),
                }
            } else {
                (Seq::empty(), false)
            }
        },
        Element::VStack(s) => {
            if spec_over(cursor, node.bounds) {
                spec_update_children(
                    s.children@,
                    node.children,
                    Point {
                        x: (cursor.x - node.bounds.x) as i64,
                        y: (cursor.y - node.bounds.y) as i64,
                    },
                    event,
                )
            } else {
                (Seq::empty(), false)
            }
        },
        Element::HStack(s) => {
            if spec_over(cursor, node.bounds) {
                spec_update_children(
                    s.children@,
                    node.children,
                    Point {
                        x: (cursor.x - node.bounds.x) as i64,
                        y: (cursor.y - node.bounds.y) as i64,
                    },
                    event,
                )
            } else {
                (Seq::empty(), false)
            }
        },
    }
}

/// Event dispatch over paired widget and node children, zipped positionally
/// and truncated to the shorter list.
pub open spec fn spec_update_children<Message>(
    ws: Seq<Element<Message>>,
    ns: Seq<NodeModel>,
    cursor: Point,
    event: Event,
) -> (Seq<Message>, bool)
    decreases ws, 0int,
{
    if ws.len() == 0 || ns.len() == 0 {
        (Seq::empty(), false)
    } else {
        let head = spec_update(ws[0], ns[0], cursor, event);
        let rest = spec_update_children(
            ws.subrange(1, ws.len() as int),
            ns.subrange(1, ns.len() as int),
            cursor,
            event,
        );
        (head.0 + rest.0, head.1 || rest.1)
    }
}

impl<Message: Copy> Element<Message> {
    /// Dispatches one event into this widget: messages are published into
    /// the shell in order, a hit captures the event and requests a redraw.
    pub fn update(&self, node: &Node, cursor: Cursor, event: &Event, shell: &mut Shell<Message>)
        -> (status: Status)
        ensures
            ({
                let u = spec_update(*self, node.model(), cursor.position, *event);
                &&& final(shell).messages_view() == old(shell).messages_view() + u.0
                &&& status == (if u.1 {
                    Status::Captured
                } else {
                    Status::Ignored
                })
                &&& final(shell).status() == spec_status_merge(old(shell).status(), status)
                &&& final(shell).redraw() == (if u.1 {
                    RedrawRequest::NextFrame
                } else {
                    old(shell).redraw()
                })
                &&& final(shell).invalid() == old(shell).invalid()
            }),
        decreases self, 1int,
    {
        match self {
            Element::Text(_) => {
                proof {
                    assert(old(shell).messages_view() + Seq::<Message>::empty() =~= old(shell).messages_view());
                }
                Status::Ignored
            },
            Element::Button(b) => {
                let pressed = matches!(
                    event,
                    Event::Mouse(mouse::Event::ButtonPressed { button: mouse::Button::Left, .. })
                );
                proof {
                    assert(pressed == is_left_press(*event));
                }
                if pressed && cursor.is_over(node.bounds) {
                    if let Some(msg) = b.on_press {
                        shell.publish(msg);
                        shell.capture_event();
                        shell.request_redraw();
                        proof {
                            assert(final(shell).messages_view() =~= old(shell).messages_view()
                                + seq![msg]);
                        }
                        return Status::Captured;
                    }
                }
                proof {
                    assert(old(shell).messages_view() + Seq::<Message>::empty() =~= old(shell).messages_view());
                }
                Status::Ignored
            },
            Element::VStack(s) => {
                if cursor.is_over(node.bounds) {
                    let translated = Cursor::new(Point::new(
                        cursor.position.x - node.bounds.x as i64,
                        cursor.position.y - node.bounds.y as i64,
                    ));
                    update_children(
                        s.children.as_slice(),
                        node.children.as_slice(),
                        translated,
                        event,
                        shell,
                    )
                } else {
                    proof {
                        assert(old(shell).messages_view() + Seq::<Message>::empty() =~= old(shell).messages_view());
                    }
                    Status::Ignored
                }
            },
            Element::HStack(s) => {
                if cursor.is_over(node.bounds) {
                    let translated = Cursor::new(Point::new(
                        cursor.position.x - node.bounds.x as i64,
                        cursor.position.y - node.bounds.y as i64,
                    ));
                    update_children(
                        s.children.as_slice(),
                        node.children.as_slice(),
                        translated,
                        event,
                        shell,
                    )
                } else {
                    proof {
                        assert(old(shell).messages_view() + Seq::<Message>::empty() =~= old(shell).messages_view());
                    }
                    Status::Ignored
                }
            },
        }
    }

    /// The mouse interaction this widget shows for the given cursor: a
    /// pointer where a left press would be captured, idle elsewhere.
    pub fn mouse_interaction(&self, node: &Node, cursor: Cursor) -> (r: Interaction)
        ensures
            r == (if spec_update(*self, node.model(), cursor.position, Event::Mouse(
                mouse::Event::ButtonPressed {
                    button: mouse::Button::Left,
                    position: cursor.position,
                },
            )).1 {
                Interaction::Pointer
            } else {
                Interaction::Idle
            }),
    {
        let mut probe: Shell<Message> = Shell::new(Vec::new());
        let ev = Event::Mouse(mouse::Event::ButtonPressed {
            button: mouse::Button::Left,
            position: cursor.position,
        });
        match self.update(node, cursor, &ev, &mut probe) {
            Status::Captured => Interaction::Pointer,
            Status::Ignored => Interaction::Idle,
        }
    }
}

/// Dispatches one event into paired widget and node children, zipped
/// positionally and truncated to the shorter list.
fn update_children<Message: Copy>(
    ws: &[Element<Message>],
    ns: &[Node],
    cursor: Cursor,
    event: &Event,
    shell: &mut Shell<Message>,
) -> (status: Status)
    ensures
        ({
            let u = spec_update_children(ws@, models_of(ns@), cursor.position, *event);
            &&& final(shell).messages_view() == old(shell).messages_view() + u.0
            &&& status == (if u.1 {
                Status::Captured
            } else {
                Status::Ignored
            })
            &&& final(shell).status() == spec_status_merge(old(shell).status(), status)
            &&& final(shell).redraw() == (if u.1 {
                RedrawRequest::NextFrame
            } else {
                old(shell).redraw()
            })
            &&& final(shell).invalid() == old(shell).invalid()
        }),
    decreases ws@, 0int,
{
    if ws.len() == 0 || ns.len() == 0 {
        proof {
            lemma_models_of(ns@);
            assert(old(shell).messages_view() + Seq::<Message>::empty() =~= old(shell).messages_view());
        }
        return Status::Ignored;
    }
    proof {
        lemma_models_of(ns@);
    }
    let s1 = ws[0].update(&ns[0], cursor, event, shell);
    let ghost mid = *shell;
    let s2 = update_children(&ws[1..ws.len()], &ns[1..ns.len()], cursor, event, shell);
    proof {
        let all = models_of(ns@);
        let tail_ns = ns@.subrange(1, ns@.len() as int);
        lemma_models_of(tail_ns);
        assert forall|k: int| 0 <= k < tail_ns.len() implies models_of(tail_ns)[k]
            == all.subrange(1, all.len() as int)[k] by {
            assert(tail_ns[k] == ns@[k + 1]);
            assert(models_of(tail_ns)[k] == tail_ns[k].model());
        }
        assert(models_of(tail_ns) =~= all.subrange(1, all.len() as int));
        let head = spec_update(ws@[0], all[0], cursor.position, *event);
        let rest = spec_update_children(ws@.subrange(1, ws@.len() as int), models_of(tail_ns),
            cursor.position, *event);
        assert(final(shell).messages_view() =~= old(shell).messages_view() + (head.0 + rest.0));
    }
    s1.merge(s2)
}

/// Runs a child widget whose message type differs from the parent's: the
/// child's update runs against a local shell, which is then merged into the
/// parent's shell through the mapping `f`. No message, capture, redraw
/// request, or invalidation from the child is lost or downgraded.
pub fn update_mapped<A: Copy, B, F: Fn(A) -> B>(
    child: &Element<A>,
    node: &Node,
    cursor: Cursor,
    event: &Event,
    shell: &mut Shell<B>,
    f: F,
) -> (status: Status)
    requires
        forall|i: int| 0 <= i < spec_update(*child, node.model(), cursor.position, *event).0.len()
            ==> call_requires(
                f,
                (spec_update(*child, node.model(), cursor.position, *event).0[i],),
            ),
    ensures
        ({
            let u = spec_update(*child, node.model(), cursor.position, *event);
            &&& final(shell).messages_view().len() == old(shell).messages_view().len() + u.0.len()
            &&& (forall|i: int| 0 <= i < old(shell).messages_view().len() ==> final(shell).messages_view()[i] == old(shell).messages_view()[i])
            &&& (forall|i: int| 0 <= i < u.0.len() ==> call_ensures(
                f,
                (u.0[i],),
                final(shell).messages_view()[old(shell).messages_view().len() + i],
            ))
            &&& status == (if u.1 {
                Status::Captured
            } else {
                Status::Ignored
            })
            &&& final(shell).status() == spec_status_merge(old(shell).status(), status)
            &&& final(shell).redraw() == spec_redraw_min(old(shell).redraw(), if u.1 {
                RedrawRequest::NextFrame
            } else {
                RedrawRequest::Wait
            })
            &&& final(shell).invalid() == old(shell).invalid()
        }),
{
    let mut local: Shell<A> = Shell::new(Vec::new());
    let status = child.update(node, cursor, event, &mut local);
    proof {
        let u = spec_update(*child, node.model(), cursor.position, *event);
        assert(local.messages_view() =~= u.0);
    }
    shell.merge(local, f);
    status
}

/// Reconciliation rebuilds after a kind change: diffing a tree against a
/// widget of a different kind discards the tree's whole subtree state and
/// snapshots the widget from scratch.
pub proof fn lemma_tag_mismatch_resets<Message>(t: TreeModel, w: Element<Message>)
    requires
        t.tag != w.spec_tag(),
    ensures
        spec_diff(t, w) == spec_new_tree(w),
{
}

/// Diffing a freshly snapshotted tree against the widget it came from
/// changes nothing.
pub proof fn lemma_diff_fresh_is_fresh<Message>(w: Element<Message>)
    ensures
        spec_diff(spec_new_tree(w), w) == spec_new_tree(w),
    decreases w, 6int,
{
    let fresh = spec_new_tree(w);
    match w {
        Element::Text(_) | Element::Button(_) => {
            assert(spec_new_children(w.spec_children()) =~= Seq::<TreeModel>::empty());
            assert(spec_diff(fresh, w) =~= fresh);
        },
        Element::VStack(_) | Element::HStack(_) => {
            let ws = w.spec_children();
            lemma_spec_new_children(ws);
            lemma_spec_diff_children(spec_new_children(ws), ws);
            assert forall|i: int| 0 <= i < ws.len() implies spec_diff_children(
                spec_new_children(ws),
                ws,
            )[i] == spec_new_children(ws)[i] by {
                assert(ws[i] == w.spec_children()[i]);
                lemma_diff_fresh_is_fresh(ws[i]);
            }
            assert(spec_diff_children(spec_new_children(ws), ws) =~= spec_new_children(ws));
            assert(spec_diff(fresh, w) =~= fresh);
        },
    }
}

/// Reconciliation is idempotent: diffing a tree against the same widget tree
/// twice in a row gives the same tree as diffing once — no state is lost and
/// no nodes drift.
pub proof fn lemma_diff_idempotent<Message>(t: TreeModel, w: Element<Message>)
    ensures
        spec_diff(spec_diff(t, w), w) == spec_diff(t, w),
    decreases w, 7int,
{
    let once = spec_diff(t, w);
    if t.tag == w.spec_tag() {
        match w {
            Element::Text(_) | Element::Button(_) => {
                assert(spec_diff(once, w) =~= once);
            },
            Element::VStack(_) | Element::HStack(_) => {
                let ws = w.spec_children();
                let cs = spec_diff_children(t.children, ws);
                lemma_spec_diff_children(t.children, ws);
                lemma_spec_diff_children(cs, ws);
                assert forall|i: int| 0 <= i < ws.len() implies spec_diff_children(cs, ws)[i]
                    == cs[i] by {
                    assert(ws[i] == w.spec_children()[i]);
                    if i < t.children.len() {
                        lemma_diff_idempotent(t.children[i], ws[i]);
                    } else {
                        lemma_diff_fresh_is_fresh(ws[i]);
                    }
                }
                assert(spec_diff_children(cs, ws) =~= cs);
                assert(spec_diff(once, w) =~= once);
            },
        }
    } else {
        lemma_diff_fresh_is_fresh(w);
    }
}

} // verus!
