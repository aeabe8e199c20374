//! Hit testing: which button of a view tree a click lands on.

use vstd::prelude::*;
use crate::geometry::Rectangle;
use crate::layout::{lemma_models_of, models_of, Node, NodeModel};
use crate::view::ViewTree;

verus! {

/// Whether a point lies inside a rectangle, all four edges inclusive (the
/// convention click dispatch uses).
pub open spec fn spec_contains(bounds: Rectangle, x: int, y: int) -> bool {
    bounds.x <= x <= bounds.x + bounds.width && bounds.y <= y <= bounds.y + bounds.height
}

/// The click identifier of the first button, in tree order, that the point
/// lands on: the point must lie inside the node's bounds at every level, and
/// the button must carry an identifier. Coordinates are relative to the
/// node's parent; descending translates them into the node's own frame.
pub open spec fn spec_click_target(v: ViewTree, node: NodeModel, x: int, y: int) -> Option<u64>
    decreases v, 1int,
{
    if !spec_contains(node.bounds, x, y) {
        None
    } else {
        match v {
            ViewTree::Text(_) => None,
            ViewTree::Button(b) => b.on_click,
            ViewTree::VStack(s) => spec_click_children(
                s.children@,
                node.children,
                x - node.bounds.x,
                y - node.bounds.y,
            ),
            ViewTree::HStack(s) => spec_click_children(
                s.children@,
                node.children,
                x - node.bounds.x,
                y - node.bounds.y,
            ),
        }
    }
}

/// The first hit among paired view and node children, zipped positionally
/// and truncated to the shorter list.
pub open spec fn spec_click_children(
    ws: Seq<ViewTree>,
    ns: Seq<NodeModel>,
    x: int,
    y: int,
) -> Option<u64>
    decreases ws, 0int,
{
    if ws.len() == 0 || ns.len() == 0 {
        None
    } else {
        match spec_click_target(ws[0], ns[0], x, y) {
            Some(id) => Some(id),
            None => spec_click_children(
                ws.subrange(1, ws.len() as int),
                ns.subrange(1, ns.len() as int),
                x,
                y,
            ),
        }
    }
}

/// Finds the button a click at `(x, y)` lands on, if any; coordinates are
/// relative to the node's parent. The host invokes the handler the returned
/// identifier names.
pub fn click_target(view: &ViewTree, node: &Node, x: i64, y: i64) -> (r: Option<u64>)
    ensures
        r == spec_click_target(*view, node.model(), x as int, y as int),
    decreases view, 1int,
{
    let inside = x >= node.bounds.x as i64 && x <= node.bounds.x as i64 + node.bounds.width as i64
        && y >= node.bounds.y as i64 && y <= node.bounds.y as i64 + node.bounds.height as i64;
    if !inside {
        return None;
    }
    match view {
        ViewTree::Text(_) => None,
        ViewTree::Button(b) => b.on_click,
        ViewTree::VStack(s) => click_children(
            s.children.as_slice(),
            node.children.as_slice(),
            x - node.bounds.x as i64,
            y - node.bounds.y as i64,
        ),
        ViewTree::HStack(s) => click_children(
            s.children.as_slice(),
            node.children.as_slice(),
            x - node.bounds.x as i64,
            y - node.bounds.y as i64,
        ),
    }
}

/// The first hit among paired view and node children.
fn click_children(ws: &[ViewTree], ns: &[Node], x: i64, y: i64) -> (r: Option<u64>)
    ensures
        r == spec_click_children(ws@, models_of(ns@), x as int, y as int),
    decreases ws@, 0int,
{
    if ws.len() == 0 || ns.len() == 0 {
        proof {
            lemma_models_of(ns@);
        }
        return None;
    }
    proof {
        lemma_models_of(ns@);
    }
    let head = click_target(&ws[0], &ns[0], x, y);
    match head {
        Some(id) => Some(id),
        None => {
            let r = click_children(&ws[1..ws.len()], &ns[1..ns.len()], x, y);
            proof {
                let all = models_of(ns@);
                let tail_ns = ns@.subrange(1, ns@.len() as int);
                lemma_models_of(tail_ns);
                assert forall|k: int| 0 <= k < tail_ns.len() implies models_of(tail_ns)[k]
                    == all.subrange(1, all.len() as int)[k] by {
                    assert(tail_ns[k] == ns@[k + 1]);
                    assert(models_of(tail_ns)[k] == tail_ns[k].model());
                }
                assert(models_of(tail_ns) =~= all.subrange(1, all.len() as int));
            }
            r
        },
    }
}

} // verus!
