use shellui::geometry::{Length, Limits, Rectangle, Size};
use shellui::layout::{layout, stack_nodes, FixedMeasurer, Node, PlaceholderMeasurer, TextMeasurer};
use shellui::view::{Alignment, Button, HStack, Justify, Text, VStack, ViewTree};

fn boxes(sizes: &[(u32, u32)]) -> Vec<Node> {
    sizes.iter().map(|&(w, h)| Node::new(Rectangle::new(0, 0, w, h))).collect()
}

fn exact_height(h: u32) -> Limits {
    Limits { min_width: 0, min_height: h, max_width: 1000, max_height: h }
}

fn fixed(w: u32, h: u32) -> FixedMeasurer {
    FixedMeasurer { size: Size::new(w, h) }
}

fn text() -> ViewTree {
    ViewTree::Text(Text::new("a".to_string()))
}

fn bounds_of(n: &Node) -> (u32, u32, u32, u32) {
    (n.bounds.x, n.bounds.y, n.bounds.width, n.bounds.height)
}

#[test]
fn vstack_two_texts_end_to_end() {
    let m = fixed(20, 8);
    let stack = VStack::new(vec![text(), text()]).spacing(10).padding(5);
    let node = layout(&ViewTree::VStack(stack), Limits::loose(1000, 1000), &m);
    // main = 8 + 10 + 8 = 26, plus 2*5 padding = 36 tall; cross = 20 + 10 = 30 wide
    assert_eq!(bounds_of(&node), (0, 0, 30, 36));
    assert_eq!(node.children.len(), 2);
    assert_eq!(bounds_of(&node.children[0]), (5, 5, 20, 8));
    assert_eq!(bounds_of(&node.children[1]), (5, 23, 20, 8));
}

#[test]
fn empty_stack_is_zero_for_every_policy() {
    let m = fixed(20, 8);
    let justifies = [
        Justify::Start,
        Justify::Center,
        Justify::End,
        Justify::SpaceBetween,
        Justify::SpaceAround,
        Justify::SpaceEvenly,
    ];
    for j in justifies {
        let v = VStack::new(vec![]).spacing(9).padding(7).justify(j).alignment(Alignment::Center);
        let node = layout(&ViewTree::VStack(v), Limits::loose(100, 100), &m);
        assert_eq!(bounds_of(&node), (0, 0, 0, 0));
        assert!(node.children.is_empty());
        let h = HStack::new(vec![]).spacing(9).padding(7).justify(j);
        let node = layout(&ViewTree::HStack(h), Limits::loose(100, 100), &m);
        assert_eq!(bounds_of(&node), (0, 0, 0, 0));
        assert!(node.children.is_empty());
    }
}

#[test]
fn single_child_space_between_degenerates_to_start() {
    let m = fixed(20, 8);
    let a = VStack::new(vec![text()]).justify(Justify::SpaceBetween);
    let b = VStack::new(vec![text()]).justify(Justify::Start);
    let na = layout(&ViewTree::VStack(a), Limits::loose(100, 100), &m);
    let nb = layout(&ViewTree::VStack(b), Limits::loose(100, 100), &m);
    assert_eq!(bounds_of(&na), bounds_of(&nb));
    assert_eq!(bounds_of(&na.children[0]), bounds_of(&nb.children[0]));
}

#[test]
fn single_child_space_around_matches_space_evenly() {
    // Both place the one child after half the leftover space.
    let limits = exact_height(100);
    let na = stack_nodes(boxes(&[(10, 10)]), 0, Alignment::Default, Justify::SpaceAround, true,
        limits);
    let nb = stack_nodes(boxes(&[(10, 10)]), 0, Alignment::Default, Justify::SpaceEvenly, true,
        limits);
    assert_eq!(bounds_of(&na.children[0]), bounds_of(&nb.children[0]));
    // leftover is 100 - 10 = 90, so the child sits at 45.
    assert_eq!(na.children[0].bounds.y, 45);
}

#[test]
fn padding_offsets_children_and_grows_bounds() {
    let m = fixed(20, 8);
    let p = 6u32;
    let padded = VStack::new(vec![text(), text()]).spacing(4).padding(p);
    let flat = VStack::new(vec![text(), text()]).spacing(4);
    let limits = Limits::loose(500, 500);
    let shrunk = limits.shrink(p);
    let np = layout(&ViewTree::VStack(padded), limits, &m);
    let nf = layout(&ViewTree::VStack(flat), shrunk, &m);
    assert_eq!(np.bounds.width, nf.bounds.width + 2 * p);
    assert_eq!(np.bounds.height, nf.bounds.height + 2 * p);
    assert_eq!(np.children.len(), nf.children.len());
    for (cp, cf) in np.children.iter().zip(nf.children.iter()) {
        assert_eq!(cp.bounds.x, cf.bounds.x + p);
        assert_eq!(cp.bounds.y, cf.bounds.y + p);
        assert_eq!(cp.bounds.width, cf.bounds.width);
        assert_eq!(cp.bounds.height, cf.bounds.height);
    }
}

#[test]
fn spacing_raises_main_size_by_gaps_times_delta() {
    let m = fixed(10, 10);
    let limits = Limits::loose(1000, 1000);
    let n = 4u32;
    let children = || vec![text(), text(), text(), text()];
    let lo = layout(&ViewTree::VStack(VStack::new(children()).spacing(3)), limits, &m);
    let hi = layout(&ViewTree::VStack(VStack::new(children()).spacing(8)), limits, &m);
    assert_eq!(hi.bounds.height, lo.bounds.height + (n - 1) * 5);
}

#[test]
fn center_alignment_halves_leftover_cross_space() {
    // A 30-wide child fixes the stack width; the 10-wide child is centered
    // with (30 - 10) / 2 = 10, and the 15-wide child with 7 (truncating).
    let node = stack_nodes(boxes(&[(30, 10), (10, 10), (15, 10)]), 0, Alignment::Center,
        Justify::Start, true, Limits::loose(1000, 1000));
    assert_eq!(node.bounds.width, 30);
    assert_eq!(node.children[0].bounds.x, 0);
    assert_eq!(node.children[1].bounds.x, 10);
    assert_eq!(node.children[2].bounds.x, 7);
}

#[test]
fn end_alignment_uses_whole_leftover() {
    let node = stack_nodes(boxes(&[(30, 10), (10, 10)]), 0, Alignment::End, Justify::Start, true,
        Limits::loose(1000, 1000));
    assert_eq!(node.children[1].bounds.x, 20);
}

#[test]
fn justify_end_and_center_use_leftover_space() {
    let limits = exact_height(100);
    let end = stack_nodes(boxes(&[(10, 10)]), 0, Alignment::Default, Justify::End, true, limits);
    assert_eq!(end.children[0].bounds.y, 90);
    let center = stack_nodes(boxes(&[(10, 10)]), 0, Alignment::Default, Justify::Center, true,
        limits);
    assert_eq!(center.children[0].bounds.y, 45);
}

#[test]
fn space_between_spreads_extra_between_children() {
    let node = stack_nodes(boxes(&[(10, 10), (10, 10), (10, 10)]), 0, Alignment::Default,
        Justify::SpaceBetween, true, exact_height(90));
    // content = 30, extra = 60, two gaps of 30 each.
    assert_eq!(node.children[0].bounds.y, 0);
    assert_eq!(node.children[1].bounds.y, 40);
    assert_eq!(node.children[2].bounds.y, 80);
}

#[test]
fn space_around_uses_half_gap_before_first_child_only() {
    // The leading offset is half the per-item share; each following gap is a
    // whole share; nothing is reserved after the last child.
    let node = stack_nodes(boxes(&[(10, 10), (10, 10)]), 0, Alignment::Default,
        Justify::SpaceAround, true, exact_height(80));
    // content = 20, extra = 60, per item = 30: first at 15, second at 15+10+30.
    assert_eq!(node.children[0].bounds.y, 15);
    assert_eq!(node.children[1].bounds.y, 55);
}

#[test]
fn space_evenly_shares_extra_across_all_gaps() {
    let node = stack_nodes(boxes(&[(10, 10), (10, 10)]), 0, Alignment::Default,
        Justify::SpaceEvenly, true, exact_height(80));
    // content = 20, extra = 60, three gaps of 20.
    assert_eq!(node.children[0].bounds.y, 20);
    assert_eq!(node.children[1].bounds.y, 50);
}

#[test]
fn no_extra_space_degenerates_every_policy_to_start() {
    let m = fixed(10, 50);
    let limits = Limits::loose(100, 60);
    for j in [Justify::End, Justify::Center, Justify::SpaceBetween, Justify::SpaceAround,
        Justify::SpaceEvenly] {
        let v = VStack::new(vec![text(), text()]).justify(j);
        let node = layout(&ViewTree::VStack(v), limits, &m);
        // content (100) exceeds the 60-pixel maximum: no extra space, so
        // children start at the top and may overflow the container.
        assert_eq!(node.children[0].bounds.y, 0);
        assert_eq!(node.children[1].bounds.y, 50);
        assert_eq!(node.bounds.height, 60);
    }
}

#[test]
fn text_clamps_into_limits_on_each_axis() {
    let m = fixed(200, 4);
    let limits = Limits {
        min_width: 10,
        min_height: 30,
        max_width: 120,
        max_height: 300,
    };
    let node = layout(&text(), limits, &m);
    assert_eq!(bounds_of(&node), (0, 0, 120, 30));
}

#[test]
fn button_adds_twice_its_padding_to_the_label() {
    let m = fixed(20, 8);
    let b = Button::new("go".to_string());
    // Default button padding is 8 pixels.
    let node = layout(&ViewTree::Button(b), Limits::loose(500, 500), &m);
    assert_eq!(bounds_of(&node), (0, 0, 36, 24));
}

#[test]
fn placeholder_measurer_is_eight_per_character() {
    let m = PlaceholderMeasurer;
    assert_eq!(m.measure("abc", 16), Size::new(24, 20));
    assert_eq!(m.measure("", 16), Size::new(1, 20));
}

#[test]
fn hstack_lays_out_along_the_horizontal_axis() {
    let m = fixed(10, 30);
    let h = HStack::new(vec![text(), text()]).spacing(5);
    let node = layout(&ViewTree::HStack(h), Limits::loose(500, 500), &m);
    assert_eq!(bounds_of(&node), (0, 0, 25, 30));
    assert_eq!(node.children[0].bounds.x, 0);
    assert_eq!(node.children[1].bounds.x, 15);
}

#[test]
fn dimension_arithmetic_saturates_at_the_cap() {
    // A spacing so large the content size saturates: the container still
    // clamps into its limits, and the second child's position pins at the
    // largest representable coordinate.
    let node = stack_nodes(boxes(&[(10, 10), (10, 10)]), u32::MAX, Alignment::Default,
        Justify::Start, true, Limits::loose(100, 100));
    assert_eq!(node.bounds.height, 100);
    assert_eq!(node.children[0].bounds.y, 0);
    assert_eq!(node.children[1].bounds.y, u32::MAX);
}

#[test]
fn length_resolves_per_policy() {
    assert_eq!(Length::Shrink.resolve(100, 30), 30);
    assert_eq!(Length::Fill.resolve(100, 30), 100);
    assert_eq!(Length::Fixed(40).resolve(100, 30), 40);
    assert_eq!(Length::Fixed(140).resolve(100, 30), 100);
}

#[test]
fn limits_narrow_but_never_widen() {
    let l = Limits::loose(100, 200);
    let l2 = l.constrain_width(50).constrain_height(300);
    assert_eq!(l2.max_width, 50);
    assert_eq!(l2.max_height, 200);
}

#[test]
fn size_max_is_componentwise() {
    assert_eq!(Size::new(3, 9).max(Size::new(5, 2)), Size::new(5, 9));
}

#[test]
fn nested_stacks_compose() {
    let m = fixed(10, 10);
    let inner = ViewTree::HStack(HStack::new(vec![text(), text()]).spacing(2));
    let outer = VStack::new(vec![inner, text()]).spacing(3);
    let node = layout(&ViewTree::VStack(outer), Limits::loose(500, 500), &m);
    assert_eq!(node.children.len(), 2);
    // inner hstack: 10+2+10 = 22 wide, 10 tall
    assert_eq!(bounds_of(&node.children[0]), (0, 0, 22, 10));
    assert_eq!(node.children[0].children.len(), 2);
    assert_eq!(bounds_of(&node.children[1]), (0, 13, 10, 10));
    assert_eq!(bounds_of(&node), (0, 0, 22, 23));
}
