use shellui::tree::{State, StateCell, Tag, Tree};
use shellui::widget::{diff_tree, new_tree, Button, Element, HStack, Text, VStack};

fn leaf(s: &str) -> Element<u8> {
    Element::Text(Text::new(s.to_string()))
}

fn button(s: &str) -> Element<u8> {
    Element::Button(Button::new(s.to_string()))
}

fn stack(children: Vec<Element<u8>>) -> Element<u8> {
    Element::VStack(VStack::new(children))
}

fn same_tree(a: &Tree, b: &Tree) -> bool {
    let state_matches = match (&a.state, &b.state) {
        (State::Vacant, State::Vacant) => true,
        (State::Occupied(x), State::Occupied(y)) => x.tag == y.tag && x.words == y.words,
        _ => false,
    };
    a.tag == b.tag && state_matches && a.children.len() == b.children.len()
        && a.children.iter().zip(b.children.iter()).all(|(x, y)| same_tree(x, y))
}

#[test]
fn snapshot_mirrors_the_widget_shape() {
    let w = stack(vec![leaf("a"), stack(vec![button("b")])]);
    let t = new_tree(&w);
    assert_eq!(t.children.len(), 2);
    assert!(t.children[0].children.is_empty());
    assert_eq!(t.children[1].children.len(), 1);
    assert_eq!(t.children[0].tag, Tag(1));
    assert_eq!(t.children[1].children[0].tag, Tag(2));
}

#[test]
fn diff_against_same_tree_twice_changes_nothing() {
    let w = stack(vec![leaf("a"), button("b"), stack(vec![leaf("c")])]);
    let mut t = Tree::empty();
    diff_tree(&mut t, &w);
    let mut once = Tree {
        tag: t.tag,
        state: State::Vacant,
        children: std::mem::take(&mut t.children),
    };
    let mut twice = Tree {
        tag: once.tag,
        state: State::Vacant,
        children: Vec::new(),
    };
    // Rebuild an identical tree, diff it again, and compare.
    diff_tree(&mut twice, &w);
    diff_tree(&mut twice, &w);
    diff_tree(&mut once, &w);
    assert!(same_tree(&once, &twice));
}

#[test]
fn tag_mismatch_discards_the_subtree_state() {
    let a = stack(vec![leaf("x")]);
    let mut t = new_tree(&a);
    t.state = State::new(Tag(3), vec![42]);
    t.children[0].state = State::new(Tag(1), vec![7]);
    // The widget at this position is now a button: everything is rebuilt.
    let b = button("x");
    diff_tree(&mut t, &b);
    assert_eq!(t.tag, Tag(2));
    assert!(matches!(t.state, State::Vacant));
    assert!(t.children.is_empty());
}

#[test]
fn matching_tag_preserves_state_and_reconciles_children() {
    let w = stack(vec![leaf("a"), leaf("b")]);
    let mut t = new_tree(&w);
    t.state = State::new(Tag(3), vec![10, 20]);
    t.children[0].state = State::new(Tag(1), vec![5]);
    let w2 = stack(vec![leaf("other"), leaf("text")]);
    diff_tree(&mut t, &w2);
    // Same kinds everywhere: every slot's state survives.
    assert_eq!(t.state.downcast_ref(Tag(3)), Some(&vec![10, 20]));
    assert_eq!(t.children[0].state.downcast_ref(Tag(1)), Some(&vec![5]));
    assert_eq!(t.children.len(), 2);
}

#[test]
fn diff_truncates_stale_children_and_extends_new_ones() {
    let three = stack(vec![leaf("a"), leaf("b"), leaf("c")]);
    let mut t = new_tree(&three);
    assert_eq!(t.children.len(), 3);
    let one = stack(vec![leaf("a")]);
    diff_tree(&mut t, &one);
    assert_eq!(t.children.len(), 1);
    let four = stack(vec![leaf("a"), leaf("b"), leaf("c"), leaf("d")]);
    diff_tree(&mut t, &four);
    assert_eq!(t.children.len(), 4);
    assert_eq!(t.children[3].tag, Tag(1));
}

#[test]
fn mixed_kind_children_reset_only_where_the_kind_changed() {
    let w = stack(vec![leaf("a"), leaf("b")]);
    let mut t = new_tree(&w);
    t.children[0].state = State::new(Tag(1), vec![1]);
    t.children[1].state = State::new(Tag(1), vec![2]);
    let w2 = stack(vec![leaf("a"), button("b")]);
    diff_tree(&mut t, &w2);
    assert_eq!(t.children[0].state.downcast_ref(Tag(1)), Some(&vec![1]));
    assert_eq!(t.children[1].tag, Tag(2));
    assert!(matches!(t.children[1].state, State::Vacant));
}

#[test]
fn diff_children_custom_runs_the_callbacks_positionally() {
    let mut t = Tree::empty();
    t.children.push(Tree::empty());
    t.children.push(Tree::empty());
    t.children.push(Tree::empty());
    let new_children: Vec<u32> = vec![10, 20];
    t.diff_children_custom(
        &new_children,
        |mut child: Tree, v: &u32| {
            child.state = State::new(Tag(9), vec![*v as u64]);
            child
        },
        |v: &u32| Tree {
            tag: Tag(9),
            state: State::new(Tag(9), vec![*v as u64]),
            children: Vec::new(),
        },
    );
    assert_eq!(t.children.len(), 2);
    assert_eq!(t.children[0].state.downcast_ref(Tag(9)), Some(&vec![10]));
    assert_eq!(t.children[1].state.downcast_ref(Tag(9)), Some(&vec![20]));
}

#[test]
fn tags_identify_widget_kinds() {
    assert_eq!(Tag::of(5), Tag(5));
    assert_eq!(Tag::stateless(), Tag(0));
    assert_ne!(leaf("a").tag(), button("a").tag());
    assert_eq!(leaf("a").tag(), leaf("zzz").tag());
    assert_ne!(stack(vec![]).tag(), Element::<u8>::HStack(HStack::new()).tag());
}

#[test]
fn state_downcasts_only_for_the_owning_kind() {
    let mut s = State::new(Tag(4), vec![1, 2, 3]);
    assert_eq!(s.downcast_ref(Tag(4)), Some(&vec![1, 2, 3]));
    assert_eq!(s.downcast_ref(Tag(5)), None);
    if let Some(words) = s.downcast_mut(Tag(4)) {
        words.push(4);
    }
    assert_eq!(s.downcast_ref(Tag(4)), Some(&vec![1, 2, 3, 4]));
    let mut none = State::Vacant;
    assert_eq!(none.downcast_ref(Tag(4)), None);
    assert!(none.downcast_mut(Tag(4)).is_none());
}

#[test]
fn empty_tree_is_stateless() {
    let t = Tree::empty();
    assert_eq!(t.tag, Tag(0));
    assert!(matches!(t.state, State::Vacant));
    assert!(t.children.is_empty());
    let _ = StateCell { tag: Tag(0), words: vec![] };
}
