//! The declarative view tree: texts, buttons, and vertical/horizontal
//! stacks, rebuilt by the application on every frame.

use vstd::prelude::*;
use crate::background::{Background, Color};

verus! {

/// Cross-axis placement of a stack's children.
#[derive(Debug, Clone, Copy, PartialEq, Eq, Structural, Default)]
pub enum Alignment {
    Start,
    Center,
    End,
    #[default]
    Default,
}

/// Main-axis distribution of a stack's children.
#[derive(Debug, Clone, Copy, PartialEq, Eq, Structural, Default)]
pub enum Justify {
    #[default]
    Start,
    Center,
    End,
    SpaceBetween,
    SpaceAround,
    SpaceEvenly,
}

/// A text view displaying a string.
#[derive(Debug, Clone)]
pub struct Text {
    pub string: String,
    pub size: Option<u32>,
    pub color: Option<Color>,
}

impl Text {
    pub fn new(s: String) -> (t: Text)
        ensures
            t.string@ == s@,
            t.size == Option::<u32>::None,
            t.color == Option::<Color>::None,
    {
        Text { string: s, size: None, color: None }
    }

    /// Sets the font size in pixels; unset means the default size.
    pub fn size(self, size: u32) -> (t: Text)
        ensures
            t.string@ == self.string@,
            t.size == Some(size),
            t.color == self.color,
    {
        Text { size: Some(size), ..self }
    }

    /// Sets the text color; unset means black.
    pub fn color(self, color: Color) -> (t: Text)
        ensures
            t.string@ == self.string@,
            t.size == self.size,
            t.color == Some(color),
    {
        Text { color: Some(color), ..self }
    }
}

/// A clickable button. `on_click` carries the identifier the host hands back
/// when hit testing reports the button was pressed.
#[derive(Debug, Clone)]
pub struct Button {
    pub label: String,
    pub on_click: Option<u64>,
    pub padding: u32,
    pub background: Option<Background>,
    pub text_color: Option<Color>,
    pub text_size: Option<u32>,
}

impl Button {
    pub fn new(label: String) -> (b: Button)
        ensures
            b.label@ == label@,
            b.on_click == Option::<u64>::None,
            b.padding == 8u32,
            b.background == Some(Background::Color(Color { r: 51, g: 128, b: 255, a: 255 })),
            b.text_color == Some(Color { r: 255, g: 255, b: 255, a: 255 }),
            b.text_size == Option::<u32>::None,
    {
        Button {
            label,
            on_click: None,
            padding: 8,
            background: Some(Background::Color(Color { r: 51, g: 128, b: 255, a: 255 })),
            text_color: Some(Color { r: 255, g: 255, b: 255, a: 255 }),
            text_size: None,
        }
    }

    /// Sets the identifier reported when this button is clicked.
    pub fn on_click(self, id: u64) -> (b: Button)
        ensures
            b == (Button { on_click: Some(id), ..self }),
    {
        Button { on_click: Some(id), ..self }
    }

    pub fn padding(self, padding: u32) -> (b: Button)
        ensures
            b == (Button { padding, ..self }),
    {
        Button { padding, ..self }
    }

    pub fn background(self, background: Background) -> (b: Button)
        ensures
            b == (Button { background: Some(background), ..self }),
    {
        Button { background: Some(background), ..self }
    }

    pub fn text_color(self, color: Color) -> (b: Button)
        ensures
            b == (Button { text_color: Some(color), ..self }),
    {
        Button { text_color: Some(color), ..self }
    }

    pub fn text_size(self, size: u32) -> (b: Button)
        ensures
            b == (Button { text_size: Some(size), ..self }),
    {
        Button { text_size: Some(size), ..self }
    }

    pub fn clear_background(self) -> (b: Button)
        ensures
            b == (Button { background: Option::<Background>::None, ..self }),
    {
        Button { background: None, ..self }
    }
}

/// A vertical stack of views.
#[derive(Debug)]
pub struct VStack {
    pub spacing: u32,
    pub alignment: Alignment,
    pub justify: Justify,
    pub padding: u32,
    pub background: Option<Background>,
    pub children: Vec<ViewTree>,
}

impl VStack {
    pub fn new(children: Vec<ViewTree>) -> (s: VStack)
        ensures
            s.spacing == 0u32,
            s.alignment == Alignment::Default,
            s.justify == Justify::Start,
            s.padding == 0u32,
            s.background == Option::<Background>::None,
            s.children == children,
    {
        VStack {
            spacing: 0,
            alignment: Alignment::Default,
            justify: Justify::Start,
            padding: 0,
            background: None,
            children,
        }
    }

    /// A stack with no children.
    pub fn empty() -> (s: VStack)
        ensures
            s.spacing == 0u32,
            s.alignment == Alignment::Default,
            s.justify == Justify::Start,
            s.padding == 0u32,
            s.background == Option::<Background>::None,
            s.children@ == Seq::<ViewTree>::empty(),
    {
        VStack::new(Vec::new())
    }

    pub fn spacing(self, spacing: u32) -> (s: VStack)
        ensures
            s == (VStack { spacing, ..self }),
    {
        VStack { spacing, ..self }
    }

    pub fn alignment(self, alignment: Alignment) -> (s: VStack)
        ensures
            s == (VStack { alignment, ..self }),
    {
        VStack { alignment, ..self }
    }

    pub fn justify(self, justify: Justify) -> (s: VStack)
        ensures
            s == (VStack { justify, ..self }),
    {
        VStack { justify, ..self }
    }

    pub fn leading(self) -> (s: VStack)
        ensures
            s == (VStack { justify: Justify::Start, ..self }),
    {
        VStack { justify: Justify::Start, ..self }
    }

    pub fn trailing(self) -> (s: VStack)
        ensures
            s == (VStack { justify: Justify::End, ..self }),
    {
        VStack { justify: Justify::End, ..self }
    }

    pub fn center_justify(self) -> (s: VStack)
        ensures
            s == (VStack { justify: Justify::Center, ..self }),
    {
        VStack { justify: Justify::Center, ..self }
    }

    pub fn space_between(self) -> (s: VStack)
        ensures
            s == (VStack { justify: Justify::SpaceBetween, ..self }),
    {
        VStack { justify: Justify::SpaceBetween, ..self }
    }

    pub fn padding(self, padding: u32) -> (s: VStack)
        ensures
            s == (VStack { padding, ..self }),
    {
        VStack { padding, ..self }
    }

    pub fn background(self, background: Background) -> (s: VStack)
        ensures
            s == (VStack { background: Some(background), ..self }),
    {
        VStack { background: Some(background), ..self }
    }

    /// Appends a child view.
    pub fn push(self, child: ViewTree) -> (s: VStack)
        ensures
            s.spacing == self.spacing,
            s.alignment == self.alignment,
            s.justify == self.justify,
            s.padding == self.padding,
            s.background == self.background,
            s.children@ == self.children@.push(child),
    {
        let mut children = self.children;
        children.push(child);
        VStack { children, ..self }
    }
}

/// A horizontal stack of views.
#[derive(Debug)]
pub struct HStack {
    pub spacing: u32,
    pub alignment: Alignment,
    pub justify: Justify,
    pub padding: u32,
    pub background: Option<Background>,
    pub children: Vec<ViewTree>,
}

impl HStack {
    pub fn new(children: Vec<ViewTree>) -> (s: HStack)
        ensures
            s.spacing == 0u32,
            s.alignment == Alignment::Default,
            s.justify == Justify::Start,
            s.padding == 0u32,
            s.background == Option::<Background>::None,
            s.children == children,
    {
        HStack {
            spacing: 0,
            alignment: Alignment::Default,
            justify: Justify::Start,
            padding: 0,
            background: None,
            children,
        }
    }

    /// A stack with no children.
    pub fn empty() -> (s: HStack)
        ensures
            s.spacing == 0u32,
            s.alignment == Alignment::Default,
            s.justify == Justify::Start,
            s.padding == 0u32,
            s.background == Option::<Background>::None,
            s.children@ == Seq::<ViewTree>::empty(),
    {
        HStack::new(Vec::new())
    }

    pub fn spacing(self, spacing: u32) -> (s: HStack)
        ensures
            s == (HStack { spacing, ..self }),
    {
        HStack { spacing, ..self }
    }

    pub fn alignment(self, alignment: Alignment) -> (s: HStack)
        ensures
            s == (HStack { alignment, ..self }),
    {
        HStack { alignment, ..self }
    }

    pub fn justify(self, justify: Justify) -> (s: HStack)
        ensures
            s == (HStack { justify, ..self }),
    {
        HStack { justify, ..self }
    }

    pub fn leading(self) -> (s: HStack)
        ensures
            s == (HStack { justify: Justify::Start, ..self }),
    {
        HStack { justify: Justify::Start, ..self }
    }

    pub fn trailing(self) -> (s: HStack)
        ensures
            s == (HStack { justify: Justify::End, ..self }),
    {
        HStack { justify: Justify::End, ..self }
    }

    pub fn center_justify(self) -> (s: HStack)
        ensures
            s == (HStack { justify: Justify::Center, ..self }),
    {
        HStack { justify: Justify::Center, ..self }
    }

    pub fn space_between(self) -> (s: HStack)
        ensures
            s == (HStack { justify: Justify::SpaceBetween, ..self }),
    {
        HStack { justify: Justify::SpaceBetween, ..self }
    }

    pub fn padding(self, padding: u32) -> (s: HStack)
        ensures
            s == (HStack { padding, ..self }),
    {
        HStack { padding, ..self }
    }

    pub fn background(self, background: Background) -> (s: HStack)
        ensures
            s == (HStack { background: Some(background), ..self }),
    {
        HStack { background: Some(background), ..self }
    }

    /// Appends a child view.
    pub fn push(self, child: ViewTree) -> (s: HStack)
        ensures
            s.spacing == self.spacing,
            s.alignment == self.alignment,
            s.justify == self.justify,
            s.padding == self.padding,
            s.background == self.background,
            s.children@ == self.children@.push(child),
    {
        let mut children = self.children;
        children.push(child);
        HStack { children, ..self }
    }
}

/// A node of the declarative view tree.
#[derive(Debug)]
pub enum ViewTree {
    Text(Text),
    Button(Button),
    VStack(VStack),
    HStack(HStack),
}

impl From<Text> for ViewTree {
    fn from(t: Text) -> ViewTree {
        ViewTree::Text(t)
    }
}

impl vstd::std_specs::convert::FromSpecImpl<Text> for ViewTree {
    open spec fn obeys_from_spec() -> bool {
        true
    }

    open spec fn from_spec(t: Text) -> ViewTree {
        ViewTree::Text(t)
    }
}

impl From<Button> for ViewTree {
    fn from(b: Button) -> ViewTree {
        ViewTree::Button(b)
    }
}

impl vstd::std_specs::convert::FromSpecImpl<Button> for ViewTree {
    open spec fn obeys_from_spec() -> bool {
        true
    }

    open spec fn from_spec(b: Button) -> ViewTree {
        ViewTree::Button(b)
    }
}

impl From<VStack> for ViewTree {
    fn from(s: VStack) -> ViewTree {
        ViewTree::VStack(s)
    }
}

impl vstd::std_specs::convert::FromSpecImpl<VStack> for ViewTree {
    open spec fn obeys_from_spec() -> bool {
        true
    }

    open spec fn from_spec(s: VStack) -> ViewTree {
        ViewTree::VStack(s)
    }
}

impl From<HStack> for ViewTree {
    fn from(s: HStack) -> ViewTree {
        ViewTree::HStack(s)
    }
}

impl vstd::std_specs::convert::FromSpecImpl<HStack> for ViewTree {
    open spec fn obeys_from_spec() -> bool {
        true
    }

    open spec fn from_spec(s: HStack) -> ViewTree {
        ViewTree::HStack(s)
    }
}

impl ViewTree {
    pub fn text(s: String) -> (v: ViewTree)
        ensures
            v matches ViewTree::Text(t) && t.string@ == s@ && t.size == Option::<u32>::None
                && t.color == Option::<Color>::None,
    {
        ViewTree::Text(Text::new(s))
    }

    pub fn button(label: String) -> (v: ViewTree)
        ensures
            v matches ViewTree::Button(b) && b.label@ == label@
                && b.on_click == Option::<u64>::None,
    {
        ViewTree::Button(Button::new(label))
    }

    pub fn vstack(children: Vec<ViewTree>) -> (v: ViewTree)
        ensures
            v matches ViewTree::VStack(s) && s.children == children && s.spacing == 0u32
                && s.padding == 0u32 && s.justify == Justify::Start
                && s.alignment == Alignment::Default,
    {
        ViewTree::VStack(VStack::new(children))
    }

    pub fn hstack(children: Vec<ViewTree>) -> (v: ViewTree)
        ensures
            v matches ViewTree::HStack(s) && s.children == children && s.spacing == 0u32
                && s.padding == 0u32 && s.justify == Justify::Start
                && s.alignment == Alignment::Default,
    {
        ViewTree::HStack(HStack::new(children))
    }
}

} // verus!
