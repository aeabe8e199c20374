use shellui::background::{Background, Color};
use shellui::geometry::{Limits, Rectangle, Size};
use shellui::layout::{layout, FixedMeasurer};
use shellui::render::{
    blend_pixel, composite_glyph, display_list, fill_rect, mask_to_pixels, rgba_to_pixels,
    DrawCommand, Glyph, GlyphCache, TRIM_INTERVAL,
};
use shellui::view::{Text, VStack, ViewTree};

fn fixed(w: u32, h: u32) -> FixedMeasurer {
    FixedMeasurer { size: Size::new(w, h) }
}

#[test]
fn color_packs_as_rgb() {
    assert_eq!(Color::new(1, 2, 3, 255).to_u32(), 0x010203);
    assert_eq!(Color::new(255, 255, 255, 0).to_u32(), 0xFFFFFF);
}

#[test]
fn display_list_emits_backgrounds_before_children() {
    let m = fixed(20, 8);
    let tree = ViewTree::VStack(
        VStack::new(vec![ViewTree::Text(Text::new("hi".to_string()))])
            .background(Background::Color(Color::new(9, 9, 9, 255)))
            .padding(5),
    );
    let node = layout(&tree, Limits::loose(500, 500), &m);
    let commands = display_list(&tree, &node, 100, 10);
    assert_eq!(commands.len(), 2);
    match &commands[0] {
        DrawCommand::Quad { bounds, color } => {
            assert_eq!(*bounds, Rectangle::new(100, 10, 30, 18));
            assert_eq!(*color, Color::new(9, 9, 9, 255));
        },
        _ => panic!("expected the background quad first"),
    }
    match &commands[1] {
        DrawCommand::Glyphs { content, bounds, font_size, color } => {
            assert_eq!(content, "hi");
            // The text sits at the padding offset inside the stack.
            assert_eq!(*bounds, Rectangle::new(105, 15, 20, 8));
            assert_eq!(*font_size, 16);
            assert_eq!(*color, Color::new(0, 0, 0, 255));
        },
        _ => panic!("expected the text glyphs"),
    }
}

#[test]
fn fill_rect_touches_only_the_intersection() {
    let mut frame: Vec<u32> = vec![0; 12];
    // A 4 x 3 frame; the rectangle covers (1..3) x (1..2) and clips at the
    // right edge.
    fill_rect(&mut frame, 4, 3, Rectangle::new(1, 1, 5, 1), 7);
    let expected = vec![
        0, 0, 0, 0,
        0, 7, 7, 7,
        0, 0, 0, 0,
    ];
    assert_eq!(frame, expected);
}

#[test]
fn blend_is_exact_integer_arithmetic() {
    // Full alpha paints the glyph color; zero alpha would not be blended at
    // all by the compositor, but the formula still yields the background.
    assert_eq!(blend_pixel(0x000000, 0xFF_FF0000), 0xFF0000);
    assert_eq!(blend_pixel(0x0000FF, 0x80_FF0000), 0x80007F);
    assert_eq!(blend_pixel(0x123456, 0x00_FF0000), 0x123456);
}

#[test]
fn masks_convert_to_colored_pixels() {
    let pixels = mask_to_pixels(&[0, 255, 128], Color::new(10, 20, 30, 255));
    assert_eq!(pixels, vec![0, 0xFF0A141E, 0x800A141E]);
}

#[test]
fn rgba_bytes_convert_to_packed_pixels() {
    let pixels = rgba_to_pixels(&[1, 2, 3, 4, 5, 6, 7, 8]);
    assert_eq!(pixels, vec![0x04030201, 0x08070605]);
}

#[test]
fn composite_blends_only_covered_opaque_pixels() {
    let mut frame: Vec<u32> = vec![0; 4];
    // A 2 x 2 frame; a 1 x 1 fully-opaque blue glyph at (1, 0).
    let glyph: Vec<u32> = vec![0xFF_0000FF];
    composite_glyph(&mut frame, 2, 2, &glyph, 1, 1, 1, 0);
    assert_eq!(frame, vec![0, 0x0000FF, 0, 0]);
}

#[test]
fn composite_clips_to_the_frame() {
    let mut frame: Vec<u32> = vec![0; 4];
    let glyph: Vec<u32> = vec![0xFF_0000FF; 9];
    // A 3 x 3 glyph hanging off the top-left corner: only its bottom-right
    // cell lands on the frame.
    composite_glyph(&mut frame, 2, 2, &glyph, 3, 3, -2, -2);
    assert_eq!(frame, vec![0x0000FF, 0, 0, 0]);
}

#[test]
fn draw_zips_children_and_truncates_to_the_shorter_list() {
    // A node tree with fewer children than the view: the extra view child is
    // silently skipped rather than indexed out of bounds.
    let m = fixed(20, 8);
    let tree = ViewTree::VStack(VStack::new(vec![
        ViewTree::Text(Text::new("a".to_string())),
        ViewTree::Text(Text::new("b".to_string())),
    ]));
    let one_child = ViewTree::VStack(VStack::new(vec![ViewTree::Text(Text::new(
        "a".to_string(),
    ))]));
    let short_node = layout(&one_child, Limits::loose(100, 100), &m);
    let commands = display_list(&tree, &short_node, 0, 0);
    assert_eq!(commands.len(), 1);
}

#[test]
fn view_conversions_wrap_the_variant() {
    let v: ViewTree = Text::new("t".to_string()).into();
    assert!(matches!(v, ViewTree::Text(_)));
    let b: Background = Color::new(1, 2, 3, 4).into();
    assert!(matches!(b, Background::Color(_)));
    let l: shellui::geometry::Length = 7u32.into();
    assert_eq!(l, shellui::geometry::Length::Fixed(7));
}

fn empty_glyph() -> Glyph {
    Glyph { pixels: Vec::new(), width: 0, height: 0, left: 0, top: 0 }
}

#[test]
fn glyph_cache_serves_cached_entries() {
    let mut cache = GlyphCache::new();
    assert!(cache.lookup(1).is_none());
    cache.insert(1, empty_glyph());
    assert!(cache.lookup(1).is_some());
    assert!(cache.lookup(2).is_none());
}

#[test]
fn glyph_cache_sweep_evicts_unused_entries() {
    let mut cache = GlyphCache::new();
    cache.insert(1, empty_glyph());
    cache.insert(2, empty_glyph());
    // The first sweep happens on the interval boundary; both entries were
    // marked by their inserts, so both survive it.
    for _ in 0..TRIM_INTERVAL {
        cache.trim();
    }
    assert!(cache.lookup(1).is_some());
    assert!(cache.lookup(2).is_some());
    // Mark only one key before the next sweep: the other is evicted.
    cache.mark(1);
    for _ in 0..TRIM_INTERVAL {
        cache.trim();
    }
    assert!(cache.lookup(1).is_some());
    assert!(cache.lookup(2).is_none());
}
