use roots_core::geom::Size;
use roots_core::glyph::GlyphKey;
use roots_core::render::{BufferAction, BufferType, CreateRendererError, DynamicBufferState};
use roots_core::text::{line_hash, menu_metrics, observe_lines, GlyphColor, LineRecord};

fn glyph(id: u16, color: u32) -> GlyphColor {
    GlyphColor {
        key: GlyphKey {
            font_id: 3,
            glyph_id: id,
            font_size_bits: 0x41f00000,
            x_bin: 1,
            y_bin: 0,
            font_weight: 400,
            flags: 0,
        },
        color,
    }
}

fn summarize(lines: &[Vec<GlyphColor>]) -> Vec<LineRecord> {
    lines
        .iter()
        .map(|line| LineRecord { hash: line_hash(line), length: line.len() })
        .collect()
}

#[test]
fn identical_lines_trigger_no_rebuild() {
    let lines = [
        vec![glyph(1, 0xff0000ff), glyph(2, 0xff0000ff)],
        vec![glyph(3, 0xff00ff00)],
    ];
    let mut records: Vec<LineRecord> = Vec::new();

    // First frame: everything is new, so the vertex data is built.
    assert!(observe_lines(&mut records, &summarize(&lines)));
    // Re-supplying identical text and colors: no rebuild.
    assert!(!observe_lines(&mut records, &summarize(&lines)));
    assert!(!observe_lines(&mut records, &summarize(&lines)));
}

#[test]
fn changing_one_glyph_color_triggers_a_rebuild() {
    let lines = [
        vec![glyph(1, 0xff0000ff), glyph(2, 0xff0000ff)],
        vec![glyph(3, 0xff00ff00)],
    ];
    let mut records: Vec<LineRecord> = Vec::new();
    observe_lines(&mut records, &summarize(&lines));

    let recolored = [
        vec![glyph(1, 0xff0000ff), glyph(2, 0xffffffff)],
        vec![glyph(3, 0xff00ff00)],
    ];
    assert_ne!(
        line_hash(&lines[0]),
        line_hash(&recolored[0]),
        "the content hash sees the color change"
    );
    assert!(observe_lines(&mut records, &summarize(&recolored)));
    // And the new content is remembered: supplying it again is quiet.
    assert!(!observe_lines(&mut records, &summarize(&recolored)));
}

#[test]
fn line_hash_depends_only_on_glyphs_and_colors() {
    let a = vec![glyph(1, 5), glyph(2, 6)];
    let b = vec![glyph(1, 5), glyph(2, 6)];
    assert_eq!(line_hash(&a), line_hash(&b));
    let reordered = vec![glyph(2, 6), glyph(1, 5)];
    assert_ne!(line_hash(&a), line_hash(&reordered));
    assert_eq!(line_hash(&Vec::new()), 0xcbf29ce484222325, "empty lines hash to the seed");
}

#[test]
fn menu_metrics_sizes_to_the_longest_option() {
    let lengths = vec![4, 8, 4];
    let m = menu_metrics(&lengths, 1).expect("menu has options");
    assert_eq!(m.longest_len, 8);
    assert_eq!(m.option_count, 3);
    assert_eq!(m.selected, 1);
}

#[test]
fn menu_selection_is_clamped_to_the_option_count() {
    let lengths = vec![2, 5];
    let m = menu_metrics(&lengths, 9).expect("menu has options");
    assert_eq!(m.selected, 2, "selection never exceeds the option count");
    assert!(menu_metrics(&Vec::new(), 0).is_none());
}

#[test]
fn dynamic_buffer_updates_in_place_until_it_outgrows() {
    let mut state = DynamicBufferState::new();
    assert_eq!(state.plan_update(5), BufferAction::Reallocated);
    assert_eq!(state.capacity, 5);
    assert_eq!(state.plan_update(3), BufferAction::WroteInPlace);
    assert_eq!(state.capacity, 5);
    assert_eq!(state.count, 3);
    assert_eq!(state.plan_update(8), BufferAction::Reallocated);
    assert_eq!(state.capacity, 8);
    assert!(state.should_draw());
    assert_eq!(state.plan_update(0), BufferAction::Cleared);
    assert!(!state.should_draw(), "an empty batch issues no draw call");
    assert_eq!(state.plan_update(0), BufferAction::Unchanged);
}

#[test]
fn shared_data_contracts_carry_their_labels() {
    assert_eq!(BufferType::Vertex.label(), "Vertex");
    assert_eq!(BufferType::VertexDynamic.label(), "Vertex");
    assert_eq!(BufferType::Instance.label(), "Instance");
    assert_eq!(
        CreateRendererError::UnableToRequestAdapter.message(),
        "Unable to request adapter"
    );
    let size = Size::new(450, 400);
    assert_eq!(size.width, 450);
    assert_eq!(size.height, 400);
}
