use cutty::scene::{
    clamp_render_size, PixelSize,
    CursorShape, FontDescription, LineCell, RenderLine, RenderLines, Rgb, SceneCursor, DOUBLE_UNDERLINE, STRIKEOUT,
    UNDERLINE,
};

fn cell(row: usize, column: usize, width: u32, underline: Rgb, flags: u16) -> LineCell {
    LineCell { row, column, width, fg: Rgb::new(9, 9, 9), underline, flags }
}

#[test]
fn adjacent_underlined_cells_join_into_one_line() {
    let red = Rgb::new(255, 0, 0);
    let mut lines = RenderLines::new();
    lines.update(&cell(0, 0, 1, red, UNDERLINE));
    lines.update(&cell(0, 1, 2, red, UNDERLINE));
    lines.update(&cell(0, 3, 1, Rgb::new(0, 0, 255), UNDERLINE));
    lines.update(&cell(1, 4, 1, red, UNDERLINE));
    let underlines = lines.lines(0);
    assert_eq!(underlines.len(), 3);
    assert_eq!(underlines[0], RenderLine { start_row: 0, start_column: 0, end_row: 0, end_column: 2, color: red });
    assert_eq!(underlines[1].start_column, 3);
    assert_eq!(underlines[2].start_row, 1);
}

#[test]
fn strikeout_uses_the_text_colour_and_kinds_stay_apart() {
    let mut lines = RenderLines::new();
    lines.update(&cell(2, 5, 1, Rgb::new(1, 2, 3), STRIKEOUT | DOUBLE_UNDERLINE));
    assert!(lines.lines(0).is_empty());
    assert_eq!(lines.lines(1)[0].color, Rgb::new(1, 2, 3));
    assert_eq!(lines.lines(2)[0].color, Rgb::new(9, 9, 9));
    for kind in 3..6 {
        assert!(lines.lines(kind).is_empty());
    }
}

#[test]
fn lines_are_drawn_one_row_at_a_time() {
    let line = RenderLine { start_row: 1, start_column: 4, end_row: 3, end_column: 2, color: Rgb::default() };
    assert_eq!(line.row_spans(9), vec![(1, 4, 9), (2, 0, 9), (3, 0, 2)]);
    let single = RenderLine { start_row: 5, start_column: 1, end_row: 5, end_column: 6, color: Rgb::default() };
    assert_eq!(single.row_spans(9), vec![(5, 1, 6)]);
}

#[test]
fn scene_cursor_and_font_description() {
    let cursor = SceneCursor::new(3, 4, CursorShape::Beam, Rgb::new(1, 1, 1));
    assert_eq!((cursor.row, cursor.column, cursor.width), (3, 4, 1));
    assert_eq!(cursor.text_color, Rgb::new(0, 0, 0));
    let font = FontDescription { family: "monospace".to_string(), style: None };
    let bold = font.with_style(Some("Bold".to_string()));
    assert_eq!(bold.family, "monospace");
    assert_eq!(bold.style.as_deref(), Some("Bold"));
}

#[test]
fn render_size_is_clamped_to_gpu_limits() {
    assert_eq!(clamp_render_size(PixelSize::new(9000, 7000), 8192), PixelSize::new(8192, 7000));
}

#[test]
fn render_size_within_limits_is_kept() {
    assert_eq!(clamp_render_size(PixelSize::new(800, 600), 8192), PixelSize::new(800, 600));
    assert_eq!(clamp_render_size(PixelSize::new(1, 9999), 0), PixelSize::new(0, 0));
}
