use txpaint::document::{CellRect, Document, SelectionMask};
use txpaint::font::FontAtlas;
use txpaint::history::History;
use txpaint::tools::{erase_selection, fill_selection, SelectMode};
use txpaint::ui::canvas_view::{
    apply_shape_select, mask_cell_edges, op_from_mods, select_all, select_click, select_drag_to,
    select_press, select_release, SelectDrag, SelectOp,
};

fn font() -> FontAtlas {
    FontAtlas { name: "test".to_string(), cell_w: 1, cell_h: 1, mask: vec![0; 256] }
}

fn doc(w: u32, h: u32) -> Document {
    Document::new_with_size(w, h, font())
}

fn selected(d: &Document) -> Vec<(u32, u32)> {
    match &d.selection {
        Some(m) => m.iter_cells(),
        None => Vec::new(),
    }
}

fn drag(start: (u32, u32), end: (u32, u32), op: SelectOp, mode: SelectMode) -> SelectDrag {
    SelectDrag { start, end, op, mode }
}

#[test]
fn modifiers_choose_the_operation() {
    assert_eq!(op_from_mods(false, false), SelectOp::Replace);
    assert_eq!(op_from_mods(true, false), SelectOp::Add);
    assert_eq!(op_from_mods(false, true), SelectOp::Subtract);
    assert_eq!(op_from_mods(true, true), SelectOp::Add);
}

#[test]
fn rect_replace_add_subtract() {
    let mut d = doc(4, 3);
    apply_shape_select(&mut d, drag((0, 0), (1, 1), SelectOp::Replace, SelectMode::Rect));
    assert_eq!(selected(&d), vec![(0, 0), (1, 0), (0, 1), (1, 1)]);
    apply_shape_select(&mut d, drag((3, 2), (3, 2), SelectOp::Add, SelectMode::Rect));
    assert_eq!(selected(&d), vec![(0, 0), (1, 0), (0, 1), (1, 1), (3, 2)]);
    apply_shape_select(&mut d, drag((1, 0), (0, 1), SelectOp::Subtract, SelectMode::Rect));
    assert_eq!(selected(&d), vec![(3, 2)]);
    apply_shape_select(&mut d, drag((3, 2), (3, 2), SelectOp::Subtract, SelectMode::Rect));
    assert!(d.selection.is_none());
}

#[test]
fn rect_replace_clamps_to_the_canvas() {
    let mut d = doc(3, 3);
    apply_shape_select(&mut d, drag((1, 1), (9, 9), SelectOp::Replace, SelectMode::Rect));
    assert_eq!(selected(&d), vec![(1, 1), (2, 1), (1, 2), (2, 2)]);
}

#[test]
fn oval_select_takes_the_inscribed_ellipse() {
    let mut d = doc(5, 5);
    apply_shape_select(&mut d, drag((0, 0), (4, 4), SelectOp::Replace, SelectMode::Oval));
    let cells = selected(&d);
    assert!(cells.contains(&(2, 2)));
    assert!(cells.contains(&(2, 0)));
    assert!(!cells.contains(&(0, 0)));
    assert!(!cells.contains(&(4, 4)));
}

#[test]
fn subtract_without_selection_keeps_none() {
    let mut d = doc(3, 3);
    apply_shape_select(&mut d, drag((0, 0), (2, 2), SelectOp::Subtract, SelectMode::Oval));
    assert!(d.selection.is_none());
}

#[test]
fn cell_mode_paints_while_dragging() {
    let mut d = doc(4, 4);
    d.select_mode = SelectMode::Cell;
    let mut g = select_press(&mut d, (1, 1), SelectOp::Replace);
    assert_eq!(g.start, (1, 1));
    assert_eq!(selected(&d), vec![(1, 1)]);
    select_drag_to(&mut d, &mut g, (2, 1));
    select_drag_to(&mut d, &mut g, (2, 2));
    assert_eq!(g.end, (2, 2));
    assert_eq!(selected(&d), vec![(1, 1), (2, 1), (2, 2)]);
    select_release(&mut d, g);
    assert_eq!(selected(&d), vec![(1, 1), (2, 1), (2, 2)]);
}

#[test]
fn cell_mode_subtract_empties_then_tidies_on_release() {
    let mut d = doc(2, 2);
    d.select_mode = SelectMode::Cell;
    let g = select_press(&mut d, (0, 0), SelectOp::Replace);
    select_release(&mut d, g);
    let mut g = select_press(&mut d, (0, 0), SelectOp::Subtract);
    // An emptied selection is kept while the drag lasts.
    assert!(d.selection.is_some());
    select_drag_to(&mut d, &mut g, (1, 1));
    select_release(&mut d, g);
    assert!(d.selection.is_none());
}

#[test]
fn shape_press_waits_for_release() {
    let mut d = doc(3, 3);
    let g = select_press(&mut d, (0, 0), SelectOp::Replace);
    assert_eq!(g.mode, SelectMode::Rect);
    assert!(d.selection.is_none());
    let mut g = g;
    select_drag_to(&mut d, &mut g, (1, 0));
    assert!(d.selection.is_none());
    select_release(&mut d, g);
    assert_eq!(selected(&d), vec![(0, 0), (1, 0)]);
}

#[test]
fn clicks_clear_or_toggle() {
    let mut d = doc(3, 3);
    select_all(&mut d);
    select_click(&mut d, Some((1, 1)), true, false);
    assert_eq!(selected(&d).len(), 9);
    select_click(&mut d, Some((1, 1)), false, false);
    assert!(d.selection.is_none());
    d.select_mode = SelectMode::Cell;
    select_click(&mut d, Some((1, 1)), false, false);
    assert_eq!(selected(&d), vec![(1, 1)]);
    select_click(&mut d, Some((0, 2)), true, false);
    assert_eq!(selected(&d), vec![(1, 1), (0, 2)]);
    select_click(&mut d, Some((1, 1)), false, true);
    select_click(&mut d, Some((0, 2)), false, true);
    assert!(d.selection.is_none());
}

#[test]
fn select_all_covers_the_canvas() {
    let mut d = doc(2, 3);
    select_all(&mut d);
    assert_eq!(selected(&d).len(), 6);
}

#[test]
fn outline_edges_of_a_selection() {
    let mut m = SelectionMask::new(3, 3);
    m.set(1, 1, true);
    m.set(2, 1, true);
    let e = mask_cell_edges(&m, 1, 1);
    assert!(e.top && e.bottom && e.left && !e.right);
    let e = mask_cell_edges(&m, 2, 1);
    assert!(e.top && e.bottom && !e.left && e.right);
}

#[test]
fn fill_and_erase_the_selection_are_undoable() {
    let mut d = doc(3, 1);
    let mut h = History::new();
    d.selection = SelectionMask::from_rect(3, 1, CellRect { x: 1, y: 0, w: 2, h: 1 });
    d.selected_glyph = 3;
    fill_selection(&mut d, &mut h);
    assert_eq!(d.layers[0].tiles[0].glyph, 0);
    assert_eq!(d.layers[0].tiles[1].glyph, 3);
    assert_eq!(d.layers[0].tiles[2].glyph, 3);
    erase_selection(&mut d, &mut h);
    assert_eq!(d.layers[0].tiles[1].glyph, 0);
    assert!(h.undo(&mut d));
    assert_eq!(d.layers[0].tiles[1].glyph, 3);
    assert!(h.undo(&mut d));
    assert_eq!(d.layers[0].tiles[2].glyph, 0);
    assert!(h.redo(&mut d));
    assert_eq!(d.layers[0].tiles[2].glyph, 3);
}

#[test]
fn add_then_subtract_the_same_shape() {
    let mut d = doc(4, 4);
    apply_shape_select(&mut d, drag((0, 0), (1, 0), SelectOp::Replace, SelectMode::Rect));
    apply_shape_select(&mut d, drag((1, 0), (2, 1), SelectOp::Add, SelectMode::Rect));
    apply_shape_select(&mut d, drag((1, 0), (2, 1), SelectOp::Subtract, SelectMode::Rect));
    assert_eq!(selected(&d), vec![(0, 0)]);
}

#[test]
fn replace_forgets_the_old_selection() {
    let mut a = doc(4, 4);
    let mut b = doc(4, 4);
    select_all(&mut b);
    let g = drag((1, 1), (2, 2), SelectOp::Replace, SelectMode::Oval);
    apply_shape_select(&mut a, g);
    apply_shape_select(&mut b, g);
    assert_eq!(selected(&a), selected(&b));
}
