use vstd::prelude::*;

use crate::document::Document;
use crate::history::History;
use crate::selection::{
    clamped_spec, from_corners_spec, in_oval, in_rect, max_int, min_int, CellRect, SelectionMask,
};
use crate::tools::edit::{eraser_tile, erase_selection, selection_written};
use crate::tools::kinds::{RectMode, SelectMode};

verus! {

/// How a selection gesture combines with the current selection.
#[derive(Copy, Clone, Debug, PartialEq, Eq, Structural)]
pub enum SelectOp {
    /// The gesture's cells become the selection.
    Replace,
    /// The gesture's cells are added to it.
    Add,
    /// The gesture's cells are taken out of it.
    Subtract,
}

/// An in-progress selection drag. For rectangles and ovals the shape is
/// previewed and committed on release; cell drags change the selection as
/// they go, and this only remembers the operation.
#[derive(Copy, Clone, Debug)]
pub struct SelectDrag {
    pub start: (u32, u32),
    pub end: (u32, u32),
    pub op: SelectOp,
    pub mode: SelectMode,
}

/// The end points of an in-progress line drag.
#[derive(Copy, Clone, Debug)]
pub struct LineDrag {
    pub start: (u32, u32),
    pub end: (u32, u32),
}

/// The corners of an in-progress rectangle drag.
#[derive(Copy, Clone, Debug)]
pub struct RectDrag {
    pub start: (u32, u32),
    pub end: (u32, u32),
    pub mode: RectMode,
}

/// Is cell `(x, y)` selected?
pub open spec fn selected(sel: Option<SelectionMask>, x: int, y: int) -> bool {
    match sel {
        Some(m) => m.has(x, y),
        None => false,
    }
}

/// The selection is `None` exactly when no cell is selected.
pub open spec fn tidy(sel: Option<SelectionMask>) -> bool {
    sel is None <==> forall|x: int, y: int| !#[trigger] selected(sel, x, y)
}

/// Nothing but the selection differs between `d0` and `d1`.
pub open spec fn only_selection_changed(d0: Document, d1: Document) -> bool {
    d1 == Document { selection: d1.selection, ..d0 }
}

/// The operation the held modifiers ask for: Shift adds, Ctrl (or Command)
/// subtracts, neither replaces.
pub fn op_from_mods(shift: bool, ctrl_or_command: bool) -> (op: SelectOp)
    ensures
        op == if shift {
            SelectOp::Add
        } else if ctrl_or_command {
            SelectOp::Subtract
        } else {
            SelectOp::Replace
        },
{
    if shift {
        SelectOp::Add
    } else if ctrl_or_command {
        SelectOp::Subtract
    } else {
        SelectOp::Replace
    }
}

/// Does the shape of `mode` over `r` cover cell `(x, y)`? A cell-mode drag
/// has no shape and covers nothing.
pub open spec fn shape_covers(mode: SelectMode, r: CellRect, x: int, y: int) -> bool {
    match mode {
        SelectMode::Rect => in_rect(r, x, y),
        SelectMode::Oval => in_oval(r, x, y),
        SelectMode::Cell => false,
    }
}

/// The corners of a drag are less than the whole 32-bit range apart, so the
/// span's size fits its fields.
pub open spec fn drag_span_fits(drag: SelectDrag) -> bool {
    &&& max_int(drag.start.0 as int, drag.end.0 as int) - min_int(drag.start.0 as int, drag.end.0 as int) < u32::MAX
    &&& max_int(drag.start.1 as int, drag.end.1 as int) - min_int(drag.start.1 as int, drag.end.1 as int) < u32::MAX
}

/// The rectangle a drag spans, pulled inside the canvas.
pub open spec fn drag_rect(d: Document, drag: SelectDrag) -> CellRect {
    clamped_spec(from_corners_spec(drag.start.0, drag.start.1, drag.end.0, drag.end.1), d.width, d.height)
}

proof fn lemma_clamped_idempotent(r: CellRect, cw: u32, ch: u32)
    requires
        1 <= cw,
        1 <= ch,
    ensures
        clamped_spec(clamped_spec(r, cw, ch), cw, ch) == clamped_spec(r, cw, ch),
{
}

/// The selection of `d1` is that of `d0` after committing `drag`: the shape
/// the drag spans (inside the canvas) replaces, is added to, or is taken out
/// of the selection, and an emptied selection is `None`. A cell drag and an
/// empty span leave the selection as it is.
pub open spec fn shape_selected(d0: Document, drag: SelectDrag, d1: Document) -> bool {
    let r = drag_rect(d0, drag);
    if drag.mode == SelectMode::Cell || r.w == 0 || r.h == 0 {
        d1.selection == d0.selection
    } else {
        &&& tidy(d1.selection)
        &&& forall|x: int, y: int|
            #[trigger] selected(d1.selection, x, y) == match drag.op {
                SelectOp::Replace => shape_covers(drag.mode, r, x, y),
                SelectOp::Add => selected(d0.selection, x, y) || shape_covers(drag.mode, r, x, y),
                SelectOp::Subtract => selected(d0.selection, x, y) && !shape_covers(drag.mode, r, x, y),
            }
    }
}

/// Commits a rectangle or oval drag: the shape the drag spans (inside the
/// canvas) replaces, is added to, or is taken out of the selection, and an
/// emptied selection becomes `None`. A cell drag, already applied while
/// dragging, and an empty span change nothing.
pub fn apply_shape_select(document: &mut Document, drag: SelectDrag)
    requires
        old(document).wf(),
        drag_span_fits(drag),
    ensures
        final(document).wf(),
        only_selection_changed(*old(document), *final(document)),
        shape_selected(*old(document), drag, *final(document)),
{
    let rect = CellRect::from_corners(drag.start.0, drag.start.1, drag.end.0, drag.end.1);
    let cw = document.width;
    let ch = document.height;
    let rect = rect.clamped(cw, ch);
    if rect.w == 0 || rect.h == 0 {
        return;
    }
    if drag.mode == SelectMode::Cell {
        return;
    }
    proof {
        assert(rect == drag_rect(*old(document), drag));
        lemma_clamped_idempotent(from_corners_spec(drag.start.0, drag.start.1, drag.end.0, drag.end.1), cw, ch);
    }
    let sel = document.selection.take();
    document.selection = shape_select(sel, cw, ch, drag.mode, drag.op, rect);
}

/// The selection after the shape of `mode` over `rect` (inside the canvas)
/// is combined with `sel` by `op`; `None` when nothing stays selected.
fn shape_select(
    sel: Option<SelectionMask>,
    cw: u32,
    ch: u32,
    mode: SelectMode,
    op: SelectOp,
    rect: CellRect,
) -> (r: Option<SelectionMask>)
    requires
        1 <= cw,
        1 <= ch,
        cw * ch <= u32::MAX,
        sel matches Some(m) ==> m.wf() && m.w == cw && m.h == ch,
        mode != SelectMode::Cell,
        clamped_spec(rect, cw, ch) == rect,
    ensures
        r matches Some(m) ==> m.wf() && m.w == cw && m.h == ch,
        tidy(r),
        forall|x: int, y: int|
            #[trigger] selected(r, x, y) == match op {
                SelectOp::Replace => shape_covers(mode, rect, x, y),
                SelectOp::Add => selected(sel, x, y) || shape_covers(mode, rect, x, y),
                SelectOp::Subtract => selected(sel, x, y) && !shape_covers(mode, rect, x, y),
            },
{
    assert forall|x: int, y: int| #[trigger] shape_covers(mode, rect, x, y) implies 0 <= x < cw && 0
        <= y < ch by {}
    match op {
        SelectOp::Replace => {
            let m = if mode == SelectMode::Rect {
                SelectionMask::from_rect(cw, ch, rect)
            } else {
                SelectionMask::from_oval(cw, ch, rect)
            };
            proof {
                if m is Some {
                    let mm = m.unwrap();
                    assert(!mm.is_empty_spec());
                    let (wx, wy) = choose|x: int, y: int| mm.has(x, y);
                    assert(selected(m, wx, wy));
                }
                assert forall|x: int, y: int| #[trigger] selected(m, x, y) == shape_covers(
                    mode,
                    rect,
                    x,
                    y,
                ) by {
                    if shape_covers(mode, rect, x, y) {
                        assert(0 <= x < cw && 0 <= y < ch);
                    }
                }
            }
            m
        },
        SelectOp::Add => {
            let mut mask = match sel {
                Some(m) => m,
                None => SelectionMask::new(cw, ch),
            };
            if mode == SelectMode::Rect {
                mask.add_rect(rect);
            } else {
                mask.add_oval(rect);
            }
            if mask.is_empty() {
                assert forall|x: int, y: int| #[trigger] selected(None, x, y) == (selected(sel, x, y)
                    || shape_covers(mode, rect, x, y)) by {
                    assert(!mask.has(x, y));
                }
                None
            } else {
                proof {
                    let (wx, wy) = choose|x: int, y: int| mask.has(x, y);
                    assert(selected(Some(mask), wx, wy));
                }
                Some(mask)
            }
        },
        SelectOp::Subtract => {
            match sel {
                Some(mut mask) => {
                    if mode == SelectMode::Rect {
                        mask.subtract_rect(rect);
                    } else {
                        mask.subtract_oval(rect);
                    }
                    if mask.is_empty() {
                        assert forall|x: int, y: int| #[trigger] selected(None, x, y) == (selected(
                            sel,
                            x,
                            y,
                        ) && !shape_covers(mode, rect, x, y)) by {
                            assert(!mask.has(x, y));
                        }
                        None
                    } else {
                        proof {
                            let (wx, wy) = choose|x: int, y: int| mask.has(x, y);
                            assert(selected(Some(mask), wx, wy));
                        }
                        Some(mask)
                    }
                },
                None => None,
            }
        },
    }
}


/// Is `(x, y)` the cell `cell`, inside a `w` x `h` canvas?
pub open spec fn is_cell(cell: (u32, u32), w: int, h: int, x: int, y: int) -> bool {
    x == cell.0 && y == cell.1 && cell.0 < w && cell.1 < h
}

/// `sel1` is `sel0` after `op` pressed on `cell` with the cell selection
/// tool: Replace selects only the cell, Add adds it (starting a selection
/// if there is none), Subtract removes it from an existing selection.
pub open spec fn cell_pressed(
    sel0: Option<SelectionMask>,
    sel1: Option<SelectionMask>,
    cell: (u32, u32),
    op: SelectOp,
    w: int,
    h: int,
) -> bool {
    match op {
        SelectOp::Replace => sel1 is Some && forall|x: int, y: int|
            #[trigger] selected(sel1, x, y) == is_cell(cell, w, h, x, y),
        SelectOp::Add => sel1 is Some && forall|x: int, y: int|
            #[trigger] selected(sel1, x, y) == (selected(sel0, x, y) || is_cell(cell, w, h, x, y)),
        SelectOp::Subtract => (sel1 is Some <==> sel0 is Some) && forall|x: int, y: int|
            #[trigger] selected(sel1, x, y) == (selected(sel0, x, y) && !is_cell(cell, w, h, x, y)),
    }
}

/// Sets cell `cell` of an existing selection to `v`.
fn set_selected(sel: Option<SelectionMask>, cell: (u32, u32), v: bool) -> (r: Option<SelectionMask>)
    requires
        sel matches Some(m) ==> m.wf(),
    ensures
        r is Some <==> sel is Some,
        r matches Some(m) ==> m.wf() && m.w == sel->0.w && m.h == sel->0.h,
        forall|x: int, y: int|
            #[trigger] selected(r, x, y) == if sel matches Some(m) && is_cell(cell, m.w as int, m.h as int, x, y) {
                v
            } else {
                selected(sel, x, y)
            },
{
    match sel {
        Some(mut m) => {
            m.set(cell.0, cell.1, v);
            Some(m)
        },
        None => None,
    }
}

/// Applies `op` on `cell` as a press of the cell selection tool does.
fn press_cell(document: &mut Document, cell: (u32, u32), op: SelectOp)
    requires
        old(document).wf(),
    ensures
        final(document).wf(),
        only_selection_changed(*old(document), *final(document)),
        cell_pressed(
            old(document).selection,
            final(document).selection,
            cell,
            op,
            old(document).width as int,
            old(document).height as int,
        ),
{
    let cw = document.width;
    let ch = document.height;
    let sel = document.selection.take();
    let new_sel = match op {
        SelectOp::Replace => {
            let mut m = SelectionMask::new(cw, ch);
            m.set(cell.0, cell.1, true);
            Some(m)
        },
        SelectOp::Add => {
            let mut m = match sel {
                Some(m) => m,
                None => SelectionMask::new(cw, ch),
            };
            m.set(cell.0, cell.1, true);
            Some(m)
        },
        SelectOp::Subtract => set_selected(sel, cell, false),
    };
    document.selection = new_sel;
}

/// Starts a selection drag on `cell` with the document's selection mode.
/// With the cell mode the press acts at once (see [`cell_pressed`]); an
/// emptied selection is kept until release. The shape modes act on release.
pub fn select_press(document: &mut Document, cell: (u32, u32), op: SelectOp) -> (drag: SelectDrag)
    requires
        old(document).wf(),
    ensures
        drag == (SelectDrag { start: cell, end: cell, op, mode: old(document).select_mode }),
        final(document).wf(),
        only_selection_changed(*old(document), *final(document)),
        if old(document).select_mode == SelectMode::Cell {
            cell_pressed(
                old(document).selection,
                final(document).selection,
                cell,
                op,
                old(document).width as int,
                old(document).height as int,
            )
        } else {
            final(document).selection == old(document).selection
        },
{
    let mode = document.select_mode;
    if mode == SelectMode::Cell {
        press_cell(document, cell, op);
    }
    SelectDrag { start: cell, end: cell, op, mode }
}

/// Moves a selection drag to `cell`. A cell-mode drag paints as it goes:
/// it selects the cell, or for Subtract unselects it, in an existing
/// selection.
pub fn select_drag_to(document: &mut Document, drag: &mut SelectDrag, cell: (u32, u32))
    requires
        old(document).wf(),
    ensures
        *final(drag) == (SelectDrag { end: cell, ..*old(drag) }),
        final(document).wf(),
        only_selection_changed(*old(document), *final(document)),
        final(document).selection is Some <==> old(document).selection is Some,
        forall|x: int, y: int|
            #[trigger] selected(final(document).selection, x, y) == if old(drag).mode
                == SelectMode::Cell && is_cell(
                cell,
                old(document).width as int,
                old(document).height as int,
                x,
                y,
            ) && old(document).selection is Some {
                old(drag).op != SelectOp::Subtract
            } else {
                selected(old(document).selection, x, y)
            },
{
    drag.end = cell;
    if drag.mode == SelectMode::Cell {
        let v = match drag.op {
            SelectOp::Replace => true,
            SelectOp::Add => true,
            SelectOp::Subtract => false,
        };
        let sel = document.selection.take();
        document.selection = set_selected(sel, cell, v);
    }
}

/// Ends a selection drag: a rectangle or oval is committed as in
/// [`apply_shape_select`]; after a cell drag an emptied selection becomes
/// `None`.
pub fn select_release(document: &mut Document, drag: SelectDrag)
    requires
        old(document).wf(),
        drag_span_fits(drag),
    ensures
        final(document).wf(),
        only_selection_changed(*old(document), *final(document)),
        drag.mode == SelectMode::Cell ==> {
            &&& tidy(final(document).selection)
            &&& forall|x: int, y: int|
                #[trigger] selected(final(document).selection, x, y) == selected(
                    old(document).selection,
                    x,
                    y,
                )
            &&& (final(document).selection is Some ==> final(document).selection
                == old(document).selection)
        },
        drag.mode != SelectMode::Cell ==> shape_selected(*old(document), drag, *final(document)),
{
    if drag.mode == SelectMode::Cell {
        let empty = match &document.selection {
            Some(m) => m.is_empty(),
            None => false,
        };
        if empty {
            document.selection = None;
        }
        proof {
            if document.selection is Some {
                let m = document.selection->0;
                if !m.is_empty_spec() {
                    let (wx, wy) = choose|x: int, y: int| m.has(x, y);
                    assert(selected(document.selection, wx, wy));
                }
            }
        }
    } else {
        apply_shape_select(document, drag);
    }
}

/// A click without a drag. With a shape mode it clears the selection unless
/// a modifier is held; with the cell mode it acts on the clicked cell like a
/// press, and a Subtract that empties the selection clears it.
pub fn select_click(document: &mut Document, cell: Option<(u32, u32)>, shift: bool, ctrl_or_command: bool)
    requires
        old(document).wf(),
    ensures
        final(document).wf(),
        only_selection_changed(*old(document), *final(document)),
        old(document).select_mode != SelectMode::Cell ==> final(document).selection == if shift
            || ctrl_or_command {
            old(document).selection
        } else {
            None
        },
        old(document).select_mode == SelectMode::Cell ==> match cell {
            None => final(document).selection == old(document).selection,
            Some(c) => {
                let op = if shift {
                    SelectOp::Add
                } else if ctrl_or_command {
                    SelectOp::Subtract
                } else {
                    SelectOp::Replace
                };
                if op == SelectOp::Subtract {
                    &&& tidy(final(document).selection)
                    &&& forall|x: int, y: int|
                        #[trigger] selected(final(document).selection, x, y) == (selected(
                            old(document).selection,
                            x,
                            y,
                        ) && !is_cell(c, old(document).width as int, old(document).height as int, x, y))
                } else {
                    cell_pressed(
                        old(document).selection,
                        final(document).selection,
                        c,
                        op,
                        old(document).width as int,
                        old(document).height as int,
                    )
                }
            },
        },
{
    if document.select_mode != SelectMode::Cell {
        if !(shift || ctrl_or_command) {
            document.selection = None;
        }
        return;
    }
    if let Some(c) = cell {
        let op = op_from_mods(shift, ctrl_or_command);
        press_cell(document, c, op);
        if op == SelectOp::Subtract {
            let empty = match &document.selection {
                Some(m) => m.is_empty(),
                None => false,
            };
            if empty {
                let ghost m = document.selection->0;
                let ghost mid = document.selection;
                document.selection = None;
                assert forall|x: int, y: int| #[trigger] selected(document.selection, x, y) == selected(
                    mid,
                    x,
                    y,
                ) by {
                    assert(!m.has(x, y));
                }
            }
            proof {
                if document.selection is Some {
                    let m = document.selection->0;
                    if !m.is_empty_spec() {
                        let (wx, wy) = choose|x: int, y: int| m.has(x, y);
                        assert(selected(document.selection, wx, wy));
                    }
                }
            }
        }
    }
}

/// Selects every cell of the canvas.
pub fn select_all(document: &mut Document)
    requires
        old(document).wf(),
    ensures
        final(document).wf(),
        only_selection_changed(*old(document), *final(document)),
        final(document).selection is Some,
        forall|x: int, y: int|
            #[trigger] selected(final(document).selection, x, y) == (0 <= x < old(document).width
                && 0 <= y < old(document).height),
{
    let mut mask = SelectionMask::new(document.width, document.height);
    mask.fill_all();
    document.selection = Some(mask);
}


/// Which sides of a selected cell border an unselected cell or the canvas
/// edge: there the selection outline is drawn.
#[derive(Copy, Clone, Debug)]
pub struct CellEdges {
    pub top: bool,
    pub bottom: bool,
    pub left: bool,
    pub right: bool,
}

/// The outline sides of cell `(x, y)` of `mask`.
pub fn mask_cell_edges(mask: &SelectionMask, x: u32, y: u32) -> (e: CellEdges)
    requires
        mask.wf(),
        x < mask.w,
        y < mask.h,
    ensures
        e.top == !mask.has(x as int, y - 1),
        e.bottom == !mask.has(x as int, y + 1),
        e.left == !mask.has(x - 1, y as int),
        e.right == !mask.has(x + 1, y as int),
{
    let top = y == 0 || !mask.contains(x, y - 1);
    let bottom = y + 1 >= mask.h || !mask.contains(x, y + 1);
    let left = x == 0 || !mask.contains(x - 1, y);
    let right = x + 1 >= mask.w || !mask.contains(x + 1, y);
    CellEdges { top, bottom, left, right }
}


/// Adding a shape and then subtracting the same shape leaves what was
/// selected before, less the shape.
pub proof fn lemma_add_then_subtract(d0: Document, d1: Document, d2: Document, drag: SelectDrag)
    requires
        drag.mode != SelectMode::Cell,
        d1.width == d0.width,
        d1.height == d0.height,
        shape_selected(d0, SelectDrag { op: SelectOp::Add, ..drag }, d1),
        shape_selected(d1, SelectDrag { op: SelectOp::Subtract, ..drag }, d2),
    ensures
        forall|x: int, y: int|
            #[trigger] selected(d2.selection, x, y) == (selected(d0.selection, x, y) && !shape_covers(
                drag.mode,
                drag_rect(d0, drag),
                x,
                y,
            )),
{
    let r = drag_rect(d0, drag);
    assert(drag_rect(d1, SelectDrag { op: SelectOp::Subtract, ..drag }) == r);
    assert(drag_rect(d0, SelectDrag { op: SelectOp::Add, ..drag }) == r);
    if r.w == 0 || r.h == 0 {
        assert forall|x: int, y: int| #[trigger] selected(d2.selection, x, y) == (selected(
            d0.selection,
            x,
            y,
        ) && !shape_covers(drag.mode, r, x, y)) by {
            assert(!shape_covers(drag.mode, r, x, y));
        }
    } else {
        assert forall|x: int, y: int| #[trigger] selected(d2.selection, x, y) == (selected(
            d0.selection,
            x,
            y,
        ) && !shape_covers(drag.mode, r, x, y)) by {
            assert(selected(d1.selection, x, y) == (selected(d0.selection, x, y) || shape_covers(
                drag.mode,
                r,
                x,
                y,
            )));
        }
    }
}

/// Replacing the selection with a shape selects exactly the shape, whatever
/// was selected before.
pub proof fn lemma_replace_forgets(d0: Document, d1: Document, e0: Document, e1: Document, drag: SelectDrag)
    requires
        drag.op == SelectOp::Replace,
        e0.width == d0.width,
        e0.height == d0.height,
        shape_selected(d0, drag, d1),
        shape_selected(e0, drag, e1),
        drag.mode != SelectMode::Cell,
        drag_rect(d0, drag).w != 0,
        drag_rect(d0, drag).h != 0,
    ensures
        forall|x: int, y: int| #[trigger] selected(d1.selection, x, y) == selected(e1.selection, x, y),
{
    assert(drag_rect(e0, drag) == drag_rect(d0, drag));
}

} // verus!
