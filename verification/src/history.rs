use vstd::prelude::*;

use std::collections::VecDeque;

use crate::document::Document;
use crate::grid::{cell_index, lemma_cell_index_bounds};
use crate::layer::Layer;
use crate::tile::Tile;

verus! {

/// The number of commands kept for undo.
pub const MAX_HISTORY: usize = 200;

/// One cell of one layer going from `before` to `after`.
#[derive(Copy, Clone, Debug)]
pub struct CellChange {
    pub layer: usize,
    pub x: u32,
    pub y: u32,
    pub before: Tile,
    pub after: Tile,
}

/// An undoable edit.
#[derive(Debug)]
pub enum Command {
    /// Cell edits, applied in order.
    Cells(Vec<CellChange>),
    /// A layer was inserted at `index`: redo inserts the snapshot again, undo
    /// removes the layer at `index`.
    AddLayer { index: usize, layer: Layer },
    /// The layer at `index` was moved from offset `from` to offset `to`.
    MoveLayer { index: usize, from: (i32, i32), to: (i32, i32) },
}

/// A command with its cell list seen as a sequence.
pub ghost enum CommandView {
    Cells(Seq<CellChange>),
    AddLayer { index: usize, layer: Layer },
    MoveLayer { index: usize, from: (i32, i32), to: (i32, i32) },
}

impl View for Command {
    type V = CommandView;

    open spec fn view(&self) -> CommandView {
        match self {
            Command::Cells(cs) => CommandView::Cells(cs@),
            Command::AddLayer { index, layer } => CommandView::AddLayer { index: *index, layer: *layer },
            Command::MoveLayer { index, from, to } => CommandView::MoveLayer {
                index: *index,
                from: *from,
                to: *to,
            },
        }
    }
}

/// The undo and redo stacks, and the stroke being recorded.
pub struct History {
    past: VecDeque<Command>,
    future: Vec<Command>,
    stroke: Option<Vec<CellChange>>,
}

// ---------------------------------------------------------------- cell edits

/// The tiles of layer `li` after the changes in `cs` are written in order,
/// each writing `after` (or `before` when `use_after` is false).
pub open spec fn cells_applied(tiles: Seq<Tile>, li: int, width: int, cs: Seq<CellChange>, use_after: bool) -> Seq<Tile>
    decreases cs.len(),
{
    if cs.len() == 0 {
        tiles
    } else {
        let prev = cells_applied(tiles, li, width, cs.drop_last(), use_after);
        let c = cs.last();
        if c.layer == li {
            prev.update(
                cell_index(width, c.x as int, c.y as int),
                if use_after {
                    c.after
                } else {
                    c.before
                },
            )
        } else {
            prev
        }
    }
}

/// Does writing the changes of `cs` in order to layer `li` (starting from
/// `tiles`) change cell `p` at some step? Each such cell is listed as dirty.
pub open spec fn cells_dirtied(
    tiles: Seq<Tile>,
    li: int,
    width: int,
    cs: Seq<CellChange>,
    use_after: bool,
    p: (u32, u32),
) -> bool
    decreases cs.len(),
{
    if cs.len() == 0 {
        false
    } else {
        let c = cs.last();
        let prev = cells_applied(tiles, li, width, cs.drop_last(), use_after);
        let v = if use_after {
            c.after
        } else {
            c.before
        };
        ||| cells_dirtied(tiles, li, width, cs.drop_last(), use_after, p)
        ||| (c.layer == li && p == (c.x, c.y) && prev[cell_index(width, c.x as int, c.y as int)] != v)
    }
}

/// Does a change of `cs` write cell position `p` of layer `li`?
pub open spec fn touched(cs: Seq<CellChange>, li: int, width: int, p: int) -> bool {
    exists|k: int|
        0 <= k < cs.len() && (#[trigger] cs[k]).layer == li && cell_index(
            width,
            cs[k].x as int,
            cs[k].y as int,
        ) == p
}

/// Every change lies on a `width` x `height` canvas.
pub open spec fn changes_fit(cs: Seq<CellChange>, width: int, height: int) -> bool {
    forall|k: int| 0 <= k < cs.len() ==> (#[trigger] cs[k]).x < width && cs[k].y < height
}

/// A command can be applied to a well-formed `width` x `height` document
/// and keeps it well formed.
pub open spec fn command_fits(c: CommandView, width: int, height: int) -> bool {
    match c {
        CommandView::Cells(cs) => changes_fit(cs, width, height),
        CommandView::AddLayer { layer, .. } => layer.fits(width, height),
        CommandView::MoveLayer { .. } => true,
    }
}

/// Everything but the layer list, the active layer and the generation is unchanged.
pub open spec fn same_settings(d0: Document, d1: Document) -> bool {
    &&& d1.width == d0.width
    &&& d1.height == d0.height
    &&& d1.palettes == d0.palettes
    &&& d1.active_palette == d0.active_palette
    &&& d1.fg == d0.fg
    &&& d1.bg == d0.bg
    &&& d1.selected_glyph == d0.selected_glyph
    &&& d1.glyph_palettes == d0.glyph_palettes
    &&& d1.active_glyph_palette == d0.active_glyph_palette
    &&& d1.font == d0.font
    &&& d1.bundled_font_index == d0.bundled_font_index
    &&& d1.active_tool == d0.active_tool
    &&& d1.pencil_mode == d0.pencil_mode
    &&& d1.select_mode == d0.select_mode
    &&& d1.rect_mode == d0.rect_mode
    &&& d1.selection == d0.selection
}

/// The layers of `d1` hold what `layers` holds, pointwise.
pub open spec fn layers_hold(d1: Document, layers: Seq<Layer>) -> bool {
    &&& d1.layers@.len() == layers.len()
    &&& forall|i: int| 0 <= i < layers.len() ==> (#[trigger] d1.layers@[i]).same_content(&layers[i])
}

/// `d1` is `d0` with the cell changes written (`after` values when
/// `use_after`, else `before` values); only the tiles of the layers change.
pub open spec fn cells_written(cs: Seq<CellChange>, d0: Document, d1: Document, use_after: bool) -> bool {
    &&& same_settings(d0, d1)
    &&& d1.active_layer == d0.active_layer
    &&& d1.resources_generation == d0.resources_generation
    &&& d1.layers@.len() == d0.layers@.len()
    &&& forall|i: int|
        0 <= i < d0.layers@.len() ==> {
            let a = #[trigger] d1.layers@[i];
            let b = d0.layers@[i];
            &&& a.name == b.name
            &&& a.visible == b.visible
            &&& a.offset == b.offset
            &&& a.full_upload == b.full_upload
            &&& a.tiles@ == cells_applied(b.tiles@, i, d0.width as int, cs, use_after)
        }
    &&& forall|i: int, p: (u32, u32)|
        0 <= i < d0.layers@.len() ==> (#[trigger] d1.layers@[i].dirty_cells@.contains(p) <==> (
        d0.layers@[i].dirty_cells@.contains(p) || cells_dirtied(
            d0.layers@[i].tiles@,
            i,
            d0.width as int,
            cs,
            use_after,
            p,
        )))
}

/// `d1` is `d0` after redoing `c`.
pub open spec fn applied_forward(c: CommandView, d0: Document, d1: Document) -> bool {
    match c {
        CommandView::Cells(cs) => cells_written(cs, d0, d1, true),
        CommandView::AddLayer { index, layer } => {
            let i = if index <= d0.layers@.len() {
                index as int
            } else {
                d0.layers@.len() as int
            };
            &&& same_settings(d0, d1)
            &&& layers_hold(d1, d0.layers@.insert(i, layer))
            &&& d1.active_layer == i
            &&& d1.resources_generation == d0.resources_generation + 1
            &&& forall|j: int| 0 <= j < d1.layers@.len() ==> (#[trigger] d1.layers@[j]).full_upload
        },
        CommandView::MoveLayer { index, to, .. } => offset_moved(index as int, to, d0, d1),
    }
}

/// `d1` is `d0` after undoing `c`.
pub open spec fn applied_inverse(c: CommandView, d0: Document, d1: Document) -> bool {
    match c {
        CommandView::Cells(cs) => cells_written(cs, d0, d1, false),
        CommandView::AddLayer { index, .. } => {
            if d0.layers@.len() > 1 && index < d0.layers@.len() {
                let n = d0.layers@.len() - 1;
                &&& same_settings(d0, d1)
                &&& layers_hold(d1, d0.layers@.remove(index as int))
                &&& d1.active_layer == if d0.active_layer >= n {
                    n - 1
                } else {
                    d0.active_layer as int
                }
                &&& d1.resources_generation == d0.resources_generation + 1
                &&& forall|j: int| 0 <= j < d1.layers@.len() ==> (#[trigger] d1.layers@[j]).full_upload
            } else {
                d1 == d0
            }
        },
        CommandView::MoveLayer { index, from, .. } => offset_moved(index as int, from, d0, d1),
    }
}

/// `d1` is `d0` with layer `index` (when there is one) at offset `to`.
pub open spec fn offset_moved(index: int, to: (i32, i32), d0: Document, d1: Document) -> bool {
    &&& same_settings(d0, d1)
    &&& d1.active_layer == d0.active_layer
    &&& d1.resources_generation == d0.resources_generation
    &&& d1.layers@.len() == d0.layers@.len()
    &&& forall|i: int|
        0 <= i < d0.layers@.len() ==> {
            let a = #[trigger] d1.layers@[i];
            let b = d0.layers@[i];
            if i == index {
                &&& a.name == b.name
                &&& a.visible == b.visible
                &&& a.tiles == b.tiles
                &&& a.dirty_cells == b.dirty_cells
                &&& a.offset == to
                &&& a.full_upload == (b.full_upload || b.offset != to)
            } else {
                a == b
            }
        }
}

// ------------------------------------------------------------- history model

/// `past` with `c` pushed, the oldest command dropped past the limit.
pub open spec fn pushed(past: Seq<CommandView>, c: CommandView) -> Seq<CommandView> {
    if past.len() >= MAX_HISTORY {
        past.push(c).drop_first()
    } else {
        past.push(c)
    }
}

/// The undo stack once the open stroke, if non-empty, is closed.
pub open spec fn closed_past(past: Seq<CommandView>, stroke: Option<Seq<CellChange>>) -> Seq<CommandView> {
    match stroke {
        Some(s) => if s.len() > 0 {
            pushed(past, CommandView::Cells(s))
        } else {
            past
        },
        None => past,
    }
}

/// The redo stack once the open stroke, if non-empty, is closed.
pub open spec fn closed_future(future: Seq<CommandView>, stroke: Option<Seq<CellChange>>) -> Seq<CommandView> {
    match stroke {
        Some(s) => if s.len() > 0 {
            Seq::empty()
        } else {
            future
        },
        None => future,
    }
}

/// Do changes `a` and `b` address the same cell of the same layer?
pub open spec fn same_cell(a: CellChange, b: CellChange) -> bool {
    a.layer == b.layer && a.x == b.x && a.y == b.y
}

/// No cell appears twice in a stroke.
pub open spec fn cells_unique(s: Seq<CellChange>) -> bool {
    forall|i: int, j: int|
        0 <= i < s.len() && 0 <= j < s.len() && i != j ==> !same_cell(#[trigger] s[i], #[trigger] s[j])
}

/// The stroke after `change` is recorded into it: a cell already in the
/// stroke keeps its first `before` and takes the new `after`; a new cell is
/// appended.
pub open spec fn recorded(s: Seq<CellChange>, change: CellChange) -> Seq<CellChange> {
    if exists|i: int| 0 <= i < s.len() && same_cell(#[trigger] s[i], change) {
        let i = choose|i: int| 0 <= i < s.len() && same_cell(#[trigger] s[i], change);
        s.update(i, CellChange { after: change.after, ..s[i] })
    } else {
        s.push(change)
    }
}

impl History {
    /// The undo stack, oldest first.
    pub closed spec fn past(&self) -> Seq<CommandView> {
        self.past@.map_values(|c: Command| c@)
    }

    /// The redo stack, the next command to redo last.
    pub closed spec fn future(&self) -> Seq<CommandView> {
        self.future@.map_values(|c: Command| c@)
    }

    /// The stroke being recorded, if any.
    pub closed spec fn stroke(&self) -> Option<Seq<CellChange>> {
        match self.stroke {
            Some(s) => Some(s@),
            None => None,
        }
    }

    /// At most `MAX_HISTORY` commands are kept for undo and redo together,
    /// and an open stroke lists each cell once.
    pub open spec fn wf(&self) -> bool {
        &&& self.past().len() + self.future().len() <= MAX_HISTORY
        &&& match self.stroke() {
            Some(s) => cells_unique(s),
            None => true,
        }
    }

    /// Every command and stroke change fits a `width` x `height` document.
    pub open spec fn fits(&self, width: int, height: int) -> bool {
        &&& forall|i: int|
            0 <= i < self.past().len() ==> command_fits(#[trigger] self.past()[i], width, height)
        &&& forall|i: int|
            0 <= i < self.future().len() ==> command_fits(#[trigger] self.future()[i], width, height)
        &&& match self.stroke() {
            Some(s) => changes_fit(s, width, height),
            None => true,
        }
    }
}


/// What [`History::record`] does with `change`.
pub open spec fn record_post(h0: History, change: CellChange, h1: History) -> bool {
    &&& change.before == change.after ==> {
        &&& h1.past() == h0.past()
        &&& h1.future() == h0.future()
        &&& h1.stroke() == h0.stroke()
    }
    &&& change.before != change.after ==> match h0.stroke() {
        Some(s) => {
            &&& h1.stroke() == Some(recorded(s, change))
            &&& h1.past() == h0.past()
            &&& h1.future() == h0.future()
        },
        None => {
            &&& h1.stroke() is None
            &&& h1.past() == pushed(h0.past(), CommandView::Cells(seq![change]))
            &&& h1.future() == Seq::<CommandView>::empty()
        },
    }
}

/// What [`History::undo`] does: the open stroke is closed, then the newest
/// command, if any, is undone on the document and moved to the redo stack.
pub open spec fn undo_post(h0: History, d0: Document, h1: History, d1: Document, r: bool) -> bool {
    let p = closed_past(h0.past(), h0.stroke());
    let f = closed_future(h0.future(), h0.stroke());
    &&& h1.stroke() is None
    &&& if p.len() == 0 {
        &&& !r
        &&& h1.past() == p
        &&& h1.future() == f
        &&& d1 == d0
    } else {
        &&& r
        &&& h1.past() == p.drop_last()
        &&& h1.future() == f.push(p.last())
        &&& applied_inverse(p.last(), d0, d1)
    }
}

/// What [`History::redo`] does: the open stroke is closed, then the command
/// last undone, if any, is applied again and moved back to the undo stack.
pub open spec fn redo_post(h0: History, d0: Document, h1: History, d1: Document, r: bool) -> bool {
    let p = closed_past(h0.past(), h0.stroke());
    let f = closed_future(h0.future(), h0.stroke());
    &&& h1.stroke() is None
    &&& if f.len() == 0 {
        &&& !r
        &&& h1.past() == p
        &&& h1.future() == f
        &&& d1 == d0
    } else {
        &&& r
        &&& h1.future() == f.drop_last()
        &&& h1.past() == p.push(f.last())
        &&& applied_forward(f.last(), d0, d1)
    }
}

proof fn lemma_map_push(s: Seq<Command>, c: Command)
    ensures
        s.push(c).map_values(|x: Command| x@) == s.map_values(|x: Command| x@).push(c@),
{
    assert(s.push(c).map_values(|x: Command| x@) =~= s.map_values(|x: Command| x@).push(c@));
}

proof fn lemma_map_drop_first(s: Seq<Command>)
    requires
        s.len() > 0,
    ensures
        s.subrange(1, s.len() as int).map_values(|x: Command| x@) == s.map_values(
            |x: Command| x@,
        ).drop_first(),
{
    assert(s.subrange(1, s.len() as int).map_values(|x: Command| x@) =~= s.map_values(
        |x: Command| x@,
    ).drop_first());
}

proof fn lemma_map_drop_last(s: Seq<Command>)
    requires
        s.len() > 0,
    ensures
        s.subrange(0, s.len() - 1).map_values(|x: Command| x@) == s.map_values(
            |x: Command| x@,
        ).drop_last(),
        s.map_values(|x: Command| x@).last() == s.last()@,
{
    assert(s.subrange(0, s.len() - 1).map_values(|x: Command| x@) =~= s.map_values(
        |x: Command| x@,
    ).drop_last());
}

/// The last change of `s` at the same cell as `change`, if any.
fn find_same_cell(s: &Vec<CellChange>, change: CellChange) -> (r: Option<usize>)
    ensures
        match r {
            Some(i) => i < s@.len() && same_cell(s@[i as int], change) && forall|j: int|
                i < j < s@.len() ==> !same_cell(#[trigger] s@[j], change),
            None => forall|j: int| 0 <= j < s@.len() ==> !same_cell(#[trigger] s@[j], change),
        },
{
    let mut i = s.len();
    while i > 0
        invariant
            i <= s@.len(),
            forall|j: int| i <= j < s@.len() ==> !same_cell(#[trigger] s@[j], change),
        decreases i,
    {
        i = i - 1;
        let c = s[i];
        if c.layer == change.layer && c.x == change.x && c.y == change.y {
            return Some(i);
        }
    }
    None
}

impl Default for History {
    /// An empty history.
    fn default() -> (h: History)
        ensures
            h.wf(),
            h.past() == Seq::<CommandView>::empty(),
            h.future() == Seq::<CommandView>::empty(),
            h.stroke() is None,
    {
        History::new()
    }
}

impl History {
    /// An empty history.
    pub fn new() -> (h: History)
        ensures
            h.wf(),
            h.past() == Seq::<CommandView>::empty(),
            h.future() == Seq::<CommandView>::empty(),
            h.stroke() is None,
    {
        let h = History { past: VecDeque::new(), future: Vec::new(), stroke: None };
        assert(h.past() =~= Seq::<CommandView>::empty());
        assert(h.future() =~= Seq::<CommandView>::empty());
        h
    }

    /// Opens a stroke: cell changes recorded from now on are grouped into
    /// one command. An already open stroke stays open.
    pub fn begin_stroke(&mut self)
        requires
            old(self).wf(),
        ensures
            final(self).wf(),
            final(self).past() == old(self).past(),
            final(self).future() == old(self).future(),
            final(self).stroke() == match old(self).stroke() {
                Some(s) => Some(s),
                None => Some(Seq::<CellChange>::empty()),
            },
            forall|w: int, h: int| old(self).fits(w, h) ==> #[trigger] final(self).fits(w, h),
    {
        if self.stroke.is_none() {
            self.stroke = Some(Vec::new());
            assert(self.stroke() == Some(Seq::<CellChange>::empty()));
        }
    }

    /// Pushes `cmd` for undo: the redo stack is cleared and the oldest
    /// command dropped beyond `MAX_HISTORY`.
    pub fn push(&mut self, cmd: Command)
        requires
            old(self).wf(),
        ensures
            final(self).wf(),
            final(self).past() == pushed(old(self).past(), cmd@),
            final(self).future() == Seq::<CommandView>::empty(),
            final(self).stroke() == old(self).stroke(),
            forall|w: int, h: int|
                old(self).fits(w, h) && command_fits(cmd@, w, h) ==> #[trigger] final(self).fits(w, h),
    {
        let ghost c = cmd@;
        self.future.clear();
        proof {
            lemma_map_push(self.past@, cmd);
        }
        self.past.push_back(cmd);
        while self.past.len() > MAX_HISTORY
            invariant
                self.stroke() == old(self).stroke(),
                self.future@.len() == 0,
                old(self).past().len() <= MAX_HISTORY,
                self.past() == old(self).past().push(c) || self.past() == pushed(old(self).past(), c),
                self.past() == old(self).past().push(c) || self.past().len() <= MAX_HISTORY,
            decreases self.past@.len(),
        {
            proof {
                lemma_map_drop_first(self.past@);
            }
            self.past.pop_front();
        }
        assert(self.future() =~= Seq::<CommandView>::empty());
        proof {
            assert forall|w: int, h: int|
                old(self).fits(w, h) && command_fits(c, w, h) implies #[trigger] self.fits(w, h) by {
                let p0 = old(self).past();
                assert forall|i: int| 0 <= i < self.past().len() implies command_fits(
                    #[trigger] self.past()[i],
                    w,
                    h,
                ) by {
                    if p0.len() >= MAX_HISTORY {
                        assert(self.past()[i] == p0.push(c)[i + 1]);
                    } else {
                        assert(self.past()[i] == p0.push(c)[i]);
                    }
                }
            }
        }
    }

    /// Records one cell change. A change that changes nothing is ignored.
    /// Inside a stroke, a cell already in the stroke keeps its first `before`
    /// and takes the new `after`; outside a stroke the change is pushed as a
    /// command of its own.
    pub fn record(&mut self, change: CellChange)
        requires
            old(self).wf(),
        ensures
            final(self).wf(),
            record_post(*old(self), change, *final(self)),
            forall|w: int, h: int|
                old(self).fits(w, h) && change.x < w && change.y < h ==> #[trigger] final(self).fits(
                    w,
                    h,
                ),
    {
        if change.before == change.after {
            return;
        }
        match self.stroke.take() {
            Some(mut s) => {
                let ghost s0 = s@;
                match find_same_cell(&s, change) {
                    Some(i) => {
                        let mut e = s[i];
                        e.after = change.after;
                        s.set(i, e);
                        proof {
                            let j = choose|j: int| 0 <= j < s0.len() && same_cell(#[trigger] s0[j], change);
                            if j != i {
                                assert(!same_cell(s0[i as int], s0[j]));
                            }
                            assert(s@ =~= recorded(s0, change));
                            assert forall|w: int, h: int|
                                changes_fit(s0, w, h) implies changes_fit(s@, w, h) by {
                                assert forall|k: int| 0 <= k < s@.len() implies (#[trigger] s@[k]).x
                                    < w && s@[k].y < h by {
                                    assert(s@[k].x == s0[k].x && s@[k].y == s0[k].y);
                                }
                            }
                        }
                    },
                    None => {
                        s.push(change);
                        proof {
                            assert(s@ =~= recorded(s0, change));
                            assert forall|a: int, b: int|
                                0 <= a < s@.len() && 0 <= b < s@.len() && a != b implies !same_cell(
                                    #[trigger] s@[a],
                                    #[trigger] s@[b],
                                ) by {
                                if a < s0.len() && b < s0.len() {
                                    assert(s@[a] == s0[a] && s@[b] == s0[b]);
                                } else if a < s0.len() {
                                    assert(s@[a] == s0[a]);
                                } else if b < s0.len() {
                                    assert(s@[b] == s0[b]);
                                }
                            }
                        }
                    },
                }
                self.stroke = Some(s);
            },
            None => {
                let mut v: Vec<CellChange> = Vec::new();
                v.push(change);
                assert(v@ =~= seq![change]);
                self.push(Command::Cells(v));
            },
        }
    }

    /// Closes the open stroke, pushing it as one command when it holds any change.
    pub fn end_stroke(&mut self)
        requires
            old(self).wf(),
        ensures
            final(self).wf(),
            final(self).stroke() is None,
            final(self).past() == closed_past(old(self).past(), old(self).stroke()),
            final(self).future() == closed_future(old(self).future(), old(self).stroke()),
            forall|w: int, h: int| old(self).fits(w, h) ==> #[trigger] final(self).fits(w, h),
    {
        if let Some(stroke) = self.stroke.take() {
            if stroke.len() > 0 {
                self.push(Command::Cells(stroke));
            }
        }
    }
}


/// Writes the changes of `cs` in order (their `after` values when
/// `use_after`, else their `before` values); changes naming a missing layer
/// are skipped.
fn write_changes(cs: &Vec<CellChange>, document: &mut Document, use_after: bool)
    requires
        old(document).wf(),
        changes_fit(cs@, old(document).width as int, old(document).height as int),
    ensures
        final(document).wf(),
        cells_written(cs@, *old(document), *final(document), use_after),
{
    let w = document.width;
    let ghost d0 = *document;
    let mut k: usize = 0;
    while k < cs.len()
        invariant
            k <= cs@.len(),
            document.wf(),
            w == d0.width,
            changes_fit(cs@, d0.width as int, d0.height as int),
            cells_written(cs@.subrange(0, k as int), d0, *document, use_after),
        decreases cs@.len() - k,
    {
        let c = cs[k];
        let ghost before = *document;
        if c.layer < document.layers.len() {
            proof {
                lemma_cell_index_bounds(d0.width as int, d0.height as int, c.x as int, c.y as int);
                assert(document.layers@[c.layer as int].fits(d0.width as int, d0.height as int));
            }
            let v = if use_after {
                c.after
            } else {
                c.before
            };
            document.layers[c.layer].set(w, c.x, c.y, v);
            proof {
                assert forall|i: int| 0 <= i < document.layers@.len() implies (#[trigger] document.layers@[i]).fits(
                    d0.width as int,
                    d0.height as int,
                ) by {
                    if i != c.layer {
                        assert(document.layers@[i] == before.layers@[i]);
                    }
                }
            }
        }
        proof {
            let sub = cs@.subrange(0, k + 1);
            assert(sub.drop_last() =~= cs@.subrange(0, k as int));
            assert(sub.last() == c);
            assert forall|i: int| 0 <= i < d0.layers@.len() implies ({
                let a = #[trigger] document.layers@[i];
                let b = d0.layers@[i];
                &&& a.name == b.name
                &&& a.visible == b.visible
                &&& a.offset == b.offset
                &&& a.full_upload == b.full_upload
                &&& a.tiles@ == cells_applied(b.tiles@, i, d0.width as int, sub, use_after)
            }) by {
                if i != c.layer {
                    assert(document.layers@[i] == before.layers@[i]);
                }
            }
            assert forall|i: int, p: (u32, u32)| 0 <= i < d0.layers@.len() implies (
            #[trigger] document.layers@[i].dirty_cells@.contains(p) <==> (
            d0.layers@[i].dirty_cells@.contains(p) || cells_dirtied(
                d0.layers@[i].tiles@,
                i,
                d0.width as int,
                sub,
                use_after,
                p,
            ))) by {
                assert(before.layers@[i].dirty_cells@.contains(p) <==> (
                d0.layers@[i].dirty_cells@.contains(p) || cells_dirtied(
                    d0.layers@[i].tiles@,
                    i,
                    d0.width as int,
                    sub.drop_last(),
                    use_after,
                    p,
                )));
                if i != c.layer {
                    assert(document.layers@[i] == before.layers@[i]);
                }
            }
        }
        k = k + 1;
    }
    assert(cs@.subrange(0, cs@.len() as int) =~= cs@);
}

/// Redoes `cmd` on the document.
fn apply_forward(cmd: &Command, document: &mut Document)
    requires
        old(document).wf(),
        command_fits(cmd@, old(document).width as int, old(document).height as int),
        old(document).resources_generation < u64::MAX,
    ensures
        final(document).wf(),
        applied_forward(cmd@, *old(document), *final(document)),
{
    match cmd {
        Command::Cells(changes) => {
            write_changes(changes, document, true);
        },
        Command::AddLayer { index, layer } => {
            let len = document.layers.len();
            let i = if *index <= len {
                *index
            } else {
                len
            };
            let ghost d0 = *document;
            document.layers.insert(i, layer.duplicate());
            document.active_layer = i;
            let ghost d1 = *document;
            document.bump_resources();
            proof {
                let want = d0.layers@.insert(i as int, *layer);
                assert forall|j: int| 0 <= j < want.len() implies (#[trigger] document.layers@[j]).same_content(
                    &want[j],
                ) by {
                    assert(d1.layers@[j].same_content(&want[j]));
                }
                assert forall|j: int| 0 <= j < document.layers@.len() implies (#[trigger] document.layers@[j]).fits(
                    d0.width as int,
                    d0.height as int,
                ) by {
                    assert(d1.layers@[j].fits(d0.width as int, d0.height as int));
                }
            }
        },
        Command::MoveLayer { index, to, .. } => {
            move_layer(document, *index, *to);
        },
    }
}

/// Undoes `cmd` on the document. Undoing an inserted layer keeps the last
/// layer of the document, so a document never runs out of layers.
fn apply_inverse(cmd: &Command, document: &mut Document)
    requires
        old(document).wf(),
        command_fits(cmd@, old(document).width as int, old(document).height as int),
        old(document).resources_generation < u64::MAX,
    ensures
        final(document).wf(),
        applied_inverse(cmd@, *old(document), *final(document)),
{
    match cmd {
        Command::Cells(changes) => {
            write_changes(changes, document, false);
        },
        Command::AddLayer { index, .. } => {
            if document.layers.len() > 1 && *index < document.layers.len() {
                let ghost d0 = *document;
                document.layers.remove(*index);
                if document.active_layer >= document.layers.len() {
                    document.active_layer = document.layers.len() - 1;
                }
                let ghost d1 = *document;
                document.bump_resources();
                proof {
                    let want = d0.layers@.remove(*index as int);
                    assert forall|j: int| 0 <= j < want.len() implies (#[trigger] document.layers@[j]).same_content(
                        &want[j],
                    ) by {
                        assert(d1.layers@[j] == want[j]);
                    }
                    assert forall|j: int| 0 <= j < document.layers@.len() implies (#[trigger] document.layers@[j]).fits(
                        d0.width as int,
                        d0.height as int,
                    ) by {
                        assert(d1.layers@[j] == want[j]);
                    }
                }
            }
        },
        Command::MoveLayer { index, from, .. } => {
            move_layer(document, *index, *from);
        },
    }
}

/// Moves layer `index`, when there is one, to offset `to`, flagging it for a
/// full upload when the offset changes.
fn move_layer(document: &mut Document, index: usize, to: (i32, i32))
    requires
        old(document).wf(),
    ensures
        final(document).wf(),
        offset_moved(index as int, to, *old(document), *final(document)),
{
    if index < document.layers.len() {
        let (ox, oy) = document.layers[index].offset;
        if ox != to.0 || oy != to.1 {
            document.layers[index].offset = to;
            document.layers[index].full_upload = true;
        }
    }
}

impl History {
    /// Undoes the newest command (closing any open stroke first) and returns
    /// whether there was one; see [`undo_post`].
    pub fn undo(&mut self, document: &mut Document) -> (r: bool)
        requires
            old(self).wf(),
            old(self).fits(old(document).width as int, old(document).height as int),
            old(document).wf(),
            old(document).resources_generation < u64::MAX,
        ensures
            final(self).wf(),
            final(self).fits(final(document).width as int, final(document).height as int),
            final(document).wf(),
            undo_post(*old(self), *old(document), *final(self), *final(document), r),
    {
        self.end_stroke();
        proof {
            if self.past@.len() > 0 {
                lemma_map_drop_last(self.past@);
            }
        }
        let cmd = match self.past.pop_back() {
            Some(c) => c,
            None => {
                return false;
            },
        };
        apply_inverse(&cmd, document);
        proof {
            lemma_map_push(self.future@, cmd);
        }
        self.future.push(cmd);
        true
    }

    /// Redoes the command undone last (closing any open stroke first) and
    /// returns whether there was one; see [`redo_post`].
    pub fn redo(&mut self, document: &mut Document) -> (r: bool)
        requires
            old(self).wf(),
            old(self).fits(old(document).width as int, old(document).height as int),
            old(document).wf(),
            old(document).resources_generation < u64::MAX,
        ensures
            final(self).wf(),
            final(self).fits(final(document).width as int, final(document).height as int),
            final(document).wf(),
            redo_post(*old(self), *old(document), *final(self), *final(document), r),
    {
        self.end_stroke();
        proof {
            assert(self.fits(document.width as int, document.height as int));
            if self.future@.len() > 0 {
                lemma_map_drop_last(self.future@);
                assert(command_fits(
                    self.future()[self.future().len() - 1],
                    document.width as int,
                    document.height as int,
                ));
            }
        }
        let cmd = match self.future.pop() {
            Some(c) => c,
            None => {
                return false;
            },
        };
        apply_forward(&cmd, document);
        proof {
            lemma_map_push(self.past@, cmd);
        }
        self.past.push_back(cmd);
        true
    }
}


// ---------------------------------------------------------------------- laws

/// The changes of `cs` to layer `li` all address positions of `tiles`.
pub open spec fn changes_in_range(tiles: Seq<Tile>, li: int, width: int, cs: Seq<CellChange>) -> bool {
    forall|k: int|
        0 <= k < cs.len() && (#[trigger] cs[k]).layer == li ==> 0 <= cell_index(
            width,
            cs[k].x as int,
            cs[k].y as int,
        ) < tiles.len()
}

proof fn lemma_cells_applied_len(tiles: Seq<Tile>, li: int, width: int, cs: Seq<CellChange>, use_after: bool)
    requires
        changes_in_range(tiles, li, width, cs),
    ensures
        cells_applied(tiles, li, width, cs, use_after).len() == tiles.len(),
    decreases cs.len(),
{
    if cs.len() > 0 {
        assert(changes_in_range(tiles, li, width, cs.drop_last())) by {
            assert forall|k: int| 0 <= k < cs.drop_last().len() && (#[trigger] cs.drop_last()[k]).layer
                == li implies 0 <= cell_index(
                width,
                cs.drop_last()[k].x as int,
                cs.drop_last()[k].y as int,
            ) < tiles.len() by {
                assert(cs.drop_last()[k] == cs[k]);
            }
        }
        lemma_cells_applied_len(tiles, li, width, cs.drop_last(), use_after);
        assert(cs.last() == cs[cs.len() - 1]);
    }
}

/// Writing changes leaves untouched positions alone, and two buffers that
/// agree wherever the changes do not write end up agreeing everywhere.
proof fn lemma_cells_applied_agree(
    t1: Seq<Tile>,
    t2: Seq<Tile>,
    li: int,
    width: int,
    cs: Seq<CellChange>,
    use_after: bool,
    p: int,
)
    requires
        t1.len() == t2.len(),
        changes_in_range(t1, li, width, cs),
        0 <= p < t1.len(),
    ensures
        !touched(cs, li, width, p) ==> cells_applied(t1, li, width, cs, use_after)[p] == t1[p],
        (t1[p] == t2[p] || touched(cs, li, width, p)) ==> cells_applied(t1, li, width, cs, use_after)[p]
            == cells_applied(t2, li, width, cs, use_after)[p],
    decreases cs.len(),
{
    if cs.len() > 0 {
        let cs0 = cs.drop_last();
        let c = cs.last();
        assert(c == cs[cs.len() - 1]);
        assert(changes_in_range(t1, li, width, cs0)) by {
            assert forall|k: int| 0 <= k < cs0.len() && (#[trigger] cs0[k]).layer == li implies 0
                <= cell_index(width, cs0[k].x as int, cs0[k].y as int) < t1.len() by {
                assert(cs0[k] == cs[k]);
            }
        }
        lemma_cells_applied_agree(t1, t2, li, width, cs0, use_after, p);
        lemma_cells_applied_len(t1, li, width, cs0, use_after);
        lemma_cells_applied_len(t2, li, width, cs0, use_after);
        if touched(cs0, li, width, p) {
            let k = choose|k: int|
                0 <= k < cs0.len() && (#[trigger] cs0[k]).layer == li && cell_index(
                    width,
                    cs0[k].x as int,
                    cs0[k].y as int,
                ) == p;
            assert(cs[k] == cs0[k]);
        }
        if !touched(cs, li, width, p) {
            if touched(cs0, li, width, p) {
                let k = choose|k: int|
                    0 <= k < cs0.len() && (#[trigger] cs0[k]).layer == li && cell_index(
                        width,
                        cs0[k].x as int,
                        cs0[k].y as int,
                    ) == p;
                assert(cs[k] == cs0[k]);
            }
            if c.layer == li && cell_index(width, c.x as int, c.y as int) == p {
                assert(cs[cs.len() - 1] == c);
            }
        }
        if touched(cs, li, width, p) && !touched(cs0, li, width, p) {
            let k = choose|k: int|
                0 <= k < cs.len() && (#[trigger] cs[k]).layer == li && cell_index(
                    width,
                    cs[k].x as int,
                    cs[k].y as int,
                ) == p;
            if k < cs.len() - 1 {
                assert(cs0[k] == cs[k]);
            }
        }
    }
}

/// Writing `before` values and then `after` values over a buffer gives what
/// writing the `after` values alone gives.
proof fn lemma_after_overrides(tiles: Seq<Tile>, li: int, width: int, cs: Seq<CellChange>, first: bool, second: bool)
    requires
        changes_in_range(tiles, li, width, cs),
    ensures
        cells_applied(cells_applied(tiles, li, width, cs, first), li, width, cs, second)
            == cells_applied(tiles, li, width, cs, second),
{
    let t1 = cells_applied(tiles, li, width, cs, first);
    lemma_cells_applied_len(tiles, li, width, cs, first);
    lemma_cells_applied_len(tiles, li, width, cs, second);
    assert(changes_in_range(t1, li, width, cs));
    lemma_cells_applied_len(t1, li, width, cs, second);
    assert forall|p: int| 0 <= p < tiles.len() implies cells_applied(t1, li, width, cs, second)[p]
        == cells_applied(tiles, li, width, cs, second)[p] by {
        lemma_cells_applied_agree(tiles, t1, li, width, cs, first, p);
        lemma_cells_applied_agree(t1, tiles, li, width, cs, second, p);
    }
    assert(cells_applied(t1, li, width, cs, second) =~= cells_applied(tiles, li, width, cs, second));
}

/// The document shows the effect of `c`: redoing `c` would change none of
/// its layers' content.
pub open spec fn shows_effect(c: CommandView, d: Document) -> bool {
    match c {
        CommandView::Cells(cs) => forall|i: int|
            0 <= i < d.layers@.len() ==> cells_applied(
                (#[trigger] d.layers@[i]).tiles@,
                i,
                d.width as int,
                cs,
                true,
            ) == d.layers@[i].tiles@,
        CommandView::AddLayer { index, layer } => {
            &&& d.layers@.len() > 1
            &&& index < d.layers@.len()
            &&& d.layers@[index as int].same_content(&layer)
        },
        CommandView::MoveLayer { index, to, .. } => index < d.layers@.len() ==> d.layers@[index as int].offset
            == to,
    }
}

/// The document is as it was before `c`: undoing `c` would change none of
/// its layers' content.
pub open spec fn shows_cause(c: CommandView, d: Document) -> bool {
    match c {
        CommandView::Cells(cs) => forall|i: int|
            0 <= i < d.layers@.len() ==> cells_applied(
                (#[trigger] d.layers@[i]).tiles@,
                i,
                d.width as int,
                cs,
                false,
            ) == d.layers@[i].tiles@,
        CommandView::AddLayer { index, .. } => index <= d.layers@.len(),
        CommandView::MoveLayer { index, from, .. } => index < d.layers@.len()
            ==> d.layers@[index as int].offset == from,
    }
}

proof fn lemma_cells_roundtrip(cs: Seq<CellChange>, d0: Document, d1: Document, d2: Document, first: bool, second: bool)
    requires
        d0.wf(),
        changes_fit(cs, d0.width as int, d0.height as int),
        forall|i: int|
            0 <= i < d0.layers@.len() ==> cells_applied(
                (#[trigger] d0.layers@[i]).tiles@,
                i,
                d0.width as int,
                cs,
                second,
            ) == d0.layers@[i].tiles@,
        cells_written(cs, d0, d1, first),
        cells_written(cs, d1, d2, second),
    ensures
        layers_hold(d2, d0.layers@),
{
    assert forall|i: int| 0 <= i < d0.layers@.len() implies (#[trigger] d2.layers@[i]).same_content(
        &d0.layers@[i],
    ) by {
        let t = d0.layers@[i].tiles@;
        assert(d0.layers@[i].fits(d0.width as int, d0.height as int));
        assert(changes_in_range(t, i, d0.width as int, cs)) by {
            assert forall|k: int| 0 <= k < cs.len() && (#[trigger] cs[k]).layer == i implies 0
                <= cell_index(d0.width as int, cs[k].x as int, cs[k].y as int) < t.len() by {
                lemma_cell_index_bounds(
                    d0.width as int,
                    d0.height as int,
                    cs[k].x as int,
                    cs[k].y as int,
                );
            }
        }
        lemma_after_overrides(t, i, d0.width as int, cs, first, second);
        assert(d1.layers@[i].tiles@ == cells_applied(t, i, d0.width as int, cs, first));
    }
}

/// Undoing a command and then redoing it gives the document back its layers,
/// when the document showed the command's effect. (For an inserted layer,
/// that means the document holds it and at least one other layer; for cell
/// edits, that the edited cells hold what the edits wrote.)
pub proof fn lemma_redo_restores_undo(c: CommandView, d0: Document, d1: Document, d2: Document)
    requires
        d0.wf(),
        command_fits(c, d0.width as int, d0.height as int),
        shows_effect(c, d0),
        applied_inverse(c, d0, d1),
        applied_forward(c, d1, d2),
    ensures
        layers_hold(d2, d0.layers@),
{
    match c {
        CommandView::Cells(cs) => {
            lemma_cells_roundtrip(cs, d0, d1, d2, false, true);
        },
        CommandView::AddLayer { index, layer } => {
            let l0 = d0.layers@;
            let l1 = l0.remove(index as int);
            assert forall|j: int| 0 <= j < l0.len() implies (#[trigger] d2.layers@[j]).same_content(
                &l0[j],
            ) by {
                let want = d1.layers@.insert(index as int, layer);
                assert(d2.layers@[j].same_content(&want[j]));
                if j < index {
                    assert(d1.layers@[j].same_content(&l1[j]));
                } else if j > index {
                    assert(d1.layers@[j - 1].same_content(&l1[j - 1]));
                }
            }
        },
        CommandView::MoveLayer { index, from, to } => {
            assert forall|j: int| 0 <= j < d0.layers@.len() implies (#[trigger] d2.layers@[j]).same_content(
                &d0.layers@[j],
            ) by {
                assert(d1.layers@[j] == d1.layers@[j]);
            }
        },
    }
}

/// Redoing a command and then undoing it gives the document back its
/// layers, when the document was as before the command. (For an inserted
/// layer, that means the index lies within the layer list.)
pub proof fn lemma_undo_restores_redo(c: CommandView, d0: Document, d1: Document, d2: Document)
    requires
        d0.wf(),
        command_fits(c, d0.width as int, d0.height as int),
        shows_cause(c, d0),
        applied_forward(c, d0, d1),
        applied_inverse(c, d1, d2),
    ensures
        layers_hold(d2, d0.layers@),
{
    match c {
        CommandView::Cells(cs) => {
            lemma_cells_roundtrip(cs, d0, d1, d2, true, false);
        },
        CommandView::AddLayer { index, layer } => {
            let l0 = d0.layers@;
            let want = l0.insert(index as int, layer);
            assert(d1.layers@.len() == l0.len() + 1);
            assert forall|j: int| 0 <= j < l0.len() implies (#[trigger] d2.layers@[j]).same_content(
                &l0[j],
            ) by {
                let rem = d1.layers@.remove(index as int);
                assert(d2.layers@[j].same_content(&rem[j]));
                if j < index {
                    assert(d1.layers@[j].same_content(&want[j]));
                } else {
                    assert(d1.layers@[j + 1].same_content(&want[j + 1]));
                }
            }
        },
        CommandView::MoveLayer { index, from, to } => {
            assert forall|j: int| 0 <= j < d0.layers@.len() implies (#[trigger] d2.layers@[j]).same_content(
                &d0.layers@[j],
            ) by {
                assert(d1.layers@[j] == d1.layers@[j]);
            }
        },
    }
}

/// `History::undo` followed by `History::redo` gives the document back its
/// layers and the history back its stacks (with the stroke that was open
/// closed), when the document showed the effect of the command undone.
pub proof fn lemma_undo_then_redo(
    h0: History,
    d0: Document,
    h1: History,
    d1: Document,
    h2: History,
    d2: Document,
)
    requires
        h0.wf(),
        d0.wf(),
        h0.fits(d0.width as int, d0.height as int),
        undo_post(h0, d0, h1, d1, true),
        redo_post(h1, d1, h2, d2, true),
        shows_effect(closed_past(h0.past(), h0.stroke()).last(), d0),
    ensures
        layers_hold(d2, d0.layers@),
        h2.past() == closed_past(h0.past(), h0.stroke()),
        h2.future() == closed_future(h0.future(), h0.stroke()),
        h2.stroke() is None,
{
    let p = closed_past(h0.past(), h0.stroke());
    let f = closed_future(h0.future(), h0.stroke());
    let c = p.last();
    assert(closed_past(h1.past(), h1.stroke()) == h1.past());
    assert(closed_future(h1.future(), h1.stroke()) == h1.future());
    assert(h1.future().last() == c);
    assert(command_fits(c, d0.width as int, d0.height as int)) by {
        match h0.stroke() {
            Some(s) => {
                if s.len() > 0 {
                    if h0.past().len() >= MAX_HISTORY {
                        assert(p.last() == h0.past().push(CommandView::Cells(s)).last());
                    }
                } else {
                    assert(command_fits(h0.past()[h0.past().len() - 1], d0.width as int, d0.height as int));
                }
            },
            None => {
                assert(command_fits(h0.past()[h0.past().len() - 1], d0.width as int, d0.height as int));
            },
        }
    }
    lemma_redo_restores_undo(c, d0, d1, d2);
    assert(h2.past() =~= p);
    assert(h2.future() =~= f);
}


/// `History::redo` followed by `History::undo` gives the document back its
/// layers and the history back its stacks, when the document was as before
/// the command redone.
pub proof fn lemma_redo_then_undo(
    h0: History,
    d0: Document,
    h1: History,
    d1: Document,
    h2: History,
    d2: Document,
)
    requires
        h0.wf(),
        d0.wf(),
        h0.fits(d0.width as int, d0.height as int),
        redo_post(h0, d0, h1, d1, true),
        undo_post(h1, d1, h2, d2, true),
        shows_cause(closed_future(h0.future(), h0.stroke()).last(), d0),
    ensures
        layers_hold(d2, d0.layers@),
        h2.past() == closed_past(h0.past(), h0.stroke()),
        h2.future() == closed_future(h0.future(), h0.stroke()),
        h2.stroke() is None,
{
    let p = closed_past(h0.past(), h0.stroke());
    let f = closed_future(h0.future(), h0.stroke());
    let c = f.last();
    assert(closed_past(h1.past(), h1.stroke()) == h1.past());
    assert(closed_future(h1.future(), h1.stroke()) == h1.future());
    assert(h1.past().last() == c);
    assert(command_fits(c, d0.width as int, d0.height as int)) by {
        assert(command_fits(h0.future()[h0.future().len() - 1], d0.width as int, d0.height as int));
    }
    lemma_undo_restores_redo(c, d0, d1, d2);
    assert(h2.past() =~= p);
    assert(h2.future() =~= f);
}

} // verus!
