use vstd::prelude::*;

use crate::document::Document;
use crate::grid::cell_index;
use crate::history::{same_settings, Command, CommandView, History, pushed};
use crate::io::xp::layer_name;
use crate::layer::{merge_offsets_fit, merged_tile, Layer};
use crate::tile::blank_tile;
use crate::trusted::{decimal_string, trim, trimmed};

verus! {

/// A layer name being edited.
pub struct RenameState {
    /// The layer being renamed.
    pub layer: usize,
    /// The text typed so far.
    pub buffer: String,
    /// Set on the first frame, so the text field can take focus.
    pub just_started: bool,
}

/// The layers panel's own state.
pub struct LayersPanelState {
    /// The rename in progress, if any.
    pub renaming: Option<RenameState>,
}

impl Default for LayersPanelState {
    fn default() -> (s: Self)
        ensures
            s.renaming is None,
    {
        LayersPanelState { renaming: None }
    }
}

/// What a click in the layers panel asks for.
#[derive(Copy, Clone, Debug, PartialEq, Eq, Structural)]
pub enum LayerAction {
    Nothing,
    SetActive(usize),
    MoveUp(usize),
    MoveDown(usize),
    Delete(usize),
    Duplicate(usize),
    MergeDown(usize),
    Add,
}

/// `d1` is `d0` with a new list of `n1` layers, all flagged for a full
/// upload, and active layer `active`; the generation counter moves on.
pub open spec fn relayered(d0: Document, d1: Document, n1: int, active: int) -> bool {
    &&& same_settings(d0, d1)
    &&& d1.layers@.len() == n1
    &&& d1.active_layer == active
    &&& d1.resources_generation == d0.resources_generation + 1
    &&& forall|k: int| 0 <= k < n1 ==> (#[trigger] d1.layers@[k]).full_upload
}

/// Layer `k` of `d1` holds what layer `j` of `d0` held.
pub open spec fn kept(d0: Document, d1: Document, k: int, j: int) -> bool {
    &&& d1.layers@[k].same_content(&d0.layers@[j])
    &&& d1.layers@[k].dirty_cells == d0.layers@[j].dirty_cells
}

/// Where layer `k` comes from when layers `i` and `j` trade places.
pub open spec fn swapped_index(k: int, i: int, j: int) -> int {
    if k == i {
        j
    } else if k == j {
        i
    } else {
        k
    }
}

/// Where layer `k` comes from once layer `i` is taken out.
pub open spec fn removed_index(k: int, i: int) -> int {
    if k < i {
        k
    } else {
        k + 1
    }
}

/// `d1` is `d0` with layers `i` and `j` (both present) trading places; the
/// active layer follows its layer.
pub open spec fn layers_swapped(d0: Document, d1: Document, i: int, j: int) -> bool {
    let n = d0.layers@.len() as int;
    &&& relayered(d0, d1, n, swapped_index(d0.active_layer as int, i, j))
    &&& forall|k: int| 0 <= k < n ==> #[trigger] kept(d0, d1, k, swapped_index(k, i, j))
}

/// `d1` is `d0` with layer `i` merged into layer `i - 1` and removed; the
/// active layer follows its layer (the merged one for layer `i`).
pub open spec fn merged_down(d0: Document, d1: Document, i: int) -> bool {
    let n = d0.layers@.len() as int;
    let act = d0.active_layer as int;
    let below = d0.layers@[i - 1];
    let above = d0.layers@[i];
    let m = d1.layers@[i - 1];
    let w = d0.width as int;
    let h = d0.height as int;
    &&& relayered(d0, d1, n - 1, if act == i { i - 1 } else if act > i { act - 1 } else { act })
    &&& forall|k: int|
        0 <= k < n - 1 && k != i - 1 ==> #[trigger] kept(d0, d1, k, removed_index(k, i - 1))
    &&& m.name@ == below.name@
    &&& m.visible == below.visible
    &&& m.offset == below.offset
    &&& m.tiles@.len() == w * h
    &&& forall|bx: int, by: int|
        0 <= bx < w && 0 <= by < h ==> #[trigger] m.tiles@[cell_index(w, bx, by)] == merged_tile(
            below,
            above,
            w,
            h,
            bx,
            by,
        )
    &&& forall|p: (u32, u32)|
        #[trigger] m.dirty_cells@.contains(p) <==> (below.dirty_cells@.contains(p) || (p.0 < w && p.1
            < h && merged_tile(below, above, w, h, p.0 as int, p.1 as int) != below.tiles@[cell_index(
            w,
            p.0 as int,
            p.1 as int,
        )]))
}

/// `d1` is `d0` with a copy of layer `i`, named "<name> copy", inserted
/// above it and made active; `h1` records the insertion as an undoable step.
pub open spec fn duplicated(d0: Document, h0: History, d1: Document, h1: History, i: int) -> bool {
    let n = d0.layers@.len() as int;
    let src = d0.layers@[i];
    let c = d1.layers@[i + 1];
    &&& relayered(d0, d1, n + 1, i + 1)
    &&& forall|k: int| 0 <= k <= i ==> #[trigger] kept(d0, d1, k, k)
    &&& forall|k: int| i + 1 < k <= n ==> #[trigger] kept(d0, d1, k, k - 1)
    &&& c.name@ == src.name@ + " copy"@
    &&& c.visible == src.visible
    &&& c.tiles@ == src.tiles@
    &&& c.offset == src.offset
    &&& c.dirty_cells@.len() == 0
    &&& h1.past() == pushed(h0.past(), h1.past().last())
    &&& h1.past().last() matches CommandView::AddLayer { index, layer } && index == i + 1
        && layer.same_content(&c) && layer.dirty_cells@.len() == 0
    &&& h1.future().len() == 0
    &&& h1.stroke() == h0.stroke()
}

/// What `apply_layer_action` does to the document and the history.
pub open spec fn layer_action_post(d0: Document, h0: History, a: LayerAction, d1: Document, h1: History) -> bool {
    let n = d0.layers@.len() as int;
    let act = d0.active_layer as int;
    match a {
        LayerAction::Nothing => d1 == d0 && h1 == h0,
        LayerAction::SetActive(i) => d1 == (Document { active_layer: i, ..d0 }) && h1 == h0,
        LayerAction::MoveUp(i) => h1 == h0 && if i + 1 < n {
            layers_swapped(d0, d1, i as int, i + 1)
        } else {
            d1 == d0
        },
        LayerAction::MoveDown(i) => h1 == h0 && if i > 0 {
            layers_swapped(d0, d1, i as int, i - 1)
        } else {
            d1 == d0
        },
        LayerAction::Delete(i) => h1 == h0 && if n > 1 {
            &&& relayered(d0, d1, n - 1, if act >= n - 1 { n - 2 } else { act })
            &&& forall|k: int| 0 <= k < n - 1 ==> #[trigger] kept(d0, d1, k, removed_index(k, i as int))
        } else {
            d1 == d0
        },
        LayerAction::Add => {
            let l = d1.layers@[n];
            &&& h1 == h0
            &&& relayered(d0, d1, n + 1, n)
            &&& forall|k: int| 0 <= k < n ==> #[trigger] kept(d0, d1, k, k)
            &&& l.name@ == layer_name((n + 1) as nat)
            &&& l.visible
            &&& l.offset == (0i32, 0i32)
            &&& l.tiles@ == Seq::new((d0.width * d0.height) as nat, |j: int| blank_tile())
            &&& l.dirty_cells@.len() == 0
        },
        LayerAction::MergeDown(i) => h1 == h0 && if 0 < i < n {
            merged_down(d0, d1, i as int)
        } else {
            d1 == d0
        },
        LayerAction::Duplicate(i) => if i < n {
            duplicated(d0, h0, d1, h1, i as int)
        } else {
            d1 == d0 && h1 == h0
        },
    }
}

/// What an action needs: a layer index it names is a layer of the document
/// where the action touches it, and a merge stays within 32-bit offsets.
pub open spec fn layer_action_ok(d: Document, a: LayerAction) -> bool {
    let n = d.layers@.len() as int;
    match a {
        LayerAction::SetActive(i) => i < n,
        LayerAction::MoveDown(i) => i > 0 ==> i < n,
        LayerAction::Delete(i) => n > 1 ==> i < n,
        LayerAction::Add => n < u32::MAX,
        LayerAction::MergeDown(i) => 0 < i < n ==> {
            &&& d.width <= i32::MAX
            &&& d.height <= i32::MAX
            &&& merge_offsets_fit(d.layers@[i - 1], d.layers@[i as int], d.width as int, d.height as int)
        },
        _ => true,
    }
}


/// Makes layer `i` of `d` trade places with layer `j = i + 1` or `i - 1`.
fn swap_layers(document: &mut Document, i: usize, j: usize)
    requires
        old(document).wf(),
        old(document).resources_generation < u64::MAX,
        i < old(document).layers@.len(),
        j < old(document).layers@.len(),
        j == i + 1 || i == j + 1,
    ensures
        final(document).wf(),
        layers_swapped(*old(document), *final(document), i as int, j as int),
{
    let ghost d0 = *document;
    let (lo, hi) = if i < j {
        (i, j)
    } else {
        (j, i)
    };
    let l = document.layers.remove(hi);
    document.layers.insert(lo, l);
    assert forall|k: int| 0 <= k < d0.layers@.len() implies document.layers@[k] == d0.layers@[swapped_index(k, i as int, j as int)] by {}
    if document.active_layer == i {
        document.active_layer = j;
    } else if document.active_layer == j {
        document.active_layer = i;
    }
    let ghost d1 = *document;
    document.bump_resources();
    assert forall|k: int| 0 <= k < d0.layers@.len() implies #[trigger] kept(d0, *document, k, swapped_index(k, i as int, j as int)) by {
        assert(document.layers@[k].same_content(&d1.layers@[k]));
    }
}

/// Removes layer `i` (there are at least two); the active layer stays put
/// unless it was the last one.
fn delete_layer(document: &mut Document, i: usize)
    requires
        old(document).wf(),
        old(document).resources_generation < u64::MAX,
        old(document).layers@.len() > 1,
        i < old(document).layers@.len(),
    ensures
        final(document).wf(),
        ({
            let n = old(document).layers@.len() as int;
            let act = old(document).active_layer as int;
            &&& relayered(*old(document), *final(document), n - 1, if act >= n - 1 { n - 2 } else { act })
            &&& forall|k: int| 0 <= k < n - 1 ==> #[trigger] kept(*old(document), *final(document), k, removed_index(k, i as int))
        }),
{
    let ghost d0 = *document;
    document.layers.remove(i);
    if document.active_layer >= document.layers.len() {
        document.active_layer = document.layers.len() - 1;
    }
    let ghost d1 = *document;
    document.bump_resources();
    assert forall|k: int| 0 <= k < d0.layers@.len() - 1 implies #[trigger] kept(d0, *document, k, removed_index(k, i as int)) by {
        assert(document.layers@[k].same_content(&d1.layers@[k]));
    }
}

/// Appends a blank layer named "Layer <n + 1>" and makes it active.
fn add_layer(document: &mut Document)
    requires
        old(document).wf(),
        old(document).resources_generation < u64::MAX,
        old(document).layers@.len() < u32::MAX,
    ensures
        final(document).wf(),
        ({
            let n = old(document).layers@.len() as int;
            let l = final(document).layers@[n];
            &&& relayered(*old(document), *final(document), n + 1, n)
            &&& forall|k: int| 0 <= k < n ==> #[trigger] kept(*old(document), *final(document), k, k)
            &&& l.name@ == layer_name((n + 1) as nat)
            &&& l.visible
            &&& l.offset == (0i32, 0i32)
            &&& l.tiles@ == Seq::new((old(document).width * old(document).height) as nat, |j: int| blank_tile())
            &&& l.dirty_cells@.len() == 0
        }),
{
    let ghost d0 = *document;
    let n = document.layers.len();
    let mut name = String::from_str("Layer ");
    let digits = decimal_string((n + 1) as u32);
    name.append(digits.as_str());
    let layer = Layer::new(name, document.width, document.height);
    document.layers.push(layer);
    document.active_layer = n;
    let ghost d1 = *document;
    document.bump_resources();
    assert forall|k: int| 0 <= k < n implies #[trigger] kept(d0, *document, k, k) by {
        assert(document.layers@[k].same_content(&d1.layers@[k]));
    }
    assert(document.layers@[n as int].same_content(&d1.layers@[n as int]));
}


/// Merges layer `i` into the layer below it and removes it.
fn merge_down(document: &mut Document, i: usize)
    requires
        old(document).wf(),
        old(document).resources_generation < u64::MAX,
        0 < i < old(document).layers@.len(),
        layer_action_ok(*old(document), LayerAction::MergeDown(i)),
    ensures
        final(document).wf(),
        merged_down(*old(document), *final(document), i as int),
{
    let ghost d0 = *document;
    let w = document.width;
    let h = document.height;
    let top = document.layers.remove(i);
    document.layers[i - 1].merge_from_above(&top, w, h);
    if document.active_layer == i {
        document.active_layer = i - 1;
    } else if document.active_layer > i {
        document.active_layer = document.active_layer - 1;
    }
    let ghost d1 = *document;
    document.bump_resources();
    assert forall|k: int| 0 <= k < d0.layers@.len() - 1 && k != i - 1 implies #[trigger] kept(d0, *document, k, removed_index(k, i - 1)) by {
        assert(document.layers@[k].same_content(&d1.layers@[k]));
    }
    assert(document.layers@[i - 1].same_content(&d1.layers@[i - 1]));
}


/// Inserts a copy of layer `i` above it; see [`duplicated`].
fn duplicate_layer(document: &mut Document, history: &mut History, i: usize)
    requires
        old(document).wf(),
        old(document).resources_generation < u64::MAX,
        i < old(document).layers@.len(),
        old(history).wf(),
        old(history).fits(old(document).width as int, old(document).height as int),
    ensures
        final(document).wf(),
        final(history).wf(),
        final(history).fits(final(document).width as int, final(document).height as int),
        duplicated(*old(document), *old(history), *final(document), *final(history), i as int),
{
    let ghost d0 = *document;
    let n = document.layers.len();
    assert(i + 1 <= n);
    let mut copy = document.layers[i].duplicate();
    copy.name.append(" copy");
    copy.dirty_cells.clear();
    copy.full_upload = true;
    let snapshot = copy.duplicate();
    document.layers.insert(i + 1, copy);
    document.active_layer = i + 1;
    let ghost d1 = *document;
    document.bump_resources();
    assert forall|k: int| 0 <= k <= i implies #[trigger] kept(d0, *document, k, k) by {
        assert(document.layers@[k].same_content(&d1.layers@[k]));
    }
    assert forall|k: int| i + 1 < k <= d0.layers@.len() implies #[trigger] kept(d0, *document, k, k - 1) by {
        assert(document.layers@[k].same_content(&d1.layers@[k]));
    }
    assert(document.layers@[i + 1].same_content(&d1.layers@[i + 1]));
    let cmd = Command::AddLayer { index: i + 1, layer: snapshot };
    assert(crate::history::command_fits(cmd@, document.width as int, document.height as int));
    history.push(cmd);
}


/// Carries out a click in the layers panel: make a layer active, move it up
/// or down, delete it (never the last one), duplicate it (undoable), merge it
/// into the layer below, or add a blank layer on top. See
/// [`layer_action_post`]; an action whose index does not apply does nothing.
pub fn apply_layer_action(document: &mut Document, history: &mut History, action: LayerAction)
    requires
        old(document).wf(),
        old(document).resources_generation < u64::MAX,
        old(history).wf(),
        old(history).fits(old(document).width as int, old(document).height as int),
        layer_action_ok(*old(document), action),
    ensures
        final(document).wf(),
        final(history).wf(),
        final(history).fits(final(document).width as int, final(document).height as int),
        layer_action_post(*old(document), *old(history), action, *final(document), *final(history)),
{
    let n = document.layers.len();
    match action {
        LayerAction::Nothing => {},
        LayerAction::SetActive(i) => {
            document.active_layer = i;
        },
        LayerAction::MoveUp(i) => {
            if i < n - 1 {
                swap_layers(document, i, i + 1);
            }
        },
        LayerAction::MoveDown(i) => {
            if i > 0 {
                swap_layers(document, i, i - 1);
            }
        },
        LayerAction::Delete(i) => {
            if n > 1 {
                delete_layer(document, i);
            }
        },
        LayerAction::Duplicate(i) => {
            if i < n {
                duplicate_layer(document, history, i);
            }
        },
        LayerAction::MergeDown(i) => {
            if i > 0 && i < n {
                merge_down(document, i);
            }
        },
        LayerAction::Add => {
            add_layer(document);
        },
    }
}

/// Starts renaming layer `i`, with its current name in the edit buffer.
pub fn start_rename(state: &mut LayersPanelState, document: &Document, i: usize)
    requires
        i < document.layers@.len(),
    ensures
        final(state).renaming matches Some(r) && r.layer == i && r.buffer@ == document.layers@[i as int].name@
            && r.just_started,
{
    state.renaming = Some(RenameState { layer: i, buffer: document.layers[i].name.clone(), just_started: true });
}

/// Ends the rename in progress. When `accept` (Enter, or the field lost
/// focus) and the trimmed buffer is not empty, it becomes the layer's name;
/// Escape passes `accept` false and keeps the old name.
pub fn finish_rename(state: &mut LayersPanelState, document: &mut Document, accept: bool)
    requires
        old(document).wf(),
    ensures
        final(state).renaming is None,
        final(document).wf(),
        *final(document) == (Document { layers: final(document).layers, ..*old(document) }),
        final(document).layers@.len() == old(document).layers@.len(),
        match old(state).renaming {
            Some(r) => {
                let name = trimmed(r.buffer@);
                if accept && name.len() > 0 && r.layer < old(document).layers@.len() {
                    &&& final(document).layers@[r.layer as int].name@ == name
                    &&& forall|k: int| 0 <= k < old(document).layers@.len() && k != r.layer ==> #[trigger] final(document).layers@[k] == old(document).layers@[k]
                    &&& final(document).layers@[r.layer as int] == (Layer {
                        name: final(document).layers@[r.layer as int].name,
                        ..old(document).layers@[r.layer as int]
                    })
                } else {
                    final(document).layers == old(document).layers
                }
            },
            None => final(document).layers == old(document).layers,
        },
{
    let renaming = state.renaming.take();
    if let Some(r) = renaming {
        if accept && r.layer < document.layers.len() {
            let t = trim(r.buffer.as_str());
            if t.unicode_len() > 0 {
                let name = String::from_str(t);
                document.layers[r.layer].name = name;
            }
        }
    }
}


/// Moving layer `i` up and then moving it back down (from `j = i + 1`) restores the layer order
/// and the active layer; the history is untouched.
pub proof fn lemma_move_up_then_down(
    d0: Document,
    h0: History,
    d1: Document,
    h1: History,
    d2: Document,
    h2: History,
    i: usize,
    j: usize,
)
    requires
        j == i + 1,
        j < d0.layers@.len(),
        layer_action_post(d0, h0, LayerAction::MoveUp(i), d1, h1),
        layer_action_post(d1, h1, LayerAction::MoveDown(j), d2, h2),
    ensures
        h2 == h0,
        same_settings(d0, d2),
        d2.active_layer == d0.active_layer,
        d2.layers@.len() == d0.layers@.len(),
        forall|k: int| 0 <= k < d0.layers@.len() ==> #[trigger] kept(d0, d2, k, k),
{
    let n = d0.layers@.len() as int;
    assert(layers_swapped(d0, d1, i as int, i + 1));
    assert(layers_swapped(d1, d2, j as int, j - 1));
    assert forall|k: int| 0 <= k < n implies #[trigger] kept(d0, d2, k, k) by {
        let j = swapped_index(k, i + 1, i as int);
        assert(kept(d1, d2, k, j));
        assert(kept(d0, d1, j, swapped_index(j, i as int, i + 1)));
    }
}

} // verus!
