use vstd::prelude::*;

use crate::document::Document;
use crate::history::{Command, CommandView, History, pushed};
use crate::layer::Layer;
use crate::ui::layers_panel::{kept, relayered};

verus! {

/// The size fields of the "New Canvas" dialog.
#[derive(Copy, Clone, Debug)]
pub struct NewDialogState {
    pub width: u32,
    pub height: u32,
}

/// The size fields of the "Resize Canvas" dialog (which no menu entry opens
/// yet; see [`MenuState::resize_dialog`]).
#[derive(Copy, Clone, Debug)]
pub struct ResizeDialogState {
    pub width: u32,
    pub height: u32,
}

/// The menu bar's own state (the file dialogs in flight are the
/// application's).
pub struct MenuState {
    /// The last error, shown until acknowledged.
    pub last_error: Option<String>,
    pub new_dialog: Option<NewDialogState>,
    /// The "Resize Canvas" dialog, when open. No menu entry opens it:
    /// resizing the canvas is not implemented, so it stays `None`.
    pub resize_dialog: Option<ResizeDialogState>,
    /// The "Import XP" choice (separate layers or merged) is open. No menu
    /// entry sets it: importing the layers of another `.xp` file is not
    /// implemented, so it stays `false`.
    pub import_xp_dialog: bool,
    /// The welcome window, shown once at start.
    pub show_welcome: bool,
}

impl Default for MenuState {
    fn default() -> (s: Self)
        ensures
            s.last_error is None,
            s.new_dialog is None,
            s.resize_dialog is None,
            !s.import_xp_dialog,
            s.show_welcome,
    {
        MenuState { last_error: None, new_dialog: None, resize_dialog: None, import_xp_dialog: false, show_welcome: true }
    }
}

/// The choices of the welcome window.
#[derive(Copy, Clone, Debug, PartialEq, Eq, Structural)]
pub enum WelcomeChoice {
    NewCanvas,
    Open,
    Skip,
}

/// Closes the welcome window on a choice: a new canvas opens the "New
/// Canvas" dialog at the current size; the result says whether a file
/// should be opened.
pub fn choose_welcome(state: &mut MenuState, document: &Document, choice: WelcomeChoice) -> (open: bool)
    ensures
        open == (choice == WelcomeChoice::Open),
        !final(state).show_welcome,
        final(state).new_dialog == if choice == WelcomeChoice::NewCanvas {
            Some(NewDialogState { width: document.width, height: document.height })
        } else {
            old(state).new_dialog
        },
        final(state).last_error == old(state).last_error,
        final(state).resize_dialog == old(state).resize_dialog,
        final(state).import_xp_dialog == old(state).import_xp_dialog,
{
    state.show_welcome = false;
    match choice {
        WelcomeChoice::NewCanvas => {
            state.new_dialog = Some(NewDialogState { width: document.width, height: document.height });
            false
        },
        WelcomeChoice::Open => true,
        WelcomeChoice::Skip => false,
    }
}

/// Adds an imported layer on top and makes it active, as one undoable step.
pub fn add_imported_layer(document: &mut Document, history: &mut History, layer: Layer)
    requires
        old(document).wf(),
        old(document).resources_generation < u64::MAX,
        old(history).wf(),
        old(history).fits(old(document).width as int, old(document).height as int),
        layer.fits(old(document).width as int, old(document).height as int),
    ensures
        final(document).wf(),
        final(history).wf(),
        final(history).fits(final(document).width as int, final(document).height as int),
        ({
            let n = old(document).layers@.len() as int;
            let l = final(document).layers@[n];
            &&& relayered(*old(document), *final(document), n + 1, n)
            &&& forall|k: int| 0 <= k < n ==> #[trigger] kept(*old(document), *final(document), k, k)
            &&& l.same_content(&layer)
            &&& l.dirty_cells == layer.dirty_cells
            &&& final(history).past() == pushed(old(history).past(), final(history).past().last())
            &&& final(history).past().last() matches CommandView::AddLayer { index, layer: snap } && index == n
                && snap.same_content(&layer)
            &&& final(history).future().len() == 0
            &&& final(history).stroke() == old(history).stroke()
        }),
{
    let ghost d0 = *document;
    let index = document.layers.len();
    let snapshot = layer.duplicate();
    document.layers.push(layer);
    document.active_layer = index;
    let ghost d1 = *document;
    document.bump_resources();
    assert forall|k: int| 0 <= k < index implies #[trigger] kept(d0, *document, k, k) by {
        assert(document.layers@[k].same_content(&d1.layers@[k]));
    }
    assert(document.layers@[index as int].same_content(&d1.layers@[index as int]));
    history.push(Command::AddLayer { index, layer: snapshot });
}

} // verus!
