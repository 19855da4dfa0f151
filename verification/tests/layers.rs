use txpaint::document::Document;
use txpaint::font::FontAtlas;
use txpaint::history::History;
use txpaint::layer::Layer;
use txpaint::palette::Color;
use txpaint::tile::Tile;
use txpaint::ui::layers_panel::{
    apply_layer_action, finish_rename, start_rename, LayerAction, LayersPanelState,
};
use txpaint::ui::menu::{add_imported_layer, choose_welcome, MenuState, WelcomeChoice};

fn font() -> FontAtlas {
    FontAtlas { name: "test".to_string(), cell_w: 1, cell_h: 1, mask: vec![0; 256] }
}

fn names(d: &Document) -> Vec<String> {
    d.layers.iter().map(|l| l.name.clone()).collect()
}

fn three_layers() -> (Document, History) {
    let mut d = Document::new_with_size(2, 1, font());
    let mut h = History::new();
    apply_layer_action(&mut d, &mut h, LayerAction::Add);
    apply_layer_action(&mut d, &mut h, LayerAction::Add);
    (d, h)
}

#[test]
fn add_names_layers_by_count() {
    let (d, _) = three_layers();
    assert_eq!(names(&d), vec!["Background", "Layer 2", "Layer 3"]);
    assert_eq!(d.active_layer, 2);
    assert!(d.layers.iter().all(|l| l.full_upload));
}

#[test]
fn move_up_and_down_follow_the_active_layer() {
    let (mut d, mut h) = three_layers();
    apply_layer_action(&mut d, &mut h, LayerAction::SetActive(0));
    apply_layer_action(&mut d, &mut h, LayerAction::MoveUp(0));
    assert_eq!(names(&d), vec!["Layer 2", "Background", "Layer 3"]);
    assert_eq!(d.active_layer, 1);
    apply_layer_action(&mut d, &mut h, LayerAction::MoveDown(1));
    assert_eq!(names(&d), vec!["Background", "Layer 2", "Layer 3"]);
    assert_eq!(d.active_layer, 0);
    // The top layer cannot move up, the bottom one cannot move down.
    apply_layer_action(&mut d, &mut h, LayerAction::MoveUp(2));
    apply_layer_action(&mut d, &mut h, LayerAction::MoveDown(0));
    assert_eq!(names(&d), vec!["Background", "Layer 2", "Layer 3"]);
}

#[test]
fn delete_keeps_one_layer() {
    let (mut d, mut h) = three_layers();
    apply_layer_action(&mut d, &mut h, LayerAction::Delete(2));
    assert_eq!(names(&d), vec!["Background", "Layer 2"]);
    assert_eq!(d.active_layer, 1);
    apply_layer_action(&mut d, &mut h, LayerAction::Delete(0));
    assert_eq!(names(&d), vec!["Layer 2"]);
    apply_layer_action(&mut d, &mut h, LayerAction::Delete(0));
    assert_eq!(names(&d), vec!["Layer 2"]);
    assert_eq!(d.active_layer, 0);
}

#[test]
fn duplicate_is_undoable() {
    let (mut d, mut h) = three_layers();
    let t = Tile { glyph: 9, fg: Color([1, 2, 3, 255]), bg: Color([4, 5, 6, 255]) };
    d.layers[1].tiles[0] = t;
    apply_layer_action(&mut d, &mut h, LayerAction::Duplicate(1));
    assert_eq!(names(&d), vec!["Background", "Layer 2", "Layer 2 copy", "Layer 3"]);
    assert_eq!(d.active_layer, 2);
    assert_eq!(d.layers[2].tiles[0], t);
    assert!(h.undo(&mut d));
    assert_eq!(names(&d), vec!["Background", "Layer 2", "Layer 3"]);
    assert!(h.redo(&mut d));
    assert_eq!(names(&d), vec!["Background", "Layer 2", "Layer 2 copy", "Layer 3"]);
}

#[test]
fn undoing_an_added_layer_asks_for_a_full_upload() {
    let (mut d, mut h) = three_layers();
    apply_layer_action(&mut d, &mut h, LayerAction::Duplicate(1));
    for l in d.layers.iter_mut() {
        l.full_upload = false;
    }
    assert!(h.undo(&mut d));
    assert_eq!(names(&d), vec!["Background", "Layer 2", "Layer 3"]);
    assert!(d.layers.iter().all(|l| l.full_upload));
    for l in d.layers.iter_mut() {
        l.full_upload = false;
    }
    assert!(h.redo(&mut d));
    assert_eq!(names(&d), vec!["Background", "Layer 2", "Layer 2 copy", "Layer 3"]);
    assert!(d.layers.iter().all(|l| l.full_upload));
}

#[test]
fn merge_down_composites_and_removes() {
    let (mut d, mut h) = three_layers();
    let below = Tile { glyph: 5, fg: Color([1, 1, 1, 255]), bg: Color([2, 2, 2, 255]) };
    let glyph_only = Tile { glyph: 6, fg: Color([3, 3, 3, 255]), bg: Color([255, 0, 255, 255]) };
    d.layers[1].tiles[0] = below;
    d.layers[1].tiles[1] = below;
    d.layers[2].tiles[0] = glyph_only;
    apply_layer_action(&mut d, &mut h, LayerAction::MergeDown(2));
    assert_eq!(names(&d), vec!["Background", "Layer 2"]);
    assert_eq!(d.active_layer, 1);
    assert_eq!(d.layers[1].tiles[0], Tile { glyph: 6, fg: Color([3, 3, 3, 255]), bg: Color([2, 2, 2, 255]) });
    assert_eq!(d.layers[1].tiles[1], below);
    // Nothing below the bottom layer.
    apply_layer_action(&mut d, &mut h, LayerAction::MergeDown(0));
    assert_eq!(d.layers.len(), 2);
}

#[test]
fn rename_trims_and_ignores_blank_names() {
    let (mut d, _) = three_layers();
    let mut s = LayersPanelState::default();
    start_rename(&mut s, &d, 1);
    assert_eq!(s.renaming.as_ref().unwrap().buffer, "Layer 2");
    assert!(s.renaming.as_ref().unwrap().just_started);
    s.renaming.as_mut().unwrap().buffer = "  Sky \t".to_string();
    finish_rename(&mut s, &mut d, true);
    assert!(s.renaming.is_none());
    assert_eq!(d.layers[1].name, "Sky");
    start_rename(&mut s, &d, 1);
    s.renaming.as_mut().unwrap().buffer = "   ".to_string();
    finish_rename(&mut s, &mut d, true);
    assert_eq!(d.layers[1].name, "Sky");
    start_rename(&mut s, &d, 1);
    s.renaming.as_mut().unwrap().buffer = "Ground".to_string();
    finish_rename(&mut s, &mut d, false);
    assert_eq!(d.layers[1].name, "Sky");
}

#[test]
fn imported_layer_goes_on_top_and_undoes() {
    let mut d = Document::new_with_size(2, 2, font());
    let mut h = History::new();
    let l = Layer::new("picture".to_string(), 2, 2);
    let g0 = d.resources_generation;
    add_imported_layer(&mut d, &mut h, l);
    assert_eq!(names(&d), vec!["Background", "picture"]);
    assert_eq!(d.active_layer, 1);
    assert_eq!(d.resources_generation, g0 + 1);
    assert!(h.undo(&mut d));
    assert_eq!(names(&d), vec!["Background"]);
}

#[test]
fn welcome_window_choices() {
    let d = Document::new_with_size(7, 5, font());
    let mut s = MenuState::default();
    assert!(s.show_welcome);
    assert!(!choose_welcome(&mut s, &d, WelcomeChoice::NewCanvas));
    assert!(!s.show_welcome);
    let dlg = s.new_dialog.unwrap();
    assert_eq!((dlg.width, dlg.height), (7, 5));
    let mut s = MenuState::default();
    assert!(choose_welcome(&mut s, &d, WelcomeChoice::Open));
    assert!(s.new_dialog.is_none());
    let mut s = MenuState::default();
    assert!(!choose_welcome(&mut s, &d, WelcomeChoice::Skip));
    assert!(!s.show_welcome);
}
