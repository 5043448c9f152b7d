use viewskater::coco_view::{overlay_key, OverlayKeyAction};
use viewskater::img_cache::{CompressionStrategy, ImageCache, PathSource};
use viewskater::keyboard::{key_pressed, key_released, KeyAction, KeyInput, KeyModifiers, KeyboardState};
use viewskater::load_op::LoadOperation;
use viewskater::loading_status::LoadingStatus;
use viewskater::pane::{Pane, PaneLayout};

fn no_mods() -> KeyModifiers {
    KeyModifiers { shift: false, alt: false, platform: false }
}

fn state(layout: PaneLayout, dual: bool) -> KeyboardState {
    KeyboardState {
        pane_layout: layout,
        is_slider_dual: dual,
        skate_left: false,
        skate_right: false,
        show_fps: false,
        ctrl_pressed: false,
        slider_value: 7,
        last_opened_pane: 1,
    }
}

fn pane_at(n: usize, cur: usize) -> Pane<u32> {
    let paths: Vec<PathSource> = (0..n).map(|i| PathSource::Filesystem(format!("/d/{}.png", i))).collect();
    let mut p: Pane<u32> = Pane::new(0, CompressionStrategy::Uncompressed);
    p.img_cache = ImageCache::new(&paths, 1, CompressionStrategy::Uncompressed, cur);
    p.dir_loaded = true;
    p.slider_value = cur as u16;
    p
}

#[test]
fn simple_keys_ask_for_actions() {
    let mut s = state(PaneLayout::SinglePane, false);
    let mut panes = vec![pane_at(5, 2)];
    let mut status = LoadingStatus::new();
    assert_eq!(key_pressed(&mut s, &mut panes, &mut status, KeyInput::Tab, no_mods(), false), vec![KeyAction::ToggleFooter]);
    assert_eq!(key_pressed(&mut s, &mut panes, &mut status, KeyInput::Space, no_mods(), false), vec![KeyAction::ToggleSliderType]);
    assert_eq!(key_pressed(&mut s, &mut panes, &mut status, KeyInput::Character('b'), no_mods(), false),
        vec![KeyAction::ToggleSliderType]);
    assert!(key_pressed(&mut s, &mut panes, &mut status, KeyInput::Character('h'), no_mods(), false).is_empty());
    assert_eq!(key_pressed(&mut s, &mut panes, &mut status, KeyInput::Character('z'), no_mods(), false),
        vec![KeyAction::ForwardToWidgets]);
    assert!(key_pressed(&mut s, &mut panes, &mut status, KeyInput::Character('q'), no_mods(), false).is_empty());
    let platform = KeyModifiers { shift: false, alt: false, platform: true };
    assert_eq!(key_pressed(&mut s, &mut panes, &mut status, KeyInput::Character('q'), platform, false), vec![KeyAction::Exit]);
    assert_eq!(key_pressed(&mut s, &mut panes, &mut status, KeyInput::Character('w'), platform, false),
        vec![KeyAction::ResetState]);
    assert_eq!(key_pressed(&mut s, &mut panes, &mut status, KeyInput::Character('o'), platform, false),
        vec![KeyAction::PickFile(0)]);
    assert_eq!(key_pressed(&mut s, &mut panes, &mut status, KeyInput::Character('2'), platform, false),
        vec![KeyAction::SetPaneLayout(PaneLayout::DualPane)]);
    key_pressed(&mut s, &mut panes, &mut status, KeyInput::F3, no_mods(), false);
    assert!(s.show_fps);
}

#[test]
fn digit_keys_in_the_dual_layout() {
    let mut s = state(PaneLayout::DualPane, true);
    let mut panes = vec![pane_at(5, 2), pane_at(5, 2)];
    let mut status = LoadingStatus::new();
    let alt = KeyModifiers { shift: false, alt: true, platform: false };
    assert_eq!(key_pressed(&mut s, &mut panes, &mut status, KeyInput::Character('1'), alt, false),
        vec![KeyAction::PickFolder(0)]);
    assert!(!panes[0].is_selected);
    let shift_alt = KeyModifiers { shift: true, alt: true, platform: false };
    assert_eq!(key_pressed(&mut s, &mut panes, &mut status, KeyInput::Character('2'), shift_alt, false),
        vec![KeyAction::PickFile(1)]);
    assert!(!panes[1].is_selected);
    assert_eq!(key_pressed(&mut s, &mut panes, &mut status, KeyInput::Character('H'), no_mods(), false),
        vec![KeyAction::ToggleSplitOrientation]);
    let shift_platform = KeyModifiers { shift: true, alt: false, platform: true };
    assert_eq!(key_pressed(&mut s, &mut panes, &mut status, KeyInput::Character('o'), shift_platform, false),
        vec![KeyAction::PickFolder(1)]);
}

#[test]
fn arrows_move_and_skate() {
    let mut s = state(PaneLayout::SinglePane, false);
    let mut panes = vec![pane_at(5, 2)];
    let mut status = LoadingStatus::new();
    assert_eq!(key_pressed(&mut s, &mut panes, &mut status, KeyInput::ArrowRight, no_mods(), false),
        vec![KeyAction::MoveRight]);
    let shift = KeyModifiers { shift: true, alt: false, platform: false };
    assert!(key_pressed(&mut s, &mut panes, &mut status, KeyInput::Character('d'), shift, false).is_empty());
    assert!(s.skate_right);
    status.enqueue_image_load(LoadOperation::LoadNext((vec![0], vec![Some(4)])));
    status.enqueue_image_load(LoadOperation::LoadPrevious((vec![0], vec![Some(0)])));
    // moving left while skating right drops the queued forward loads
    assert_eq!(key_pressed(&mut s, &mut panes, &mut status, KeyInput::ArrowLeft, no_mods(), false),
        vec![KeyAction::MoveLeft]);
    assert!(!s.skate_right);
    assert_eq!(status.loading_queue.len(), 1);
    assert!(status.is_load_previous_items_in_queue());
    assert!(key_pressed(&mut s, &mut panes, &mut status, KeyInput::Character('a'), shift, false).is_empty());
    assert!(s.skate_left);
    key_released(&mut s, KeyInput::Character('a'), false);
    assert!(!s.skate_left);
}

#[test]
fn platform_arrows_jump_to_the_ends() {
    let mut s = state(PaneLayout::DualPane, false);
    let mut panes = vec![pane_at(5, 2), pane_at(8, 0)];
    let mut status = LoadingStatus::new();
    let platform = KeyModifiers { shift: false, alt: false, platform: true };
    assert_eq!(key_pressed(&mut s, &mut panes, &mut status, KeyInput::ArrowLeft, platform, false),
        vec![KeyAction::LoadRemaining(0, 0)]);
    assert_eq!(panes[0].slider_value, 0);
    assert_eq!(s.slider_value, 0);
    assert_eq!(key_pressed(&mut s, &mut panes, &mut status, KeyInput::ArrowRight, platform, false),
        vec![KeyAction::LoadRemaining(0, 4), KeyAction::LoadRemaining(1, 7)]);
    assert_eq!(panes[0].slider_value, 4);
    assert_eq!(panes[1].slider_value, 7);
    assert_eq!(s.slider_value, 7);
}

#[test]
fn modifier_keys_follow_the_platform() {
    let mut s = state(PaneLayout::SinglePane, false);
    let mut panes = vec![pane_at(5, 2)];
    let mut status = LoadingStatus::new();
    key_pressed(&mut s, &mut panes, &mut status, KeyInput::Super, no_mods(), false);
    assert!(!s.ctrl_pressed);
    key_pressed(&mut s, &mut panes, &mut status, KeyInput::Control, no_mods(), false);
    assert!(s.ctrl_pressed);
    key_released(&mut s, KeyInput::Super, false);
    assert!(s.ctrl_pressed);
    key_released(&mut s, KeyInput::Control, false);
    assert!(!s.ctrl_pressed);
    key_pressed(&mut s, &mut panes, &mut status, KeyInput::Super, no_mods(), true);
    assert!(s.ctrl_pressed);
    key_released(&mut s, KeyInput::Super, true);
    assert!(!s.ctrl_pressed);
}

#[test]
fn overlay_keys_address_a_pane() {
    assert_eq!(overlay_key(KeyInput::Character('B'), PaneLayout::SinglePane, 1),
        Some(OverlayKeyAction::ToggleBoundingBoxes(0)));
    assert_eq!(overlay_key(KeyInput::Character('m'), PaneLayout::DualPane, 1),
        Some(OverlayKeyAction::ToggleSegmentationMasks(1)));
    assert_eq!(overlay_key(KeyInput::Character('x'), PaneLayout::DualPane, 1), None);
    assert_eq!(overlay_key(KeyInput::Tab, PaneLayout::DualPane, 1), None);
}

#[test]
fn releasing_twice_is_releasing_once() {
    let mut s = state(PaneLayout::DualPane, true);
    s.skate_left = true;
    s.skate_right = true;
    s.ctrl_pressed = true;
    key_released(&mut s, KeyInput::ArrowLeft, false);
    let once = s.clone();
    key_released(&mut s, KeyInput::ArrowLeft, false);
    assert_eq!(s.skate_left, once.skate_left);
    assert_eq!(s.skate_right, once.skate_right);
    assert!(!s.skate_left && s.skate_right && s.ctrl_pressed);
    assert_eq!(s.pane_layout, PaneLayout::DualPane);
    assert!(s.is_slider_dual);
}
