use vstd::prelude::*;
use crate::pane::{Pane, PaneLayout};
use crate::loading_status::{LoadingStatus, without_next_ops, without_previous_ops};

verus! {

/// A key as the viewer reads it; a character key carries its character.
#[derive(Debug, Clone, Copy, PartialEq, Eq, Structural)]
pub enum KeyInput {
    Tab,
    Space,
    Enter,
    Escape,
    ArrowLeft,
    ArrowRight,
    F3,
    Super,
    Control,
    Character(char),
    Other,
}

/// The modifiers held with a key. `platform` is the platform's command modifier: Command on
/// macOS, Control elsewhere.
#[derive(Debug, Clone, Copy, PartialEq, Eq, Structural)]
pub struct KeyModifiers {
    pub shift: bool,
    pub alt: bool,
    pub platform: bool,
}

/// What the viewer has to do after a key press, beyond the state that [`key_pressed`]
/// updates itself.
#[derive(Debug, Clone, Copy, PartialEq, Eq, Structural)]
pub enum KeyAction {
    ToggleFooter,
    ToggleSliderType,
    ToggleSplitOrientation,
    /// Ask for a file and open it in the pane.
    PickFile(usize),
    /// Ask for a folder and open it in the pane.
    PickFolder(usize),
    SetPaneLayout(PaneLayout),
    /// Close the selected panes.
    ResetState,
    Exit,
    /// Load the images around a new position of a pane.
    LoadRemaining(usize, usize),
    MoveLeft,
    MoveRight,
    /// The key is not the viewer's own; hand it to the annotation widgets.
    ForwardToWidgets,
}

/// The part of the viewer's state that the keyboard drives.
#[derive(Debug, Clone, Copy, PartialEq, Eq, Structural)]
pub struct KeyboardState {
    pub pane_layout: PaneLayout,
    pub is_slider_dual: bool,
    pub skate_left: bool,
    pub skate_right: bool,
    pub show_fps: bool,
    pub ctrl_pressed: bool,
    pub slider_value: u16,
    pub last_opened_pane: usize,
}

/// The pane takes part in a jump to the first or last image.
pub open spec fn jumps<T>(p: Pane<T>, is_slider_dual: bool) -> bool {
    p.dir_loaded && (p.is_selected || is_slider_dual)
}

/// The pane jumps to its first image: it takes part and is not there yet.
pub open spec fn jumps_to_first<T>(p: Pane<T>, is_slider_dual: bool) -> bool {
    jumps(p, is_slider_dual) && p.img_cache.current_index > 0
}

/// The pane jumps to its last image: it takes part, has images and is not at the last one.
pub open spec fn jumps_to_last<T>(p: Pane<T>, is_slider_dual: bool) -> bool {
    jumps(p, is_slider_dual) && p.img_cache.image_paths@.len() > 0
        && p.img_cache.current_index < p.img_cache.image_paths@.len() - 1
}

/// The loads that a jump to the first image asks for, for the first `n` panes, in pane order.
pub open spec fn first_jumps<T>(panes: Seq<Pane<T>>, is_slider_dual: bool, n: int) -> Seq<KeyAction>
    decreases n,
{
    if n <= 0 {
        Seq::empty()
    } else if jumps_to_first(panes[n - 1], is_slider_dual) {
        first_jumps(panes, is_slider_dual, n - 1).push(KeyAction::LoadRemaining((n - 1) as usize, 0))
    } else {
        first_jumps(panes, is_slider_dual, n - 1)
    }
}

/// The loads that a jump to the last image asks for, for the first `n` panes, in pane order.
pub open spec fn last_jumps<T>(panes: Seq<Pane<T>>, is_slider_dual: bool, n: int) -> Seq<KeyAction>
    decreases n,
{
    if n <= 0 {
        Seq::empty()
    } else if jumps_to_last(panes[n - 1], is_slider_dual) {
        last_jumps(panes, is_slider_dual, n - 1).push(
            KeyAction::LoadRemaining((n - 1) as usize, (panes[n - 1].img_cache.image_paths@.len() - 1) as usize))
    } else {
        last_jumps(panes, is_slider_dual, n - 1)
    }
}

/// The shared slider after a jump to the first image over the first `n` panes: zero when
/// some pane jumps, `v` otherwise.
pub open spec fn first_jump_slider<T>(panes: Seq<Pane<T>>, is_slider_dual: bool, n: int, v: u16) -> u16
    decreases n,
{
    if n <= 0 {
        v
    } else if jumps_to_first(panes[n - 1], is_slider_dual) {
        0
    } else {
        first_jump_slider(panes, is_slider_dual, n - 1, v)
    }
}

/// The shared slider after a jump to the last image over the first `n` panes: the last
/// index of the highest jumping pane, or `v` when none jumps.
pub open spec fn last_jump_slider<T>(panes: Seq<Pane<T>>, is_slider_dual: bool, n: int, v: u16) -> u16
    decreases n,
{
    if n <= 0 {
        v
    } else if jumps_to_last(panes[n - 1], is_slider_dual) {
        (panes[n - 1].img_cache.image_paths@.len() - 1) as u16
    } else {
        last_jump_slider(panes, is_slider_dual, n - 1, v)
    }
}

/// The pane is the same but for its slider.
pub open spec fn same_but_slider<T>(p: Pane<T>, q: Pane<T>) -> bool {
    q == Pane { slider_value: q.slider_value, ..p }
}

/// The pane is the same but for its selection.
pub open spec fn same_but_selection<T>(p: Pane<T>, q: Pane<T>) -> bool {
    q == Pane { is_selected: q.is_selected, ..p }
}

/// Jumps every taking-part pane to its first image: their sliders and the shared slider go
/// to zero, and a load is asked for each of them.
#[verifier::rlimit(40)]
fn jump_to_first<T>(state: &mut KeyboardState, panes: &mut Vec<Pane<T>>) -> (r: Vec<KeyAction>)
    ensures
        r@ == first_jumps(old(panes)@, old(state).is_slider_dual, old(panes)@.len() as int),
        final(panes)@.len() == old(panes)@.len(),
        forall|i: int| 0 <= i < old(panes)@.len() ==> same_but_slider(#[trigger] old(panes)@[i], final(panes)@[i])
            && final(panes)@[i].slider_value == if jumps_to_first(old(panes)@[i], old(state).is_slider_dual) {
                0
            } else {
                old(panes)@[i].slider_value
            },
        *final(state) == (KeyboardState {
            slider_value: first_jump_slider(old(panes)@, old(state).is_slider_dual, old(panes)@.len() as int,
                old(state).slider_value),
            ..*old(state)
        }),
{
    let ghost old_panes = panes@;
    let dual = state.is_slider_dual;
    let mut ops: Vec<KeyAction> = Vec::new();
    let mut i: usize = 0;
    while i < panes.len()
        invariant
            i <= panes@.len(),
            panes@.len() == old_panes.len(),
            old_panes == old(panes)@,
            dual == old(state).is_slider_dual,
            ops@ == first_jumps(old_panes, dual, i as int),
            forall|k: int| 0 <= k < i ==> same_but_slider(#[trigger] old_panes[k], panes@[k])
                && panes@[k].slider_value == if jumps_to_first(old_panes[k], dual) { 0 } else { old_panes[k].slider_value },
            forall|k: int| i <= k < panes@.len() ==> #[trigger] panes@[k] == old_panes[k],
            *state == (KeyboardState { slider_value: state.slider_value, ..*old(state) }),
            state.slider_value == first_jump_slider(old_panes, dual, i as int, old(state).slider_value),
        decreases panes@.len() - i,
    {
        let ghost before = panes@;
        if panes[i].dir_loaded && (panes[i].is_selected || dual) && panes[i].img_cache.current_index > 0 {
            panes[i].slider_value = 0;
            state.slider_value = 0;
            ops.push(KeyAction::LoadRemaining(i, 0));
            proof {
                assert(same_but_slider(old_panes[i as int], panes@[i as int]));
            }
        }
        proof {
            assert forall|k: int| 0 <= k < panes@.len() && k != i implies #[trigger] panes@[k] == before[k] by {}
        }
        i += 1;
    }
    ops
}

/// Jumps every taking-part pane to its last image: their sliders and the shared slider go
/// to that index, and a load is asked for each of them.
#[verifier::rlimit(40)]
fn jump_to_last<T>(state: &mut KeyboardState, panes: &mut Vec<Pane<T>>) -> (r: Vec<KeyAction>)
    ensures
        r@ == last_jumps(old(panes)@, old(state).is_slider_dual, old(panes)@.len() as int),
        final(panes)@.len() == old(panes)@.len(),
        forall|i: int| 0 <= i < old(panes)@.len() ==> same_but_slider(#[trigger] old(panes)@[i], final(panes)@[i])
            && final(panes)@[i].slider_value == if jumps_to_last(old(panes)@[i], old(state).is_slider_dual) {
                (old(panes)@[i].img_cache.image_paths@.len() - 1) as u16
            } else {
                old(panes)@[i].slider_value
            },
        *final(state) == (KeyboardState {
            slider_value: last_jump_slider(old(panes)@, old(state).is_slider_dual, old(panes)@.len() as int,
                old(state).slider_value),
            ..*old(state)
        }),
{
    let ghost old_panes = panes@;
    let dual = state.is_slider_dual;
    let mut ops: Vec<KeyAction> = Vec::new();
    let mut i: usize = 0;
    while i < panes.len()
        invariant
            i <= panes@.len(),
            panes@.len() == old_panes.len(),
            old_panes == old(panes)@,
            dual == old(state).is_slider_dual,
            ops@ == last_jumps(old_panes, dual, i as int),
            forall|k: int| 0 <= k < i ==> same_but_slider(#[trigger] old_panes[k], panes@[k])
                && panes@[k].slider_value == if jumps_to_last(old_panes[k], dual) {
                    (old_panes[k].img_cache.image_paths@.len() - 1) as u16
                } else {
                    old_panes[k].slider_value
                },
            forall|k: int| i <= k < panes@.len() ==> #[trigger] panes@[k] == old_panes[k],
            *state == (KeyboardState { slider_value: state.slider_value, ..*old(state) }),
            state.slider_value == last_jump_slider(old_panes, dual, i as int, old(state).slider_value),
        decreases panes@.len() - i,
    {
        let ghost before = panes@;
        let n = panes[i].img_cache.image_paths.len();
        if panes[i].dir_loaded && (panes[i].is_selected || dual) && n > 0 {
            let last = n - 1;
            if panes[i].img_cache.current_index < last {
                panes[i].slider_value = last as u16;
                state.slider_value = last as u16;
                ops.push(KeyAction::LoadRemaining(i, last));
                proof {
                    assert(same_but_slider(old_panes[i as int], panes@[i as int]));
                }
            }
        }
        proof {
            assert forall|k: int| 0 <= k < panes@.len() && k != i implies #[trigger] panes@[k] == before[k] by {}
        }
        i += 1;
    }
    ops
}

/// What the layout and modifier decide for the digit keys that address a pane: a file with
/// shift and alt, a folder with alt alone.
pub open spec fn pick_for(pane: usize, mods: KeyModifiers) -> Seq<KeyAction> {
    if mods.shift && mods.alt {
        seq![KeyAction::PickFile(pane)]
    } else if mods.alt {
        seq![KeyAction::PickFolder(pane)]
    } else {
        Seq::empty()
    }
}

/// The actions a key press asks for, and the keyboard state after it, for every key but the
/// arrows (whose effect on the panes and queues [`key_pressed`] states on its own).
pub open spec fn plain_key_effect(s: KeyboardState, key: KeyInput, mods: KeyModifiers, is_macos: bool)
    -> (KeyboardState, Seq<KeyAction>) {
    match key {
        KeyInput::Tab => (s, seq![KeyAction::ToggleFooter]),
        KeyInput::Space => (s, seq![KeyAction::ToggleSliderType]),
        KeyInput::Character(c) => {
            if c == 'b' {
                (s, seq![KeyAction::ToggleSliderType])
            } else if c == 'h' || c == 'H' {
                (s, if s.pane_layout == PaneLayout::DualPane { seq![KeyAction::ToggleSplitOrientation] }
                    else { Seq::empty() })
            } else if c == '1' {
                (s, if mods.alt { pick_for(0, mods) }
                    else if mods.platform { seq![KeyAction::SetPaneLayout(PaneLayout::SinglePane)] }
                    else { Seq::empty() })
            } else if c == '2' {
                (s, if s.pane_layout == PaneLayout::DualPane { pick_for(1, mods) }
                    else if mods.platform { seq![KeyAction::SetPaneLayout(PaneLayout::DualPane)] }
                    else { Seq::empty() })
            } else if c == 'c' || c == 'w' {
                (s, if mods.platform { seq![KeyAction::ResetState] } else { Seq::empty() })
            } else if c == 'q' {
                (s, if mods.platform { seq![KeyAction::Exit] } else { Seq::empty() })
            } else if c == 'o' {
                let pane = if s.pane_layout == PaneLayout::SinglePane { 0 } else { s.last_opened_pane };
                (s, if !mods.platform { Seq::empty() }
                    else if mods.shift { seq![KeyAction::PickFolder(pane)] }
                    else { seq![KeyAction::PickFile(pane)] })
            } else {
                (s, seq![KeyAction::ForwardToWidgets])
            }
        },
        KeyInput::F3 => (KeyboardState { show_fps: !s.show_fps, ..s }, Seq::empty()),
        KeyInput::Super => (if is_macos { KeyboardState { ctrl_pressed: true, ..s } } else { s }, Seq::empty()),
        KeyInput::Control => (if !is_macos { KeyboardState { ctrl_pressed: true, ..s } } else { s }, Seq::empty()),
        _ => (s, seq![KeyAction::ForwardToWidgets]),
    }
}

/// The layout shortcuts: the platform modifier with '1' asks for one pane whatever the
/// layout, and with '2' for two panes when one is shown; alt with either digit picks instead.
/// Neither changes the keyboard state.
pub proof fn lemma_layout_shortcuts(s: KeyboardState, mods: KeyModifiers, is_macos: bool)
    requires
        mods.platform,
        !mods.alt,
    ensures
        plain_key_effect(s, KeyInput::Character('1'), mods, is_macos)
            == (s, seq![KeyAction::SetPaneLayout(PaneLayout::SinglePane)]),
        s.pane_layout == PaneLayout::SinglePane ==> plain_key_effect(s, KeyInput::Character('2'), mods, is_macos)
            == (s, seq![KeyAction::SetPaneLayout(PaneLayout::DualPane)]),
{
}

/// The key moves to the previous image.
pub open spec fn is_left_key(key: KeyInput) -> bool {
    key == KeyInput::ArrowLeft || key == KeyInput::Character('a')
}

/// The key moves to the next image.
pub open spec fn is_right_key(key: KeyInput) -> bool {
    key == KeyInput::ArrowRight || key == KeyInput::Character('d')
}

/// The digit key toggles the selection of a pane: pane 0 for '1' and pane 1 for '2', in the
/// dual layout with separate sliders.
pub open spec fn toggled_pane(s: KeyboardState, key: KeyInput) -> Option<int> {
    if s.pane_layout == PaneLayout::DualPane && s.is_slider_dual {
        if key == KeyInput::Character('1') {
            Some(0)
        } else if key == KeyInput::Character('2') {
            Some(1)
        } else {
            None
        }
    } else {
        None
    }
}

/// Handles a key press. The digit keys toggle a pane's selection in the dual layout with
/// separate sliders; the arrows with the platform modifier jump to the first or last image;
/// the arrows alone move one image, or with shift start skating, and moving one way drops
/// the queued loads of the other way when it was skating; F3 toggles the frame counter; the
/// modifier key of the platform counts as pressed. The returned actions are what the viewer
/// performs next, in order.
pub fn key_pressed<T>(
    state: &mut KeyboardState,
    panes: &mut Vec<Pane<T>>,
    loading_status: &mut LoadingStatus,
    key: KeyInput,
    mods: KeyModifiers,
    is_macos: bool,
) -> (r: Vec<KeyAction>)
    requires
        old(panes)@.len() >= 1,
        old(state).pane_layout == PaneLayout::DualPane ==> old(panes)@.len() >= 2,
    ensures
        final(panes)@.len() == old(panes)@.len(),
        key == KeyInput::Character('1') && mods.platform && !mods.alt
            ==> r@ == seq![KeyAction::SetPaneLayout(PaneLayout::SinglePane)] && *final(state) == *old(state),
        key == KeyInput::Character('2') && mods.platform && !mods.alt && old(state).pane_layout == PaneLayout::SinglePane
            ==> r@ == seq![KeyAction::SetPaneLayout(PaneLayout::DualPane)] && *final(state) == *old(state),
        key == KeyInput::Tab ==> r@ == seq![KeyAction::ToggleFooter],
        key == KeyInput::Character('h') || key == KeyInput::Character('H') ==> r@ == if old(state).pane_layout
            == PaneLayout::DualPane { seq![KeyAction::ToggleSplitOrientation] } else { Seq::empty() },
        key == KeyInput::Character('o') ==> r@ == if !mods.platform { Seq::empty() } else {
            let pane = if old(state).pane_layout == PaneLayout::SinglePane { 0 } else { old(state).last_opened_pane };
            if mods.shift { seq![KeyAction::PickFolder(pane)] } else { seq![KeyAction::PickFile(pane)] }
        },
        key == KeyInput::F3 ==> r@.len() == 0 && final(state).show_fps == !old(state).show_fps,
        key == KeyInput::Character('1') && old(state).pane_layout == PaneLayout::DualPane && old(state).is_slider_dual
            ==> final(panes)@[0].is_selected == !old(panes)@[0].is_selected
                && final(panes)@[1].is_selected == old(panes)@[1].is_selected,
        key == KeyInput::Character('2') && old(state).pane_layout == PaneLayout::DualPane && old(state).is_slider_dual
            ==> final(panes)@[1].is_selected == !old(panes)@[1].is_selected
                && final(panes)@[0].is_selected == old(panes)@[0].is_selected,
        key == KeyInput::Character('1') && mods.alt ==> r@ == if mods.shift { seq![KeyAction::PickFile(0)] }
            else { seq![KeyAction::PickFolder(0)] },
        key == KeyInput::Space || key == KeyInput::Character('b') ==> r@ == seq![KeyAction::ToggleSliderType],
        key == KeyInput::Character('q') ==> r@ == if mods.platform { seq![KeyAction::Exit] } else { Seq::empty() },
        key == KeyInput::Character('c') || key == KeyInput::Character('w')
            ==> r@ == if mods.platform { seq![KeyAction::ResetState] } else { Seq::empty() },
        !is_left_key(key) && !is_right_key(key) ==> {
            &&& (*final(state), r@) == plain_key_effect(*old(state), key, mods, is_macos)
            &&& *final(loading_status) == *old(loading_status)
            &&& forall|i: int| 0 <= i < old(panes)@.len() ==> same_but_selection(#[trigger] old(panes)@[i], final(panes)@[i])
                && final(panes)@[i].is_selected == if toggled_pane(*old(state), key) == Some(i) {
                    !old(panes)@[i].is_selected
                } else {
                    old(panes)@[i].is_selected
                }
        },
        is_left_key(key) && mods.platform ==> {
            &&& r@ == first_jumps(old(panes)@, old(state).is_slider_dual, old(panes)@.len() as int)
            &&& *final(loading_status) == *old(loading_status)
            &&& forall|i: int| 0 <= i < old(panes)@.len() ==> same_but_slider(#[trigger] old(panes)@[i], final(panes)@[i])
                && final(panes)@[i].slider_value == if jumps_to_first(old(panes)@[i], old(state).is_slider_dual) {
                    0
                } else {
                    old(panes)@[i].slider_value
                }
            &&& *final(state) == (KeyboardState {
                slider_value: first_jump_slider(old(panes)@, old(state).is_slider_dual, old(panes)@.len() as int,
                    old(state).slider_value),
                ..*old(state)
            })
        },
        is_right_key(key) && mods.platform ==> {
            &&& r@ == last_jumps(old(panes)@, old(state).is_slider_dual, old(panes)@.len() as int)
            &&& *final(loading_status) == *old(loading_status)
            &&& forall|i: int| 0 <= i < old(panes)@.len() ==> same_but_slider(#[trigger] old(panes)@[i], final(panes)@[i])
                && final(panes)@[i].slider_value == if jumps_to_last(old(panes)@[i], old(state).is_slider_dual) {
                    (old(panes)@[i].img_cache.image_paths@.len() - 1) as u16
                } else {
                    old(panes)@[i].slider_value
                }
            &&& *final(state) == (KeyboardState {
                slider_value: last_jump_slider(old(panes)@, old(state).is_slider_dual, old(panes)@.len() as int,
                    old(state).slider_value),
                ..*old(state)
            })
        },
        is_left_key(key) && !mods.platform ==> {
            &&& final(panes)@ == old(panes)@
            &&& old(state).skate_right ==> final(loading_status).loading_queue@ == without_next_ops(old(loading_status).loading_queue@)
                && final(loading_status).being_loaded_queue@ == old(loading_status).being_loaded_queue@
                && final(loading_status).out_of_order_images@ == old(loading_status).out_of_order_images@
                && final(loading_status).is_next_image_loaded == old(loading_status).is_next_image_loaded
                && final(loading_status).is_prev_image_loaded == old(loading_status).is_prev_image_loaded
            &&& !old(state).skate_right ==> *final(loading_status) == *old(loading_status)
            &&& *final(state) == (KeyboardState {
                skate_right: false,
                skate_left: old(state).skate_left || mods.shift,
                ..*old(state)
            })
            &&& r@ == if old(state).skate_left || mods.shift { Seq::<KeyAction>::empty() } else { seq![KeyAction::MoveLeft] }
        },
        is_right_key(key) && !mods.platform ==> {
            &&& final(panes)@ == old(panes)@
            &&& old(state).skate_left ==> final(loading_status).loading_queue@ == without_previous_ops(old(loading_status).loading_queue@)
                && final(loading_status).being_loaded_queue@ == old(loading_status).being_loaded_queue@
                && final(loading_status).out_of_order_images@ == old(loading_status).out_of_order_images@
                && final(loading_status).is_next_image_loaded == old(loading_status).is_next_image_loaded
                && final(loading_status).is_prev_image_loaded == old(loading_status).is_prev_image_loaded
            &&& !old(state).skate_left ==> *final(loading_status) == *old(loading_status)
            &&& *final(state) == (KeyboardState {
                skate_left: false,
                skate_right: mods.shift,
                ..*old(state)
            })
            &&& r@ == if mods.shift { Seq::<KeyAction>::empty() } else { seq![KeyAction::MoveRight] }
        },
{
    if key == KeyInput::ArrowLeft || key == KeyInput::Character('a') {
        left_pressed(state, panes, loading_status, mods)
    } else if key == KeyInput::ArrowRight || key == KeyInput::Character('d') {
        right_pressed(state, panes, loading_status, mods)
    } else {
        plain_key_pressed(state, panes, key, mods, is_macos)
    }
}

fn plain_key_pressed<T>(
    state: &mut KeyboardState,
    panes: &mut Vec<Pane<T>>,
    key: KeyInput,
    mods: KeyModifiers,
    is_macos: bool,
) -> (r: Vec<KeyAction>)
    requires
        old(panes)@.len() >= 1,
        old(state).pane_layout == PaneLayout::DualPane ==> old(panes)@.len() >= 2,
        !is_left_key(key),
        !is_right_key(key),
    ensures
        final(panes)@.len() == old(panes)@.len(),
        (*final(state), r@) == plain_key_effect(*old(state), key, mods, is_macos),
        forall|i: int| 0 <= i < old(panes)@.len() ==> same_but_selection(#[trigger] old(panes)@[i], final(panes)@[i])
            && final(panes)@[i].is_selected == if toggled_pane(*old(state), key) == Some(i) {
                !old(panes)@[i].is_selected
            } else {
                old(panes)@[i].is_selected
            },
{
    let mut actions: Vec<KeyAction> = Vec::new();
    match key {
        KeyInput::Tab => {
            actions.push(KeyAction::ToggleFooter);
        },
        KeyInput::Space => {
            actions.push(KeyAction::ToggleSliderType);
        },
        KeyInput::F3 => {
            state.show_fps = !state.show_fps;
        },
        KeyInput::Super => {
            if is_macos {
                state.ctrl_pressed = true;
            }
        },
        KeyInput::Control => {
            if !is_macos {
                state.ctrl_pressed = true;
            }
        },
        KeyInput::Character(c) => {
            if c == 'b' {
                actions.push(KeyAction::ToggleSliderType);
            } else if c == 'h' || c == 'H' {
                if state.pane_layout == PaneLayout::DualPane {
                    actions.push(KeyAction::ToggleSplitOrientation);
                }
            } else if c == '1' {
                if state.pane_layout == PaneLayout::DualPane && state.is_slider_dual {
                    panes[0].is_selected = !panes[0].is_selected;
                }
                if mods.shift && mods.alt {
                    actions.push(KeyAction::PickFile(0));
                } else if mods.alt {
                    actions.push(KeyAction::PickFolder(0));
                } else if mods.platform {
                    actions.push(KeyAction::SetPaneLayout(PaneLayout::SinglePane));
                }
            } else if c == '2' {
                if state.pane_layout == PaneLayout::DualPane {
                    if state.is_slider_dual {
                        panes[1].is_selected = !panes[1].is_selected;
                    }
                    if mods.shift && mods.alt {
                        actions.push(KeyAction::PickFile(1));
                    } else if mods.alt {
                        actions.push(KeyAction::PickFolder(1));
                    }
                } else if mods.platform {
                    actions.push(KeyAction::SetPaneLayout(PaneLayout::DualPane));
                }
            } else if c == 'c' || c == 'w' {
                if mods.platform {
                    actions.push(KeyAction::ResetState);
                }
            } else if c == 'q' {
                if mods.platform {
                    actions.push(KeyAction::Exit);
                }
            } else if c == 'o' {
                if mods.platform {
                    let pane = if state.pane_layout == PaneLayout::SinglePane { 0 } else { state.last_opened_pane };
                    if mods.shift {
                        actions.push(KeyAction::PickFolder(pane));
                    } else {
                        actions.push(KeyAction::PickFile(pane));
                    }
                }
            } else {
                actions.push(KeyAction::ForwardToWidgets);
            }
        },
        _ => {
            actions.push(KeyAction::ForwardToWidgets);
        },
    }
    proof {
        assert(actions@ == plain_key_effect(*old(state), key, mods, is_macos).1);
    }
    actions
}

fn left_pressed<T>(
    state: &mut KeyboardState,
    panes: &mut Vec<Pane<T>>,
    loading_status: &mut LoadingStatus,
    mods: KeyModifiers,
) -> (r: Vec<KeyAction>)
    ensures
        final(panes)@.len() == old(panes)@.len(),
        mods.platform ==> {
            &&& r@ == first_jumps(old(panes)@, old(state).is_slider_dual, old(panes)@.len() as int)
            &&& *final(loading_status) == *old(loading_status)
            &&& forall|i: int| 0 <= i < old(panes)@.len() ==> same_but_slider(#[trigger] old(panes)@[i], final(panes)@[i])
                && final(panes)@[i].slider_value == if jumps_to_first(old(panes)@[i], old(state).is_slider_dual) {
                    0
                } else {
                    old(panes)@[i].slider_value
                }
            &&& *final(state) == (KeyboardState {
                slider_value: first_jump_slider(old(panes)@, old(state).is_slider_dual, old(panes)@.len() as int,
                    old(state).slider_value),
                ..*old(state)
            })
        },
        !mods.platform ==> {
            &&& final(panes)@ == old(panes)@
            &&& old(state).skate_right ==> final(loading_status).loading_queue@ == without_next_ops(old(loading_status).loading_queue@)
                && final(loading_status).being_loaded_queue@ == old(loading_status).being_loaded_queue@
                && final(loading_status).out_of_order_images@ == old(loading_status).out_of_order_images@
                && final(loading_status).is_next_image_loaded == old(loading_status).is_next_image_loaded
                && final(loading_status).is_prev_image_loaded == old(loading_status).is_prev_image_loaded
            &&& !old(state).skate_right ==> *final(loading_status) == *old(loading_status)
            &&& *final(state) == (KeyboardState {
                skate_right: false,
                skate_left: old(state).skate_left || mods.shift,
                ..*old(state)
            })
            &&& r@ == if old(state).skate_left || mods.shift { Seq::<KeyAction>::empty() } else { seq![KeyAction::MoveLeft] }
        },
{
    if mods.platform {
        return jump_to_first(state, panes);
    }
    if state.skate_right {
        state.skate_right = false;
        loading_status.reset_load_next_queue_items();
    }
    let mut actions: Vec<KeyAction> = Vec::new();
    if state.skate_left {
    } else if mods.shift {
        state.skate_left = true;
    } else {
        state.skate_left = false;
        actions.push(KeyAction::MoveLeft);
    }
    actions
}

fn right_pressed<T>(
    state: &mut KeyboardState,
    panes: &mut Vec<Pane<T>>,
    loading_status: &mut LoadingStatus,
    mods: KeyModifiers,
) -> (r: Vec<KeyAction>)
    ensures
        final(panes)@.len() == old(panes)@.len(),
        mods.platform ==> {
            &&& r@ == last_jumps(old(panes)@, old(state).is_slider_dual, old(panes)@.len() as int)
            &&& *final(loading_status) == *old(loading_status)
            &&& forall|i: int| 0 <= i < old(panes)@.len() ==> same_but_slider(#[trigger] old(panes)@[i], final(panes)@[i])
                && final(panes)@[i].slider_value == if jumps_to_last(old(panes)@[i], old(state).is_slider_dual) {
                    (old(panes)@[i].img_cache.image_paths@.len() - 1) as u16
                } else {
                    old(panes)@[i].slider_value
                }
            &&& *final(state) == (KeyboardState {
                slider_value: last_jump_slider(old(panes)@, old(state).is_slider_dual, old(panes)@.len() as int,
                    old(state).slider_value),
                ..*old(state)
            })
        },
        !mods.platform ==> {
            &&& final(panes)@ == old(panes)@
            &&& old(state).skate_left ==> final(loading_status).loading_queue@ == without_previous_ops(old(loading_status).loading_queue@)
                && final(loading_status).being_loaded_queue@ == old(loading_status).being_loaded_queue@
                && final(loading_status).out_of_order_images@ == old(loading_status).out_of_order_images@
                && final(loading_status).is_next_image_loaded == old(loading_status).is_next_image_loaded
                && final(loading_status).is_prev_image_loaded == old(loading_status).is_prev_image_loaded
            &&& !old(state).skate_left ==> *final(loading_status) == *old(loading_status)
            &&& *final(state) == (KeyboardState {
                skate_left: false,
                skate_right: mods.shift,
                ..*old(state)
            })
            &&& r@ == if mods.shift { Seq::<KeyAction>::empty() } else { seq![KeyAction::MoveRight] }
        },
{
    if mods.platform {
        return jump_to_last(state, panes);
    }
    if state.skate_left {
        state.skate_left = false;
        loading_status.reset_load_previous_queue_items();
    }
    let mut actions: Vec<KeyAction> = Vec::new();
    if mods.shift {
        state.skate_right = true;
    } else {
        state.skate_right = false;
        actions.push(KeyAction::MoveRight);
    }
    actions
}

/// The keyboard state after a key is released: releasing an arrow ends skating that way,
/// releasing the platform's modifier key clears it; other keys change nothing.
pub open spec fn key_released_state(s: KeyboardState, key: KeyInput, is_macos: bool) -> KeyboardState {
    if is_left_key(key) {
        KeyboardState { skate_left: false, ..s }
    } else if is_right_key(key) {
        KeyboardState { skate_right: false, ..s }
    } else if key == KeyInput::Super && is_macos || key == KeyInput::Control && !is_macos {
        KeyboardState { ctrl_pressed: false, ..s }
    } else {
        s
    }
}

/// Handles a key release.
pub fn key_released(state: &mut KeyboardState, key: KeyInput, is_macos: bool)
    ensures
        *final(state) == key_released_state(*old(state), key, is_macos),
{
    match key {
        KeyInput::ArrowLeft => {
            state.skate_left = false;
        },
        KeyInput::ArrowRight => {
            state.skate_right = false;
        },
        KeyInput::Character(c) => {
            if c == 'a' {
                state.skate_left = false;
            } else if c == 'd' {
                state.skate_right = false;
            }
        },
        KeyInput::Super => {
            if is_macos {
                state.ctrl_pressed = false;
            }
        },
        KeyInput::Control => {
            if !is_macos {
                state.ctrl_pressed = false;
            }
        },
        _ => {},
    }
}

/// Releasing a key only ever clears the skating and modifier flags, and releasing it again
/// changes nothing more.
pub proof fn lemma_release_idempotent(s: KeyboardState, key: KeyInput, is_macos: bool)
    ensures
        key_released_state(key_released_state(s, key, is_macos), key, is_macos)
            == key_released_state(s, key, is_macos),
        key_released_state(s, key, is_macos).pane_layout == s.pane_layout,
        key_released_state(s, key, is_macos).is_slider_dual == s.is_slider_dual,
        key_released_state(s, key, is_macos).show_fps == s.show_fps,
        key_released_state(s, key, is_macos).slider_value == s.slider_value,
        key_released_state(s, key, is_macos).last_opened_pane == s.last_opened_pane,
{
}

} // verus!
