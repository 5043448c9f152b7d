use vstd::prelude::*;
use crate::coco::CocoImage;
use crate::keyboard::KeyInput;
use crate::pane::PaneLayout;

verus! {

/// Which annotation overlays a pane draws.
#[derive(Debug, Clone, Copy, PartialEq, Eq, Structural)]
pub struct OverlayVisibility {
    pub show_bboxes: bool,
    pub show_masks: bool,
}

/// The panes with the bounding boxes of one pane flipped; a pane index past the end
/// changes nothing.
pub open spec fn boxes_flipped(panes: Seq<OverlayVisibility>, pane_index: int) -> Seq<OverlayVisibility> {
    if 0 <= pane_index < panes.len() {
        panes.update(pane_index, OverlayVisibility { show_bboxes: !panes[pane_index].show_bboxes, ..panes[pane_index] })
    } else {
        panes
    }
}

/// The panes with the segmentation masks of one pane flipped; a pane index past the end
/// changes nothing.
pub open spec fn masks_flipped(panes: Seq<OverlayVisibility>, pane_index: int) -> Seq<OverlayVisibility> {
    if 0 <= pane_index < panes.len() {
        panes.update(pane_index, OverlayVisibility { show_masks: !panes[pane_index].show_masks, ..panes[pane_index] })
    } else {
        panes
    }
}

/// Flips the bounding boxes of one pane; a pane index past the end changes nothing.
pub fn toggle_bounding_boxes(panes: &mut Vec<OverlayVisibility>, pane_index: usize)
    ensures
        final(panes)@ == boxes_flipped(old(panes)@, pane_index as int),
        final(panes)@.len() == old(panes)@.len(),
        forall|i: int| 0 <= i < old(panes)@.len() ==> (#[trigger] final(panes)@[i]).show_masks == old(panes)@[i].show_masks
            && final(panes)@[i].show_bboxes == (if i == pane_index { !old(panes)@[i].show_bboxes }
                else { old(panes)@[i].show_bboxes }),
{
    if pane_index < panes.len() {
        let v = panes[pane_index];
        panes.set(pane_index, OverlayVisibility { show_bboxes: !v.show_bboxes, ..v });
    }
}

/// Flips the segmentation masks of one pane; a pane index past the end changes nothing.
pub fn toggle_segmentation_masks(panes: &mut Vec<OverlayVisibility>, pane_index: usize)
    ensures
        final(panes)@ == masks_flipped(old(panes)@, pane_index as int),
        final(panes)@.len() == old(panes)@.len(),
        forall|i: int| 0 <= i < old(panes)@.len() ==> (#[trigger] final(panes)@[i]).show_bboxes == old(panes)@[i].show_bboxes
            && final(panes)@[i].show_masks == (if i == pane_index { !old(panes)@[i].show_masks }
                else { old(panes)@[i].show_masks }),
{
    if pane_index < panes.len() {
        let v = panes[pane_index];
        panes.set(pane_index, OverlayVisibility { show_masks: !v.show_masks, ..v });
    }
}

/// Sets the bounding boxes of every pane to the opposite of the first pane's.
pub fn toggle_all_bounding_boxes(panes: &mut Vec<OverlayVisibility>)
    ensures
        final(panes)@.len() == old(panes)@.len(),
        forall|i: int| 0 <= i < old(panes)@.len() ==> #[trigger] final(panes)@[i] == (OverlayVisibility {
            show_bboxes: !old(panes)@[0].show_bboxes,
            ..old(panes)@[i]
        }),
{
    let new_state = if panes.len() > 0 { !panes[0].show_bboxes } else { true };
    let ghost old_panes = panes@;
    let mut i: usize = 0;
    while i < panes.len()
        invariant
            i <= panes@.len(),
            panes@.len() == old_panes.len(),
            old_panes == old(panes)@,
            old_panes.len() > 0 ==> new_state == !old_panes[0].show_bboxes,
            forall|k: int| 0 <= k < i ==> #[trigger] panes@[k] == (OverlayVisibility { show_bboxes: new_state, ..old_panes[k] }),
            forall|k: int| i <= k < panes@.len() ==> #[trigger] panes@[k] == old_panes[k],
        decreases panes@.len() - i,
    {
        let v = panes[i];
        panes.set(i, OverlayVisibility { show_bboxes: new_state, ..v });
        i += 1;
    }
}

/// Sets the segmentation masks of every pane to the opposite of the first pane's.
pub fn toggle_all_segmentation_masks(panes: &mut Vec<OverlayVisibility>)
    ensures
        final(panes)@.len() == old(panes)@.len(),
        forall|i: int| 0 <= i < old(panes)@.len() ==> #[trigger] final(panes)@[i] == (OverlayVisibility {
            show_masks: !old(panes)@[0].show_masks,
            ..old(panes)@[i]
        }),
{
    let new_state = if panes.len() > 0 { !panes[0].show_masks } else { true };
    let ghost old_panes = panes@;
    let mut i: usize = 0;
    while i < panes.len()
        invariant
            i <= panes@.len(),
            panes@.len() == old_panes.len(),
            old_panes == old(panes)@,
            old_panes.len() > 0 ==> new_state == !old_panes[0].show_masks,
            forall|k: int| 0 <= k < i ==> #[trigger] panes@[k] == (OverlayVisibility { show_masks: new_state, ..old_panes[k] }),
            forall|k: int| i <= k < panes@.len() ==> #[trigger] panes@[k] == old_panes[k],
        decreases panes@.len() - i,
    {
        let v = panes[i];
        panes.set(i, OverlayVisibility { show_masks: new_state, ..v });
        i += 1;
    }
}

/// Sets both overlays of every pane: shown once annotations are loaded, hidden once they
/// are cleared.
pub fn set_all_overlays(panes: &mut Vec<OverlayVisibility>, shown: bool)
    ensures
        final(panes)@.len() == old(panes)@.len(),
        forall|i: int| 0 <= i < old(panes)@.len() ==> #[trigger] final(panes)@[i]
            == (OverlayVisibility { show_bboxes: shown, show_masks: shown }),
{
    let mut i: usize = 0;
    while i < panes.len()
        invariant
            i <= panes@.len(),
            panes@.len() == old(panes)@.len(),
            forall|k: int| 0 <= k < i ==> #[trigger] panes@[k] == (OverlayVisibility { show_bboxes: shown, show_masks: shown }),
        decreases panes@.len() - i,
    {
        panes.set(i, OverlayVisibility { show_bboxes: shown, show_masks: shown });
        i += 1;
    }
}

/// Flipping one pane's bounding boxes touches nothing else: every pane keeps its masks, and
/// only the chosen pane's boxes change, to their opposite.
pub proof fn lemma_boxes_flip_only_boxes(panes: Seq<OverlayVisibility>, pane_index: int)
    ensures
        boxes_flipped(panes, pane_index).len() == panes.len(),
        forall|i: int| 0 <= i < panes.len() ==> (#[trigger] boxes_flipped(panes, pane_index)[i]).show_masks
            == panes[i].show_masks,
        forall|i: int| 0 <= i < panes.len() ==> (#[trigger] boxes_flipped(panes, pane_index)[i]).show_bboxes
            == (if i == pane_index { !panes[i].show_bboxes } else { panes[i].show_bboxes }),
{
}

/// Flipping one pane's masks touches nothing else: every pane keeps its bounding boxes, and
/// only the chosen pane's masks change, to their opposite.
pub proof fn lemma_masks_flip_only_masks(panes: Seq<OverlayVisibility>, pane_index: int)
    ensures
        masks_flipped(panes, pane_index).len() == panes.len(),
        forall|i: int| 0 <= i < panes.len() ==> (#[trigger] masks_flipped(panes, pane_index)[i]).show_bboxes
            == panes[i].show_bboxes,
        forall|i: int| 0 <= i < panes.len() ==> (#[trigger] masks_flipped(panes, pane_index)[i]).show_masks
            == (if i == pane_index { !panes[i].show_masks } else { panes[i].show_masks }),
{
}

/// Flipping the bounding boxes of a pane twice gives back the panes as they were.
pub proof fn lemma_boxes_flip_twice(panes: Seq<OverlayVisibility>, pane_index: int)
    ensures
        boxes_flipped(boxes_flipped(panes, pane_index), pane_index) == panes,
{
    if 0 <= pane_index < panes.len() {
        assert(boxes_flipped(boxes_flipped(panes, pane_index), pane_index) =~= panes);
    }
}

/// Flipping the segmentation masks of a pane twice gives back the panes as they were.
pub proof fn lemma_masks_flip_twice(panes: Seq<OverlayVisibility>, pane_index: int)
    ensures
        masks_flipped(masks_flipped(panes, pane_index), pane_index) == panes,
{
    if 0 <= pane_index < panes.len() {
        assert(masks_flipped(masks_flipped(panes, pane_index), pane_index) =~= panes);
    }
}

/// The two overlays are flipped independently: flipping boxes then masks of any panes gives
/// what flipping masks then boxes gives.
pub proof fn lemma_flips_commute(panes: Seq<OverlayVisibility>, i: int, j: int)
    ensures
        masks_flipped(boxes_flipped(panes, i), j) == boxes_flipped(masks_flipped(panes, j), i),
{
    assert(masks_flipped(boxes_flipped(panes, i), j) =~= boxes_flipped(masks_flipped(panes, j), i));
}

/// A key that the annotation overlays handle.
#[derive(Debug, Clone, Copy, PartialEq, Eq, Structural)]
pub enum OverlayKeyAction {
    ToggleBoundingBoxes(usize),
    ToggleSegmentationMasks(usize),
}

/// The overlay a key toggles, in the pane it addresses: 'b' for boxes, 'm' for masks, in
/// either case; the single layout addresses the first pane, the dual one the pane opened last.
pub open spec fn spec_overlay_key(key: KeyInput, layout: PaneLayout, last_opened_pane: usize) -> Option<OverlayKeyAction> {
    let pane = if layout == PaneLayout::SinglePane { 0 } else { last_opened_pane };
    if key == KeyInput::Character('b') || key == KeyInput::Character('B') {
        Some(OverlayKeyAction::ToggleBoundingBoxes(pane))
    } else if key == KeyInput::Character('m') || key == KeyInput::Character('M') {
        Some(OverlayKeyAction::ToggleSegmentationMasks(pane))
    } else {
        None
    }
}

/// The overlay toggle a key asks for, if it is one.
pub fn overlay_key(key: KeyInput, layout: PaneLayout, last_opened_pane: usize) -> (r: Option<OverlayKeyAction>)
    ensures
        r == spec_overlay_key(key, layout, last_opened_pane),
{
    let pane = if layout == PaneLayout::SinglePane { 0 } else { last_opened_pane };
    match key {
        KeyInput::Character(c) => {
            if c == 'b' || c == 'B' {
                Some(OverlayKeyAction::ToggleBoundingBoxes(pane))
            } else if c == 'm' || c == 'M' {
                Some(OverlayKeyAction::ToggleSegmentationMasks(pane))
            } else {
                None
            }
        },
        _ => None,
    }
}

/// A path joined with one more component, as `std::path::Path::join` gives it with the
/// separator of the target the crate is built for.
pub uninterp spec fn spec_path_join(base: Seq<char>, name: Seq<char>) -> Seq<char>;

/// Calls `std::path::Path::join`; the result is named by `spec_path_join`.
#[verifier::external_body]
pub(crate) fn std_path_join(base: &str, name: &str) -> (r: String)
    ensures
        r@ == spec_path_join(base@, name@),
{
    std::path::Path::new(base).join(name).to_string_lossy().into_owned()
}

/// The folders where the images of a dataset are looked for, in order: the only folder
/// inside the only folder beside the dataset file, that only folder, then "images", "img",
/// "val2017" and "train2017" beside the file, and the file's own folder.
pub open spec fn spec_image_dir_candidates(json_dir: Seq<char>, single_dir: Option<Seq<char>>,
    nested_dir: Option<Seq<char>>) -> Seq<Seq<char>> {
    let base = seq![
        spec_path_join(json_dir, "images"@),
        spec_path_join(json_dir, "img"@),
        spec_path_join(json_dir, "val2017"@),
        spec_path_join(json_dir, "train2017"@),
        json_dir,
    ];
    let with_single = match single_dir {
        Some(d) => seq![d] + base,
        None => base,
    };
    match (single_dir, nested_dir) {
        (Some(_), Some(n)) => seq![n] + with_single,
        _ => with_single,
    }
}

/// The text of an optional string.
pub open spec fn opt_view(o: Option<String>) -> Option<Seq<char>> {
    match o {
        Some(s) => Some(s@),
        None => None,
    }
}

/// The folders where the images of a dataset are looked for. `single_dir` is the only
/// folder beside the dataset file, if there is exactly one; `nested_dir` the only folder
/// inside that one, if there is exactly one.
pub fn image_dir_candidates(json_dir: &str, single_dir: Option<String>, nested_dir: Option<String>) -> (r: Vec<String>)
    ensures
        r.deep_view() == spec_image_dir_candidates(json_dir@, opt_view(single_dir),
            opt_view(nested_dir)),
{
    let mut r: Vec<String> = Vec::new();
    let has_single = single_dir.is_some();
    match nested_dir {
        Some(n) => {
            if has_single {
                r.push(n);
            }
        },
        None => {},
    }
    match single_dir {
        Some(d) => r.push(d),
        None => {},
    }
    r.push(std_path_join(json_dir, "images"));
    r.push(std_path_join(json_dir, "img"));
    r.push(std_path_join(json_dir, "val2017"));
    r.push(std_path_join(json_dir, "train2017"));
    r.push(String::from_str(json_dir));
    proof {
        assert(r.deep_view() =~= spec_image_dir_candidates(json_dir@, opt_view(single_dir),
            opt_view(nested_dir)));
    }
    r
}

/// The number of file names checked against a candidate folder.
pub const PROBE_COUNT: usize = 3;

/// The names of the first images of the dataset, the ones looked for in each candidate folder.
pub fn probe_filenames(images: &Vec<CocoImage>) -> (r: Vec<String>)
    ensures
        r@.len() == if images@.len() < PROBE_COUNT { images@.len() as int } else { PROBE_COUNT as int },
        forall|i: int| 0 <= i < r@.len() ==> #[trigger] r@[i] == images@[i].file_name,
{
    let mut r: Vec<String> = Vec::new();
    let mut i: usize = 0;
    while i < images.len() && i < PROBE_COUNT
        invariant
            i <= images@.len(),
            i <= PROBE_COUNT,
            r@.len() == i,
            forall|k: int| 0 <= k < i ==> #[trigger] r@[k] == images@[k].file_name,
        decreases images@.len() - i,
    {
        r.push(images[i].file_name.clone());
        i += 1;
    }
    r
}

/// A candidate folder holds the dataset's images when it exists and at least two of the
/// probed names are files in it.
pub open spec fn folder_matches(found: Option<usize>) -> bool {
    match found {
        Some(n) => n >= 2,
        None => false,
    }
}

/// The first candidate folder that holds the dataset's images. For each candidate,
/// `found` gives how many probed names exist in it, or none when it is not a folder.
pub fn pick_image_dir(found: &Vec<Option<usize>>) -> (r: Option<usize>)
    ensures
        match r {
            Some(i) => i < found@.len() && folder_matches(found@[i as int])
                && forall|k: int| 0 <= k < i ==> !folder_matches(#[trigger] found@[k]),
            None => forall|k: int| 0 <= k < found@.len() ==> !folder_matches(#[trigger] found@[k]),
        },
{
    let mut i: usize = 0;
    while i < found.len()
        invariant
            i <= found@.len(),
            forall|k: int| 0 <= k < i ==> !folder_matches(#[trigger] found@[k]),
        decreases found@.len() - i,
    {
        match found[i] {
            Some(n) => {
                if n >= 2 {
                    return Some(i);
                }
            },
            None => {},
        }
        i += 1;
    }
    None
}

} // verus!
