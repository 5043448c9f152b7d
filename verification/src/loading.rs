use vstd::prelude::*;
use crate::img_cache::{ImageCache, ImageMetadata, slot_filled, shifted_left, shifted_right, shifted_left_indices,
    contiguous, lemma_shifts_keep_contiguous,
    shifted_right_indices};
use crate::load_op::{LoadOperation, LoadOperationType};
use crate::loading_status::LoadingStatus;
use crate::pane::{Pane, next_target, previous_target};

verus! {

/// The in-flight queue once the operation that just finished has left its front.
pub open spec fn popped(q: Seq<LoadOperation>) -> Seq<LoadOperation> {
    if q.len() > 0 { q.drop_first() } else { q }
}

/// The loading status with the finished operation taken off the in-flight queue.
pub open spec fn finished_front(old_status: LoadingStatus, new_status: LoadingStatus) -> bool {
    &&& new_status.being_loaded_queue@ == popped(old_status.being_loaded_queue@)
    &&& new_status.loading_queue@ == old_status.loading_queue@
    &&& new_status.out_of_order_images@ == old_status.out_of_order_images@
    &&& new_status.is_next_image_loaded == old_status.is_next_image_loaded
    &&& new_status.is_prev_image_loaded == old_status.is_prev_image_loaded
}

fn finish_front(loading_status: &mut LoadingStatus)
    ensures
        finished_front(*old(loading_status), *final(loading_status)),
{
    let _ = loading_status.being_loaded_queue.pop_front();
}

/// The pane is the same but for its cache.
pub open spec fn same_but_cache<T>(p: Pane<T>, q: Pane<T>) -> bool {
    q == Pane { img_cache: q.img_cache, ..p }
}

// ---------------------------------------------------------------------------------------
// Images that arrive for a slider position.
// ---------------------------------------------------------------------------------------

/// The image index an arrived image was loaded for.
pub open spec fn pos_target(elem: Option<(isize, usize)>) -> isize {
    match elem {
        Some((t, _)) => t,
        None => 0,
    }
}

/// The slot an arrived image was loaded for.
pub open spec fn pos_slot(elem: Option<(isize, usize)>) -> usize {
    match elem {
        Some((_, s)) => s,
        None => 0,
    }
}

/// An arrived image is stored: its target names an image of the pane and data came for it.
pub open spec fn pos_applies<T>(elem: Option<(isize, usize)>, num_paths: int, img: Option<T>) -> bool {
    &&& elem is Some
    &&& ((pos_target(elem) as usize) as int) < num_paths
    &&& img is Some
}

/// The slots after the first `n` arrived images are stored.
pub open spec fn pos_data<T>(data: Seq<Option<T>>, elems: Seq<Option<(isize, usize)>>, imgs: Seq<Option<T>>,
    num_paths: int, n: int) -> Seq<Option<T>>
    decreases n,
{
    if n <= 0 {
        data
    } else {
        let d = pos_data(data, elems, imgs, num_paths, n - 1);
        let slot = pos_slot(elems[n - 1]) as int;
        if pos_applies(elems[n - 1], num_paths, imgs[n - 1]) && slot < d.len() {
            d.update(slot, imgs[n - 1])
        } else {
            d
        }
    }
}

/// The metadata of slot positions after the first `n` arrived images are stored.
pub open spec fn pos_meta<T>(meta: Seq<Option<ImageMetadata>>, elems: Seq<Option<(isize, usize)>>,
    imgs: Seq<Option<T>>, metas: Seq<Option<ImageMetadata>>, num_paths: int, n: int) -> Seq<Option<ImageMetadata>>
    decreases n,
{
    if n <= 0 {
        meta
    } else {
        let m = pos_meta(meta, elems, imgs, metas, num_paths, n - 1);
        let slot = pos_slot(elems[n - 1]) as int;
        if pos_applies(elems[n - 1], num_paths, imgs[n - 1]) && n - 1 < metas.len() && metas[n - 1] is Some
            && slot < m.len() {
            m.update(slot, metas[n - 1])
        } else {
            m
        }
    }
}

/// The current image needs redrawing after the `i`th arrived image: it was stored, it is
/// the current image, and the current slot then holds an image.
pub open spec fn pos_redraws<T>(c: ImageCache<T>, elems: Seq<Option<(isize, usize)>>, imgs: Seq<Option<T>>, i: int) -> bool {
    &&& pos_applies(elems[i], c.image_paths@.len() as int, imgs[i])
    &&& c.current_index == (pos_target(elems[i]) as usize)
    &&& slot_filled(pos_data(c.cached_data@, elems, imgs, c.image_paths@.len() as int, i + 1), c.center())
}

/// Stores the images that arrived for a slider position in the slots they were meant for:
/// each arrived image whose target names an image of the pane goes to its slot, with its
/// metadata when some came. Returns whether the current image needs redrawing. The finished
/// operation leaves the in-flight queue.
pub fn handle_load_pos_operation<T>(
    panes: &mut Vec<Pane<T>>,
    loading_status: &mut LoadingStatus,
    pane_index: usize,
    target_indices_and_cache: &Vec<Option<(isize, usize)>>,
    image_data: Vec<Option<T>>,
    metadata: &Vec<Option<ImageMetadata>>,
) -> (r: bool)
    requires
        pane_index < old(panes)@.len() ==> {
            let c = old(panes)@[pane_index as int].img_cache;
            &&& c.cache_count <= isize::MAX
            &&& isize::MIN <= c.center() <= isize::MAX
        },
    ensures
        finished_front(*old(loading_status), *final(loading_status)),
        final(panes)@.len() == old(panes)@.len(),
        pane_index >= old(panes)@.len() ==> final(panes)@ == old(panes)@ && !r,
        pane_index < old(panes)@.len() ==> {
            let p = old(panes)@[pane_index as int];
            let q = final(panes)@[pane_index as int];
            let n = if target_indices_and_cache@.len() < image_data@.len() { target_indices_and_cache@.len() as int }
                else { image_data@.len() as int };
            let len = p.img_cache.image_paths@.len() as int;
            &&& forall|j: int| 0 <= j < old(panes)@.len() && j != pane_index ==> #[trigger] final(panes)@[j] == old(panes)@[j]
            &&& same_but_cache(p, q)
            &&& q.img_cache.same_frame(&p.img_cache)
            &&& q.img_cache.current_offset == p.img_cache.current_offset
            &&& q.img_cache.cached_image_indices@ == p.img_cache.cached_image_indices@
            &&& q.img_cache.cached_data@ == pos_data(p.img_cache.cached_data@, target_indices_and_cache@, image_data@, len, n)
            &&& q.img_cache.cached_metadata@ == pos_meta(p.img_cache.cached_metadata@, target_indices_and_cache@,
                image_data@, metadata@, len, n)
            &&& r == exists|i: int| 0 <= i < n && pos_redraws(p.img_cache, target_indices_and_cache@, image_data@, i)
        },
{
    finish_front(loading_status);
    if pane_index >= panes.len() {
        return false;
    }
    let ghost p = panes@[pane_index as int];
    let ghost old_panes = panes@;
    let ghost imgs = image_data@;
    let ghost len = p.img_cache.image_paths@.len() as int;
    let mut data = image_data;
    let n = if target_indices_and_cache.len() < data.len() { target_indices_and_cache.len() }
        else { data.len() };
    let mut redraw = false;
    let mut i: usize = 0;
    while i < n
        invariant
            i <= n,
            n <= target_indices_and_cache@.len(),
            n <= imgs.len(),
            data@.len() == imgs.len(),
            imgs == image_data@,
            forall|j: int| i <= j < imgs.len() ==> #[trigger] data@[j] == imgs[j],
            pane_index < panes@.len(),
            panes@.len() == old_panes.len(),
            p == old_panes[pane_index as int],
            len == p.img_cache.image_paths@.len(),
            p.img_cache.cache_count <= isize::MAX,
            isize::MIN <= p.img_cache.center() <= isize::MAX,
            forall|j: int| 0 <= j < old_panes.len() && j != pane_index ==> #[trigger] panes@[j] == old_panes[j],
            same_but_cache(p, panes@[pane_index as int]),
            panes@[pane_index as int].img_cache.same_frame(&p.img_cache),
            panes@[pane_index as int].img_cache.current_offset == p.img_cache.current_offset,
            panes@[pane_index as int].img_cache.cached_image_indices@ == p.img_cache.cached_image_indices@,
            panes@[pane_index as int].img_cache.cached_data@ == pos_data(p.img_cache.cached_data@,
                target_indices_and_cache@, imgs, len, i as int),
            panes@[pane_index as int].img_cache.cached_metadata@ == pos_meta(p.img_cache.cached_metadata@,
                target_indices_and_cache@, imgs, metadata@, len, i as int),
            redraw == exists|j: int| 0 <= j < i && pos_redraws(p.img_cache, target_indices_and_cache@, imgs, j),
        decreases n - i,
    {
        let ghost before = panes@[pane_index as int];
        let ghost redraw_before = redraw;
        match target_indices_and_cache[i] {
            Some((target_index, cache_pos)) => {
                let target = #[verifier::truncate] (target_index as usize);
                if target < panes[pane_index].img_cache.image_paths.len() {
                    let img = data[i].take();
                    match img {
                        Some(d) => {
                            panes[pane_index].img_cache.set_cached_data(cache_pos, d);
                            if i < metadata.len() {
                                match metadata[i] {
                                    Some(m) => {
                                        panes[pane_index].img_cache.set_cached_metadata(cache_pos, m);
                                    },
                                    None => {},
                                }
                            }
                            if panes[pane_index].img_cache.current_index == target {
                                if panes[pane_index].img_cache.get_initial_image().is_ok() {
                                    redraw = true;
                                }
                            }
                        },
                        None => {},
                    }
                }
            },
            None => {},
        }
        proof {
            assert forall|j: int| 0 <= j < old_panes.len() && j != pane_index implies #[trigger] panes@[j] == old_panes[j] by {}
            let elems = target_indices_and_cache@;
            let cd = panes@[pane_index as int].img_cache.cached_data@;
            assert(cd == pos_data(p.img_cache.cached_data@, elems, imgs, len, i as int + 1));
            assert(redraw == (redraw_before || pos_redraws(p.img_cache, elems, imgs, i as int)));
            if redraw {
                if redraw_before {
                    let w = choose|j: int| 0 <= j < i && pos_redraws(p.img_cache, elems, imgs, j);
                    assert(0 <= w < i + 1 && pos_redraws(p.img_cache, elems, imgs, w));
                } else {
                    assert(pos_redraws(p.img_cache, elems, imgs, i as int));
                }
            } else {
                assert forall|j: int| 0 <= j < i + 1 implies !pos_redraws(p.img_cache, elems, imgs, j) by {
                    if j < i {
                    }
                }
            }
        }
        i += 1;
    }
    redraw
}

// ---------------------------------------------------------------------------------------
// Images that arrive for a step forward or backward.
// ---------------------------------------------------------------------------------------

/// A pane takes part in a step: it has a directory, is selected and is named by the operation.
pub open spec fn takes_part<T>(p: Pane<T>, i: int, pane_indices: Seq<usize>) -> bool {
    p.dir_loaded && p.is_selected && pane_indices.contains(i as usize)
}

/// The panes among the first `n` that take part, in order.
pub open spec fn taking_part<T>(panes: Seq<Pane<T>>, pane_indices: Seq<usize>, n: int) -> Seq<int>
    decreases n,
{
    if n <= 0 {
        Seq::empty()
    } else if takes_part(panes[n - 1], n - 1, pane_indices) {
        taking_part(panes, pane_indices, n - 1).push(n - 1)
    } else {
        taking_part(panes, pane_indices, n - 1)
    }
}

/// What the arrival does to one taking-part pane.
#[derive(Debug, Clone, Copy, PartialEq, Eq, Structural)]
pub enum StepOutcome {
    /// No target was given for the pane.
    Skip,
    /// The pane's window cannot move that way now; the remaining panes are left alone.
    Abort,
    /// The arrived image is not the one the pane waits for.
    Stale,
    /// The window moves and takes the arrived image.
    Move,
}

/// A step forward blocks at the first window position, a step backward at the last.
pub open spec fn step_blocked<T>(c: ImageCache<T>, kind: LoadOperationType) -> bool {
    (kind == LoadOperationType::LoadNext && c.current_offset == -(c.cache_count as int))
        || (kind == LoadOperationType::LoadPrevious && c.current_offset == c.cache_count)
}

/// The image a pane waits for: just past the end of its window going forward, just before
/// its start going backward.
pub open spec fn awaited_image<T>(c: ImageCache<T>, kind: LoadOperationType) -> Option<isize> {
    if kind == LoadOperationType::LoadNext {
        Some(((((c.current_index + c.cache_count - c.current_offset) as isize) as usize) + 1) as isize)
    } else if kind == LoadOperationType::LoadPrevious {
        Some((((c.current_index - c.cache_count - c.current_offset - 1) as isize) as usize) as isize)
    } else {
        None
    }
}

pub open spec fn step_outcome<T>(c: ImageCache<T>, target: Option<isize>, kind: LoadOperationType) -> StepOutcome {
    match target {
        None => StepOutcome::Skip,
        Some(t) => if step_blocked(c, kind) {
            StepOutcome::Abort
        } else if awaited_image(c, kind) == Some(t) {
            StepOutcome::Move
        } else {
            StepOutcome::Stale
        },
    }
}

/// The outcome for the `k`th taking-part pane.
pub open spec fn outcome_at<T>(panes: Seq<Pane<T>>, part: Seq<int>, targets: Seq<Option<isize>>, kind: LoadOperationType,
    k: int) -> StepOutcome {
    step_outcome(panes[part[k]].img_cache, targets[k], kind)
}

/// The `k`th taking-part pane is reached: no earlier one aborted.
pub open spec fn reached<T>(panes: Seq<Pane<T>>, part: Seq<int>, targets: Seq<Option<isize>>, kind: LoadOperationType,
    k: int) -> bool {
    forall|j: int| 0 <= j < k ==> #[trigger] outcome_at(panes, part, targets, kind, j) != StepOutcome::Abort
}

/// The `k`th taking-part pane moves its window.
pub open spec fn moves_at<T>(panes: Seq<Pane<T>>, part: Seq<int>, targets: Seq<Option<isize>>, kind: LoadOperationType,
    k: int) -> bool {
    reached(panes, part, targets, kind, k) && outcome_at(panes, part, targets, kind, k) == StepOutcome::Move
}

/// The slots of a window after it moved and took an image.
pub open spec fn moved_data<T>(c: ImageCache<T>, img: Option<T>, kind: LoadOperationType) -> Seq<Option<T>> {
    if kind == LoadOperationType::LoadNext { shifted_left(c.cached_data@, img) } else { shifted_right(c.cached_data@, img) }
}

/// The slot of the current image after the window moved.
pub open spec fn moved_center<T>(c: ImageCache<T>, kind: LoadOperationType) -> int {
    if kind == LoadOperationType::LoadNext { c.center() - 1 } else { c.center() + 1 }
}

/// What moving its window does to a pane.
pub open spec fn pane_moved<T>(p: Pane<T>, q: Pane<T>, img: Option<T>, meta: Option<ImageMetadata>, kind: LoadOperationType) -> bool {
    let c = p.img_cache;
    &&& same_but_cache(p, q)
    &&& q.img_cache.same_frame(&c)
    &&& q.img_cache.cached_data@ == moved_data(c, img, kind)
    &&& kind == LoadOperationType::LoadNext ==> {
        &&& q.img_cache.cached_metadata@ == shifted_left(c.cached_metadata@, meta)
        &&& q.img_cache.cached_image_indices@ == shifted_left_indices(c.cached_image_indices@)
        &&& q.img_cache.current_offset == c.current_offset - 1
    }
    &&& kind == LoadOperationType::LoadPrevious ==> {
        &&& q.img_cache.cached_metadata@ == shifted_right(c.cached_metadata@, meta)
        &&& q.img_cache.cached_image_indices@ == shifted_right_indices(c.cached_image_indices@)
        &&& q.img_cache.current_offset == c.current_offset + 1
    }
}

/// The metadata that arrived for the `k`th taking-part pane.
pub open spec fn meta_at(metas: Seq<Option<ImageMetadata>>, k: int) -> Option<ImageMetadata> {
    if 0 <= k < metas.len() { metas[k] } else { None }
}

/// The panes whose current image needs redrawing, among the first `k` taking part: those
/// that moved and whose current slot then holds an image.
pub open spec fn redrawn<T>(panes: Seq<Pane<T>>, part: Seq<int>, targets: Seq<Option<isize>>, imgs: Seq<Option<T>>,
    kind: LoadOperationType, k: int) -> Seq<usize>
    decreases k,
{
    if k <= 0 {
        Seq::empty()
    } else {
        let prev = redrawn(panes, part, targets, imgs, kind, k - 1);
        let c = panes[part[k - 1]].img_cache;
        if moves_at(panes, part, targets, kind, k - 1)
            && slot_filled(moved_data(c, imgs[k - 1], kind), moved_center(c, kind)) {
            prev.push(part[k - 1] as usize)
        } else {
            prev
        }
    }
}

/// A pane's cache can take part in a step: its slot vectors fit a window of at least three
/// slots, and its window arithmetic fits the integer types.
pub open spec fn step_ready<T>(p: Pane<T>) -> bool {
    let c = p.img_cache;
    &&& c.wf()
    &&& c.cache_count >= 1
    &&& c.cache_count <= isize::MAX / 4
    &&& c.current_index <= isize::MAX / 4
    &&& -(c.cache_count as int) <= c.current_offset <= c.cache_count
    &&& forall|j: int| 0 <= j < c.cached_image_indices@.len()
        ==> isize::MIN < #[trigger] c.cached_image_indices@[j] < isize::MAX
}

/// The window of a moving pane can take the step: forward it is not at the last image,
/// backward not at the first.
pub open spec fn can_move<T>(p: Pane<T>, kind: LoadOperationType) -> bool {
    let c = p.img_cache;
    (kind == LoadOperationType::LoadNext ==> c.current_index < c.image_paths@.len() - 1)
        && (kind == LoadOperationType::LoadPrevious ==> c.current_index > 0)
}

proof fn lemma_taking_part_step<T>(panes: Seq<Pane<T>>, pane_indices: Seq<usize>, n: int)
    requires
        0 <= n,
    ensures
        taking_part(panes, pane_indices, n).len() <= n,
        forall|k: int| 0 <= k < taking_part(panes, pane_indices, n).len()
            ==> #[trigger] taking_part(panes, pane_indices, n)[k] < n && 0 <= taking_part(panes, pane_indices, n)[k],
        forall|a: int, b: int| 0 <= a < b < taking_part(panes, pane_indices, n).len()
            ==> #[trigger] taking_part(panes, pane_indices, n)[a] < #[trigger] taking_part(panes, pane_indices, n)[b],
        forall|i: int| 0 <= i < n && takes_part(panes[i], i, pane_indices)
            ==> #[trigger] taking_part(panes, pane_indices, n).contains(i),
    decreases n,
{
    if n > 0 {
        lemma_taking_part_step(panes, pane_indices, n - 1);
        let prev = taking_part(panes, pane_indices, n - 1);
        let cur = taking_part(panes, pane_indices, n);
        assert forall|i: int| 0 <= i < n && takes_part(panes[i], i, pane_indices) implies #[trigger] cur.contains(i) by {
            if i < n - 1 {
                assert(prev.contains(i));
                let w = choose|w: int| 0 <= w < prev.len() && prev[w] == i;
                assert(cur[w] == i);
            } else {
                assert(cur[cur.len() - 1] == i);
            }
        }
    }
}

proof fn lemma_taking_part_prefix<T>(panes: Seq<Pane<T>>, pane_indices: Seq<usize>, n: int, m: int)
    requires
        0 <= n <= m,
    ensures
        taking_part(panes, pane_indices, n).len() <= taking_part(panes, pane_indices, m).len(),
        forall|k: int| 0 <= k < taking_part(panes, pane_indices, n).len()
            ==> #[trigger] taking_part(panes, pane_indices, m)[k] == taking_part(panes, pane_indices, n)[k],
        forall|k: int| taking_part(panes, pane_indices, n).len() <= k < taking_part(panes, pane_indices, m).len()
            ==> #[trigger] taking_part(panes, pane_indices, m)[k] >= n,
    decreases m - n,
{
    if n < m {
        lemma_taking_part_prefix(panes, pane_indices, n, m - 1);
    }
}

/// Takes in the images that arrived for a step forward or backward. The in-flight queue
/// drops the finished operation. For a shift nothing else happens. Otherwise the panes that
/// take part are visited in order, the `k`th with the `k`th target and image: a pane without
/// target is passed over; a pane whose window is blocked that way ends the visit; a pane
/// that waits for exactly that image moves its window and takes it. Returns the panes whose
/// current image needs redrawing.
pub fn handle_load_operation_all<T>(
    panes: &mut Vec<Pane<T>>,
    loading_status: &mut LoadingStatus,
    pane_indices: &Vec<usize>,
    target_indices: &Vec<Option<isize>>,
    image_data: Vec<Option<T>>,
    metadata: &Vec<Option<ImageMetadata>>,
    op: &LoadOperation,
    operation_type: LoadOperationType,
) -> (r: Vec<usize>)
    requires
        operation_type == op.kind(),
        !(operation_type == LoadOperationType::ShiftNext || operation_type == LoadOperationType::ShiftPrevious) ==> {
            let part = taking_part(old(panes)@, pane_indices@, old(panes)@.len() as int);
            &&& forall|i: int| 0 <= i < old(panes)@.len() ==> step_ready(#[trigger] old(panes)@[i])
            &&& forall|k: int| 0 <= k < part.len() && reached(old(panes)@, part, target_indices@, operation_type, k)
                ==> k < target_indices@.len()
            &&& forall|k: int| 0 <= k < part.len() && #[trigger] moves_at(old(panes)@, part, target_indices@, operation_type, k)
                ==> k < image_data@.len() && can_move(old(panes)@[part[k]], operation_type)
        },
    ensures
        finished_front(*old(loading_status), *final(loading_status)),
        final(panes)@.len() == old(panes)@.len(),
        (operation_type == LoadOperationType::ShiftNext || operation_type == LoadOperationType::ShiftPrevious) ==> {
            &&& final(panes)@ == old(panes)@
            &&& r@.len() == 0
        },
        !(operation_type == LoadOperationType::ShiftNext || operation_type == LoadOperationType::ShiftPrevious) ==> {
            let part = taking_part(old(panes)@, pane_indices@, old(panes)@.len() as int);
            &&& forall|i: int| 0 <= i < old(panes)@.len() && !takes_part(old(panes)@[i], i, pane_indices@)
                ==> #[trigger] final(panes)@[i] == old(panes)@[i]
            &&& forall|k: int| 0 <= k < part.len() && moves_at(old(panes)@, part, target_indices@, operation_type, k)
                ==> pane_moved(old(panes)@[part[k]], #[trigger] final(panes)@[part[k]], image_data@[k],
                    meta_at(metadata@, k), operation_type)
            &&& forall|k: int| 0 <= k < part.len() && !moves_at(old(panes)@, part, target_indices@, operation_type, k)
                ==> #[trigger] final(panes)@[part[k]] == old(panes)@[part[k]]
            &&& r@ == redrawn(old(panes)@, part, target_indices@, image_data@, operation_type, part.len() as int)
        },
{
    finish_front(loading_status);
    let mut redraw: Vec<usize> = Vec::new();
    if operation_type == LoadOperationType::ShiftNext || operation_type == LoadOperationType::ShiftPrevious {
        return redraw;
    }
    let ghost old_panes = panes@;
    let ghost imgs = image_data@;
    let ghost part = taking_part(old_panes, pane_indices@, old_panes.len() as int);
    let ghost targets = target_indices@;
    let ghost kind = operation_type;
    proof {
        lemma_taking_part_step(old_panes, pane_indices@, old_panes.len() as int);
    }
    let mut data = image_data;
    let mut k: usize = 0;
    let mut i: usize = 0;
    while i < panes.len()
        invariant
            i <= panes@.len(),
            panes@.len() == old_panes.len(),
            old_panes == old(panes)@,
            finished_front(*old(loading_status), *loading_status),
            kind == operation_type,
            kind == op.kind(),
            kind != LoadOperationType::ShiftNext && kind != LoadOperationType::ShiftPrevious,
            imgs.len() == data@.len(),
            imgs == image_data@,
            targets == target_indices@,
            part == taking_part(old_panes, pane_indices@, old_panes.len() as int),
            k == taking_part(old_panes, pane_indices@, i as int).len(),
            k <= part.len(),
            forall|j: int| 0 <= j < old_panes.len() ==> step_ready(#[trigger] old_panes[j]),
            forall|q: int| 0 <= q < part.len() && reached(old_panes, part, targets, kind, q) ==> q < targets.len(),
            forall|q: int| 0 <= q < part.len() && #[trigger] moves_at(old_panes, part, targets, kind, q)
                ==> q < imgs.len() && can_move(old_panes[part[q]], kind),
            forall|q: int| 0 <= q < part.len() ==> #[trigger] part[q] < old_panes.len() && 0 <= part[q],
            forall|a: int, b: int| 0 <= a < b < part.len() ==> #[trigger] part[a] < #[trigger] part[b],
            forall|q: int| k <= q < part.len() ==> #[trigger] part[q] >= i,
            forall|q: int| 0 <= q < k ==> #[trigger] part[q] < i,
            forall|j: int| k <= j < imgs.len() ==> #[trigger] data@[j] == imgs[j],
            reached(old_panes, part, targets, kind, k as int),
            forall|j: int| i <= j < old_panes.len() ==> #[trigger] panes@[j] == old_panes[j],
            forall|j: int| 0 <= j < i && !takes_part(old_panes[j], j, pane_indices@) ==> #[trigger] panes@[j] == old_panes[j],
            forall|q: int| 0 <= q < k && moves_at(old_panes, part, targets, kind, q)
                ==> pane_moved(old_panes[part[q]], #[trigger] panes@[part[q]], imgs[q], meta_at(metadata@, q), kind),
            forall|q: int| 0 <= q < k && !moves_at(old_panes, part, targets, kind, q)
                ==> #[trigger] panes@[part[q]] == old_panes[part[q]],
            redraw@ == redrawn(old_panes, part, targets, imgs, kind, k as int),
        decreases panes@.len() - i,
    {
        proof {
            lemma_taking_part_prefix(old_panes, pane_indices@, i as int, i as int + 1);
            lemma_taking_part_prefix(old_panes, pane_indices@, i as int + 1, old_panes.len() as int);
            lemma_taking_part_step(old_panes, pane_indices@, i as int + 1);
        }
        let ghost before = panes@;
        let takes = panes[i].dir_loaded && panes[i].is_selected && vec_contains(pane_indices, i);
        if takes {
            assert(part[k as int] == i);
            let ghost outcome = outcome_at(old_panes, part, targets, kind, k as int);
            match target_indices[k] {
                None => {},
                Some(target_index) => {
                    if panes[i].img_cache.is_operation_blocking(operation_type) {
                        proof {
                            assert(outcome == StepOutcome::Abort);
                            assert forall|q: int| k < q < part.len() implies
                                !moves_at(old_panes, part, targets, kind, q) by {
                                assert(outcome_at(old_panes, part, targets, kind, k as int) == StepOutcome::Abort);
                            }
                            assert forall|q: int| 0 <= q < part.len() && moves_at(old_panes, part, targets, kind, q)
                                implies pane_moved(old_panes[part[q]], #[trigger] panes@[part[q]], imgs[q],
                                    meta_at(metadata@, q), kind) by {
                                assert(q < k);
                            }
                            assert forall|q: int| 0 <= q < part.len() && !moves_at(old_panes, part, targets, kind, q)
                                implies #[trigger] panes@[part[q]] == old_panes[part[q]] by {
                                if q >= k {
                                    assert(part[q] >= i);
                                }
                            }
                            assert forall|j: int| 0 <= j < old_panes.len() && !takes_part(old_panes[j], j, pane_indices@)
                                implies #[trigger] panes@[j] == old_panes[j] by {}
                            lemma_redrawn_stops(old_panes, part, targets, imgs, kind, k as int, part.len() as int);
                            assert(redraw@ == redrawn(old_panes, part, targets, imgs, kind, part.len() as int));
                        }
                        return redraw;
                    }
                    let awaited: Option<isize> = if operation_type == LoadOperationType::LoadNext {
                        Some(panes[i].img_cache.get_next_image_to_load() as isize)
                    } else if operation_type == LoadOperationType::LoadPrevious {
                        Some(panes[i].img_cache.get_prev_image_to_load() as isize)
                    } else {
                        None
                    };
                    if awaited == Some(target_index) {
                        assert(moves_at(old_panes, part, targets, kind, k as int));
                        let img = data[k].take();
                        let meta = if k < metadata.len() { metadata[k] } else { None };
                        if operation_type == LoadOperationType::LoadNext {
                            let _ = panes[i].img_cache.move_next(img, meta, target_index);
                        } else {
                            let _ = panes[i].img_cache.move_prev(img, meta, target_index);
                        }
                        if panes[i].img_cache.get_initial_image().is_ok() {
                            redraw.push(i);
                        }
                    }
                },
            }
            k += 1;
        }
        proof {
            assert forall|j: int| 0 <= j < old_panes.len() && j != i implies #[trigger] panes@[j] == before[j] by {}
        }
        i += 1;
    }
    proof {
        assert forall|q: int| 0 <= q < part.len() && moves_at(old_panes, part, targets, kind, q)
            implies pane_moved(old_panes[part[q]], #[trigger] panes@[part[q]], imgs[q], meta_at(metadata@, q), kind) by {}
    }
    redraw
}

proof fn lemma_redrawn_stops<T>(panes: Seq<Pane<T>>, part: Seq<int>, targets: Seq<Option<isize>>, imgs: Seq<Option<T>>,
    kind: LoadOperationType, k: int, m: int)
    requires
        0 <= k < m,
        outcome_at(panes, part, targets, kind, k) == StepOutcome::Abort,
    ensures
        redrawn(panes, part, targets, imgs, kind, m) == redrawn(panes, part, targets, imgs, kind, k),
    decreases m - k,
{
    if m > k + 1 {
        lemma_redrawn_stops(panes, part, targets, imgs, kind, k, m - 1);
        assert(!moves_at(panes, part, targets, kind, m - 1));
    } else {
        assert(!moves_at(panes, part, targets, kind, k));
    }
}

fn vec_contains(v: &Vec<usize>, x: usize) -> (r: bool)
    ensures
        r == v@.contains(x),
{
    let mut i: usize = 0;
    while i < v.len()
        invariant
            i <= v@.len(),
            forall|j: int| 0 <= j < i ==> v@[j] != x,
        decreases v@.len() - i,
    {
        if v[i] == x {
            assert(v@[i as int] == x);
            return true;
        }
        i += 1;
    }
    false
}

} // verus!

verus! {

/// A pane waits for exactly the image its load asked for: going forward the image just past
/// the last of its `2 * cache_count + 1` slots, going backward the image just before the
/// first, where the first slot holds image `current_index - (cache_count + current_offset)`.
pub proof fn lemma_arrival_matches_request<T>(p: Pane<T>)
    requires
        step_ready(p),
        p.is_selected,
        p.dir_loaded,
    ensures
        ({
            let c = p.img_cache;
            let first = c.current_index - (c.cache_count + c.current_offset);
            &&& awaited_image(c, LoadOperationType::LoadNext) == Some((first + 2 * c.cache_count + 1) as isize)
            &&& awaited_image(c, LoadOperationType::LoadNext) == next_target(p)
            &&& first >= 1 ==> awaited_image(c, LoadOperationType::LoadPrevious) == Some((first - 1) as isize)
            &&& first >= 1 ==> awaited_image(c, LoadOperationType::LoadPrevious) == previous_target(p)
        }),
{
}

/// A pane that moves its window to take a loaded image keeps a window of the same size,
/// and a window of consecutive image indices stays consecutive, one image further on in
/// the direction of the move.
pub proof fn lemma_moved_pane_keeps_window<T>(p: Pane<T>, q: Pane<T>, img: Option<T>,
    meta: Option<ImageMetadata>, kind: LoadOperationType)
    requires
        kind == LoadOperationType::LoadNext || kind == LoadOperationType::LoadPrevious,
        step_ready(p),
        pane_moved(p, q, img, meta, kind),
        contiguous(p.img_cache.cached_image_indices@),
    ensures
        q.img_cache.wf(),
        q.img_cache.cache_count == p.img_cache.cache_count,
        contiguous(q.img_cache.cached_image_indices@),
        kind == LoadOperationType::LoadNext ==> q.img_cache.cached_image_indices@[0]
            == p.img_cache.cached_image_indices@[0] + 1,
        kind == LoadOperationType::LoadPrevious ==> q.img_cache.cached_image_indices@[0]
            == p.img_cache.cached_image_indices@[0] - 1,
{
    let ind = p.img_cache.cached_image_indices@;
    assert(ind.len() > 1);
    assert(ind[ind.len() - 1] < isize::MAX);
    assert(ind[0] > isize::MIN);
    lemma_shifts_keep_contiguous(ind);
    assert(ind[0int + 1] == ind[0] + 1);
}

} // verus!
