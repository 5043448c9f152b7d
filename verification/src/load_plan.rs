use vstd::prelude::*;
use crate::img_cache::PathSource;
use crate::load_op::{LoadOperation, LoadOperationType, LoadOperationView, clone_targets};
use crate::loading_status::{LoadingStatus, all_ops, op_differs_from_targets};
use crate::pane::{Pane, targets_fit, next_target, previous_target, next_load_applies, previous_load_applies,
    index_in_window_range, get_target_indices_for_next, get_target_indices_for_previous,
    calculate_loading_conditions_for_next, calculate_loading_conditions_for_previous, should_enqueue_loading};
use crate::img_cache::{blocks, slider_load_targets, slider_targets, target_slot, lemma_slider_slots_in_window};

verus! {

/// One file to read for a load: its path, and whether it lies inside the pane's archive.
pub type FetchEntry = Option<(PathSource, bool)>;

/// What the viewer has to start after an operation left the waiting queue.
pub enum LoadPlan {
    /// No operation was waiting.
    Nothing,
    /// Read these files, one entry per pane, and report them for the operation.
    Fetch(LoadOperation, Vec<FetchEntry>),
    /// Report an empty result of this many entries for the shift.
    Shift(LoadOperation, usize),
    /// The operation is in flight and needs nothing started here.
    Held(LoadOperation),
}

/// The file a pane reads for a target image: the path at that index with the pane's archive
/// flag, or none without target or past the last path.
pub open spec fn fetch_entry<T>(p: Pane<T>, target: Option<isize>) -> FetchEntry {
    match target {
        Some(t) => if ((t as usize) as int) < p.img_cache.image_paths@.len() {
            Some((p.img_cache.image_paths@[(t as usize) as int], p.has_compressed_file))
        } else {
            None
        },
        None => None,
    }
}

/// The files the panes read for their targets, pane by pane.
pub open spec fn fetch_list<T>(panes: Seq<Pane<T>>, targets: Seq<Option<isize>>) -> Seq<FetchEntry> {
    Seq::new(panes.len(), |i: int| fetch_entry(panes[i], targets[i]))
}

/// The files to read for each pane's targets; `target_indices` has an entry per pane.
pub fn load_images_by_indices<T>(panes: &Vec<Pane<T>>, target_indices: &Vec<Option<isize>>) -> (r: Vec<FetchEntry>)
    requires
        target_indices@.len() >= panes@.len(),
    ensures
        r@ == fetch_list(panes@, target_indices@),
{
    let mut r: Vec<FetchEntry> = Vec::new();
    let mut i: usize = 0;
    while i < panes.len()
        invariant
            i <= panes@.len(),
            target_indices@.len() >= panes@.len(),
            r@.len() == i,
            forall|k: int| 0 <= k < i ==> #[trigger] r@[k] == fetch_entry(panes@[k], target_indices@[k]),
        decreases panes@.len() - i,
    {
        let entry = match target_indices[i] {
            Some(t) => {
                let idx = #[verifier::truncate] (t as usize);
                if idx < panes[i].img_cache.image_paths.len() {
                    Some((panes[i].img_cache.image_paths[idx].clone(), panes[i].has_compressed_file))
                } else {
                    None
                }
            },
            None => None,
        };
        r.push(entry);
        i += 1;
    }
    proof {
        assert(r@ =~= fetch_list(panes@, target_indices@));
    }
    r
}

/// The forward and backward operations waiting in a queue carry a target for each of `n` panes.
pub open spec fn targets_cover(q: Seq<LoadOperation>, n: int) -> bool {
    forall|i: int| 0 <= i < q.len() ==> match (#[trigger] q[i])@ {
        LoadOperationView::LoadNext(_, t) => t.len() >= n,
        LoadOperationView::LoadPrevious(_, t) => t.len() >= n,
        _ => true,
    }
}

/// The status after the front of the waiting queue moved to the back of the in-flight queue.
pub open spec fn started_front(old_status: LoadingStatus, new_status: LoadingStatus, op: LoadOperation) -> bool {
    &&& old_status.loading_queue@.len() > 0
    &&& op == old_status.loading_queue@[0]
    &&& new_status.loading_queue@ == old_status.loading_queue@.drop_first()
    &&& new_status.being_loaded_queue@.len() == old_status.being_loaded_queue@.len() + 1
    &&& new_status.being_loaded_queue@.drop_last() == old_status.being_loaded_queue@
    &&& new_status.being_loaded_queue@.last()@ == op@
    &&& new_status.out_of_order_images@ == old_status.out_of_order_images@
    &&& new_status.is_next_image_loaded == old_status.is_next_image_loaded
    &&& new_status.is_prev_image_loaded == old_status.is_prev_image_loaded
}

/// The two statuses hold the same queues, images and flags.
pub open spec fn same_status(a: LoadingStatus, b: LoadingStatus) -> bool {
    &&& a.loading_queue@ == b.loading_queue@
    &&& a.being_loaded_queue@ == b.being_loaded_queue@
    &&& a.out_of_order_images@ == b.out_of_order_images@
    &&& a.is_next_image_loaded == b.is_next_image_loaded
    &&& a.is_prev_image_loaded == b.is_prev_image_loaded
}

/// Moves the operation at the front of the waiting queue to the back of the in-flight queue
/// and returns it; nothing happens when none is waiting.
pub fn start_next_operation(loading_status: &mut LoadingStatus) -> (r: Option<LoadOperation>)
    ensures
        old(loading_status).loading_queue@.len() == 0 ==> r is None && same_status(*old(loading_status), *final(loading_status)),
        old(loading_status).loading_queue@.len() > 0 ==> (r matches Some(op)
            && started_front(*old(loading_status), *final(loading_status), op)),
{
    let ghost before = *loading_status;
    match loading_status.loading_queue.pop_front() {
        None => None,
        Some(op) => {
            loading_status.enqueue_image_being_loaded(op.clone());
            proof {
                assert(loading_status.loading_queue@ =~= before.loading_queue@.drop_first());
                assert(loading_status.being_loaded_queue@.drop_last() =~= before.being_loaded_queue@);
            }
            Some(op)
        },
    }
}

/// The plan for an operation that just left the waiting queue.
pub open spec fn plan_for<T>(panes: Seq<Pane<T>>, op: LoadOperation, plan: LoadPlan) -> bool {
    match op@ {
        LoadOperationView::LoadNext(_, t) => plan matches LoadPlan::Fetch(o, list) && o == op && list@ == fetch_list(panes, t),
        LoadOperationView::LoadPrevious(_, t) => plan matches LoadPlan::Fetch(o, list) && o == op && list@ == fetch_list(panes, t),
        LoadOperationView::ShiftNext(_, _) => plan matches LoadPlan::Shift(o, n) && o == op && n == panes.len(),
        LoadOperationView::ShiftPrevious(_, _) => plan matches LoadPlan::Shift(o, n) && o == op && n == panes.len(),
        LoadOperationView::LoadPos(_, _) => plan matches LoadPlan::Held(o) && o == op,
    }
}

/// Starts the operation at the front of the waiting queue: it moves to the in-flight queue,
/// and the plan says what to read for it.
pub fn load_images_by_operation<T>(panes: &Vec<Pane<T>>, loading_status: &mut LoadingStatus) -> (r: LoadPlan)
    requires
        targets_cover(old(loading_status).loading_queue@, panes@.len() as int),
    ensures
        old(loading_status).loading_queue@.len() == 0 ==> r is Nothing && same_status(*old(loading_status), *final(loading_status)),
        old(loading_status).loading_queue@.len() > 0 ==> {
            let op = old(loading_status).loading_queue@[0];
            &&& started_front(*old(loading_status), *final(loading_status), op)
            &&& plan_for(panes@, op, r)
        },
{
    let ghost q = loading_status.loading_queue@;
    match start_next_operation(loading_status) {
        None => LoadPlan::Nothing,
        Some(op) => {
            assert(op == q[0]);
            let is_load = match &op {
                LoadOperation::LoadNext(_) => true,
                LoadOperation::LoadPrevious(_) => true,
                _ => false,
            };
            if is_load {
                let list = match &op {
                    LoadOperation::LoadNext((_, t)) => load_images_by_indices(panes, t),
                    LoadOperation::LoadPrevious((_, t)) => load_images_by_indices(panes, t),
                    _ => Vec::new(),
                };
                LoadPlan::Fetch(op, list)
            } else {
                let is_shift = match &op {
                    LoadOperation::ShiftNext(_) => true,
                    LoadOperation::ShiftPrevious(_) => true,
                    _ => false,
                };
                if is_shift {
                    LoadPlan::Shift(op, panes.len())
                } else {
                    LoadPlan::Held(op)
                }
            }
        },
    }
}

/// A slider target is read: it names an image of the pane.
pub open spec fn slider_target_found(paths_len: int, target: Option<(isize, usize)>) -> bool {
    match target {
        Some((t, _)) => ((t as usize) as int) < paths_len,
        None => false,
    }
}

/// The slot indices after each found slider target among the first `n` recorded its image
/// index in its slot.
pub open spec fn slider_slot_indices(ind: Seq<isize>, paths_len: int, targets: Seq<Option<(isize, usize)>>, n: int)
    -> Seq<isize>
    decreases n,
{
    if n <= 0 {
        ind
    } else {
        let prev = slider_slot_indices(ind, paths_len, targets, n - 1);
        match targets[n - 1] {
            Some((t, pos)) => if slider_target_found(paths_len, targets[n - 1]) && (pos as int) < prev.len() {
                prev.update(pos as int, t)
            } else {
                prev
            },
            None => prev,
        }
    }
}

/// The file read for a slider target: the path it names, with the pane's archive flag.
pub open spec fn slider_fetch_entry<T>(p: Pane<T>, target: Option<(isize, usize)>) -> FetchEntry {
    match target {
        Some((t, _)) => if slider_target_found(p.img_cache.image_paths@.len() as int, target) {
            Some((p.img_cache.image_paths@[(t as usize) as int], p.has_compressed_file))
        } else {
            None
        },
        None => None,
    }
}

/// The files to read for the targets of a slider position in one pane, each found target
/// recording its image index in the slot it is meant for; none when there is no such pane.
pub fn load_images_by_operation_slider<T>(
    panes: &mut Vec<Pane<T>>,
    pane_index: usize,
    target_indices_and_cache: &Vec<Option<(isize, usize)>>,
) -> (r: Option<Vec<FetchEntry>>)
    requires
        pane_index < old(panes)@.len() ==> forall|k: int| 0 <= k < target_indices_and_cache@.len()
            && slider_target_found(old(panes)@[pane_index as int].img_cache.image_paths@.len() as int,
                #[trigger] target_indices_and_cache@[k])
            ==> (target_indices_and_cache@[k]->0).1 < old(panes)@[pane_index as int].img_cache.cached_image_indices@.len(),
    ensures
        pane_index >= old(panes)@.len() ==> r is None && final(panes)@ == old(panes)@,
        pane_index < old(panes)@.len() ==> {
            let p = old(panes)@[pane_index as int];
            let q = final(panes)@[pane_index as int];
            &&& final(panes)@.len() == old(panes)@.len()
            &&& forall|j: int| 0 <= j < old(panes)@.len() && j != pane_index ==> #[trigger] final(panes)@[j] == old(panes)@[j]
            &&& q == (Pane { img_cache: q.img_cache, ..p })
            &&& q.img_cache == (crate::img_cache::ImageCache { cached_image_indices: q.img_cache.cached_image_indices, ..p.img_cache })
            &&& q.img_cache.cached_image_indices@ == slider_slot_indices(p.img_cache.cached_image_indices@,
                p.img_cache.image_paths@.len() as int, target_indices_and_cache@, target_indices_and_cache@.len() as int)
            &&& r matches Some(list) && list@ == Seq::new(target_indices_and_cache@.len(),
                |k: int| slider_fetch_entry(p, target_indices_and_cache@[k]))
        },
{
    if pane_index >= panes.len() {
        return None;
    }
    let ghost p = panes@[pane_index as int];
    let ghost old_panes = panes@;
    let ghost targets = target_indices_and_cache@;
    let ghost plen = p.img_cache.image_paths@.len() as int;
    let mut list: Vec<FetchEntry> = Vec::new();
    let mut k: usize = 0;
    while k < target_indices_and_cache.len()
        invariant
            k <= targets.len(),
            targets == target_indices_and_cache@,
            pane_index < panes@.len(),
            panes@.len() == old_panes.len(),
            p == old_panes[pane_index as int],
            plen == p.img_cache.image_paths@.len(),
            forall|j: int| 0 <= j < targets.len() && slider_target_found(plen, #[trigger] targets[j])
                ==> (targets[j]->0).1 < p.img_cache.cached_image_indices@.len(),
            forall|j: int| 0 <= j < old_panes.len() && j != pane_index ==> #[trigger] panes@[j] == old_panes[j],
            panes@[pane_index as int] == (Pane { img_cache: panes@[pane_index as int].img_cache, ..p }),
            panes@[pane_index as int].img_cache == (crate::img_cache::ImageCache {
                cached_image_indices: panes@[pane_index as int].img_cache.cached_image_indices, ..p.img_cache }),
            panes@[pane_index as int].img_cache.cached_image_indices@ == slider_slot_indices(
                p.img_cache.cached_image_indices@, plen, targets, k as int),
            list@.len() == k,
            forall|j: int| 0 <= j < k ==> #[trigger] list@[j] == slider_fetch_entry(p, targets[j]),
        decreases targets.len() - k,
    {
        proof {
            lemma_slider_slot_indices_len(p.img_cache.cached_image_indices@, plen, targets, k as int);
        }
        let ghost before = panes@;
        let entry = match target_indices_and_cache[k] {
            Some((t, pos)) => {
                let idx = #[verifier::truncate] (t as usize);
                if idx < panes[pane_index].img_cache.image_paths.len() {
                    let path = panes[pane_index].img_cache.image_paths[idx].clone();
                    let archived = panes[pane_index].has_compressed_file;
                    assert(slider_target_found(plen, targets[k as int]));
                    panes[pane_index].img_cache.cached_image_indices.set(pos, t);
                    Some((path, archived))
                } else {
                    None
                }
            },
            None => None,
        };
        list.push(entry);
        proof {
            assert forall|j: int| 0 <= j < old_panes.len() && j != pane_index implies #[trigger] panes@[j] == old_panes[j] by {
                assert(panes@[j] == before[j]);
            }
        }
        k += 1;
    }
    proof {
        assert(list@ =~= Seq::new(targets.len(), |j: int| slider_fetch_entry(p, targets[j])));
    }
    Some(list)
}

proof fn lemma_slider_slot_indices_len(ind: Seq<isize>, paths_len: int, targets: Seq<Option<(isize, usize)>>, n: int)
    ensures
        slider_slot_indices(ind, paths_len, targets, n).len() == ind.len(),
    decreases n,
{
    if n > 0 {
        lemma_slider_slot_indices_len(ind, paths_len, targets, n - 1);
    }
}

/// The plan for an operation, known by its value, that just left the waiting queue.
pub open spec fn plan_matches<T>(panes: Seq<Pane<T>>, v: LoadOperationView, plan: LoadPlan) -> bool {
    match v {
        LoadOperationView::LoadNext(_, t) => plan matches LoadPlan::Fetch(o, list) && o@ == v && list@ == fetch_list(panes, t),
        LoadOperationView::LoadPrevious(_, t) => plan matches LoadPlan::Fetch(o, list) && o@ == v && list@ == fetch_list(panes, t),
        LoadOperationView::ShiftNext(_, _) => plan matches LoadPlan::Shift(o, n) && o@ == v && n == panes.len(),
        LoadOperationView::ShiftPrevious(_, _) => plan matches LoadPlan::Shift(o, n) && o@ == v && n == panes.len(),
        LoadOperationView::LoadPos(_, _) => plan matches LoadPlan::Held(o) && o@ == v,
    }
}

/// The values of the operations in a queue.
pub open spec fn queue_view(q: Seq<LoadOperation>) -> Seq<LoadOperationView> {
    q.map_values(|o: LoadOperation| o@)
}

/// The status after an operation with value `v` was appended to the waiting queue and the
/// front of that queue then moved to the in-flight queue; `plan` is what that front needs.
pub open spec fn queued_and_started<T>(panes: Seq<Pane<T>>, old_status: LoadingStatus, new_status: LoadingStatus,
    v: LoadOperationView, plan: LoadPlan) -> bool {
    let q = queue_view(old_status.loading_queue@).push(v);
    &&& queue_view(new_status.loading_queue@) == q.drop_first()
    &&& new_status.being_loaded_queue@.len() == old_status.being_loaded_queue@.len() + 1
    &&& new_status.being_loaded_queue@.drop_last() == old_status.being_loaded_queue@
    &&& new_status.being_loaded_queue@.last()@ == q[0]
    &&& new_status.out_of_order_images@ == old_status.out_of_order_images@
    &&& new_status.is_next_image_loaded == old_status.is_next_image_loaded
    &&& new_status.is_prev_image_loaded == old_status.is_prev_image_loaded
    &&& plan_matches(panes, q[0], plan)
}

/// The status after the front of the waiting queue, if any, moved to the in-flight queue;
/// `plan` is what that front needs.
pub open spec fn front_started<T>(panes: Seq<Pane<T>>, old_status: LoadingStatus, new_status: LoadingStatus,
    plan: LoadPlan) -> bool {
    &&& old_status.loading_queue@.len() == 0 ==> plan is Nothing && same_status(old_status, new_status)
    &&& old_status.loading_queue@.len() > 0 ==> started_front(old_status, new_status, old_status.loading_queue@[0])
        && plan_for(panes, old_status.loading_queue@[0], plan)
}

/// The targets of a load for the panes that take part, none for the others.
pub open spec fn load_targets<T>(panes: Seq<Pane<T>>, forward: bool) -> Seq<Option<isize>> {
    Seq::new(panes.len(), |i: int| if forward {
        if next_load_applies(panes[i]) { next_target(panes[i]) } else { None }
    } else {
        if previous_load_applies(panes[i]) { previous_target(panes[i]) } else { None }
    })
}

/// Some target of a forward load lies in the range a window can hold.
pub open spec fn next_within<T>(panes: Seq<Pane<T>>) -> bool {
    exists|i: int| 0 <= i < panes.len() && next_load_applies(#[trigger] panes[i])
        && (next_target(panes[i]) matches Some(n) && index_in_window_range(panes[i], n))
}

/// Some target of a forward load is missing, lies at or past its pane's file count, or the
/// pane's offset is negative.
pub open spec fn next_out_of_bounds<T>(panes: Seq<Pane<T>>) -> bool {
    exists|i: int| 0 <= i < panes.len() && next_load_applies(#[trigger] panes[i])
        && match next_target(panes[i]) {
            Some(n) => (n as usize) >= panes[i].img_cache.num_files || panes[i].img_cache.current_offset < 0,
            None => true,
        }
}

/// Some target of a backward load lies in the range a window can hold, or is missing.
pub open spec fn previous_within<T>(panes: Seq<Pane<T>>) -> bool {
    exists|i: int| 0 <= i < panes.len() && previous_load_applies(#[trigger] panes[i])
        && match previous_target(panes[i]) {
            Some(n) => index_in_window_range(panes[i], n),
            None => true,
        }
}

/// Some target of a backward load is missing.
pub open spec fn previous_missing<T>(panes: Seq<Pane<T>>) -> bool {
    exists|i: int| 0 <= i < panes.len() && previous_load_applies(#[trigger] panes[i])
        && previous_target(panes[i]) is None
}

/// A load with these targets is wanted: some target is in range, no waiting or in-flight
/// operation carries the same targets, and no pane's window would be pushed out by a load
/// of this kind.
pub open spec fn load_wanted<T>(panes: Seq<Pane<T>>, status: LoadingStatus, kind: LoadOperationType,
    within: bool, list: Seq<Option<isize>>) -> bool {
    &&& within
    &&& all_ops(status.loading_queue@, |o: LoadOperation| op_differs_from_targets(o, list))
    &&& all_ops(status.being_loaded_queue@, |o: LoadOperation| op_differs_from_targets(o, list))
    &&& !exists|i: int| 0 <= i < panes.len() && blocks(
        (#[trigger] panes[i]).img_cache.current_offset as int, panes[i].img_cache.cache_count as int,
        kind, status.being_loaded_queue@, panes[i].img_cache.being_loaded_queue@)
}

/// What a forward load request does, as [`load_next_images_all`] states it.
pub open spec fn next_load_effect<T>(panes: Seq<Pane<T>>, pane_indices: Seq<usize>, old_status: LoadingStatus,
    new_status: LoadingStatus, r: LoadPlan) -> bool {
    let list = load_targets(panes, true);
    let wanted = panes.len() > 0 && load_wanted(panes, old_status, LoadOperationType::LoadNext, next_within(panes), list);
    &&& !wanted ==> r is Nothing && new_status == old_status
    &&& wanted && next_out_of_bounds(panes) ==> front_started(panes, old_status, new_status, r)
    &&& wanted && !next_out_of_bounds(panes) ==> queued_and_started(panes, old_status, new_status,
        LoadOperationView::LoadNext(pane_indices, list), r)
}

/// What a backward load request does, as [`load_prev_images_all`] states it.
pub open spec fn prev_load_effect<T>(panes: Seq<Pane<T>>, pane_indices: Seq<usize>, old_status: LoadingStatus,
    new_status: LoadingStatus, r: LoadPlan) -> bool {
    let list = load_targets(panes, false);
    let wanted = panes.len() > 0 && load_wanted(panes, old_status, LoadOperationType::LoadPrevious,
        previous_within(panes), list);
    &&& !wanted ==> r is Nothing && new_status == old_status
    &&& wanted && previous_missing(panes) ==> front_started(panes, old_status, new_status, r)
    &&& wanted && !previous_missing(panes) ==> queued_and_started(panes, old_status, new_status,
        LoadOperationView::LoadPrevious(pane_indices, list), r)
}

/// Asks for the images past the windows of the panes. When the load is wanted, it is
/// queued unless some target is out of bounds, and the operation at the front of the
/// waiting queue is started; otherwise nothing changes.
pub fn load_next_images_all<T>(panes: &Vec<Pane<T>>, pane_indices: Vec<usize>, loading_status: &mut LoadingStatus)
    -> (r: LoadPlan)
    requires
        forall|i: int| 0 <= i < panes@.len() ==> targets_fit(#[trigger] panes@[i]),
        forall|i: int| 0 <= i < panes@.len() ==> (#[trigger] panes@[i]).img_cache.current_index >= 1,
        targets_cover(old(loading_status).loading_queue@, panes@.len() as int),
    ensures
        next_load_effect(panes@, pane_indices@, *old(loading_status), *final(loading_status), r),
{
    let target_indices = get_target_indices_for_next(panes);
    if target_indices.len() == 0 {
        return LoadPlan::Nothing;
    }
    match calculate_loading_conditions_for_next(panes, &target_indices) {
        None => LoadPlan::Nothing,
        Some((list, within, out_of_bounds)) => {
            proof {
                assert(list@ =~= load_targets(panes@, true));
            }
            let op = LoadOperation::LoadNext((pane_indices, clone_targets(&list)));
            if should_enqueue_loading(within, loading_status, &list, &op, panes) {
                if !out_of_bounds {
                    let ghost before = *loading_status;
                    loading_status.enqueue_image_load(op);
                    proof {
                        assert(queue_view(loading_status.loading_queue@) =~= queue_view(before.loading_queue@).push(
                            LoadOperationView::LoadNext(pane_indices@, list@)));
                    }
                    let plan = load_images_by_operation(panes, loading_status);
                    proof {
                        let q = queue_view(before.loading_queue@).push(LoadOperationView::LoadNext(pane_indices@, list@));
                        assert(queue_view(loading_status.loading_queue@) =~= q.drop_first());
                    }
                    plan
                } else {
                    load_images_by_operation(panes, loading_status)
                }
            } else {
                LoadPlan::Nothing
            }
        },
    }
}

/// Asks for the images before the windows of the panes. When the load is wanted, it is
/// queued unless some target is missing, and the operation at the front of the waiting
/// queue is started; otherwise nothing changes.
pub fn load_prev_images_all<T>(panes: &Vec<Pane<T>>, pane_indices: Vec<usize>, loading_status: &mut LoadingStatus)
    -> (r: LoadPlan)
    requires
        forall|i: int| 0 <= i < panes@.len() ==> targets_fit(#[trigger] panes@[i]),
        forall|i: int| 0 <= i < panes@.len() ==> (#[trigger] panes@[i]).img_cache.current_index < usize::MAX,
        targets_cover(old(loading_status).loading_queue@, panes@.len() as int),
    ensures
        prev_load_effect(panes@, pane_indices@, *old(loading_status), *final(loading_status), r),
{
    let target_indices = get_target_indices_for_previous(panes);
    if target_indices.len() == 0 {
        return LoadPlan::Nothing;
    }
    match calculate_loading_conditions_for_previous(panes, &target_indices) {
        None => LoadPlan::Nothing,
        Some((list, within, any_none)) => {
            proof {
                assert(list@ =~= load_targets(panes@, false));
            }
            let op = LoadOperation::LoadPrevious((pane_indices, clone_targets(&list)));
            if should_enqueue_loading(within, loading_status, &list, &op, panes) {
                if !any_none {
                    let ghost before = *loading_status;
                    loading_status.enqueue_image_load(op);
                    proof {
                        assert(queue_view(loading_status.loading_queue@) =~= queue_view(before.loading_queue@).push(
                            LoadOperationView::LoadPrevious(pane_indices@, list@)));
                    }
                    let plan = load_images_by_operation(panes, loading_status);
                    proof {
                        let q = queue_view(before.loading_queue@).push(LoadOperationView::LoadPrevious(pane_indices@, list@));
                        assert(queue_view(loading_status.loading_queue@) =~= q.drop_first());
                    }
                    plan
                } else {
                    load_images_by_operation(panes, loading_status)
                }
            } else {
                LoadPlan::Nothing
            }
        },
    }
}

/// The slot indices of every pane after the slider positions among the first `n` queued
/// operations recorded their found targets.
pub open spec fn queue_slot_indices(table: Seq<Seq<isize>>, paths_lens: Seq<int>, ops: Seq<LoadOperationView>, n: int)
    -> Seq<Seq<isize>>
    decreases n,
{
    if n <= 0 {
        table
    } else {
        let prev = queue_slot_indices(table, paths_lens, ops, n - 1);
        match ops[n - 1] {
            LoadOperationView::LoadPos(pi, targets) => if (pi as int) < prev.len() {
                prev.update(pi as int, slider_slot_indices(prev[pi as int], paths_lens[pi as int], targets,
                    targets.len() as int))
            } else {
                prev
            },
            _ => prev,
        }
    }
}

/// The reads asked for by the slider positions among the first `n` queued operations: one
/// per position whose pane exists and that has targets, with the files of its targets.
pub open spec fn queue_fetches<T>(panes: Seq<Pane<T>>, ops: Seq<LoadOperationView>, n: int)
    -> Seq<(LoadOperationView, Seq<FetchEntry>)>
    decreases n,
{
    if n <= 0 {
        Seq::empty()
    } else {
        let prev = queue_fetches(panes, ops, n - 1);
        match ops[n - 1] {
            LoadOperationView::LoadPos(pi, targets) => if (pi as int) < panes.len() && targets.len() > 0 {
                prev.push((ops[n - 1], Seq::new(targets.len(), |k: int| slider_fetch_entry(panes[pi as int], targets[k]))))
            } else {
                prev
            },
            _ => prev,
        }
    }
}

/// Every found target of a queued slider position names a slot of its pane.
pub open spec fn slider_slots_valid<T>(panes: Seq<Pane<T>>, ops: Seq<LoadOperationView>) -> bool {
    forall|i: int, k: int| 0 <= i < ops.len() && (#[trigger] ops[i]) is LoadPos
        && (ops[i]->LoadPos_0 as int) < panes.len()
        && 0 <= k < ops[i]->LoadPos_1.len()
        && slider_target_found(panes[ops[i]->LoadPos_0 as int].img_cache.image_paths@.len() as int,
            #[trigger] ops[i]->LoadPos_1[k])
        ==> (ops[i]->LoadPos_1[k]->0).1 < panes[ops[i]->LoadPos_0 as int].img_cache.cached_image_indices@.len()
}

/// Starts every waiting operation: all move to the in-flight queue in order, and each slider
/// position records its found targets in its pane's slots and asks for their files.
pub fn load_all_images_in_queue<T>(panes: &mut Vec<Pane<T>>, loading_status: &mut LoadingStatus)
    -> (r: Vec<(LoadOperation, Vec<FetchEntry>)>)
    requires
        slider_slots_valid(old(panes)@, queue_view(old(loading_status).loading_queue@)),
    ensures
        ({
            let ops = queue_view(old(loading_status).loading_queue@);
            let table = Seq::new(old(panes)@.len(), |j: int| old(panes)@[j].img_cache.cached_image_indices@);
            let lens = Seq::new(old(panes)@.len(), |j: int| old(panes)@[j].img_cache.image_paths@.len() as int);
            let after = queue_slot_indices(table, lens, ops, ops.len() as int);
            &&& final(loading_status).loading_queue@.len() == 0
            &&& queue_view(final(loading_status).being_loaded_queue@)
                == queue_view(old(loading_status).being_loaded_queue@) + ops
            &&& final(loading_status).out_of_order_images@ == old(loading_status).out_of_order_images@
            &&& final(loading_status).is_next_image_loaded == old(loading_status).is_next_image_loaded
            &&& final(loading_status).is_prev_image_loaded == old(loading_status).is_prev_image_loaded
            &&& final(panes)@.len() == old(panes)@.len()
            &&& forall|j: int| 0 <= j < old(panes)@.len() ==> {
                let p = old(panes)@[j];
                let q = #[trigger] final(panes)@[j];
                &&& q == (Pane { img_cache: q.img_cache, ..p })
                &&& q.img_cache == (crate::img_cache::ImageCache { cached_image_indices: q.img_cache.cached_image_indices, ..p.img_cache })
                &&& q.img_cache.cached_image_indices@ == after[j]
            }
            &&& r@.len() == queue_fetches(old(panes)@, ops, ops.len() as int).len()
            &&& forall|k: int| 0 <= k < r@.len() ==> (#[trigger] r@[k]).0@ == queue_fetches(old(panes)@, ops, ops.len() as int)[k].0
                && r@[k].1@ == queue_fetches(old(panes)@, ops, ops.len() as int)[k].1
        }),
{
    let ghost old_panes = panes@;
    let ghost ops = queue_view(loading_status.loading_queue@);
    let ghost old_being = queue_view(loading_status.being_loaded_queue@);
    let ghost table = Seq::new(old_panes.len(), |j: int| old_panes[j].img_cache.cached_image_indices@);
    let ghost lens = Seq::new(old_panes.len(), |j: int| old_panes[j].img_cache.image_paths@.len() as int);
    let ghost old_status = *loading_status;
    let mut r: Vec<(LoadOperation, Vec<FetchEntry>)> = Vec::new();
    let total = loading_status.loading_queue.len();
    let mut n: usize = 0;
    while loading_status.loading_queue.len() > 0
        invariant
            0 <= n <= ops.len(),
            ops.len() == total,
            table == Seq::new(old_panes.len(), |j: int| old_panes[j].img_cache.cached_image_indices@),
            lens == Seq::new(old_panes.len(), |j: int| old_panes[j].img_cache.image_paths@.len() as int),
            queue_view(loading_status.loading_queue@) == ops.subrange(n as int, ops.len() as int),
            queue_view(loading_status.being_loaded_queue@) == old_being + ops.subrange(0, n as int),
            loading_status.out_of_order_images@ == old_status.out_of_order_images@,
            loading_status.is_next_image_loaded == old_status.is_next_image_loaded,
            loading_status.is_prev_image_loaded == old_status.is_prev_image_loaded,
            slider_slots_valid(old_panes, ops),
            panes@.len() == old_panes.len(),
            forall|j: int| 0 <= j < old_panes.len() ==> {
                let p = old_panes[j];
                let q = #[trigger] panes@[j];
                &&& q == (Pane { img_cache: q.img_cache, ..p })
                &&& q.img_cache == (crate::img_cache::ImageCache { cached_image_indices: q.img_cache.cached_image_indices, ..p.img_cache })
                &&& q.img_cache.cached_image_indices@ == queue_slot_indices(table, lens, ops, n as int)[j]
            },
            queue_slot_indices(table, lens, ops, n as int).len() == old_panes.len(),
            r@.len() == queue_fetches(old_panes, ops, n as int).len(),
            forall|k: int| 0 <= k < r@.len() ==> (#[trigger] r@[k]).0@ == queue_fetches(old_panes, ops, n as int)[k].0
                && r@[k].1@ == queue_fetches(old_panes, ops, n as int)[k].1,
        decreases ops.len() - n,
    {
        let ghost q_before = loading_status.loading_queue@;
        proof {
            assert(queue_view(q_before).len() == q_before.len());
            assert(ops.subrange(n as int, ops.len() as int).len() == ops.len() - n);
            assert(n < ops.len());
            assert(queue_view(q_before)[0] == q_before[0]@);
            assert(queue_view(q_before)[0] == ops[n as int]);
        }
        let op = loading_status.loading_queue.pop_front().unwrap();
        let ghost b_before = loading_status.being_loaded_queue@;
        let c = op.clone();
        let ghost cv = c@;
        loading_status.enqueue_image_being_loaded(c);
        proof {
            assert(cv == ops[n as int]);
            assert(queue_view(loading_status.being_loaded_queue@) =~= queue_view(b_before).push(cv));
        }
        proof {
            assert(loading_status.loading_queue@ =~= q_before.drop_first());
            assert(queue_view(loading_status.loading_queue@) =~= queue_view(q_before).drop_first());
            assert(queue_view(loading_status.loading_queue@) =~= ops.subrange(n as int + 1, ops.len() as int));
            assert(queue_view(loading_status.being_loaded_queue@) =~= old_being + ops.subrange(0, n as int + 1));
        }
        let ghost prev_panes = panes@;
        let ghost prev_table = queue_slot_indices(table, lens, ops, n as int);
        proof {
            lemma_queue_slot_indices_len(table, lens, ops, n as int);
        }
        let fetched = match &op {
            LoadOperation::LoadPos((pi, targets)) => {
                proof {
                    if (*pi as int) < panes@.len() {
                        let j = *pi as int;
                        assert(ops[n as int] == LoadOperationView::LoadPos(*pi, targets@));
                        assert(table[j] == old_panes[j].img_cache.cached_image_indices@);
                        assert(panes@[j].img_cache.cached_image_indices@.len() == table[j].len());
                        assert forall|k: int| 0 <= k < targets@.len()
                            && slider_target_found(panes@[j].img_cache.image_paths@.len() as int, #[trigger] targets@[k])
                            implies (targets@[k]->0).1 < panes@[j].img_cache.cached_image_indices@.len() by {
                            assert(ops[n as int]->LoadPos_1[k] == targets@[k]);
                            assert(old_panes[j].img_cache.image_paths@ == panes@[j].img_cache.image_paths@);
                        }
                    }
                }
                load_images_by_operation_slider(panes, *pi, targets)
            },
            _ => None,
        };
        proof {
            match ops[n as int] {
                LoadOperationView::LoadPos(pi, targets) => {
                    if (pi as int) < old_panes.len() {
                        let j = pi as int;
                        assert(lens[j] == prev_panes[j].img_cache.image_paths@.len());
                        assert forall|i: int| 0 <= i < old_panes.len() implies
                            (#[trigger] panes@[i]).img_cache.cached_image_indices@
                                == queue_slot_indices(table, lens, ops, n as int + 1)[i] by {
                        }
                    } else {
                        assert(panes@ == prev_panes);
                    }
                },
                _ => {
                    assert(panes@ == prev_panes);
                },
            }
        }
        match fetched {
            Some(list) => {
                if list.len() > 0 {
                    proof {
                        let j = ops[n as int]->LoadPos_0 as int;
                        let targets = ops[n as int]->LoadPos_1;
                        assert(list@ =~= Seq::new(targets.len(), |k: int| slider_fetch_entry(old_panes[j], targets[k])));
                    }
                    r.push((op, list));
                }
            },
            None => {},
        }
        n += 1;
    }
    proof {
        assert(ops.subrange(n as int, ops.len() as int).len() == 0);
        assert(ops.subrange(0, n as int) =~= ops);
    }
    r
}

proof fn lemma_queue_slot_indices_len(table: Seq<Seq<isize>>, paths_lens: Seq<int>, ops: Seq<LoadOperationView>, n: int)
    ensures
        queue_slot_indices(table, paths_lens, ops, n).len() == table.len(),
        forall|j: int| 0 <= j < table.len() ==> #[trigger] queue_slot_indices(table, paths_lens, ops, n)[j].len() == table[j].len(),
    decreases n,
{
    if n > 0 {
        lemma_queue_slot_indices_len(table, paths_lens, ops, n - 1);
        match ops[n - 1] {
            LoadOperationView::LoadPos(pi, targets) => {
                let prev = queue_slot_indices(table, paths_lens, ops, n - 1);
                if (pi as int) < prev.len() {
                    lemma_slider_slot_indices_len(prev[pi as int], paths_lens[pi as int], targets, targets.len() as int);
                }
            },
            _ => {},
        }
    }
}

} // verus!

verus! {

/// Starting an operation neither loses nor adds one: the waiting and in-flight queues
/// together hold as many operations as before.
pub proof fn lemma_start_keeps_count(old_status: LoadingStatus, new_status: LoadingStatus, op: LoadOperation)
    requires
        started_front(old_status, new_status, op),
    ensures
        new_status.loading_queue@.len() + new_status.being_loaded_queue@.len()
            == old_status.loading_queue@.len() + old_status.being_loaded_queue@.len(),
{
}

/// The slider targets of a pane can be computed for `pos`: its window has its size, a
/// position past the first window lies in a list of at least `cache_count` images, one in
/// the last window in a list that holds a whole window, and the indices fit in `isize`.
pub open spec fn slider_position_ok<T>(p: Pane<T>, pos: int) -> bool {
    let c = p.img_cache.cache_count as int;
    let len = p.img_cache.image_paths@.len() as int;
    &&& p.img_cache.wf()
    &&& pos >= c ==> len >= c
    &&& pos >= c && pos >= len - c ==> len >= 2 * c + 1
    &&& len + 2 * c + 1 <= isize::MAX
    &&& pos + c + 1 <= isize::MAX
}

/// The `LoadPos` operation that a slider move to `pos` queues for a pane.
pub open spec fn slider_operation<T>(p: Pane<T>, pane_index: usize, pos: int) -> LoadOperationView {
    LoadOperationView::LoadPos(pane_index, slider_targets(pos, p.img_cache.cache_count as int,
        p.img_cache.image_paths@.len() as int))
}

/// Queues the load of the images around slider position `pos` of a pane, as one `LoadPos`
/// operation, then starts every waiting operation as [`load_all_images_in_queue`] does and
/// returns its reads; nothing happens when no pane has the index.
pub fn get_loading_tasks_slider<T>(panes: &mut Vec<Pane<T>>, loading_status: &mut LoadingStatus, pane_index: usize,
    pos: usize) -> (r: Vec<(LoadOperation, Vec<FetchEntry>)>)
    requires
        slider_slots_valid(old(panes)@, queue_view(old(loading_status).loading_queue@)),
        pane_index < old(panes)@.len() ==> slider_position_ok(old(panes)@[pane_index as int], pos as int),
    ensures
        pane_index >= old(panes)@.len() ==> {
            &&& r@.len() == 0
            &&& final(panes)@ == old(panes)@
            &&& *final(loading_status) == *old(loading_status)
        },
        pane_index < old(panes)@.len() ==> ({
            let ops = queue_view(old(loading_status).loading_queue@).push(
                slider_operation(old(panes)@[pane_index as int], pane_index, pos as int));
            let table = Seq::new(old(panes)@.len(), |j: int| old(panes)@[j].img_cache.cached_image_indices@);
            let lens = Seq::new(old(panes)@.len(), |j: int| old(panes)@[j].img_cache.image_paths@.len() as int);
            let after = queue_slot_indices(table, lens, ops, ops.len() as int);
            &&& final(loading_status).loading_queue@.len() == 0
            &&& queue_view(final(loading_status).being_loaded_queue@)
                == queue_view(old(loading_status).being_loaded_queue@) + ops
            &&& final(loading_status).out_of_order_images@ == old(loading_status).out_of_order_images@
            &&& final(loading_status).is_next_image_loaded == old(loading_status).is_next_image_loaded
            &&& final(loading_status).is_prev_image_loaded == old(loading_status).is_prev_image_loaded
            &&& final(panes)@.len() == old(panes)@.len()
            &&& forall|j: int| 0 <= j < old(panes)@.len() ==> {
                let p = old(panes)@[j];
                let q = #[trigger] final(panes)@[j];
                &&& q == (Pane { img_cache: q.img_cache, ..p })
                &&& q.img_cache == (crate::img_cache::ImageCache { cached_image_indices: q.img_cache.cached_image_indices, ..p.img_cache })
                &&& q.img_cache.cached_image_indices@ == after[j]
            }
            &&& r@.len() == queue_fetches(old(panes)@, ops, ops.len() as int).len()
            &&& forall|k: int| 0 <= k < r@.len() ==> (#[trigger] r@[k]).0@ == queue_fetches(old(panes)@, ops, ops.len() as int)[k].0
                && r@[k].1@ == queue_fetches(old(panes)@, ops, ops.len() as int)[k].1
        }),
{
    if pane_index >= panes.len() {
        return Vec::new();
    }
    let c = panes[pane_index].img_cache.cache_count;
    let len = panes[pane_index].img_cache.image_paths.len();
    let targets = slider_load_targets(pos, c, len);
    let ghost old_ops = queue_view(loading_status.loading_queue@);
    let ghost op_view = slider_operation(panes@[pane_index as int], pane_index, pos as int);
    loading_status.enqueue_image_load(LoadOperation::LoadPos((pane_index, targets)));
    proof {
        let ops = queue_view(loading_status.loading_queue@);
        assert(ops =~= old_ops.push(op_view));
        let p = panes@[pane_index as int];
        lemma_slider_slots_in_window(pos as int, c as int, len as int);
        assert forall|i: int, k: int| 0 <= i < ops.len() && (#[trigger] ops[i]) is LoadPos
            && (ops[i]->LoadPos_0 as int) < panes@.len()
            && 0 <= k < ops[i]->LoadPos_1.len()
            && slider_target_found(panes@[ops[i]->LoadPos_0 as int].img_cache.image_paths@.len() as int,
                #[trigger] ops[i]->LoadPos_1[k])
            implies (ops[i]->LoadPos_1[k]->0).1 < panes@[ops[i]->LoadPos_0 as int].img_cache.cached_image_indices@.len() by {
            if i < old_ops.len() {
                assert(ops[i] == old_ops[i]);
            } else {
                let t = ops[i]->LoadPos_1[k];
                assert(0 <= target_slot(t) <= 2 * c);
            }
        }
    }
    load_all_images_in_queue(panes, loading_status)
}

/// The panes with a folder open among the first `n`, in order.
pub open spec fn open_panes<T>(panes: Seq<Pane<T>>, n: int) -> Seq<usize>
    decreases n,
{
    if n <= 0 {
        Seq::empty()
    } else {
        let rest = open_panes(panes, n - 1);
        if panes[n - 1].dir_loaded { rest.push((n - 1) as usize) } else { rest }
    }
}

/// The panes whose images a slider move loads: every pane with a folder open for the shared
/// slider (`pane_index` -1), otherwise the named pane when its folder is open.
pub open spec fn slider_panes<T>(panes: Seq<Pane<T>>, pane_index: isize) -> Seq<usize> {
    if pane_index == -1 {
        open_panes(panes, panes.len() as int)
    } else if 0 <= pane_index < panes.len() && panes[pane_index as int].dir_loaded {
        seq![pane_index as usize]
    } else {
        Seq::empty()
    }
}

/// The reads that the slider loads of the first `n` of the panes `sel` ask for: one per pane
/// whose targets are not empty, with the files of its targets.
pub open spec fn slider_plan_reads<T>(panes: Seq<Pane<T>>, sel: Seq<usize>, pos: int, n: int)
    -> Seq<(LoadOperationView, Seq<FetchEntry>)>
    decreases n,
{
    if n <= 0 {
        Seq::empty()
    } else {
        let rest = slider_plan_reads(panes, sel, pos, n - 1);
        let j = sel[n - 1] as int;
        let op = slider_operation(panes[j], sel[n - 1], pos);
        let targets = op->LoadPos_1;
        if targets.len() > 0 {
            rest.push((op, Seq::new(targets.len(), |k: int| slider_fetch_entry(panes[j], targets[k]))))
        } else {
            rest
        }
    }
}

/// A pane after its slider targets recorded their image indices in its slots.
pub open spec fn slider_filled<T>(p: Pane<T>, q: Pane<T>, pos: int) -> bool {
    let targets = slider_targets(pos, p.img_cache.cache_count as int, p.img_cache.image_paths@.len() as int);
    &&& q == (Pane { img_cache: q.img_cache, ..p })
    &&& q.img_cache == (crate::img_cache::ImageCache { cached_image_indices: q.img_cache.cached_image_indices, ..p.img_cache })
    &&& q.img_cache.cached_image_indices@ == slider_slot_indices(p.img_cache.cached_image_indices@,
        p.img_cache.image_paths@.len() as int, targets, targets.len() as int)
}

proof fn lemma_open_panes<T>(panes: Seq<Pane<T>>, n: int)
    requires
        0 <= n <= panes.len(),
        panes.len() <= usize::MAX,
    ensures
        forall|k: int| 0 <= k < open_panes(panes, n).len() ==> {
            &&& (#[trigger] open_panes(panes, n)[k]) < n
            &&& panes[open_panes(panes, n)[k] as int].dir_loaded
        },
        forall|j: int| 0 <= j < n && panes[j].dir_loaded ==> #[trigger] open_panes(panes, n).contains(j as usize),
        forall|j: int| 0 <= j < panes.len() && #[trigger] open_panes(panes, n).contains(j as usize)
            ==> j < n && panes[j].dir_loaded,
    decreases n,
{
    if n > 0 {
        lemma_open_panes(panes, n - 1);
        let prev = open_panes(panes, n - 1);
        let cur = open_panes(panes, n);
        assert forall|j: int| 0 <= j < n && panes[j].dir_loaded implies #[trigger] cur.contains(j as usize) by {
            if j < n - 1 {
                assert(prev.contains(j as usize));
                let k = choose|k: int| 0 <= k < prev.len() && prev[k] == j as usize;
                assert(cur[k] == prev[k]);
            } else {
                assert(cur[cur.len() - 1] == j as usize);
            }
        }
        assert forall|j: int| 0 <= j < panes.len() && #[trigger] cur.contains(j as usize) implies j < n && panes[j].dir_loaded by {
            let k = choose|k: int| 0 <= k < cur.len() && cur[k] == j as usize;
            if k < prev.len() {
                assert(prev[k] == cur[k]);
                assert(prev.contains(j as usize));
            }
        }
    }
}

proof fn lemma_plan_reads_prefix<T>(panes: Seq<Pane<T>>, a: Seq<usize>, b: Seq<usize>, pos: int, n: int)
    requires
        0 <= n <= a.len(),
        n <= b.len(),
        forall|k: int| 0 <= k < n ==> a[k] == b[k],
    ensures
        slider_plan_reads(panes, a, pos, n) == slider_plan_reads(panes, b, pos, n),
    decreases n,
{
    if n > 0 {
        lemma_plan_reads_prefix(panes, a, b, pos, n - 1);
    }
}

/// The reads that the slider load of one pane asks for: its targets' files, or none when it
/// has no target.
pub open spec fn pane_slider_reads<T>(p: Pane<T>, i: usize, pos: int) -> Seq<(LoadOperationView, Seq<FetchEntry>)> {
    let op = slider_operation(p, i, pos);
    let targets = op->LoadPos_1;
    if targets.len() > 0 {
        seq![(op, Seq::new(targets.len(), |k: int| slider_fetch_entry(p, targets[k])))]
    } else {
        Seq::empty()
    }
}

/// Two panes agree on everything, the image indices of their slots taken by value.
pub open spec fn same_pane<T>(p: Pane<T>, q: Pane<T>) -> bool {
    &&& q == (Pane { img_cache: q.img_cache, ..p })
    &&& q.img_cache == (crate::img_cache::ImageCache { cached_image_indices: q.img_cache.cached_image_indices, ..p.img_cache })
    &&& q.img_cache.cached_image_indices@ == p.img_cache.cached_image_indices@
}

proof fn lemma_same_pane_slider<T>(a: Pane<T>, b: Pane<T>, c: Pane<T>, i: usize, pos: int)
    requires
        same_pane(a, b),
    ensures
        slider_operation(a, i, pos) == slider_operation(b, i, pos),
        pane_slider_reads(a, i, pos) == pane_slider_reads(b, i, pos),
        slider_position_ok(a, pos) == slider_position_ok(b, pos),
        slider_filled(b, c, pos) ==> slider_filled(a, c, pos),
        same_pane(b, c) ==> same_pane(a, c),
{
    let op = slider_operation(a, i, pos);
    let targets = op->LoadPos_1;
    assert(Seq::new(targets.len(), |k: int| slider_fetch_entry(a, targets[k]))
        =~= Seq::new(targets.len(), |k: int| slider_fetch_entry(b, targets[k])));
}

proof fn lemma_filled_then_same<T>(a: Pane<T>, b: Pane<T>, c: Pane<T>, pos: int)
    requires
        slider_filled(a, b, pos),
        same_pane(b, c),
    ensures
        slider_filled(a, c, pos),
{
}

/// The slider load of pane `i` with nothing else waiting: its `LoadPos` is queued and
/// started, its targets fill its slots, and the reads are returned.
fn start_slider_load<T>(panes: &mut Vec<Pane<T>>, loading_status: &mut LoadingStatus, i: usize, pos: usize)
    -> (r: Vec<(LoadOperation, Vec<FetchEntry>)>)
    requires
        old(loading_status).loading_queue@.len() == 0,
        i < old(panes)@.len(),
        slider_position_ok(old(panes)@[i as int], pos as int),
    ensures
        final(loading_status).loading_queue@.len() == 0,
        queue_view(final(loading_status).being_loaded_queue@)
            == queue_view(old(loading_status).being_loaded_queue@).push(slider_operation(old(panes)@[i as int], i, pos as int)),
        final(loading_status).out_of_order_images@ == old(loading_status).out_of_order_images@,
        final(loading_status).is_next_image_loaded == old(loading_status).is_next_image_loaded,
        final(loading_status).is_prev_image_loaded == old(loading_status).is_prev_image_loaded,
        final(panes)@.len() == old(panes)@.len(),
        slider_filled(old(panes)@[i as int], final(panes)@[i as int], pos as int),
        forall|j: int| 0 <= j < old(panes)@.len() && j != i ==> same_pane(old(panes)@[j], #[trigger] final(panes)@[j]),
        r@.len() == pane_slider_reads(old(panes)@[i as int], i, pos as int).len(),
        forall|k: int| 0 <= k < r@.len() ==> (#[trigger] r@[k]).0@ == pane_slider_reads(old(panes)@[i as int], i, pos as int)[k].0
            && r@[k].1@ == pane_slider_reads(old(panes)@[i as int], i, pos as int)[k].1,
{
    let ghost before = panes@;
    proof {
        assert(queue_view(loading_status.loading_queue@) =~= Seq::<LoadOperationView>::empty());
    }
    let r = get_loading_tasks_slider(panes, loading_status, i, pos);
    proof {
        let op = slider_operation(before[i as int], i, pos as int);
        let ops = Seq::<LoadOperationView>::empty().push(op);
        assert(queue_view(old(loading_status).loading_queue@) =~= Seq::<LoadOperationView>::empty());
        assert(ops[0] == op);
        let table = Seq::new(before.len(), |j: int| before[j].img_cache.cached_image_indices@);
        let lens = Seq::new(before.len(), |j: int| before[j].img_cache.image_paths@.len() as int);
        assert(queue_slot_indices(table, lens, ops, 0) == table);
        assert(queue_fetches(before, ops, 0) =~= Seq::<(LoadOperationView, Seq<FetchEntry>)>::empty());
        assert(queue_view(old(loading_status).being_loaded_queue@) + ops
            =~= queue_view(old(loading_status).being_loaded_queue@).push(op));
        let f = queue_fetches(before, ops, 1);
        assert(f =~= pane_slider_reads(before[i as int], i, pos as int));
    }
    r
}

/// Loads the images around slider position `pos`: empties both queues, then, pane by pane
/// among [`slider_panes`], queues and starts the `LoadPos` of its targets as
/// [`get_loading_tasks_slider`] does. Returns the reads asked for, in order.
pub fn load_remaining_images<T>(panes: &mut Vec<Pane<T>>, loading_status: &mut LoadingStatus, pane_index: isize,
    pos: usize) -> (r: Vec<(LoadOperation, Vec<FetchEntry>)>)
    requires
        forall|k: int| 0 <= k < slider_panes(old(panes)@, pane_index).len() ==> slider_position_ok(
            old(panes)@[#[trigger] slider_panes(old(panes)@, pane_index)[k] as int], pos as int),
    ensures
        ({
            let sel = slider_panes(old(panes)@, pane_index);
            &&& final(loading_status).loading_queue@.len() == 0
            &&& queue_view(final(loading_status).being_loaded_queue@)
                == Seq::new(sel.len(), |k: int| slider_operation(old(panes)@[sel[k] as int], sel[k], pos as int))
            &&& final(loading_status).out_of_order_images@ == old(loading_status).out_of_order_images@
            &&& final(loading_status).is_next_image_loaded == old(loading_status).is_next_image_loaded
            &&& final(loading_status).is_prev_image_loaded == old(loading_status).is_prev_image_loaded
            &&& final(panes)@.len() == old(panes)@.len()
            &&& forall|j: int| 0 <= j < old(panes)@.len() ==> if sel.contains(j as usize) {
                slider_filled(old(panes)@[j], #[trigger] final(panes)@[j], pos as int)
            } else {
                same_pane(old(panes)@[j], final(panes)@[j])
            }
            &&& r@.len() == slider_plan_reads(old(panes)@, sel, pos as int, sel.len() as int).len()
            &&& forall|k: int| 0 <= k < r@.len() ==> (#[trigger] r@[k]).0@
                == slider_plan_reads(old(panes)@, sel, pos as int, sel.len() as int)[k].0
                && r@[k].1@ == slider_plan_reads(old(panes)@, sel, pos as int, sel.len() as int)[k].1
        }),
{
    loading_status.reset_image_load_queue();
    loading_status.reset_image_being_loaded_queue();
    let ghost old_panes = panes@;
    let ghost sel = slider_panes(old_panes, pane_index);
    let ghost empty_reads = Seq::<(LoadOperationView, Seq<FetchEntry>)>::empty();
    let mut r: Vec<(LoadOperation, Vec<FetchEntry>)> = Vec::new();
    let n = panes.len();
    if pane_index == -1 {
        proof {
            lemma_open_panes(old_panes, n as int);
        }
        let mut i: usize = 0;
        while i < panes.len()
            invariant
                i <= panes@.len(),
                n == old_panes.len(),
                panes@.len() == old_panes.len(),
                sel == open_panes(old_panes, n as int),
                forall|k: int| 0 <= k < sel.len() ==> slider_position_ok(old_panes[#[trigger] sel[k] as int], pos as int),
                forall|j: int| 0 <= j < n && old_panes[j].dir_loaded ==> #[trigger] sel.contains(j as usize),
                loading_status.loading_queue@.len() == 0,
                queue_view(loading_status.being_loaded_queue@) == Seq::new(open_panes(old_panes, i as int).len(),
                    |k: int| slider_operation(old_panes[open_panes(old_panes, i as int)[k] as int],
                        open_panes(old_panes, i as int)[k], pos as int)),
                loading_status.out_of_order_images@ == old(loading_status).out_of_order_images@,
                loading_status.is_next_image_loaded == old(loading_status).is_next_image_loaded,
                loading_status.is_prev_image_loaded == old(loading_status).is_prev_image_loaded,
                forall|j: int| 0 <= j < old_panes.len() ==> if j < i && old_panes[j].dir_loaded {
                    slider_filled(old_panes[j], #[trigger] panes@[j], pos as int)
                } else {
                    same_pane(old_panes[j], panes@[j])
                },
                r@.len() == slider_plan_reads(old_panes, open_panes(old_panes, i as int), pos as int,
                    open_panes(old_panes, i as int).len() as int).len(),
                forall|k: int| 0 <= k < r@.len() ==> (#[trigger] r@[k]).0@
                    == slider_plan_reads(old_panes, open_panes(old_panes, i as int), pos as int,
                        open_panes(old_panes, i as int).len() as int)[k].0
                    && r@[k].1@ == slider_plan_reads(old_panes, open_panes(old_panes, i as int), pos as int,
                        open_panes(old_panes, i as int).len() as int)[k].1,
            decreases panes@.len() - i,
        {
            let ghost cur = open_panes(old_panes, i as int);
            let ghost next = open_panes(old_panes, i + 1);
            let ghost before_r = r@;
            let ghost before_q = queue_view(loading_status.being_loaded_queue@);
            let ghost reads = slider_plan_reads(old_panes, cur, pos as int, cur.len() as int);
            if panes[i].dir_loaded {
                let ghost cur_panes = panes@;
                proof {
                    assert(sel.contains(i as usize));
                    let k = choose|k: int| 0 <= k < sel.len() && sel[k] == i as usize;
                    assert(slider_position_ok(old_panes[sel[k] as int], pos as int));
                    assert(same_pane(old_panes[i as int], panes@[i as int]));
                    lemma_same_pane_slider(old_panes[i as int], panes@[i as int], panes@[i as int], i, pos as int);
                }
                let mut part = start_slider_load(panes, loading_status, i, pos);
                let ghost part_v = part@;
                r.append(&mut part);
                proof {
                    lemma_same_pane_slider(old_panes[i as int], cur_panes[i as int], panes@[i as int], i, pos as int);
                    assert forall|j: int| 0 <= j < old_panes.len() && j != i implies if j < i + 1 && old_panes[j].dir_loaded {
                        slider_filled(old_panes[j], #[trigger] panes@[j], pos as int)
                    } else {
                        same_pane(old_panes[j], panes@[j])
                    } by {
                        if j < i && old_panes[j].dir_loaded {
                            lemma_filled_then_same(old_panes[j], cur_panes[j], panes@[j], pos as int);
                        } else {
                            lemma_same_pane_slider(old_panes[j], cur_panes[j], panes@[j], i, pos as int);
                        }
                    }
                    assert(next == cur.push(i as usize));
                    lemma_plan_reads_prefix(old_panes, next, cur, pos as int, cur.len() as int);
                    let full = slider_plan_reads(old_panes, next, pos as int, next.len() as int);
                    assert(full == reads + pane_slider_reads(old_panes[i as int], i, pos as int));
                    assert(queue_view(loading_status.being_loaded_queue@) =~= Seq::new(next.len(),
                        |k: int| slider_operation(old_panes[next[k] as int], next[k], pos as int)));
                    assert forall|k: int| 0 <= k < r@.len() implies (#[trigger] r@[k]).0@ == full[k].0
                        && r@[k].1@ == full[k].1 by {
                        if k < before_r.len() {
                            assert(r@[k] == before_r[k]);
                        } else {
                            assert(r@[k] == part_v[k - before_r.len()]);
                        }
                    }
                }
            } else {
                proof {
                    assert(next == cur);
                }
            }
            i += 1;
        }
        proof {
            assert forall|j: int| 0 <= j < old_panes.len() implies if sel.contains(j as usize) {
                slider_filled(old_panes[j], #[trigger] panes@[j], pos as int)
            } else {
                same_pane(old_panes[j], panes@[j])
            } by {
                if old_panes[j].dir_loaded {
                    assert(sel.contains(j as usize));
                }
            }
        }
    } else if pane_index >= 0 && (pane_index as usize) < panes.len() && panes[pane_index as usize].dir_loaded {
        let i = pane_index as usize;
        proof {
            assert(sel =~= seq![i]);
            assert(sel[0] == i);
        }
        r = start_slider_load(panes, loading_status, i, pos);
        proof {
            assert(queue_view(old(loading_status).being_loaded_queue@).len() >= 0);
            assert(slider_plan_reads(old_panes, sel, pos as int, 0) =~= empty_reads);
            assert(slider_plan_reads(old_panes, sel, pos as int, 1) =~= pane_slider_reads(old_panes[i as int], i, pos as int));
            assert(queue_view(loading_status.being_loaded_queue@) =~= Seq::new(sel.len(),
                |k: int| slider_operation(old_panes[sel[k] as int], sel[k], pos as int)));
            assert forall|j: int| 0 <= j < old_panes.len() implies if sel.contains(j as usize) {
                slider_filled(old_panes[j], #[trigger] panes@[j], pos as int)
            } else {
                same_pane(old_panes[j], panes@[j])
            } by {
                if sel.contains(j as usize) {
                    assert(j == i);
                } else {
                    assert(j != i);
                }
            }
        }
    } else {
        proof {
            assert(sel =~= Seq::<usize>::empty());
            assert(queue_view(loading_status.being_loaded_queue@) =~= Seq::<LoadOperationView>::empty());
        }
    }
    r
}

} // verus!
