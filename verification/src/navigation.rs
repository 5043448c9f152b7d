use vstd::prelude::*;
use crate::img_cache::{CompressionStrategy, ImageCache};
use crate::load_op::{LoadOperation, LoadOperationType, LoadOperationView, clone_panes};
use crate::load_plan::{LoadPlan, next_load_effect, prev_load_effect, load_next_images_all, load_prev_images_all,
    targets_cover, queue_view, front_started, queued_and_started, started_front, same_status, load_targets};
use crate::loading_status::{LoadingStatus, any_op};
use crate::pane::{Pane, PaneLayout, next_render_ok, prev_render_ok, next_rendered, prev_rendered, targets_fit,
    all_next_shown, all_prev_shown, is_largest_dir, no_loaded_files, are_all_next_images_loaded,
    are_all_prev_images_loaded, init_is_next_image_loaded, init_is_prev_image_loaded, are_panes_cached_next,
    are_panes_cached_prev, set_next_image_all, set_prev_image_all, get_master_slider_value};
use crate::settings::CACHE_SIZE;

verus! {

/// The pane moves with a step forward: it is selected, has its directory, and is not at
/// its last image.
pub open spec fn steps_forward<T>(p: Pane<T>) -> bool {
    p.is_selected && p.dir_loaded && p.img_cache.current_index < p.img_cache.image_paths@.len() - 1
}

/// The pane moves with a step backward: it is selected, has its directory, and is not at
/// its first image.
pub open spec fn steps_backward<T>(p: Pane<T>) -> bool {
    p.is_selected && p.dir_loaded && p.img_cache.current_index > 0
}

/// The pane moves with a step in the given direction.
pub open spec fn steps<T>(p: Pane<T>, forward: bool) -> bool {
    if forward { steps_forward(p) } else { steps_backward(p) }
}

/// The positions, among the first `n` panes, of those that move with a step, in order.
pub open spec fn stepping<T>(panes: Seq<Pane<T>>, forward: bool, n: int) -> Seq<usize>
    decreases n,
{
    if n <= 0 {
        Seq::empty()
    } else if steps(panes[n - 1], forward) {
        stepping(panes, forward, n - 1).push((n - 1) as usize)
    } else {
        stepping(panes, forward, n - 1)
    }
}

/// Positions strictly increasing and below `n`.
pub open spec fn increasing_below(idxs: Seq<usize>, n: int) -> bool {
    &&& forall|k: int| 0 <= k < idxs.len() ==> #[trigger] idxs[k] < n
    &&& forall|a: int, b: int| 0 <= a < b < idxs.len() ==> #[trigger] idxs[a] < #[trigger] idxs[b]
}

proof fn lemma_stepping<T>(panes: Seq<Pane<T>>, forward: bool, n: int)
    requires
        0 <= n <= panes.len(),
        n <= usize::MAX,
    ensures
        increasing_below(stepping(panes, forward, n), n),
        stepping(panes, forward, n).len() <= n,
        forall|k: int| 0 <= k < stepping(panes, forward, n).len()
            ==> steps(#[trigger] panes[stepping(panes, forward, n)[k] as int], forward),
        forall|i: int| 0 <= i < n && steps(panes[i], forward) ==> #[trigger] stepping(panes, forward, n).contains(i as usize),
    decreases n,
{
    if n > 0 {
        lemma_stepping(panes, forward, n - 1);
        let prev = stepping(panes, forward, n - 1);
        let cur = stepping(panes, forward, n);
        assert forall|i: int| 0 <= i < n && steps(panes[i], forward) implies #[trigger] cur.contains(i as usize) by {
            if i < n - 1 {
                assert(prev.contains(i as usize));
                let w = choose|w: int| 0 <= w < prev.len() && prev[w] == i as usize;
                assert(cur[w] == i as usize);
            } else {
                assert(cur[cur.len() - 1] == i as usize);
            }
        }
    }
}

/// The positions of the panes that move with a step in the given direction.
fn stepping_panes<T>(panes: &Vec<Pane<T>>, forward: bool) -> (r: Vec<usize>)
    requires
        forall|i: int| 0 <= i < panes@.len() && (#[trigger] panes@[i]).is_selected && panes@[i].dir_loaded
            ==> panes@[i].img_cache.image_paths@.len() > 0,
    ensures
        r@ == stepping(panes@, forward, panes@.len() as int),
{
    let mut r: Vec<usize> = Vec::new();
    let mut i: usize = 0;
    while i < panes.len()
        invariant
            i <= panes@.len(),
            forall|j: int| 0 <= j < panes@.len() && (#[trigger] panes@[j]).is_selected && panes@[j].dir_loaded
                ==> panes@[j].img_cache.image_paths@.len() > 0,
            r@ == stepping(panes@, forward, i as int),
        decreases panes@.len() - i,
    {
        let p = &panes[i];
        let moves = if forward {
            p.is_selected && p.dir_loaded && p.img_cache.current_index < p.img_cache.image_paths.len() - 1
        } else {
            p.is_selected && p.dir_loaded && p.img_cache.current_index > 0
        };
        if moves {
            r.push(i);
        }
        i += 1;
    }
    r
}

/// The panes at the given positions, in order.
pub open spec fn picked<T>(panes: Seq<Pane<T>>, idxs: Seq<usize>) -> Seq<Pane<T>> {
    Seq::new(idxs.len(), |k: int| panes[idxs[k] as int])
}

/// Takes the panes at the given positions out of the list, leaving fresh panes in their
/// place.
fn take_panes<T>(panes: &mut Vec<Pane<T>>, idxs: &Vec<usize>) -> (r: Vec<Pane<T>>)
    requires
        increasing_below(idxs@, old(panes)@.len() as int),
    ensures
        r@ == picked(old(panes)@, idxs@),
        final(panes)@.len() == old(panes)@.len(),
        forall|i: int| 0 <= i < old(panes)@.len() && !idxs@.contains(i as usize) ==> #[trigger] final(panes)@[i] == old(panes)@[i],
{
    let ghost orig = panes@;
    let mut r: Vec<Pane<T>> = Vec::new();
    let mut k: usize = 0;
    while k < idxs.len()
        invariant
            k <= idxs@.len(),
            increasing_below(idxs@, orig.len() as int),
            orig == old(panes)@,
            panes@.len() == orig.len(),
            r@.len() == k,
            forall|j: int| 0 <= j < k ==> #[trigger] r@[j] == orig[idxs@[j] as int],
            forall|i: int| 0 <= i < orig.len() && !idxs@.subrange(0, k as int).contains(i as usize)
                ==> #[trigger] panes@[i] == orig[i],
        decreases idxs@.len() - k,
    {
        let i = idxs[k];
        proof {
            assert(!idxs@.subrange(0, k as int).contains(i)) by {
                if idxs@.subrange(0, k as int).contains(i) {
                    let w = choose|w: int| 0 <= w < k && idxs@.subrange(0, k as int)[w] == i;
                    assert(idxs@[w] < idxs@[k as int]);
                }
            }
        }
        let ghost before = panes@;
        let p = panes.remove(i);
        panes.insert(i, Pane::new(0, CompressionStrategy::Uncompressed));
        r.push(p);
        proof {
            assert forall|j: int| 0 <= j < orig.len() && j != i implies #[trigger] panes@[j] == before[j] by {
                if j < i {
                } else {
                }
            }
            assert forall|j: int| 0 <= j < orig.len() && !idxs@.subrange(0, k as int + 1).contains(j as usize)
                implies #[trigger] panes@[j] == orig[j] by {
                if idxs@.subrange(0, k as int).contains(j as usize) {
                    let w = choose|w: int| 0 <= w < k && idxs@.subrange(0, k as int)[w] == j as usize;
                    assert(idxs@.subrange(0, k as int + 1)[w] == j as usize);
                }
                assert(j != i) by {
                    assert(idxs@.subrange(0, k as int + 1)[k as int] == i);
                }
            }
        }
        k += 1;
    }
    proof {
        assert(idxs@.subrange(0, idxs@.len() as int) =~= idxs@);
        assert(r@ =~= picked(orig, idxs@));
    }
    r
}

/// Puts the panes of `sub` back at the given positions, in order.
fn restore_panes<T>(panes: &mut Vec<Pane<T>>, idxs: &Vec<usize>, sub: Vec<Pane<T>>)
    requires
        increasing_below(idxs@, old(panes)@.len() as int),
        sub@.len() == idxs@.len(),
    ensures
        final(panes)@.len() == old(panes)@.len(),
        forall|k: int| 0 <= k < idxs@.len() ==> #[trigger] final(panes)@[idxs@[k] as int] == sub@[k],
        forall|i: int| 0 <= i < old(panes)@.len() && !idxs@.contains(i as usize) ==> #[trigger] final(panes)@[i] == old(panes)@[i],
{
    let ghost orig = panes@;
    let ghost all = sub@;
    let mut rest = sub;
    let mut k: usize = idxs.len();
    while k > 0
        invariant
            k <= idxs@.len(),
            increasing_below(idxs@, orig.len() as int),
            orig == old(panes)@,
            all.len() == idxs@.len(),
            panes@.len() == orig.len(),
            rest@ == all.subrange(0, k as int),
            forall|j: int| k <= j < idxs@.len() ==> #[trigger] panes@[idxs@[j] as int] == all[j],
            forall|i: int| 0 <= i < orig.len() && !idxs@.subrange(k as int, idxs@.len() as int).contains(i as usize)
                ==> #[trigger] panes@[i] == orig[i],
        decreases k,
    {
        k -= 1;
        let i = idxs[k];
        let ghost before = panes@;
        let p = rest.pop().unwrap();
        assert(p == all[k as int]);
        panes.remove(i);
        panes.insert(i, p);
        proof {
            assert forall|j: int| 0 <= j < orig.len() && j != i implies #[trigger] panes@[j] == before[j] by {}
            assert forall|j: int| k <= j < idxs@.len() implies #[trigger] panes@[idxs@[j] as int] == all[j] by {
                if j > k {
                    assert(idxs@[j] > idxs@[k as int]);
                }
            }
            assert forall|j: int| 0 <= j < orig.len() && !idxs@.subrange(k as int, idxs@.len() as int).contains(j as usize)
                implies #[trigger] panes@[j] == orig[j] by {
                assert(idxs@.subrange(k as int, idxs@.len() as int)[0] == i);
                let tail = idxs@.subrange(k as int + 1, idxs@.len() as int);
                if tail.contains(j as usize) {
                    let w = choose|w: int| 0 <= w < tail.len() && #[trigger] tail[w] == j as usize;
                    assert(idxs@.subrange(k as int, idxs@.len() as int)[w + 1] == j as usize);
                }
            }
            assert(rest@ =~= all.subrange(0, k as int));
        }
    }
    proof {
        assert(idxs@.subrange(0, idxs@.len() as int) =~= idxs@);
    }
}

/// The arithmetic of a pane's window stays far inside the machine integers.
pub open spec fn nav_ready<T>(p: Pane<T>) -> bool {
    let c = p.img_cache;
    &&& c.cache_count <= isize::MAX / 8
    &&& c.current_index <= isize::MAX / 8
    &&& -(isize::MAX / 8) <= c.current_offset <= isize::MAX / 8
    &&& c.image_paths@.len() <= isize::MAX / 8
}

/// The pane with neither neighbour counted as shown.
pub open spec fn cleared<T>(p: Pane<T>) -> Pane<T> {
    Pane { is_next_image_loaded: false, is_prev_image_loaded: false, ..p }
}

/// The pane with its next image counted as shown.
pub open spec fn marked_next<T>(p: Pane<T>) -> Pane<T> {
    Pane { is_next_image_loaded: true, ..p }
}

/// The pane with its previous image counted as shown.
pub open spec fn marked_prev<T>(p: Pane<T>) -> Pane<T> {
    Pane { is_prev_image_loaded: true, ..p }
}

/// Some waiting or in-flight operation has this kind.
pub open spec fn op_queued(s: LoadingStatus, kind: LoadOperationType) -> bool {
    any_op(s.loading_queue@, |op: LoadOperation| op.kind() == kind)
        || any_op(s.being_loaded_queue@, |op: LoadOperation| op.kind() == kind)
}

/// A loading status reached between the two load requests of a step.
#[verifier::opaque]
pub open spec fn between_requests(s: LoadingStatus) -> bool {
    true
}

/// The status with its shared "next shown" flag set as given.
pub open spec fn with_next_flag(s: LoadingStatus, b: bool) -> LoadingStatus {
    LoadingStatus { is_next_image_loaded: b, ..s }
}

/// The status with its shared "previous shown" flag set as given.
pub open spec fn with_prev_flag(s: LoadingStatus, b: bool) -> LoadingStatus {
    LoadingStatus { is_prev_image_loaded: b, ..s }
}

/// The panes after a forward step began: when every counted pane had shown its next image,
/// both flags of every pane are cleared.
pub open spec fn fwd_reset<T>(sub: Seq<Pane<T>>, dual: bool) -> Seq<Pane<T>> {
    if all_next_shown(sub, dual) { sub.map_values(|p: Pane<T>| cleared(p)) } else { sub }
}

/// The panes after a backward step began, mirroring [`fwd_reset`].
pub open spec fn bwd_reset<T>(sub: Seq<Pane<T>>, dual: bool) -> Seq<Pane<T>> {
    if all_prev_shown(sub, dual) { sub.map_values(|p: Pane<T>| cleared(p)) } else { sub }
}

/// Every selected pane can show its next image.
pub open spec fn all_cached_next<T>(sub: Seq<Pane<T>>) -> bool {
    forall|k: int| 0 <= k < sub.len() && (#[trigger] sub[k]).is_selected ==> sub[k].spec_cached_next()
}

/// Every selected pane can show its previous image.
pub open spec fn all_cached_prev<T>(sub: Seq<Pane<T>>) -> bool {
    forall|k: int| 0 <= k < sub.len() && (#[trigger] sub[k]).is_selected ==> sub[k].spec_cached_prev()
}

/// Some pane can show its next image.
pub open spec fn some_next_render<T>(sub: Seq<Pane<T>>) -> bool {
    exists|k: int| 0 <= k < sub.len() && next_render_ok((#[trigger] sub[k]).img_cache)
}

/// Some pane can show its previous image.
pub open spec fn some_prev_render<T>(sub: Seq<Pane<T>>) -> bool {
    exists|k: int| 0 <= k < sub.len() && prev_render_ok((#[trigger] sub[k]).img_cache)
}

/// The shared slider after a step: the current index of the pane with the most files, or
/// of the first pane when none has files.
pub open spec fn master_slider_ok<T>(sub: Seq<Pane<T>>, v: u16) -> bool {
    &&& no_loaded_files(sub) ==> v == sub[0].img_cache.current_index as u16
    &&& !no_loaded_files(sub) ==> exists|i: int| is_largest_dir(sub, i) && v == sub[i].img_cache.current_index as u16
}

proof fn lemma_nav_ready_fits<T>(p: Pane<T>, layout: PaneLayout, dual: bool)
    requires
        nav_ready(p),
    ensures
        targets_fit(p),
        p.offsets_fit(),
        targets_fit(next_rendered(p, layout, dual)),
        targets_fit(prev_rendered(p, layout, dual)),
        targets_fit(marked_next(next_rendered(p, layout, dual))),
        targets_fit(marked_prev(prev_rendered(p, layout, dual))),
        targets_fit(cleared(p)),
        cleared(p).offsets_fit(),
        nav_ready(cleared(p)),
{
}

/// The waiting queue after a load request: unchanged, without its front, or with the new
/// operation appended and its front removed.
pub open spec fn queue_after_request(oq: Seq<LoadOperation>, nq: Seq<LoadOperation>, v: LoadOperationView) -> bool {
    ||| nq == oq
    ||| (oq.len() > 0 && nq == oq.drop_first())
    ||| queue_view(nq) == queue_view(oq).push(v).drop_first()
}

proof fn lemma_request_queue<T>(panes: Seq<Pane<T>>, idxs: Seq<usize>, old_s: LoadingStatus, new_s: LoadingStatus,
    r: LoadPlan, forward: bool)
    requires
        forward ==> next_load_effect(panes, idxs, old_s, new_s, r),
        !forward ==> prev_load_effect(panes, idxs, old_s, new_s, r),
    ensures
        queue_after_request(old_s.loading_queue@, new_s.loading_queue@,
            if forward { LoadOperationView::LoadNext(idxs, load_targets(panes, true)) }
            else { LoadOperationView::LoadPrevious(idxs, load_targets(panes, false)) }),
{
}

proof fn lemma_cover_kept(oq: Seq<LoadOperation>, nq: Seq<LoadOperation>, v: LoadOperationView, n: int)
    requires
        queue_after_request(oq, nq, v),
        targets_cover(oq, n),
        match v {
            LoadOperationView::LoadNext(_, t) => t.len() >= n,
            LoadOperationView::LoadPrevious(_, t) => t.len() >= n,
            _ => true,
        },
    ensures
        targets_cover(nq, n),
{
    if nq == oq {
    } else if oq.len() > 0 && nq == oq.drop_first() {
        assert forall|i: int| 0 <= i < nq.len() implies match (#[trigger] nq[i])@ {
            LoadOperationView::LoadNext(_, t) => t.len() >= n,
            LoadOperationView::LoadPrevious(_, t) => t.len() >= n,
            _ => true,
        } by {
            assert(nq[i] == oq.drop_first()[i]);
            assert(oq.drop_first()[i] == oq[i + 1]);
        }
    } else {
        let q = queue_view(oq).push(v);
        assert forall|i: int| 0 <= i < nq.len() implies match (#[trigger] nq[i])@ {
            LoadOperationView::LoadNext(_, t) => t.len() >= n,
            LoadOperationView::LoadPrevious(_, t) => t.len() >= n,
            _ => true,
        } by {
            assert(queue_view(nq).len() == nq.len());
            assert(queue_view(nq)[i] == nq[i]@);
            assert(q.drop_first()[i] == q[i + 1]);
            if i + 1 < oq.len() {
                assert(q[i + 1] == queue_view(oq)[i + 1]);
                assert(queue_view(oq)[i + 1] == oq[i + 1]@);
            } else {
                assert(q[i + 1] == v);
            }
        }
    }
}

/// The status between the reset of a forward step and its first request.
pub open spec fn fwd_status_after_reset<T>(s0: Seq<Pane<T>>, ls0: LoadingStatus, dual: bool) -> LoadingStatus {
    if all_next_shown(s0, dual) { with_next_flag(ls0, false) } else { ls0 }
}

/// A forward step asks for a load before showing: some pane cannot show its next image
/// yet, and forward loads and shifts are not both queued already.
pub open spec fn fwd_first_request<T>(s0: Seq<Pane<T>>, ls0: LoadingStatus, dual: bool) -> bool {
    let ls1 = fwd_status_after_reset(s0, ls0, dual);
    !all_cached_next(fwd_reset(s0, dual))
        && !(op_queued(ls1, LoadOperationType::LoadNext) && op_queued(ls1, LoadOperationType::ShiftNext))
}

/// The panes after a forward step: reset, every pane that can shows its next image, and if
/// any did, all count as having shown it.
pub open spec fn right_step_panes<T>(s0: Seq<Pane<T>>, layout: PaneLayout, dual: bool) -> Seq<Pane<T>> {
    let s1 = fwd_reset(s0, dual);
    let s2 = s1.map_values(|p: Pane<T>| next_rendered(p, layout, dual));
    if some_next_render(s1) { s2.map_values(|p: Pane<T>| marked_next(p)) } else { s2 }
}

/// The load requests of a forward step and the status they leave: a first request when
/// [`fwd_first_request`] holds, and a second one when some pane showed its next image.
pub open spec fn right_step_status<T>(s0: Seq<Pane<T>>, idxs: Seq<usize>, ls0: LoadingStatus, ls: LoadingStatus,
    r: Seq<LoadPlan>, layout: PaneLayout, dual: bool) -> bool {
    let s1 = fwd_reset(s0, dual);
    let ls1 = fwd_status_after_reset(s0, ls0, dual);
    let call5 = fwd_first_request(s0, ls0, dual);
    let did = some_next_render(s1);
    let s3 = right_step_panes(s0, layout, dual);
    &&& r.len() == (if call5 { 1int } else { 0int }) + (if did { 1int } else { 0int })
    &&& exists|ls2: LoadingStatus| #![trigger between_requests(ls2)] {
        &&& between_requests(ls2)
        &&& call5 ==> next_load_effect(s1, idxs, ls1, ls2, r[0])
        &&& !call5 ==> ls2 == ls1
        &&& did ==> next_load_effect(s3, idxs, with_next_flag(ls2, true), ls, r.last())
        &&& !did ==> ls == ls2
    }
}

/// The shared slider after a step: it follows the pane with the most files when every
/// counted pane has shown its image without separate sliders, or in the single layout.
pub open spec fn step_slider<T>(s3: Seq<Pane<T>>, shown: bool, layout: PaneLayout, dual: bool, v0: u16, v: u16) -> bool {
    let cond = (shown && !dual) || layout == PaneLayout::SinglePane;
    &&& cond ==> master_slider_ok(s3, v)
    &&& !cond ==> v == v0
}

/// The forward step of the panes that can move forward, as a list of their own. When every
/// counted pane has shown its next image, the flags start over; when some pane cannot show
/// its next image yet, a load is asked for unless forward loads and shifts are both queued
/// already; then every pane that can shows its next image, and if any did, all count as
/// having shown it and a load is asked for. The shared slider follows the pane with the
/// most files when every counted pane has shown its image without separate sliders, or in
/// the single layout.
#[verifier::rlimit(80)]
#[verifier::spinoff_prover]
pub fn move_right_panes<T>(
    sub: &mut Vec<Pane<T>>,
    idxs: &Vec<usize>,
    loading_status: &mut LoadingStatus,
    slider_value: &mut u16,
    pane_layout: &PaneLayout,
    is_slider_dual: bool,
    last_opened_pane: usize,
) -> (r: Vec<LoadPlan>)
    requires
        old(sub)@.len() > 0,
        forall|k: int| 0 <= k < old(sub)@.len() ==> steps_forward(#[trigger] old(sub)@[k]) && nav_ready(old(sub)@[k]),
        targets_cover(old(loading_status).loading_queue@, old(sub)@.len() as int),
        fwd_first_request(old(sub)@, *old(loading_status), is_slider_dual)
            ==> forall|k: int| 0 <= k < old(sub)@.len() ==> (#[trigger] old(sub)@[k]).img_cache.current_index >= 1,
        some_next_render(fwd_reset(old(sub)@, is_slider_dual)) ==> forall|k: int| 0 <= k < old(sub)@.len()
            ==> (#[trigger] old(sub)@[k]).img_cache.current_index >= 1 || next_render_ok(old(sub)@[k].img_cache),
    ensures
        final(sub)@ == right_step_panes(old(sub)@, *pane_layout, is_slider_dual),
        right_step_status(old(sub)@, idxs@, *old(loading_status), *final(loading_status), r@, *pane_layout,
            is_slider_dual),
        step_slider(final(sub)@, all_next_shown(final(sub)@, is_slider_dual), *pane_layout, is_slider_dual,
            *old(slider_value), *final(slider_value)),
{
    let ghost s0 = sub@;
    let ghost ls0 = *loading_status;
    let ghost n = s0.len();
    let ghost reset = all_next_shown(s0, is_slider_dual);
    let ghost s1 = fwd_reset(s0, is_slider_dual);
    proof {
        assert forall|k: int| 0 <= k < n implies nav_ready(#[trigger] s1[k]) && steps_forward(s1[k]) by {
            lemma_nav_ready_fits(s0[k], *pane_layout, is_slider_dual);
        }
    }
    if are_all_next_images_loaded(sub, is_slider_dual, loading_status) {
        init_is_next_image_loaded(sub, pane_layout, is_slider_dual);
        loading_status.is_next_image_loaded = false;
    }
    proof {
        assert(sub@ =~= s1);
    }
    let ghost ls1 = *loading_status;
    let mut plans: Vec<LoadPlan> = Vec::new();
    let ghost mut g5: LoadPlan = LoadPlan::Nothing;
    let ghost mut g6: LoadPlan = LoadPlan::Nothing;
    proof {
        assert forall|k: int| 0 <= k < n implies (#[trigger] sub@[k]).offsets_fit() && targets_fit(sub@[k]) by {
            lemma_nav_ready_fits(sub@[k], *pane_layout, is_slider_dual);
        }
    }
    let ghost list5 = load_targets(s1, true);
    if !are_panes_cached_next(sub, pane_layout, is_slider_dual) {
        if !loading_status.is_operation_in_queues(LoadOperationType::LoadNext)
            || !loading_status.is_operation_in_queues(LoadOperationType::ShiftNext) {
            let ghost before = *loading_status;
            let plan = load_next_images_all(sub, clone_panes(idxs), loading_status);
            proof {
                lemma_request_queue(s1, idxs@, before, *loading_status, plan, true);
                lemma_cover_kept(before.loading_queue@, loading_status.loading_queue@,
                    LoadOperationView::LoadNext(idxs@, list5), n as int);
                g5 = plan;
            }
            plans.push(plan);
        }
        let ghost status_mid = *loading_status;
        let mut k: usize = 0;
        while k < sub.len()
            invariant
                k <= sub@.len(),
                sub@ == s1,
                n == s1.len(),
                forall|j: int| 0 <= j < n ==> steps_forward(#[trigger] s1[j]),
                *loading_status == status_mid,
            decreases sub@.len() - k,
        {
            assert(steps_forward(s1[k as int]));
            if sub[k].img_cache.current_index == sub[k].img_cache.image_paths.len() - 1 {
                sub[k].is_next_image_loaded = true;
                loading_status.is_next_image_loaded = true;
            }
            k += 1;
        }
    }
    let ghost ls2 = *loading_status;
    proof {
        assert(targets_cover(ls2.loading_queue@, n as int));
        assert(!all_next_shown(s1, is_slider_dual)) by {
            assert(s1[0].dir_loaded && s1[0].is_selected);
            if reset {
                assert(!s1[0].is_next_image_loaded);
            }
        }
    }
    let ghost s2 = s1.map_values(|p: Pane<T>| next_rendered(p, *pane_layout, is_slider_dual));
    if !are_all_next_images_loaded(sub, is_slider_dual, loading_status) {
        let did_render_happen = set_next_image_all(sub, pane_layout, is_slider_dual);
        proof {
            assert(sub@ =~= s2);
        }
        if did_render_happen {
            loading_status.is_next_image_loaded = true;
            let mut k: usize = 0;
            while k < sub.len()
                invariant
                    k <= sub@.len(),
                    sub@.len() == s2.len(),
                    forall|j: int| 0 <= j < k ==> #[trigger] sub@[j] == marked_next(s2[j]),
                    forall|j: int| k <= j < sub@.len() ==> #[trigger] sub@[j] == s2[j],
                decreases sub@.len() - k,
            {
                sub[k].is_next_image_loaded = true;
                k += 1;
            }
            proof {
                assert(sub@ =~= s2.map_values(|p: Pane<T>| marked_next(p)));
                assert forall|j: int| 0 <= j < n implies targets_fit(#[trigger] sub@[j])
                    && sub@[j].img_cache.current_index >= 1 by {
                    lemma_nav_ready_fits(s1[j], *pane_layout, is_slider_dual);
                }
            }
            let ghost ls3 = *loading_status;
            let plan = load_next_images_all(sub, clone_panes(idxs), loading_status);
            proof {
                g6 = plan;
                assert(ls3 == with_next_flag(ls2, true));
            }
            plans.push(plan);
        }
    }
    let did_new_render_happen = are_all_next_images_loaded(sub, is_slider_dual, loading_status);
    if did_new_render_happen && !is_slider_dual || *pane_layout == PaneLayout::SinglePane {
        *slider_value = get_master_slider_value(sub, pane_layout, is_slider_dual, last_opened_pane) as u16;
    }
    proof {
        let call5 = !all_cached_next(s1)
            && !(op_queued(ls1, LoadOperationType::LoadNext) && op_queued(ls1, LoadOperationType::ShiftNext));
        let did = some_next_render(s1);
        if call5 {
            assert(plans@[0] == g5);
        }
        if did {
            assert(plans@.last() == g6);
        }
        assert(call5 ==> next_load_effect(s1, idxs@, ls1, ls2, plans@[0]));
        assert(!call5 ==> ls2 == ls1);
        assert(did ==> next_load_effect(sub@, idxs@, with_next_flag(ls2, true), *loading_status, plans@.last()));
        assert(!did ==> *loading_status == ls2);
        let ls1_spec = if reset { with_next_flag(ls0, false) } else { ls0 };
        assert(ls1 == ls1_spec);
        let s2 = s1.map_values(|p: Pane<T>| next_rendered(p, *pane_layout, is_slider_dual));
        let s3 = if did { s2.map_values(|p: Pane<T>| marked_next(p)) } else { s2 };
        assert(sub@ == s3);
        reveal(between_requests);
        assert(between_requests(ls2));
    }
    plans
}

/// The status between the reset of a backward step and its first request.
pub open spec fn bwd_status_after_reset<T>(s0: Seq<Pane<T>>, ls0: LoadingStatus, dual: bool) -> LoadingStatus {
    if all_prev_shown(s0, dual) { with_prev_flag(ls0, false) } else { ls0 }
}

/// A backward step asks for a load before showing: some pane cannot show its previous image
/// yet, and backward loads and shifts are not both queued already.
pub open spec fn bwd_first_request<T>(s0: Seq<Pane<T>>, ls0: LoadingStatus, dual: bool) -> bool {
    let ls1 = bwd_status_after_reset(s0, ls0, dual);
    !all_cached_prev(bwd_reset(s0, dual))
        && !(op_queued(ls1, LoadOperationType::LoadPrevious) && op_queued(ls1, LoadOperationType::ShiftPrevious))
}

/// Every pane's first slot holds an image.
pub open spec fn first_slots_filled<T>(sub: Seq<Pane<T>>) -> bool {
    forall|k: int| 0 <= k < sub.len() ==> crate::img_cache::slot_filled((#[trigger] sub[k]).img_cache.cached_data@, 0)
}

/// Some pane shows its previous image in a backward step: every first slot holds an image
/// and some pane can show its previous one.
pub open spec fn bwd_did_render<T>(s0: Seq<Pane<T>>, dual: bool) -> bool {
    let s1 = bwd_reset(s0, dual);
    first_slots_filled(s1) && some_prev_render(s1)
}

/// The panes after a backward step: reset, then, when every first slot holds an image,
/// every pane that can shows its previous image.
pub open spec fn left_step_panes<T>(s0: Seq<Pane<T>>, layout: PaneLayout, dual: bool) -> Seq<Pane<T>> {
    let s1 = bwd_reset(s0, dual);
    if first_slots_filled(s1) { s1.map_values(|p: Pane<T>| prev_rendered(p, layout, dual)) } else { s1 }
}

/// The load requests of a backward step and the status they leave, mirroring
/// [`right_step_status`].
pub open spec fn left_step_status<T>(s0: Seq<Pane<T>>, idxs: Seq<usize>, ls0: LoadingStatus, ls: LoadingStatus,
    r: Seq<LoadPlan>, layout: PaneLayout, dual: bool) -> bool {
    let s1 = bwd_reset(s0, dual);
    let ls1 = bwd_status_after_reset(s0, ls0, dual);
    let call5 = bwd_first_request(s0, ls0, dual);
    let did = bwd_did_render(s0, dual);
    let s3 = left_step_panes(s0, layout, dual);
    &&& r.len() == (if call5 { 1int } else { 0int }) + (if did { 1int } else { 0int })
    &&& exists|ls2: LoadingStatus| #![trigger between_requests(ls2)] {
        &&& between_requests(ls2)
        &&& call5 ==> prev_load_effect(s1, idxs, ls1, ls2, r[0])
        &&& !call5 ==> ls2 == ls1
        &&& did ==> prev_load_effect(s3, idxs, with_prev_flag(ls2, true), ls, r.last())
        &&& !did ==> ls == ls2
    }
}

/// The backward step of the panes that can move backward, as a list of their own,
/// mirroring [`move_right_panes`]; the panes show their previous image only when every
/// first slot holds an image, and the panes' own flags are not marked afterwards.
#[verifier::rlimit(100)]
pub fn move_left_panes<T>(
    sub: &mut Vec<Pane<T>>,
    idxs: &Vec<usize>,
    loading_status: &mut LoadingStatus,
    slider_value: &mut u16,
    pane_layout: &PaneLayout,
    is_slider_dual: bool,
    last_opened_pane: usize,
) -> (r: Vec<LoadPlan>)
    requires
        old(sub)@.len() > 0,
        forall|k: int| 0 <= k < old(sub)@.len() ==> steps_backward(#[trigger] old(sub)@[k]) && nav_ready(old(sub)@[k]),
        targets_cover(old(loading_status).loading_queue@, old(sub)@.len() as int),
        forall|k: int| 0 <= k < old(sub)@.len() && prev_render_ok((#[trigger] old(sub)@[k]).img_cache)
            ==> old(sub)@[k].img_cache.current_offset - 1 >= -(CACHE_SIZE as int),
    ensures
        final(sub)@ == left_step_panes(old(sub)@, *pane_layout, is_slider_dual),
        left_step_status(old(sub)@, idxs@, *old(loading_status), *final(loading_status), r@, *pane_layout,
            is_slider_dual),
        step_slider(final(sub)@, all_prev_shown(final(sub)@, is_slider_dual), *pane_layout, is_slider_dual,
            *old(slider_value), *final(slider_value)),
{
    let ghost s0 = sub@;
    let ghost ls0 = *loading_status;
    let ghost n = s0.len();
    let ghost reset = all_prev_shown(s0, is_slider_dual);
    let ghost s1 = bwd_reset(s0, is_slider_dual);
    proof {
        assert forall|k: int| 0 <= k < n implies nav_ready(#[trigger] s1[k]) && steps_backward(s1[k])
            && (prev_render_ok(s1[k].img_cache) ==> s1[k].img_cache.current_offset - 1 >= -(CACHE_SIZE as int)) by {
            lemma_nav_ready_fits(s0[k], *pane_layout, is_slider_dual);
        }
    }
    if are_all_prev_images_loaded(sub, is_slider_dual, loading_status) {
        init_is_prev_image_loaded(sub, pane_layout, is_slider_dual);
        loading_status.is_prev_image_loaded = false;
    }
    proof {
        assert(sub@ =~= s1);
    }
    let ghost ls1 = *loading_status;
    let mut plans: Vec<LoadPlan> = Vec::new();
    let ghost mut g5: LoadPlan = LoadPlan::Nothing;
    let ghost mut g6: LoadPlan = LoadPlan::Nothing;
    proof {
        assert forall|k: int| 0 <= k < n implies (#[trigger] sub@[k]).offsets_fit() && targets_fit(sub@[k]) by {
            lemma_nav_ready_fits(sub@[k], *pane_layout, is_slider_dual);
        }
    }
    let ghost list5 = load_targets(s1, false);
    if !are_panes_cached_prev(sub, pane_layout, is_slider_dual) {
        if !loading_status.is_operation_in_queues(LoadOperationType::LoadPrevious)
            || !loading_status.is_operation_in_queues(LoadOperationType::ShiftPrevious) {
            let ghost before = *loading_status;
            let plan = load_prev_images_all(sub, clone_panes(idxs), loading_status);
            proof {
                lemma_request_queue(s1, idxs@, before, *loading_status, plan, false);
                lemma_cover_kept(before.loading_queue@, loading_status.loading_queue@,
                    LoadOperationView::LoadPrevious(idxs@, list5), n as int);
                g5 = plan;
            }
            plans.push(plan);
        }
        let ghost status_mid = *loading_status;
        let mut k: usize = 0;
        while k < sub.len()
            invariant
                k <= sub@.len(),
                sub@ == s1,
                n == s1.len(),
                forall|j: int| 0 <= j < n ==> steps_backward(#[trigger] s1[j]),
                *loading_status == status_mid,
            decreases sub@.len() - k,
        {
            assert(steps_backward(s1[k as int]));
            if sub[k].img_cache.current_index == 0 {
                sub[k].is_prev_image_loaded = true;
                loading_status.is_prev_image_loaded = true;
            }
            k += 1;
        }
    }
    let ghost ls2 = *loading_status;
    proof {
        assert(targets_cover(ls2.loading_queue@, n as int));
        assert(!all_prev_shown(s1, is_slider_dual)) by {
            assert(s1[0].dir_loaded && s1[0].is_selected);
            if reset {
                assert(!s1[0].is_prev_image_loaded);
            }
        }
    }
    if !are_all_prev_images_loaded(sub, is_slider_dual, loading_status) {
        let did_render_happen = set_prev_image_all(sub, pane_layout, is_slider_dual);
        proof {
            assert(sub@ =~= left_step_panes(s0, *pane_layout, is_slider_dual));
            assert(did_render_happen == bwd_did_render(s0, is_slider_dual));
        }
        if did_render_happen {
            loading_status.is_prev_image_loaded = true;
            proof {
                assert forall|j: int| 0 <= j < n implies targets_fit(#[trigger] sub@[j])
                    && sub@[j].img_cache.current_index < usize::MAX by {
                    lemma_nav_ready_fits(s1[j], *pane_layout, is_slider_dual);
                }
            }
            let ghost ls3 = *loading_status;
            let plan = load_prev_images_all(sub, clone_panes(idxs), loading_status);
            proof {
                g6 = plan;
                assert(ls3 == with_prev_flag(ls2, true));
            }
            plans.push(plan);
        }
    }
    let did_new_render_happen = are_all_prev_images_loaded(sub, is_slider_dual, loading_status);
    if did_new_render_happen && !is_slider_dual || *pane_layout == PaneLayout::SinglePane {
        *slider_value = get_master_slider_value(sub, pane_layout, is_slider_dual, last_opened_pane) as u16;
    }
    proof {
        let call5 = bwd_first_request(s0, ls0, is_slider_dual);
        let did = bwd_did_render(s0, is_slider_dual);
        if call5 {
            assert(plans@[0] == g5);
        }
        if did {
            assert(plans@.last() == g6);
        }
        let ls1_spec = bwd_status_after_reset(s0, ls0, is_slider_dual);
        assert(ls1 == ls1_spec);
        assert(call5 ==> prev_load_effect(s1, idxs@, ls1, ls2, plans@[0]));
        assert(!call5 ==> ls2 == ls1);
        assert(did ==> prev_load_effect(sub@, idxs@, with_prev_flag(ls2, true), *loading_status, plans@.last()));
        assert(!did ==> *loading_status == ls2);
        reveal(between_requests);
        assert(between_requests(ls2));
    }
    plans
}

/// Moves every selected pane that is not at its last image one image forward, as
/// [`move_right_panes`] states for those panes taken as a list of their own; the other panes
/// keep their state. Returns the load plans to start, in order.
pub fn move_right_all<T>(
    panes: &mut Vec<Pane<T>>,
    loading_status: &mut LoadingStatus,
    slider_value: &mut u16,
    pane_layout: &PaneLayout,
    is_slider_dual: bool,
    last_opened_pane: usize,
) -> (r: Vec<LoadPlan>)
    requires
        forall|i: int| 0 <= i < old(panes)@.len() ==> nav_ready(#[trigger] old(panes)@[i]),
        forall|i: int| 0 <= i < old(panes)@.len() && (#[trigger] old(panes)@[i]).is_selected && old(panes)@[i].dir_loaded
            ==> old(panes)@[i].img_cache.image_paths@.len() > 0,
        ({
            let idxs = stepping(old(panes)@, true, old(panes)@.len() as int);
            let s0 = picked(old(panes)@, idxs);
            idxs.len() > 0 ==> {
                &&& targets_cover(old(loading_status).loading_queue@, idxs.len() as int)
                &&& fwd_first_request(s0, *old(loading_status), is_slider_dual)
                    ==> forall|k: int| 0 <= k < s0.len() ==> (#[trigger] s0[k]).img_cache.current_index >= 1
                &&& some_next_render(fwd_reset(s0, is_slider_dual)) ==> forall|k: int| 0 <= k < s0.len()
                    ==> (#[trigger] s0[k]).img_cache.current_index >= 1 || next_render_ok(s0[k].img_cache)
            }
        }),
    ensures
        ({
            let idxs = stepping(old(panes)@, true, old(panes)@.len() as int);
            let s0 = picked(old(panes)@, idxs);
            let s3 = right_step_panes(s0, *pane_layout, is_slider_dual);
            &&& final(panes)@.len() == old(panes)@.len()
            &&& idxs.len() == 0 ==> r@.len() == 0 && final(panes)@ == old(panes)@
                && *final(loading_status) == *old(loading_status) && *final(slider_value) == *old(slider_value)
            &&& idxs.len() > 0 ==> {
                &&& forall|k: int| 0 <= k < idxs.len() ==> #[trigger] final(panes)@[idxs[k] as int] == s3[k]
                &&& forall|i: int| 0 <= i < old(panes)@.len() && !idxs.contains(i as usize)
                    ==> #[trigger] final(panes)@[i] == old(panes)@[i]
                &&& right_step_status(s0, idxs, *old(loading_status), *final(loading_status), r@, *pane_layout,
                    is_slider_dual)
                &&& step_slider(s3, all_next_shown(s3, is_slider_dual), *pane_layout, is_slider_dual,
                    *old(slider_value), *final(slider_value))
            }
        }),
{
    let count = panes.len();
    let idxs = stepping_panes(panes, true);
    proof {
        assert(panes@.len() == count);
        lemma_stepping(panes@, true, panes@.len() as int);
    }
    if idxs.len() == 0 {
        return Vec::new();
    }
    let mut sub = take_panes(panes, &idxs);
    proof {
        assert forall|k: int| 0 <= k < sub@.len() implies steps_forward(#[trigger] sub@[k]) && nav_ready(sub@[k]) by {
            assert(steps(old(panes)@[idxs@[k] as int], true));
        }
    }
    let plans = move_right_panes(&mut sub, &idxs, loading_status, slider_value, pane_layout, is_slider_dual,
        last_opened_pane);
    restore_panes(panes, &idxs, sub);
    plans
}

/// Moves every selected pane that is not at its first image one image backward, as
/// [`move_left_panes`] states for those panes taken as a list of their own; the other panes
/// keep their state. Returns the load plans to start, in order.
pub fn move_left_all<T>(
    panes: &mut Vec<Pane<T>>,
    loading_status: &mut LoadingStatus,
    slider_value: &mut u16,
    pane_layout: &PaneLayout,
    is_slider_dual: bool,
    last_opened_pane: usize,
) -> (r: Vec<LoadPlan>)
    requires
        forall|i: int| 0 <= i < old(panes)@.len() ==> nav_ready(#[trigger] old(panes)@[i]),
        forall|i: int| 0 <= i < old(panes)@.len() && (#[trigger] old(panes)@[i]).is_selected && old(panes)@[i].dir_loaded
            ==> old(panes)@[i].img_cache.image_paths@.len() > 0,
        ({
            let idxs = stepping(old(panes)@, false, old(panes)@.len() as int);
            let s0 = picked(old(panes)@, idxs);
            idxs.len() > 0 ==> {
                &&& targets_cover(old(loading_status).loading_queue@, idxs.len() as int)
                &&& forall|k: int| 0 <= k < s0.len() && prev_render_ok((#[trigger] s0[k]).img_cache)
                    ==> s0[k].img_cache.current_offset - 1 >= -(CACHE_SIZE as int)
            }
        }),
    ensures
        ({
            let idxs = stepping(old(panes)@, false, old(panes)@.len() as int);
            let s0 = picked(old(panes)@, idxs);
            let s3 = left_step_panes(s0, *pane_layout, is_slider_dual);
            &&& final(panes)@.len() == old(panes)@.len()
            &&& idxs.len() == 0 ==> r@.len() == 0 && final(panes)@ == old(panes)@
                && *final(loading_status) == *old(loading_status) && *final(slider_value) == *old(slider_value)
            &&& idxs.len() > 0 ==> {
                &&& forall|k: int| 0 <= k < idxs.len() ==> #[trigger] final(panes)@[idxs[k] as int] == s3[k]
                &&& forall|i: int| 0 <= i < old(panes)@.len() && !idxs.contains(i as usize)
                    ==> #[trigger] final(panes)@[i] == old(panes)@[i]
                &&& left_step_status(s0, idxs, *old(loading_status), *final(loading_status), r@, *pane_layout,
                    is_slider_dual)
                &&& step_slider(s3, all_prev_shown(s3, is_slider_dual), *pane_layout, is_slider_dual,
                    *old(slider_value), *final(slider_value))
            }
        }),
{
    let count = panes.len();
    let idxs = stepping_panes(panes, false);
    proof {
        assert(panes@.len() == count);
        lemma_stepping(panes@, false, panes@.len() as int);
    }
    if idxs.len() == 0 {
        return Vec::new();
    }
    let mut sub = take_panes(panes, &idxs);
    proof {
        assert forall|k: int| 0 <= k < sub@.len() implies steps_backward(#[trigger] sub@[k]) && nav_ready(sub@[k]) by {
            assert(steps(old(panes)@[idxs@[k] as int], false));
        }
    }
    let plans = move_left_panes(&mut sub, &idxs, loading_status, slider_value, pane_layout, is_slider_dual,
        last_opened_pane);
    restore_panes(panes, &idxs, sub);
    plans
}

} // verus!
