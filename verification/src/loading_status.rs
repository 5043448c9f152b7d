use vstd::prelude::*;
use std::collections::VecDeque;
use crate::load_op::{LoadOperation, LoadOperationView, LoadOperationType, is_next_kind, is_previous_kind, targets_equal};

verus! {

/// Global loading state shared by all panes: the operations waiting to be
/// started, the operations in flight, and images that arrived out of order.
pub struct LoadingStatus {
    pub loading_queue: VecDeque<LoadOperation>,
    pub being_loaded_queue: VecDeque<LoadOperation>,
    pub out_of_order_images: Vec<(usize, Vec<u8>)>,
    pub is_next_image_loaded: bool,
    pub is_prev_image_loaded: bool,
}

/// True when no `LoadPos` target of a slider operation names `image_index`;
/// every other kind of operation counts as naming it.
pub open spec fn op_leaves_index_free(op: LoadOperation, image_index: isize) -> bool {
    match op@ {
        LoadOperationView::LoadPos(_, targets) => forall|j: int|
            0 <= j < targets.len() ==> match #[trigger] targets[j] {
                Some(t) => t.0 != image_index,
                None => true,
            },
        _ => false,
    }
}

/// True when a navigation operation carries targets other than `indices`;
/// a `LoadPos` operation never counts as differing.
pub open spec fn op_differs_from_targets(op: LoadOperation, indices: Seq<Option<isize>>) -> bool {
    match op@ {
        LoadOperationView::LoadNext(_, t) => t != indices,
        LoadOperationView::ShiftNext(_, t) => t != indices,
        LoadOperationView::LoadPrevious(_, t) => t != indices,
        LoadOperationView::ShiftPrevious(_, t) => t != indices,
        LoadOperationView::LoadPos(_, _) => false,
    }
}

/// The queue without its `LoadNext` and `ShiftNext` operations, order kept.
pub open spec fn without_next_ops(q: Seq<LoadOperation>) -> Seq<LoadOperation> {
    q.filter(|op: LoadOperation| !is_next_kind(op.kind()))
}

/// The queue without its `LoadPrevious` and `ShiftPrevious` operations, order kept.
pub open spec fn without_previous_ops(q: Seq<LoadOperation>) -> Seq<LoadOperation> {
    q.filter(|op: LoadOperation| !is_previous_kind(op.kind()))
}

/// True when every operation of the queue satisfies `p`.
pub open spec fn all_ops(q: Seq<LoadOperation>, p: spec_fn(LoadOperation) -> bool) -> bool {
    forall|i: int| 0 <= i < q.len() ==> p(#[trigger] q[i])
}

/// True when some operation of the queue satisfies `p`.
pub open spec fn any_op(q: Seq<LoadOperation>, p: spec_fn(LoadOperation) -> bool) -> bool {
    exists|i: int| 0 <= i < q.len() && p(#[trigger] q[i])
}

/// The first position of an out-of-order image with the given index, if any.
pub open spec fn first_image_position(imgs: Seq<(usize, Vec<u8>)>, target: usize) -> Option<int> {
    if exists|i: int| 0 <= i < imgs.len() && (#[trigger] imgs[i]).0 == target {
        Some(choose|i: int| 0 <= i < imgs.len() && (#[trigger] imgs[i]).0 == target
            && forall|k: int| 0 <= k < i ==> (#[trigger] imgs[k]).0 != target)
    } else {
        None
    }
}

fn op_leaves_index_free_exec(op: &LoadOperation, image_index: isize) -> (r: bool)
    ensures
        r == op_leaves_index_free(*op, image_index),
{
    match op {
        LoadOperation::LoadPos((pane, targets)) => {
            assert(op@ == LoadOperationView::LoadPos(*pane, targets@));
            let mut i: usize = 0;
            while i < targets.len()
                invariant
                    op@ == LoadOperationView::LoadPos(*pane, targets@),
                    i <= targets.len(),
                    forall|j: int| 0 <= j < i ==> match #[trigger] targets@[j] {
                        Some(t) => t.0 != image_index,
                        None => true,
                    },
                decreases targets.len() - i,
            {
                match targets[i] {
                    Some(t) => {
                        if t.0 == image_index {
                            proof {
                                let ts = targets@;
                                assert(ts[i as int] == Some(t));
                                assert(!(forall|j: int| 0 <= j < ts.len() ==> match #[trigger] ts[j] {
                                    Some(u) => u.0 != image_index,
                                    None => true,
                                }));
                            }
                            return false;
                        }
                    },
                    None => {},
                }
                i += 1;
            }
            true
        },
        _ => false,
    }
}

fn op_differs_from_targets_exec(op: &LoadOperation, indices: &Vec<Option<isize>>) -> (r: bool)
    ensures
        r == op_differs_from_targets(*op, indices@),
{
    match op {
        LoadOperation::LoadNext((_, t)) => !targets_equal(t, indices),
        LoadOperation::ShiftNext((_, t)) => !targets_equal(t, indices),
        LoadOperation::LoadPrevious((_, t)) => !targets_equal(t, indices),
        LoadOperation::ShiftPrevious((_, t)) => !targets_equal(t, indices),
        LoadOperation::LoadPos(_) => false,
    }
}

fn queue_leaves_index_free(q: &VecDeque<LoadOperation>, image_index: isize) -> (r: bool)
    ensures
        r == all_ops(q@, |op: LoadOperation| op_leaves_index_free(op, image_index)),
{
    let mut i: usize = 0;
    while i < q.len()
        invariant
            i <= q@.len(),
            forall|j: int| 0 <= j < i ==> op_leaves_index_free(#[trigger] q@[j], image_index),
        decreases q@.len() - i,
    {
        if !op_leaves_index_free_exec(&q[i], image_index) {
            return false;
        }
        i += 1;
    }
    true
}

fn queue_differs_from_targets(q: &VecDeque<LoadOperation>, indices: &Vec<Option<isize>>) -> (r: bool)
    ensures
        r == all_ops(q@, |op: LoadOperation| op_differs_from_targets(op, indices@)),
{
    let mut i: usize = 0;
    while i < q.len()
        invariant
            i <= q@.len(),
            forall|j: int| 0 <= j < i ==> op_differs_from_targets(#[trigger] q@[j], indices@),
        decreases q@.len() - i,
    {
        if !op_differs_from_targets_exec(&q[i], indices) {
            return false;
        }
        i += 1;
    }
    true
}

/// Whether some operation of the queue has the given kind.
pub fn queue_has_kind(q: &VecDeque<LoadOperation>, kind: LoadOperationType) -> (r: bool)
    ensures
        r == any_op(q@, |op: LoadOperation| op.kind() == kind),
{
    let mut i: usize = 0;
    while i < q.len()
        invariant
            i <= q@.len(),
            forall|j: int| 0 <= j < i ==> (#[trigger] q@[j]).kind() != kind,
        decreases q@.len() - i,
    {
        if q[i].operation_type() == kind {
            return true;
        }
        i += 1;
    }
    false
}

fn queue_has_next_kind(q: &VecDeque<LoadOperation>) -> (r: bool)
    ensures
        r == any_op(q@, |op: LoadOperation| is_next_kind(op.kind())),
{
    let mut i: usize = 0;
    while i < q.len()
        invariant
            i <= q@.len(),
            forall|j: int| 0 <= j < i ==> !is_next_kind((#[trigger] q@[j]).kind()),
        decreases q@.len() - i,
    {
        let k = q[i].operation_type();
        if k == LoadOperationType::LoadNext || k == LoadOperationType::ShiftNext {
            return true;
        }
        i += 1;
    }
    false
}

fn queue_has_previous_kind(q: &VecDeque<LoadOperation>) -> (r: bool)
    ensures
        r == any_op(q@, |op: LoadOperation| is_previous_kind(op.kind())),
{
    let mut i: usize = 0;
    while i < q.len()
        invariant
            i <= q@.len(),
            forall|j: int| 0 <= j < i ==> !is_previous_kind((#[trigger] q@[j]).kind()),
        decreases q@.len() - i,
    {
        let k = q[i].operation_type();
        if k == LoadOperationType::LoadPrevious || k == LoadOperationType::ShiftPrevious {
            return true;
        }
        i += 1;
    }
    false
}

/// Keeps the operations of the queue that satisfy the kind test, in order.
fn drain_keeping(q: &mut VecDeque<LoadOperation>, drop_next: bool)
    ensures
        final(q)@ == if drop_next { without_next_ops(old(q)@) } else { without_previous_ops(old(q)@) },
{
    let ghost orig = q@;
    let mut r: VecDeque<LoadOperation> = VecDeque::new();
    let n = q.len();
    let mut i: usize = 0;
    while i < n
        invariant
            n == orig.len(),
            i <= n,
            q@ == orig.subrange(i as int, n as int),
            r@ == if drop_next { without_next_ops(orig.subrange(0, i as int)) }
                else { without_previous_ops(orig.subrange(0, i as int)) },
        decreases n - i,
    {
        proof {
            reveal(Seq::filter);
            assert(orig.subrange(0, i as int + 1).drop_last() =~= orig.subrange(0, i as int));
            assert(q@[0] == orig[i as int]);
        }
        let op = q.pop_front().unwrap();
        let k = op.operation_type();
        let dropped = if drop_next {
            k == LoadOperationType::LoadNext || k == LoadOperationType::ShiftNext
        } else {
            k == LoadOperationType::LoadPrevious || k == LoadOperationType::ShiftPrevious
        };
        if !dropped {
            r.push_back(op);
        }
        i += 1;
        proof {
            assert(q@ =~= orig.subrange(i as int, n as int));
        }
    }
    assert(orig.subrange(0, n as int) =~= orig);
    *q = r;
}

/// Position of the first out-of-order image with the given index.
fn find_image_position(imgs: &Vec<(usize, Vec<u8>)>, target: usize) -> (r: Option<usize>)
    ensures
        match r {
            Some(i) => i < imgs@.len() && imgs@[i as int].0 == target
                && forall|k: int| 0 <= k < i ==> (#[trigger] imgs@[k]).0 != target,
            None => forall|k: int| 0 <= k < imgs@.len() ==> (#[trigger] imgs@[k]).0 != target,
        },
{
    let mut i: usize = 0;
    while i < imgs.len()
        invariant
            i <= imgs@.len(),
            forall|k: int| 0 <= k < i ==> (#[trigger] imgs@[k]).0 != target,
        decreases imgs@.len() - i,
    {
        if imgs[i].0 == target {
            return Some(i);
        }
        i += 1;
    }
    None
}

proof fn lemma_first_image_position(imgs: Seq<(usize, Vec<u8>)>, target: usize, i: int)
    requires
        0 <= i < imgs.len(),
        imgs[i].0 == target,
        forall|k: int| 0 <= k < i ==> (#[trigger] imgs[k]).0 != target,
    ensures
        first_image_position(imgs, target) == Some(i),
{
    let c = choose|j: int| 0 <= j < imgs.len() && (#[trigger] imgs[j]).0 == target
        && forall|k: int| 0 <= k < j ==> (#[trigger] imgs[k]).0 != target;
    assert(imgs[i].0 == target);
    assert(c == i) by {
        if c < i {
            assert(imgs[c].0 != target);
        } else if c > i {
            assert(imgs[i].0 != target);
        }
    }
}

impl LoadingStatus {
    pub fn new() -> (r: Self)
        ensures
            r.loading_queue@.len() == 0,
            r.being_loaded_queue@.len() == 0,
            r.out_of_order_images@.len() == 0,
            !r.is_next_image_loaded,
            !r.is_prev_image_loaded,
    {
        LoadingStatus {
            loading_queue: VecDeque::new(),
            being_loaded_queue: VecDeque::new(),
            out_of_order_images: Vec::new(),
            is_next_image_loaded: false,
            is_prev_image_loaded: false,
        }
    }

    /// Appends an operation to the back of the waiting queue.
    pub fn enqueue_image_load(&mut self, operation: LoadOperation)
        ensures
            final(self).loading_queue@ == old(self).loading_queue@.push(operation),
            final(self).being_loaded_queue@ == old(self).being_loaded_queue@,
            final(self).out_of_order_images@ == old(self).out_of_order_images@,
            final(self).is_next_image_loaded == old(self).is_next_image_loaded,
            final(self).is_prev_image_loaded == old(self).is_prev_image_loaded,
    {
        self.loading_queue.push_back(operation);
    }

    /// Empties the waiting queue.
    pub fn reset_image_load_queue(&mut self)
        ensures
            final(self).loading_queue@.len() == 0,
            final(self).being_loaded_queue@ == old(self).being_loaded_queue@,
            final(self).out_of_order_images@ == old(self).out_of_order_images@,
            final(self).is_next_image_loaded == old(self).is_next_image_loaded,
            final(self).is_prev_image_loaded == old(self).is_prev_image_loaded,
    {
        self.loading_queue.clear();
    }

    /// Appends an operation to the back of the in-flight queue.
    pub fn enqueue_image_being_loaded(&mut self, operation: LoadOperation)
        ensures
            final(self).being_loaded_queue@ == old(self).being_loaded_queue@.push(operation),
            final(self).loading_queue@ == old(self).loading_queue@,
            final(self).out_of_order_images@ == old(self).out_of_order_images@,
            final(self).is_next_image_loaded == old(self).is_next_image_loaded,
            final(self).is_prev_image_loaded == old(self).is_prev_image_loaded,
    {
        self.being_loaded_queue.push_back(operation);
    }

    /// Empties the in-flight queue.
    pub fn reset_image_being_loaded_queue(&mut self)
        ensures
            final(self).being_loaded_queue@.len() == 0,
            final(self).loading_queue@ == old(self).loading_queue@,
            final(self).out_of_order_images@ == old(self).out_of_order_images@,
            final(self).is_next_image_loaded == old(self).is_next_image_loaded,
            final(self).is_prev_image_loaded == old(self).is_prev_image_loaded,
    {
        self.being_loaded_queue.clear();
    }

    /// Drops every `LoadNext` and `ShiftNext` from the waiting queue, keeping the others in order.
    pub fn reset_load_next_queue_items(&mut self)
        ensures
            final(self).loading_queue@ == without_next_ops(old(self).loading_queue@),
            final(self).being_loaded_queue@ == old(self).being_loaded_queue@,
            final(self).out_of_order_images@ == old(self).out_of_order_images@,
            final(self).is_next_image_loaded == old(self).is_next_image_loaded,
            final(self).is_prev_image_loaded == old(self).is_prev_image_loaded,
    {
        drain_keeping(&mut self.loading_queue, true);
    }

    /// Drops every `LoadPrevious` and `ShiftPrevious` from the waiting queue, keeping the others in order.
    pub fn reset_load_previous_queue_items(&mut self)
        ensures
            final(self).loading_queue@ == without_previous_ops(old(self).loading_queue@),
            final(self).being_loaded_queue@ == old(self).being_loaded_queue@,
            final(self).out_of_order_images@ == old(self).out_of_order_images@,
            final(self).is_next_image_loaded == old(self).is_next_image_loaded,
            final(self).is_prev_image_loaded == old(self).is_prev_image_loaded,
    {
        drain_keeping(&mut self.loading_queue, false);
    }

    /// Whether the waiting queue holds a `LoadNext` or `ShiftNext`.
    pub fn is_load_next_items_in_queue(&self) -> (r: bool)
        ensures
            r == any_op(self.loading_queue@, |op: LoadOperation| is_next_kind(op.kind())),
    {
        queue_has_next_kind(&self.loading_queue)
    }

    /// Whether the waiting queue holds a `LoadPrevious` or `ShiftPrevious`.
    pub fn is_load_previous_items_in_queue(&self) -> (r: bool)
        ensures
            r == any_op(self.loading_queue@, |op: LoadOperation| is_previous_kind(op.kind())),
    {
        queue_has_previous_kind(&self.loading_queue)
    }

    /// True when both queues hold only slider operations, none of which targets `next_image_index`.
    pub fn is_next_image_index_in_queue(&self, _cache_index: usize, next_image_index: isize) -> (r: bool)
        ensures
            r == (all_ops(self.loading_queue@, |op: LoadOperation| op_leaves_index_free(op, next_image_index))
                && all_ops(self.being_loaded_queue@, |op: LoadOperation| op_leaves_index_free(op, next_image_index))),
    {
        queue_leaves_index_free(&self.loading_queue, next_image_index)
            && queue_leaves_index_free(&self.being_loaded_queue, next_image_index)
    }

    /// True when both queues hold only navigation operations, each carrying targets other than
    /// `next_image_indices`.
    pub fn are_next_image_indices_in_queue(&self, next_image_indices: Vec<Option<isize>>) -> (r: bool)
        ensures
            r == (all_ops(self.loading_queue@, |op: LoadOperation| op_differs_from_targets(op, next_image_indices@))
                && all_ops(self.being_loaded_queue@, |op: LoadOperation| op_differs_from_targets(op, next_image_indices@))),
    {
        queue_differs_from_targets(&self.loading_queue, &next_image_indices)
            && queue_differs_from_targets(&self.being_loaded_queue, &next_image_indices)
    }

    /// Removes the first out-of-order image with the given index and returns its bytes.
    pub fn pop_out_of_order_image(&mut self, target_index: usize) -> (r: Option<Vec<u8>>)
        ensures
            match first_image_position(old(self).out_of_order_images@, target_index) {
                Some(p) => r == Some(old(self).out_of_order_images@[p].1)
                    && final(self).out_of_order_images@ == old(self).out_of_order_images@.remove(p),
                None => r is None && final(self).out_of_order_images@ == old(self).out_of_order_images@,
            },
            final(self).loading_queue@ == old(self).loading_queue@,
            final(self).being_loaded_queue@ == old(self).being_loaded_queue@,
            final(self).is_next_image_loaded == old(self).is_next_image_loaded,
            final(self).is_prev_image_loaded == old(self).is_prev_image_loaded,
    {
        match find_image_position(&self.out_of_order_images, target_index) {
            Some(pos) => {
                proof {
                    lemma_first_image_position(self.out_of_order_images@, target_index, pos as int);
                }
                let item = self.out_of_order_images.remove(pos);
                Some(item.1)
            },
            None => None,
        }
    }

    /// Whether either queue holds an operation of the given kind.
    pub fn is_operation_in_queues(&self, operation: LoadOperationType) -> (r: bool)
        ensures
            r == (any_op(self.loading_queue@, |op: LoadOperation| op.kind() == operation)
                || any_op(self.being_loaded_queue@, |op: LoadOperation| op.kind() == operation)),
    {
        queue_has_kind(&self.loading_queue, operation) || queue_has_kind(&self.being_loaded_queue, operation)
    }
}

} // verus!

verus! {

proof fn lemma_filter_keeps_all<A>(s: Seq<A>, p: spec_fn(A) -> bool)
    requires
        forall|i: int| 0 <= i < s.len() ==> p(#[trigger] s[i]),
    ensures
        s.filter(p) == s,
    decreases s.len(),
{
    reveal(Seq::filter);
    if s.len() > 0 {
        lemma_filter_keeps_all(s.drop_last(), p);
        assert(s.drop_last().push(s.last()) =~= s);
    }
}

/// Once the next-direction operations are dropped from a queue none is left, and dropping
/// them again changes nothing.
pub proof fn lemma_without_next_ops(q: Seq<LoadOperation>)
    ensures
        !any_op(without_next_ops(q), |op: LoadOperation| is_next_kind(op.kind())),
        without_next_ops(without_next_ops(q)) == without_next_ops(q),
{
    broadcast use vstd::seq_lib::group_filter_ensures;
    let f = without_next_ops(q);
    assert forall|i: int| 0 <= i < f.len() implies !is_next_kind((#[trigger] f[i]).kind()) by {
        q.lemma_filter_pred(|op: LoadOperation| !is_next_kind(op.kind()), i);
    }
    lemma_filter_keeps_all(f, |op: LoadOperation| !is_next_kind(op.kind()));
}

/// Once the previous-direction operations are dropped from a queue none is left, and
/// dropping them again changes nothing.
pub proof fn lemma_without_previous_ops(q: Seq<LoadOperation>)
    ensures
        !any_op(without_previous_ops(q), |op: LoadOperation| is_previous_kind(op.kind())),
        without_previous_ops(without_previous_ops(q)) == without_previous_ops(q),
{
    broadcast use vstd::seq_lib::group_filter_ensures;
    let f = without_previous_ops(q);
    assert forall|i: int| 0 <= i < f.len() implies !is_previous_kind((#[trigger] f[i]).kind()) by {
        q.lemma_filter_pred(|op: LoadOperation| !is_previous_kind(op.kind()), i);
    }
    lemma_filter_keeps_all(f, |op: LoadOperation| !is_previous_kind(op.kind()));
}

} // verus!
