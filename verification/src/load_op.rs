use vstd::prelude::*;

verus! {

/// A request to load or shift images in the cache windows of one or more panes.
///
/// `LoadNext`, `ShiftNext`, `LoadPrevious` and `ShiftPrevious` carry the pane
/// indices and, per pane, the image index to load (if any). `LoadPos` carries a
/// pane index and a list of (image index, cache slot) targets.
#[derive(Debug)]
pub enum LoadOperation {
    LoadNext((Vec<usize>, Vec<Option<isize>>)),
    ShiftNext((Vec<usize>, Vec<Option<isize>>)),
    LoadPrevious((Vec<usize>, Vec<Option<isize>>)),
    ShiftPrevious((Vec<usize>, Vec<Option<isize>>)),
    LoadPos((usize, Vec<Option<(isize, usize)>>)),
}

/// The mathematical value of a [`LoadOperation`]: its kind and its payload as sequences.
pub ghost enum LoadOperationView {
    LoadNext(Seq<usize>, Seq<Option<isize>>),
    ShiftNext(Seq<usize>, Seq<Option<isize>>),
    LoadPrevious(Seq<usize>, Seq<Option<isize>>),
    ShiftPrevious(Seq<usize>, Seq<Option<isize>>),
    LoadPos(usize, Seq<Option<(isize, usize)>>),
}

impl View for LoadOperation {
    type V = LoadOperationView;

    open spec fn view(&self) -> LoadOperationView {
        match self {
            LoadOperation::LoadNext((p, t)) => LoadOperationView::LoadNext(p@, t@),
            LoadOperation::ShiftNext((p, t)) => LoadOperationView::ShiftNext(p@, t@),
            LoadOperation::LoadPrevious((p, t)) => LoadOperationView::LoadPrevious(p@, t@),
            LoadOperation::ShiftPrevious((p, t)) => LoadOperationView::ShiftPrevious(p@, t@),
            LoadOperation::LoadPos((p, t)) => LoadOperationView::LoadPos(*p, t@),
        }
    }
}

/// The kind of a [`LoadOperation`], without its payload.
#[derive(PartialEq, Eq, Structural, Debug, Clone, Copy)]
pub enum LoadOperationType {
    LoadNext,
    ShiftNext,
    LoadPrevious,
    ShiftPrevious,
    LoadPos,
}

pub fn clone_targets(v: &Vec<Option<isize>>) -> (r: Vec<Option<isize>>)
    ensures
        r@ == v@,
{
    let mut r: Vec<Option<isize>> = Vec::new();
    let mut i: usize = 0;
    while i < v.len()
        invariant
            i <= v.len(),
            r@ == v@.subrange(0, i as int),
        decreases v.len() - i,
    {
        r.push(v[i]);
        i += 1;
    }
    r
}

fn clone_pos_targets(v: &Vec<Option<(isize, usize)>>) -> (r: Vec<Option<(isize, usize)>>)
    ensures
        r@ == v@,
{
    let mut r: Vec<Option<(isize, usize)>> = Vec::new();
    let mut i: usize = 0;
    while i < v.len()
        invariant
            i <= v.len(),
            r@ == v@.subrange(0, i as int),
        decreases v.len() - i,
    {
        r.push(v[i]);
        i += 1;
    }
    r
}

pub fn clone_panes(v: &Vec<usize>) -> (r: Vec<usize>)
    ensures
        r@ == v@,
{
    let mut r: Vec<usize> = Vec::new();
    let mut i: usize = 0;
    while i < v.len()
        invariant
            i <= v.len(),
            r@ == v@.subrange(0, i as int),
        decreases v.len() - i,
    {
        r.push(v[i]);
        i += 1;
    }
    r
}

impl Clone for LoadOperation {
    fn clone(&self) -> (r: Self)
        ensures
            r@ == self@,
    {
        match self {
            LoadOperation::LoadNext((p, t)) => LoadOperation::LoadNext((clone_panes(p), clone_targets(t))),
            LoadOperation::ShiftNext((p, t)) => LoadOperation::ShiftNext((clone_panes(p), clone_targets(t))),
            LoadOperation::LoadPrevious((p, t)) => LoadOperation::LoadPrevious((clone_panes(p), clone_targets(t))),
            LoadOperation::ShiftPrevious((p, t)) => LoadOperation::ShiftPrevious((clone_panes(p), clone_targets(t))),
            LoadOperation::LoadPos((p, t)) => LoadOperation::LoadPos((*p, clone_pos_targets(t))),
        }
    }
}

impl LoadOperation {
    /// The kind of this operation, as a spec function.
    pub open spec fn kind(&self) -> LoadOperationType {
        match self {
            LoadOperation::LoadNext(..) => LoadOperationType::LoadNext,
            LoadOperation::ShiftNext(..) => LoadOperationType::ShiftNext,
            LoadOperation::LoadPrevious(..) => LoadOperationType::LoadPrevious,
            LoadOperation::ShiftPrevious(..) => LoadOperationType::ShiftPrevious,
            LoadOperation::LoadPos(..) => LoadOperationType::LoadPos,
        }
    }

    pub fn operation_type(&self) -> (r: LoadOperationType)
        ensures
            r == self.kind(),
    {
        match self {
            LoadOperation::LoadNext(..) => LoadOperationType::LoadNext,
            LoadOperation::ShiftNext(..) => LoadOperationType::ShiftNext,
            LoadOperation::LoadPrevious(..) => LoadOperationType::LoadPrevious,
            LoadOperation::ShiftPrevious(..) => LoadOperationType::ShiftPrevious,
            LoadOperation::LoadPos(..) => LoadOperationType::LoadPos,
        }
    }
}

/// True when the kind moves the window forward (`LoadNext` or `ShiftNext`).
pub open spec fn is_next_kind(k: LoadOperationType) -> bool {
    k == LoadOperationType::LoadNext || k == LoadOperationType::ShiftNext
}

/// True when the kind moves the window backward (`LoadPrevious` or `ShiftPrevious`).
pub open spec fn is_previous_kind(k: LoadOperationType) -> bool {
    k == LoadOperationType::LoadPrevious || k == LoadOperationType::ShiftPrevious
}

/// Element-wise equality of two target lists.
pub fn targets_equal(a: &Vec<Option<isize>>, b: &Vec<Option<isize>>) -> (r: bool)
    ensures
        r == (a@ == b@),
{
    if a.len() != b.len() {
        return false;
    }
    let mut i: usize = 0;
    while i < a.len()
        invariant
            i <= a.len(),
            a.len() == b.len(),
            forall|j: int| 0 <= j < i ==> a@[j] == b@[j],
        decreases a.len() - i,
    {
        let x = a[i];
        let y = b[i];
        let same = match (x, y) {
            (Some(u), Some(v)) => u == v,
            (None, None) => true,
            _ => false,
        };
        if !same {
            assert(a@[i as int] != b@[i as int]);
            return false;
        }
        i += 1;
    }
    assert(a@ =~= b@);
    true
}

} // verus!
