use vstd::prelude::*;
use crate::img_cache::{ImageCache, CompressionStrategy, slot_filled, blocks};
use crate::load_op::LoadOperation;
use crate::loading_status::LoadingStatus;
use crate::settings::{CACHE_SIZE, MAX_LOADING_QUEUE_SIZE, MAX_BEING_LOADED_QUEUE_SIZE};

verus! {

/// One pane or two side by side.
#[derive(Debug, Clone, Copy, PartialEq, Eq, Structural)]
pub enum PaneLayout {
    SinglePane,
    DualPane,
}

/// The local state of a slider: whether its handle is being dragged.
#[derive(Debug, Clone, Copy, PartialEq, Eq, Structural)]
pub struct SliderState {
    pub is_dragging: bool,
}

impl SliderState {
    pub fn new() -> (r: SliderState)
        ensures
            !r.is_dragging,
    {
        SliderState { is_dragging: false }
    }
}

/// The navigation state of one pane: its directory, its cache window, whether the next
/// and previous images have been shown since the last move, and its slider.
pub struct Pane<T> {
    pub directory_path: Option<String>,
    pub dir_loaded: bool,
    pub img_cache: ImageCache<T>,
    pub is_next_image_loaded: bool,
    pub is_prev_image_loaded: bool,
    pub slider_value: u16,
    pub prev_slider_value: u16,
    pub is_selected: bool,
    pub is_selected_cache: bool,
    pub pane_id: usize,
    pub compression_strategy: CompressionStrategy,
    pub mouse_wheel_zoom: bool,
    pub ctrl_pressed: bool,
    pub has_compressed_file: bool,
}

/// The slot after the current image exists and holds an image.
pub open spec fn next_render_ok<T>(c: ImageCache<T>) -> bool {
    let t = c.cache_count + c.current_offset + 1;
    t >= 0 && slot_filled(c.cached_data@, t)
}

/// The current slot holds an image, the slot before it lies within the range a window
/// can hold, and that slot holds an image.
pub open spec fn prev_render_ok<T>(c: ImageCache<T>) -> bool {
    let k = c.cache_count + c.current_offset;
    &&& k > 0
    &&& slot_filled(c.cached_data@, k)
    &&& -(c.cache_count as int) <= k - 1 < c.image_paths@.len() + c.cache_count
    &&& slot_filled(c.cached_data@, k - 1)
}

/// The slider follows the pane's own index only in the dual layout with separate sliders.
pub open spec fn slider_after(old_value: u16, layout: PaneLayout, is_slider_dual: bool, index: usize) -> u16 {
    if layout == PaneLayout::DualPane && is_slider_dual { index as u16 } else { old_value }
}

/// What showing the next image does to a pane: when the next slot holds an image, the
/// offset grows by one, the current index moves forward unless it is the last, the next
/// image counts as shown and the slider may follow; otherwise nothing changes. The slots,
/// paths and queues never change.
pub open spec fn after_render_next<T>(p: Pane<T>, q: Pane<T>, layout: PaneLayout, is_slider_dual: bool) -> bool {
    let c = p.img_cache;
    &&& next_render_ok(c) ==> {
        let idx = if c.current_index < c.image_paths@.len() - 1 { (c.current_index + 1) as usize }
            else { c.current_index };
        &&& q.img_cache.current_offset == c.current_offset + 1
        &&& q.img_cache.current_index == idx
        &&& q.is_next_image_loaded
        &&& q.slider_value == slider_after(p.slider_value, layout, is_slider_dual, idx)
    }
    &&& !next_render_ok(c) ==> {
        &&& q.img_cache.current_offset == c.current_offset
        &&& q.img_cache.current_index == c.current_index
        &&& q.is_next_image_loaded == p.is_next_image_loaded
        &&& q.slider_value == p.slider_value
    }
    &&& same_except_position(p, q)
    &&& q.is_prev_image_loaded == p.is_prev_image_loaded
}

/// What showing the previous image does to a pane, mirroring [`after_render_next`].
pub open spec fn after_render_prev<T>(p: Pane<T>, q: Pane<T>, layout: PaneLayout, is_slider_dual: bool) -> bool {
    let c = p.img_cache;
    &&& prev_render_ok(c) ==> {
        let idx = if c.current_index > 0 { (c.current_index - 1) as usize } else { c.current_index };
        &&& q.img_cache.current_offset == c.current_offset - 1
        &&& q.img_cache.current_index == idx
        &&& q.is_prev_image_loaded
        &&& q.slider_value == slider_after(p.slider_value, layout, is_slider_dual, idx)
    }
    &&& !prev_render_ok(c) ==> {
        &&& q.img_cache.current_offset == c.current_offset
        &&& q.img_cache.current_index == c.current_index
        &&& q.is_prev_image_loaded == p.is_prev_image_loaded
        &&& q.slider_value == p.slider_value
    }
    &&& same_except_position(p, q)
    &&& q.is_next_image_loaded == p.is_next_image_loaded
}

/// The pane after showing its next image: when the next slot holds an image, the offset
/// grows by one, the current index moves forward unless it is the last, the next image
/// counts as shown and the slider may follow; otherwise the pane is unchanged.
pub open spec fn next_rendered<T>(p: Pane<T>, layout: PaneLayout, is_slider_dual: bool) -> Pane<T> {
    let c = p.img_cache;
    if next_render_ok(c) {
        let idx = if c.current_index < c.image_paths@.len() - 1 { (c.current_index + 1) as usize }
            else { c.current_index };
        Pane {
            img_cache: ImageCache { current_offset: (c.current_offset + 1) as isize, current_index: idx, ..c },
            is_next_image_loaded: true,
            slider_value: slider_after(p.slider_value, layout, is_slider_dual, idx),
            ..p
        }
    } else {
        p
    }
}

/// The pane after showing its previous image, mirroring [`next_rendered`].
pub open spec fn prev_rendered<T>(p: Pane<T>, layout: PaneLayout, is_slider_dual: bool) -> Pane<T> {
    let c = p.img_cache;
    if prev_render_ok(c) {
        let idx = if c.current_index > 0 { (c.current_index - 1) as usize } else { c.current_index };
        Pane {
            img_cache: ImageCache { current_offset: (c.current_offset - 1) as isize, current_index: idx, ..c },
            is_prev_image_loaded: true,
            slider_value: slider_after(p.slider_value, layout, is_slider_dual, idx),
            ..p
        }
    } else {
        p
    }
}

/// The two panes agree on everything but the current position, the shown flags and the slider.
pub open spec fn same_except_position<T>(p: Pane<T>, q: Pane<T>) -> bool {
    &&& q.img_cache.cached_data@ == p.img_cache.cached_data@
    &&& q.img_cache.cached_metadata@ == p.img_cache.cached_metadata@
    &&& q.img_cache.cached_image_indices@ == p.img_cache.cached_image_indices@
    &&& q.img_cache.image_paths@ == p.img_cache.image_paths@
    &&& q.img_cache.cache_count == p.img_cache.cache_count
    &&& q.img_cache.loading_queue@ == p.img_cache.loading_queue@
    &&& q.img_cache.being_loaded_queue@ == p.img_cache.being_loaded_queue@
    &&& q.img_cache.num_files == p.img_cache.num_files
    &&& q.is_selected == p.is_selected
    &&& q.dir_loaded == p.dir_loaded
}

impl<T> Pane<T> {
    /// The fields of a fresh pane.
    pub open spec fn is_fresh(&self, pane_id: usize, compression_strategy: CompressionStrategy) -> bool {
        &&& self.directory_path is None
        &&& !self.dir_loaded
        &&& self.img_cache.is_empty_cache()
        &&& self.is_next_image_loaded
        &&& self.is_prev_image_loaded
        &&& self.slider_value == 0
        &&& self.prev_slider_value == 0
        &&& self.is_selected
        &&& self.is_selected_cache
        &&& self.pane_id == pane_id
        &&& self.compression_strategy == compression_strategy
        &&& !self.mouse_wheel_zoom
        &&& !self.ctrl_pressed
        &&& !self.has_compressed_file
    }

    /// A pane with no directory, an empty cache, selected, with the given id and compression.
    pub fn new(pane_id: usize, compression_strategy: CompressionStrategy) -> (r: Self)
        ensures
            r.is_fresh(pane_id, compression_strategy),
    {
        Pane {
            directory_path: None,
            dir_loaded: false,
            img_cache: ImageCache::default(),
            is_next_image_loaded: true,
            is_prev_image_loaded: true,
            slider_value: 0,
            prev_slider_value: 0,
            is_selected: true,
            is_selected_cache: true,
            pane_id,
            compression_strategy,
            mouse_wheel_zoom: false,
            ctrl_pressed: false,
            has_compressed_file: false,
        }
    }

    /// Forgets the directory and empties the cache; the pane becomes selected, with both
    /// neighbours counted as shown and the sliders at zero.
    pub fn reset_state(&mut self)
        ensures
            final(self).directory_path is None,
            !final(self).dir_loaded,
            final(self).img_cache.is_empty_cache(),
            final(self).is_next_image_loaded,
            final(self).is_prev_image_loaded,
            final(self).is_selected,
            final(self).slider_value == 0,
            final(self).prev_slider_value == 0,
            final(self).is_selected_cache == old(self).is_selected_cache,
            final(self).pane_id == old(self).pane_id,
            final(self).compression_strategy == old(self).compression_strategy,
            final(self).mouse_wheel_zoom == old(self).mouse_wheel_zoom,
            final(self).ctrl_pressed == old(self).ctrl_pressed,
            final(self).has_compressed_file == old(self).has_compressed_file,
    {
        self.img_cache.clear_cache();
        self.img_cache = ImageCache::default();
        self.directory_path = None;
        self.dir_loaded = false;
        self.is_next_image_loaded = true;
        self.is_prev_image_loaded = true;
        self.is_selected = true;
        self.slider_value = 0;
        self.prev_slider_value = 0;
    }

    /// The pane can show its next image now: it is selected, its directory is loaded, the
    /// next slot holds an image, and neither queue is full.
    pub open spec fn spec_cached_next(&self) -> bool {
        let c = self.img_cache;
        let n = ((c.cache_count + c.current_offset + 1) as isize) as usize;
        &&& self.is_selected
        &&& self.dir_loaded
        &&& n < c.image_paths@.len() && slot_filled(c.cached_data@, n as int)
        &&& c.loading_queue@.len() < MAX_LOADING_QUEUE_SIZE
        &&& c.being_loaded_queue@.len() < MAX_BEING_LOADED_QUEUE_SIZE
    }

    /// The pane can show its previous image now.
    pub open spec fn spec_cached_prev(&self) -> bool {
        let c = self.img_cache;
        &&& self.is_selected
        &&& self.dir_loaded
        &&& c.cache_count + c.current_offset - 1 >= 0
        &&& slot_filled(c.cached_data@, c.cache_count + c.current_offset - 1)
        &&& c.loading_queue@.len() < MAX_LOADING_QUEUE_SIZE
        &&& c.being_loaded_queue@.len() < MAX_BEING_LOADED_QUEUE_SIZE
    }

    /// The offset arithmetic of the cache stays within machine integers.
    pub open spec fn offsets_fit(&self) -> bool {
        let c = self.img_cache;
        &&& c.cache_count <= isize::MAX
        &&& isize::MIN < c.cache_count + c.current_offset - 1
        &&& c.cache_count + c.current_offset + 1 < isize::MAX
        &&& isize::MIN < c.current_offset < isize::MAX
        &&& c.image_paths@.len() + c.cache_count <= isize::MAX
    }

    pub fn is_pane_cached_next(&self) -> (r: bool)
        requires
            self.offsets_fit(),
        ensures
            r == self.spec_cached_next(),
    {
        self.is_selected && self.dir_loaded && self.img_cache.is_next_cache_index_within_bounds()
            && self.img_cache.loading_queue.len() < MAX_LOADING_QUEUE_SIZE
            && self.img_cache.being_loaded_queue.len() < MAX_BEING_LOADED_QUEUE_SIZE
    }

    pub fn is_pane_cached_prev(&self) -> (r: bool)
        requires
            self.offsets_fit(),
        ensures
            r == self.spec_cached_prev(),
    {
        self.is_selected && self.dir_loaded && self.img_cache.is_prev_cache_index_within_bounds()
            && self.img_cache.loading_queue.len() < MAX_LOADING_QUEUE_SIZE
            && self.img_cache.being_loaded_queue.len() < MAX_BEING_LOADED_QUEUE_SIZE
    }

    /// Shows the next image when its slot holds one: the offset grows by one, the current
    /// index moves forward unless it is the last, the next image counts as shown, and in
    /// the dual layout with separate sliders the slider follows. Returns whether it showed.
    pub fn render_next_image(&mut self, pane_layout: &PaneLayout, is_slider_dual: bool) -> (r: bool)
        requires
            old(self).offsets_fit(),
            next_render_ok(old(self).img_cache) ==> old(self).img_cache.image_paths@.len() > 0,
        ensures
            r == next_render_ok(old(self).img_cache),
            after_render_next(*old(self), *final(self), *pane_layout, is_slider_dual),
            *final(self) == next_rendered(*old(self), *pane_layout, is_slider_dual),
    {
        let t = self.img_cache.cache_count as isize + self.img_cache.current_offset + 1;
        if t >= 0 {
            match self.img_cache.get_image_by_index(t as usize) {
                Ok(_) => {},
                Err(_) => return false,
            }
            self.img_cache.current_offset = self.img_cache.current_offset + 1;
            self.is_next_image_loaded = true;
            if self.img_cache.current_index < self.img_cache.image_paths.len() - 1 {
                self.img_cache.current_index = self.img_cache.current_index + 1;
            }
            if *pane_layout == PaneLayout::DualPane && is_slider_dual {
                self.slider_value = #[verifier::truncate] (self.img_cache.current_index as u16);
            }
            true
        } else {
            false
        }
    }

    /// Shows the previous image when the current slot and the one before it hold images:
    /// the offset drops by one, the current index moves back unless it is the first, the
    /// previous image counts as shown, and the slider follows as for the next image. The
    /// offset may not go below `-CACHE_SIZE`, the configured cache size, whatever the pane's
    /// own window: the viewer holds that as an invariant and stops when a step would break it,
    /// so a caller rules such a step out.
    pub fn render_prev_image(&mut self, pane_layout: &PaneLayout, is_slider_dual: bool) -> (r: bool)
        requires
            old(self).offsets_fit(),
            prev_render_ok(old(self).img_cache) ==> old(self).img_cache.current_offset - 1 >= -(CACHE_SIZE as int),
        ensures
            r == prev_render_ok(old(self).img_cache),
            after_render_prev(*old(self), *final(self), *pane_layout, is_slider_dual),
            *final(self) == prev_rendered(*old(self), *pane_layout, is_slider_dual),
    {
        let k = self.img_cache.cache_count as isize + self.img_cache.current_offset;
        if k > 0 && self.img_cache.is_some_at_index(k as usize) {
            let t = self.img_cache.cache_count as isize + (self.img_cache.current_offset - 1);
            if self.img_cache.is_image_index_within_bounds(t) {
                match self.img_cache.get_image_by_index(t as usize) {
                    Ok(_) => {},
                    Err(_) => return false,
                }
                self.img_cache.current_offset = self.img_cache.current_offset - 1;
                self.is_prev_image_loaded = true;
                if self.img_cache.current_index > 0 {
                    self.img_cache.current_index = self.img_cache.current_index - 1;
                }
                if *pane_layout == PaneLayout::DualPane && is_slider_dual {
                    self.slider_value = #[verifier::truncate] (self.img_cache.current_index as u16);
                }
                return true;
            }
        }
        false
    }
}

/// Index of the first loaded pane holding the most files, provided that number is positive.
pub open spec fn is_largest_dir<T>(panes: Seq<Pane<T>>, i: int) -> bool {
    &&& 0 <= i < panes.len()
    &&& panes[i].dir_loaded
    &&& panes[i].img_cache.num_files > 0
    &&& forall|j: int| 0 <= j < panes.len() && (#[trigger] panes[j]).dir_loaded
        ==> panes[j].img_cache.num_files <= panes[i].img_cache.num_files
    &&& forall|j: int| 0 <= j < i && (#[trigger] panes[j]).dir_loaded
        ==> panes[j].img_cache.num_files < panes[i].img_cache.num_files
}

/// No loaded pane holds any file.
pub open spec fn no_loaded_files<T>(panes: Seq<Pane<T>>) -> bool {
    forall|j: int| 0 <= j < panes.len() && (#[trigger] panes[j]).dir_loaded ==> panes[j].img_cache.num_files == 0
}

fn largest_dir_index<T>(panes: &Vec<Pane<T>>) -> (r: Option<usize>)
    ensures
        match r {
            Some(i) => is_largest_dir(panes@, i as int),
            None => no_loaded_files(panes@),
        },
{
    let mut max_dir_size: usize = 0;
    let mut best: Option<usize> = None;
    let mut i: usize = 0;
    while i < panes.len()
        invariant
            i <= panes@.len(),
            match best {
                Some(b) => b < i && panes@[b as int].dir_loaded && max_dir_size == panes@[b as int].img_cache.num_files
                    && max_dir_size > 0
                    && (forall|j: int| 0 <= j < i && (#[trigger] panes@[j]).dir_loaded
                        ==> panes@[j].img_cache.num_files <= max_dir_size)
                    && (forall|j: int| 0 <= j < b && (#[trigger] panes@[j]).dir_loaded
                        ==> panes@[j].img_cache.num_files < max_dir_size),
                None => max_dir_size == 0 && forall|j: int| 0 <= j < i && (#[trigger] panes@[j]).dir_loaded
                    ==> panes@[j].img_cache.num_files == 0,
            },
        decreases panes@.len() - i,
    {
        if panes[i].dir_loaded {
            if panes[i].img_cache.num_files > max_dir_size {
                max_dir_size = panes[i].img_cache.num_files;
                best = Some(i);
            }
        }
        i += 1;
    }
    best
}

/// The index of the first loaded pane holding the most files, or -1 when no loaded pane
/// holds any file.
pub fn get_pane_with_largest_dir_size<T>(panes: &Vec<Pane<T>>) -> (r: isize)
    requires
        panes@.len() <= isize::MAX,
    ensures
        r == -1 <==> no_loaded_files(panes@),
        r != -1 ==> is_largest_dir(panes@, r as int),
{
    match largest_dir_index(panes) {
        Some(i) => i as isize,
        None => -1,
    }
}

/// The current index of the pane holding the most files (the first pane when none holds any).
pub fn get_master_slider_value<T>(panes: &Vec<Pane<T>>, _pane_layout: &PaneLayout, _is_slider_dual: bool,
    _last_opened_pane: usize) -> (r: usize)
    requires
        panes@.len() > 0,
    ensures
        no_loaded_files(panes@) ==> r == panes@[0].img_cache.current_index,
        !no_loaded_files(panes@) ==> exists|i: int| is_largest_dir(panes@, i) && r == panes@[i].img_cache.current_index,
{
    match largest_dir_index(panes) {
        Some(i) => panes[i].img_cache.current_index,
        None => panes[0].img_cache.current_index,
    }
}

/// Grows the list with fresh panes numbered by their position, or cuts it to `new_size`.
/// New panes take `template_compression` when given, otherwise no compression.
pub fn resize_panes<T>(panes: &mut Vec<Pane<T>>, new_size: usize, template_compression: Option<CompressionStrategy>)
    ensures
        final(panes)@.len() == new_size,
        forall|i: int| 0 <= i < old(panes)@.len() && i < new_size ==> #[trigger] final(panes)@[i] == old(panes)@[i],
        forall|i: int| old(panes)@.len() <= i < new_size ==> (#[trigger] final(panes)@[i]).is_fresh(i as usize,
            match template_compression { Some(c) => c, None => CompressionStrategy::Uncompressed }),
{
    if new_size > panes.len() {
        let compression = match template_compression {
            Some(c) => c,
            None => CompressionStrategy::Uncompressed,
        };
        let ghost start = old(panes)@.len();
        let mut i = panes.len();
        while i < new_size
            invariant
                start == old(panes)@.len(),
                start <= i <= new_size,
                panes@.len() == i,
                forall|k: int| 0 <= k < start ==> #[trigger] panes@[k] == old(panes)@[k],
                forall|k: int| start <= k < i ==> (#[trigger] panes@[k]).is_fresh(k as usize, compression),
            decreases new_size - i,
        {
            panes.push(Pane::new(i, compression));
            i += 1;
        }
    } else if new_size < panes.len() {
        panes.truncate(new_size);
    }
}

/// Target image index for the next load of each pane: past the end of its window, or none
/// for a pane that is not selected or has no directory.
pub open spec fn next_target<T>(p: Pane<T>) -> Option<isize> {
    if !p.is_selected || !p.dir_loaded {
        None
    } else {
        let c = p.img_cache;
        Some((c.current_index - c.current_offset + c.cache_count + 1) as isize)
    }
}

/// Target image index for the previous load of each pane: before the start of its window,
/// or none when that is negative or the pane is not selected or has no directory.
pub open spec fn previous_target<T>(p: Pane<T>) -> Option<isize> {
    let c = p.img_cache;
    let t = c.current_index - c.cache_count - c.current_offset - 1;
    if !p.is_selected || !p.dir_loaded || t < 0 {
        None
    } else {
        Some(t as isize)
    }
}

/// The loads extend the window at its ends: the window's first slot holds image
/// `first = current_index - (cache_count + current_offset)`, since slot
/// `cache_count + current_offset` holds the current image; a forward load asks for the image
/// just past the last of the `2 * cache_count + 1` slots, a backward load for the image just
/// before the first slot, when there is one.
pub proof fn lemma_targets_extend_window<T>(p: Pane<T>)
    requires
        p.is_selected,
        p.dir_loaded,
        targets_fit(p),
    ensures
        ({
            let c = p.img_cache;
            let first = c.current_index - (c.cache_count + c.current_offset);
            &&& next_target(p) == Some((first + (2 * c.cache_count + 1)) as isize)
            &&& first >= 1 ==> previous_target(p) == Some((first - 1) as isize)
            &&& first < 1 ==> previous_target(p) is None
        }),
{
}

/// The window arithmetic of a pane fits in `isize`.
pub open spec fn targets_fit<T>(p: Pane<T>) -> bool {
    let c = p.img_cache;
    &&& c.current_index <= isize::MAX
    &&& c.cache_count <= isize::MAX
    &&& isize::MIN < c.current_offset < isize::MAX
    &&& isize::MIN <= c.current_index - c.current_offset <= isize::MAX
    &&& isize::MIN <= c.current_index - c.current_offset + c.cache_count + 1 <= isize::MAX
    &&& isize::MIN <= -(c.cache_count as int) - c.current_offset <= isize::MAX
    &&& isize::MIN <= c.current_index - c.cache_count - c.current_offset - 1 <= isize::MAX
    &&& c.image_paths@.len() + c.cache_count <= isize::MAX
}

pub fn get_target_indices_for_next<T>(panes: &Vec<Pane<T>>) -> (r: Vec<Option<isize>>)
    requires
        forall|i: int| 0 <= i < panes@.len() ==> targets_fit(#[trigger] panes@[i]),
    ensures
        r@.len() == panes@.len(),
        forall|i: int| 0 <= i < panes@.len() ==> #[trigger] r@[i] == next_target(panes@[i]),
{
    let mut r: Vec<Option<isize>> = Vec::new();
    let mut i: usize = 0;
    while i < panes.len()
        invariant
            i <= panes@.len(),
            forall|k: int| 0 <= k < panes@.len() ==> targets_fit(#[trigger] panes@[k]),
            r@.len() == i,
            forall|k: int| 0 <= k < i ==> #[trigger] r@[k] == next_target(panes@[k]),
        decreases panes@.len() - i,
    {
        let p = &panes[i];
        if !p.is_selected || !p.dir_loaded {
            r.push(None);
        } else {
            let c = &p.img_cache;
            assert(targets_fit(panes@[i as int]));
            r.push(Some(c.current_index as isize - c.current_offset + c.cache_count as isize + 1));
        }
        i += 1;
    }
    r
}

pub fn get_target_indices_for_previous<T>(panes: &Vec<Pane<T>>) -> (r: Vec<Option<isize>>)
    requires
        forall|i: int| 0 <= i < panes@.len() ==> targets_fit(#[trigger] panes@[i]),
    ensures
        r@.len() == panes@.len(),
        forall|i: int| 0 <= i < panes@.len() ==> #[trigger] r@[i] == previous_target(panes@[i]),
{
    let mut r: Vec<Option<isize>> = Vec::new();
    let mut i: usize = 0;
    while i < panes.len()
        invariant
            i <= panes@.len(),
            forall|k: int| 0 <= k < panes@.len() ==> targets_fit(#[trigger] panes@[k]),
            r@.len() == i,
            forall|k: int| 0 <= k < i ==> #[trigger] r@[k] == previous_target(panes@[k]),
        decreases panes@.len() - i,
    {
        let p = &panes[i];
        if !p.is_selected || !p.dir_loaded {
            r.push(None);
        } else {
            let c = &p.img_cache;
            assert(targets_fit(panes@[i as int]));
            let t = (c.current_index as isize + (-(c.cache_count as isize) - c.current_offset)) - 1;
            if t < 0 {
                r.push(None);
            } else {
                r.push(Some(t));
            }
        }
        i += 1;
    }
    r
}

/// A pane takes part in a forward load when it has paths and its index before the move is
/// short of the last one.
pub open spec fn next_load_applies<T>(p: Pane<T>) -> bool {
    p.img_cache.image_paths@.len() > 0 && p.img_cache.current_index - 1 < p.img_cache.image_paths@.len() - 1
}

/// The image index lies in the range a window over the pane's paths can hold.
pub open spec fn index_in_window_range<T>(p: Pane<T>, n: isize) -> bool {
    -(p.img_cache.cache_count as int) <= n < p.img_cache.image_paths@.len() + p.img_cache.cache_count
}

/// For a forward load: the per-pane targets, whether some target lies in a window range, and
/// whether some target is missing, lies at or past the pane's file count, or the pane's
/// offset is negative. Panes that do not take part get no target.
pub fn calculate_loading_conditions_for_next<T>(panes: &Vec<Pane<T>>, target_indices: &Vec<Option<isize>>)
    -> (r: Option<(Vec<Option<isize>>, bool, bool)>)
    requires
        target_indices@.len() >= panes@.len(),
        forall|i: int| 0 <= i < panes@.len() ==> (#[trigger] panes@[i]).img_cache.current_index >= 1,
        forall|i: int| 0 <= i < panes@.len() ==> targets_fit(#[trigger] panes@[i]),
    ensures
        panes@.len() == 0 ==> r is None,
        panes@.len() > 0 ==> r is Some,
        r matches Some(res) ==> {
            &&& res.0@.len() == panes@.len()
            &&& forall|i: int| 0 <= i < panes@.len() ==> #[trigger] res.0@[i]
                == (if next_load_applies(panes@[i]) { target_indices@[i] } else { None })
            &&& res.1 == exists|i: int| 0 <= i < panes@.len() && next_load_applies(#[trigger] panes@[i])
                && (target_indices@[i] matches Some(n) && index_in_window_range(panes@[i], n))
            &&& res.2 == exists|i: int| 0 <= i < panes@.len() && next_load_applies(#[trigger] panes@[i])
                && match target_indices@[i] {
                    Some(n) => (n as usize) >= panes@[i].img_cache.num_files || panes@[i].img_cache.current_offset < 0,
                    None => true,
                }
        },
{
    let mut list: Vec<Option<isize>> = Vec::new();
    let mut within = false;
    let mut out_of_bounds = false;
    let mut i: usize = 0;
    while i < panes.len()
        invariant
            i <= panes@.len(),
            target_indices@.len() >= panes@.len(),
            forall|k: int| 0 <= k < panes@.len() ==> (#[trigger] panes@[k]).img_cache.current_index >= 1,
            forall|k: int| 0 <= k < panes@.len() ==> targets_fit(#[trigger] panes@[k]),
            list@.len() == i,
            forall|k: int| 0 <= k < i ==> #[trigger] list@[k]
                == (if next_load_applies(panes@[k]) { target_indices@[k] } else { None }),
            within == exists|k: int| 0 <= k < i && next_load_applies(#[trigger] panes@[k])
                && (target_indices@[k] matches Some(n) && index_in_window_range(panes@[k], n)),
            out_of_bounds == exists|k: int| 0 <= k < i && next_load_applies(#[trigger] panes@[k])
                && match target_indices@[k] {
                    Some(n) => (n as usize) >= panes@[k].img_cache.num_files || panes@[k].img_cache.current_offset < 0,
                    None => true,
                },
        decreases panes@.len() - i,
    {
        let c = &panes[i].img_cache;
        assert(panes@[i as int].img_cache.current_index >= 1);
        let current_index_before_render = c.current_index - 1;
        if !c.image_paths.is_empty() && current_index_before_render < c.image_paths.len() - 1 {
            match target_indices[i] {
                Some(n) => {
                    assert(targets_fit(panes@[i as int]));
                    if c.is_image_index_within_bounds(n) {
                        within = true;
                    }
                    if n as usize >= c.num_files || c.current_offset < 0 {
                        out_of_bounds = true;
                    }
                    list.push(Some(n));
                },
                None => {
                    out_of_bounds = true;
                    list.push(None);
                },
            }
        } else {
            list.push(None);
        }
        i += 1;
    }
    if list.len() == 0 {
        None
    } else {
        Some((list, within, out_of_bounds))
    }
}

/// A pane takes part in a backward load when it has paths.
pub open spec fn previous_load_applies<T>(p: Pane<T>) -> bool {
    p.img_cache.image_paths@.len() > 0
}

/// For a backward load: the per-pane targets, whether some target lies in a window range or
/// is missing, and whether some target is missing.
pub fn calculate_loading_conditions_for_previous<T>(panes: &Vec<Pane<T>>, target_indices: &Vec<Option<isize>>)
    -> (r: Option<(Vec<Option<isize>>, bool, bool)>)
    requires
        target_indices@.len() >= panes@.len(),
        forall|i: int| 0 <= i < panes@.len() ==> (#[trigger] panes@[i]).img_cache.current_index < usize::MAX,
        forall|i: int| 0 <= i < panes@.len() ==> targets_fit(#[trigger] panes@[i]),
    ensures
        panes@.len() == 0 ==> r is None,
        panes@.len() > 0 ==> r is Some,
        r matches Some(res) ==> {
            &&& res.0@.len() == panes@.len()
            &&& forall|i: int| 0 <= i < panes@.len() ==> #[trigger] res.0@[i]
                == (if previous_load_applies(panes@[i]) { target_indices@[i] } else { None })
            &&& res.1 == exists|i: int| 0 <= i < panes@.len() && previous_load_applies(#[trigger] panes@[i])
                && match target_indices@[i] {
                    Some(n) => index_in_window_range(panes@[i], n),
                    None => true,
                }
            &&& res.2 == exists|i: int| 0 <= i < panes@.len() && previous_load_applies(#[trigger] panes@[i])
                && target_indices@[i] is None
        },
{
    let mut list: Vec<Option<isize>> = Vec::new();
    let mut within = false;
    let mut any_none = false;
    let mut i: usize = 0;
    while i < panes.len()
        invariant
            i <= panes@.len(),
            target_indices@.len() >= panes@.len(),
            forall|k: int| 0 <= k < panes@.len() ==> (#[trigger] panes@[k]).img_cache.current_index < usize::MAX,
            forall|k: int| 0 <= k < panes@.len() ==> targets_fit(#[trigger] panes@[k]),
            list@.len() == i,
            forall|k: int| 0 <= k < i ==> #[trigger] list@[k]
                == (if previous_load_applies(panes@[k]) { target_indices@[k] } else { None }),
            within == exists|k: int| 0 <= k < i && previous_load_applies(#[trigger] panes@[k])
                && match target_indices@[k] {
                    Some(n) => index_in_window_range(panes@[k], n),
                    None => true,
                },
            any_none == exists|k: int| 0 <= k < i && previous_load_applies(#[trigger] panes@[k])
                && target_indices@[k] is None,
        decreases panes@.len() - i,
    {
        let c = &panes[i].img_cache;
        assert(panes@[i as int].img_cache.current_index < usize::MAX);
        let current_index_before_render = c.current_index + 1;
        if !c.image_paths.is_empty() && current_index_before_render > 0 {
            match target_indices[i] {
                Some(n) => {
                    assert(targets_fit(panes@[i as int]));
                    if c.is_image_index_within_bounds(n) {
                        within = true;
                    }
                    list.push(Some(n));
                },
                None => {
                    any_none = true;
                    within = true;
                    list.push(None);
                },
            }
        } else {
            list.push(None);
        }
        i += 1;
    }
    if list.len() == 0 {
        None
    } else {
        Some((list, within, any_none))
    }
}

impl LoadingStatus {
    /// Whether starting `loading_operation` now would push some pane's window out of its slots.
    pub fn is_blocking_loading_ops_in_queue<T>(&self, panes: &Vec<Pane<T>>, loading_operation: LoadOperation) -> (r: bool)
        requires
            forall|i: int| 0 <= i < panes@.len() ==> (#[trigger] panes@[i]).img_cache.cache_count <= isize::MAX,
        ensures
            r == exists|i: int| 0 <= i < panes@.len() && blocks(
                (#[trigger] panes@[i]).img_cache.current_offset as int, panes@[i].img_cache.cache_count as int,
                loading_operation.kind(), self.being_loaded_queue@, panes@[i].img_cache.being_loaded_queue@),
    {
        let mut i: usize = 0;
        while i < panes.len()
            invariant
                i <= panes@.len(),
                forall|k: int| 0 <= k < panes@.len() ==> (#[trigger] panes@[k]).img_cache.cache_count <= isize::MAX,
                forall|k: int| 0 <= k < i ==> !blocks(
                    (#[trigger] panes@[k]).img_cache.current_offset as int, panes@[k].img_cache.cache_count as int,
                    loading_operation.kind(), self.being_loaded_queue@, panes@[k].img_cache.being_loaded_queue@),
            decreases panes@.len() - i,
        {
            assert(panes@[i as int].img_cache.cache_count <= isize::MAX);
            if panes[i].img_cache.is_blocking_loading_ops_in_queue(loading_operation.clone(), self) {
                return true;
            }
            i += 1;
        }
        false
    }
}

/// Whether a load should be queued: some target lies in a window range, no queued or
/// in-flight operation carries the same targets, and no pane's window would be pushed out.
pub fn should_enqueue_loading<T>(
    is_image_index_within_bounds: bool,
    loading_status: &LoadingStatus,
    image_indices_to_load: &Vec<Option<isize>>,
    load_operation: &LoadOperation,
    panes: &Vec<Pane<T>>,
) -> (r: bool)
    requires
        forall|i: int| 0 <= i < panes@.len() ==> (#[trigger] panes@[i]).img_cache.cache_count <= isize::MAX,
    ensures
        r == (is_image_index_within_bounds
            && crate::loading_status::all_ops(loading_status.loading_queue@,
                |op: LoadOperation| crate::loading_status::op_differs_from_targets(op, image_indices_to_load@))
            && crate::loading_status::all_ops(loading_status.being_loaded_queue@,
                |op: LoadOperation| crate::loading_status::op_differs_from_targets(op, image_indices_to_load@))
            && !exists|i: int| 0 <= i < panes@.len() && blocks(
                (#[trigger] panes@[i]).img_cache.current_offset as int, panes@[i].img_cache.cache_count as int,
                load_operation.kind(), loading_status.being_loaded_queue@, panes@[i].img_cache.being_loaded_queue@)),
{
    is_image_index_within_bounds
        && loading_status.are_next_image_indices_in_queue(crate::load_op::clone_targets(image_indices_to_load))
        && !loading_status.is_blocking_loading_ops_in_queue(panes, load_operation.clone())
}

/// Whether every pane that counts has shown its next image (or has no directory); with
/// separate sliders only selected panes count.
pub open spec fn all_next_shown<T>(panes: Seq<Pane<T>>, is_slider_dual: bool) -> bool {
    forall|i: int| 0 <= i < panes.len() && (!is_slider_dual || (#[trigger] panes[i]).is_selected)
        ==> !panes[i].dir_loaded || panes[i].is_next_image_loaded
}

/// Whether every pane that counts has shown its previous image (or has no directory).
pub open spec fn all_prev_shown<T>(panes: Seq<Pane<T>>, is_slider_dual: bool) -> bool {
    forall|i: int| 0 <= i < panes.len() && (!is_slider_dual || (#[trigger] panes[i]).is_selected)
        ==> !panes[i].dir_loaded || panes[i].is_prev_image_loaded
}

pub fn are_all_next_images_loaded<T>(panes: &Vec<Pane<T>>, is_slider_dual: bool, _loading_status: &LoadingStatus) -> (r: bool)
    ensures
        r == all_next_shown(panes@, is_slider_dual),
{
    let mut i: usize = 0;
    while i < panes.len()
        invariant
            i <= panes@.len(),
            forall|k: int| 0 <= k < i && (!is_slider_dual || (#[trigger] panes@[k]).is_selected)
                ==> !panes@[k].dir_loaded || panes@[k].is_next_image_loaded,
        decreases panes@.len() - i,
    {
        let p = &panes[i];
        if !is_slider_dual || p.is_selected {
            if p.dir_loaded && !p.is_next_image_loaded {
                return false;
            }
        }
        i += 1;
    }
    true
}

pub fn are_all_prev_images_loaded<T>(panes: &Vec<Pane<T>>, is_slider_dual: bool, _loading_status: &LoadingStatus) -> (r: bool)
    ensures
        r == all_prev_shown(panes@, is_slider_dual),
{
    let mut i: usize = 0;
    while i < panes.len()
        invariant
            i <= panes@.len(),
            forall|k: int| 0 <= k < i && (!is_slider_dual || (#[trigger] panes@[k]).is_selected)
                ==> !panes@[k].dir_loaded || panes@[k].is_prev_image_loaded,
        decreases panes@.len() - i,
    {
        let p = &panes[i];
        if !is_slider_dual || p.is_selected {
            if p.dir_loaded && !p.is_prev_image_loaded {
                return false;
            }
        }
        i += 1;
    }
    true
}

/// The two panes agree on everything but the two shown flags.
pub open spec fn same_but_flags<T>(p: Pane<T>, q: Pane<T>) -> bool {
    &&& q.img_cache == p.img_cache
    &&& q.is_selected == p.is_selected
    &&& q.dir_loaded == p.dir_loaded
    &&& q.slider_value == p.slider_value
}

/// Marks the next and previous images of every pane as not shown yet.
pub fn init_is_next_image_loaded<T>(panes: &mut Vec<Pane<T>>, _pane_layout: &PaneLayout, _is_slider_dual: bool)
    ensures
        final(panes)@.len() == old(panes)@.len(),
        forall|i: int| 0 <= i < old(panes)@.len() ==> !(#[trigger] final(panes)@[i]).is_next_image_loaded
            && !final(panes)@[i].is_prev_image_loaded && same_but_flags(old(panes)@[i], final(panes)@[i]),
        forall|i: int| 0 <= i < old(panes)@.len() ==> #[trigger] final(panes)@[i]
            == (Pane { is_next_image_loaded: false, is_prev_image_loaded: false, ..old(panes)@[i] }),
{
    let mut i: usize = 0;
    while i < panes.len()
        invariant
            i <= panes@.len(),
            panes@.len() == old(panes)@.len(),
            forall|k: int| 0 <= k < i ==> !(#[trigger] panes@[k]).is_next_image_loaded
                && !panes@[k].is_prev_image_loaded && same_but_flags(old(panes)@[k], panes@[k]),
            forall|k: int| 0 <= k < i ==> #[trigger] panes@[k]
                == (Pane { is_next_image_loaded: false, is_prev_image_loaded: false, ..old(panes)@[k] }),
            forall|k: int| i <= k < panes@.len() ==> #[trigger] panes@[k] == old(panes)@[k],
        decreases panes@.len() - i,
    {
        panes[i].is_next_image_loaded = false;
        panes[i].is_prev_image_loaded = false;
        i += 1;
    }
}

/// Marks the previous and next images of every pane as not shown yet.
pub fn init_is_prev_image_loaded<T>(panes: &mut Vec<Pane<T>>, pane_layout: &PaneLayout, is_slider_dual: bool)
    ensures
        final(panes)@.len() == old(panes)@.len(),
        forall|i: int| 0 <= i < old(panes)@.len() ==> !(#[trigger] final(panes)@[i]).is_next_image_loaded
            && !final(panes)@[i].is_prev_image_loaded && same_but_flags(old(panes)@[i], final(panes)@[i]),
        forall|i: int| 0 <= i < old(panes)@.len() ==> #[trigger] final(panes)@[i]
            == (Pane { is_next_image_loaded: false, is_prev_image_loaded: false, ..old(panes)@[i] }),
{
    init_is_next_image_loaded(panes, pane_layout, is_slider_dual);
}

/// Every selected pane can show its next image now.
pub fn are_panes_cached_next<T>(panes: &Vec<Pane<T>>, _pane_layout: &PaneLayout, _is_slider_dual: bool) -> (r: bool)
    requires
        forall|i: int| 0 <= i < panes@.len() ==> (#[trigger] panes@[i]).offsets_fit(),
    ensures
        r == forall|i: int| 0 <= i < panes@.len() && (#[trigger] panes@[i]).is_selected ==> panes@[i].spec_cached_next(),
{
    let mut i: usize = 0;
    while i < panes.len()
        invariant
            i <= panes@.len(),
            forall|k: int| 0 <= k < panes@.len() ==> (#[trigger] panes@[k]).offsets_fit(),
            forall|k: int| 0 <= k < i && (#[trigger] panes@[k]).is_selected ==> panes@[k].spec_cached_next(),
        decreases panes@.len() - i,
    {
        assert(panes@[i as int].offsets_fit());
        if panes[i].is_selected && !panes[i].is_pane_cached_next() {
            return false;
        }
        i += 1;
    }
    true
}

/// Every selected pane can show its previous image now.
pub fn are_panes_cached_prev<T>(panes: &Vec<Pane<T>>, _pane_layout: &PaneLayout, _is_slider_dual: bool) -> (r: bool)
    requires
        forall|i: int| 0 <= i < panes@.len() ==> (#[trigger] panes@[i]).offsets_fit(),
    ensures
        r == forall|i: int| 0 <= i < panes@.len() && (#[trigger] panes@[i]).is_selected ==> panes@[i].spec_cached_prev(),
{
    let mut i: usize = 0;
    while i < panes.len()
        invariant
            i <= panes@.len(),
            forall|k: int| 0 <= k < panes@.len() ==> (#[trigger] panes@[k]).offsets_fit(),
            forall|k: int| 0 <= k < i && (#[trigger] panes@[k]).is_selected ==> panes@[k].spec_cached_prev(),
        decreases panes@.len() - i,
    {
        assert(panes@[i as int].offsets_fit());
        if panes[i].is_selected && !panes[i].is_pane_cached_prev() {
            return false;
        }
        i += 1;
    }
    true
}

/// Shows the next image of every pane that can; returns whether any pane did.
pub fn set_next_image_all<T>(panes: &mut Vec<Pane<T>>, pane_layout: &PaneLayout, is_slider_dual: bool) -> (r: bool)
    requires
        forall|i: int| 0 <= i < old(panes)@.len() ==> (#[trigger] old(panes)@[i]).offsets_fit(),
        forall|i: int| 0 <= i < old(panes)@.len() && next_render_ok((#[trigger] old(panes)@[i]).img_cache)
            ==> old(panes)@[i].img_cache.image_paths@.len() > 0,
    ensures
        final(panes)@.len() == old(panes)@.len(),
        forall|i: int| 0 <= i < old(panes)@.len() ==> after_render_next(#[trigger] old(panes)@[i], final(panes)@[i],
            *pane_layout, is_slider_dual),
        forall|i: int| 0 <= i < old(panes)@.len() ==> #[trigger] final(panes)@[i]
            == next_rendered(old(panes)@[i], *pane_layout, is_slider_dual),
        r == exists|i: int| 0 <= i < old(panes)@.len() && next_render_ok((#[trigger] old(panes)@[i]).img_cache),
{
    let mut did_render_happen = false;
    let mut i: usize = 0;
    while i < panes.len()
        invariant
            i <= panes@.len(),
            panes@.len() == old(panes)@.len(),
            forall|k: int| 0 <= k < old(panes)@.len() ==> (#[trigger] old(panes)@[k]).offsets_fit(),
            forall|k: int| 0 <= k < old(panes)@.len() && next_render_ok((#[trigger] old(panes)@[k]).img_cache)
                ==> old(panes)@[k].img_cache.image_paths@.len() > 0,
            forall|k: int| 0 <= k < i ==> after_render_next(#[trigger] old(panes)@[k], panes@[k], *pane_layout, is_slider_dual),
            forall|k: int| 0 <= k < i ==> #[trigger] panes@[k] == next_rendered(old(panes)@[k], *pane_layout, is_slider_dual),
            forall|k: int| i <= k < panes@.len() ==> #[trigger] panes@[k] == old(panes)@[k],
            did_render_happen == exists|k: int| 0 <= k < i && next_render_ok((#[trigger] old(panes)@[k]).img_cache),
        decreases panes@.len() - i,
    {
        assert(panes@[i as int] == old(panes)@[i as int]);
        let rendered = panes[i].render_next_image(pane_layout, is_slider_dual);
        if rendered {
            did_render_happen = true;
        }
        i += 1;
    }
    did_render_happen
}

/// When every pane's first slot holds an image, shows the previous image of every pane that
/// can and returns whether any did; otherwise changes nothing and returns false.
pub fn set_prev_image_all<T>(panes: &mut Vec<Pane<T>>, pane_layout: &PaneLayout, is_slider_dual: bool) -> (r: bool)
    requires
        forall|i: int| 0 <= i < old(panes)@.len() ==> (#[trigger] old(panes)@[i]).offsets_fit(),
        forall|i: int| 0 <= i < old(panes)@.len() && prev_render_ok((#[trigger] old(panes)@[i]).img_cache)
            ==> old(panes)@[i].img_cache.current_offset - 1 >= -(CACHE_SIZE as int),
    ensures
        final(panes)@.len() == old(panes)@.len(),
        (forall|i: int| 0 <= i < old(panes)@.len() ==> slot_filled((#[trigger] old(panes)@[i]).img_cache.cached_data@, 0)) ==> {
            &&& forall|i: int| 0 <= i < old(panes)@.len() ==> after_render_prev(#[trigger] old(panes)@[i], final(panes)@[i],
                *pane_layout, is_slider_dual)
            &&& forall|i: int| 0 <= i < old(panes)@.len() ==> #[trigger] final(panes)@[i]
                == prev_rendered(old(panes)@[i], *pane_layout, is_slider_dual)
            &&& r == exists|i: int| 0 <= i < old(panes)@.len() && prev_render_ok((#[trigger] old(panes)@[i]).img_cache)
        },
        !(forall|i: int| 0 <= i < old(panes)@.len() ==> slot_filled((#[trigger] old(panes)@[i]).img_cache.cached_data@, 0)) ==> {
            &&& !r
            &&& final(panes)@ == old(panes)@
        },
{
    let mut j: usize = 0;
    while j < panes.len()
        invariant
            j <= panes@.len(),
            forall|k: int| 0 <= k < j ==> slot_filled((#[trigger] panes@[k]).img_cache.cached_data@, 0),
        decreases panes@.len() - j,
    {
        if !panes[j].img_cache.is_some_at_index(0) {
            return false;
        }
        j += 1;
    }
    let mut did_render_happen = false;
    let mut i: usize = 0;
    while i < panes.len()
        invariant
            i <= panes@.len(),
            panes@.len() == old(panes)@.len(),
            forall|k: int| 0 <= k < old(panes)@.len() ==> (#[trigger] old(panes)@[k]).offsets_fit(),
            forall|k: int| 0 <= k < old(panes)@.len() && prev_render_ok((#[trigger] old(panes)@[k]).img_cache)
                ==> old(panes)@[k].img_cache.current_offset - 1 >= -(CACHE_SIZE as int),
            forall|k: int| 0 <= k < i ==> after_render_prev(#[trigger] old(panes)@[k], panes@[k], *pane_layout, is_slider_dual),
            forall|k: int| 0 <= k < i ==> #[trigger] panes@[k] == prev_rendered(old(panes)@[k], *pane_layout, is_slider_dual),
            forall|k: int| i <= k < panes@.len() ==> #[trigger] panes@[k] == old(panes)@[k],
            did_render_happen == exists|k: int| 0 <= k < i && prev_render_ok((#[trigger] old(panes)@[k]).img_cache),
        decreases panes@.len() - i,
    {
        assert(panes@[i as int] == old(panes)@[i as int]);
        let rendered = panes[i].render_prev_image(pane_layout, is_slider_dual);
        if rendered {
            did_render_happen = true;
        }
        i += 1;
    }
    did_render_happen
}

/// The largest of the numbers, zero for none.
pub open spec fn max_or_zero(s: Seq<usize>) -> nat
    decreases s.len(),
{
    if s.len() == 0 {
        0
    } else {
        let m = max_or_zero(s.drop_last());
        if s.last() > m { s.last() as nat } else { m }
    }
}

/// Whether a pane opening `file_count` files drives the shared slider: always in the single
/// layout and with separate sliders, otherwise when no other pane holds more files.
pub fn is_dir_size_bigger(pane_layout: &PaneLayout, is_slider_dual: bool, file_count: usize, pane_file_lengths: &[usize])
    -> (r: bool)
    ensures
        r == (*pane_layout == PaneLayout::SinglePane || is_slider_dual
            || file_count >= max_or_zero(pane_file_lengths@)),
{
    if *pane_layout == PaneLayout::SinglePane {
        return true;
    }
    if *pane_layout == PaneLayout::DualPane && is_slider_dual {
        return true;
    }
    let mut longest: usize = 0;
    let mut i: usize = 0;
    while i < pane_file_lengths.len()
        invariant
            i <= pane_file_lengths@.len(),
            longest == max_or_zero(pane_file_lengths@.subrange(0, i as int)),
        decreases pane_file_lengths@.len() - i,
    {
        proof {
            assert(pane_file_lengths@.subrange(0, i as int + 1).drop_last() =~= pane_file_lengths@.subrange(0, i as int));
        }
        if pane_file_lengths[i] > longest {
            longest = pane_file_lengths[i];
        }
        i += 1;
    }
    proof {
        assert(pane_file_lengths@.subrange(0, pane_file_lengths@.len() as int) =~= pane_file_lengths@);
    }
    file_count >= longest
}

impl<T> Pane<T> {
    /// Moves the sliders to the image a pane opened at: the pane's own and the shared one
    /// with separate sliders, otherwise the shared one when this pane drives it.
    pub fn apply_initial_slider(&mut self, slider_value: &mut u16, pane_layout: &PaneLayout, is_slider_dual: bool,
        is_dir_size_bigger: bool, initial_index: usize)
        ensures
            is_slider_dual ==> *final(slider_value) == initial_index as u16
                && *final(self) == (Pane { slider_value: initial_index as u16, ..*old(self) }),
            !is_slider_dual ==> *final(self) == *old(self) && *final(slider_value) == if *pane_layout == PaneLayout::SinglePane
                || is_dir_size_bigger { initial_index as u16 } else { *old(slider_value) },
    {
        let v = initial_index as u16;
        if is_slider_dual {
            *slider_value = v;
            self.slider_value = v;
        } else if *pane_layout == PaneLayout::SinglePane || *pane_layout == PaneLayout::DualPane && is_dir_size_bigger {
            *slider_value = v;
        }
    }
}

} // verus!

verus! {

/// Showing the next image and then the previous one comes back to the image shown before,
/// with the same slots, when the current and the next slot hold images and the current
/// image is not the last.
pub proof fn lemma_next_then_prev<T>(p: Pane<T>, layout: PaneLayout, is_slider_dual: bool)
    requires
        next_render_ok(p.img_cache),
        slot_filled(p.img_cache.cached_data@, p.img_cache.center()),
        p.img_cache.current_index < p.img_cache.image_paths@.len() - 1,
        p.img_cache.center() < p.img_cache.image_paths@.len() + p.img_cache.cache_count,
        isize::MIN < p.img_cache.current_offset < isize::MAX,
    ensures
        ({
            let q = prev_rendered(next_rendered(p, layout, is_slider_dual), layout, is_slider_dual);
            &&& q.img_cache.current_index == p.img_cache.current_index
            &&& q.img_cache.current_offset == p.img_cache.current_offset
            &&& same_except_position(p, q)
        }),
{
    assert(p.img_cache.image_paths.len() == p.img_cache.image_paths@.len());
    let n = next_rendered(p, layout, is_slider_dual);
    assert(n.img_cache.center() == p.img_cache.center() + 1);
    assert(prev_render_ok(n.img_cache));
}

} // verus!
