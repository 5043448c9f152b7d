use vstd::prelude::*;
use std::collections::VecDeque;
use crate::decimal::{decimal, decimal_string};
use crate::load_op::{LoadOperation, LoadOperationType};
use crate::loading_status::{LoadingStatus, any_op, queue_has_kind};
use crate::file_io::{spec_file_name, std_file_name};

verus! {

/// Where cached images live.
#[derive(Debug, Clone, Copy, PartialEq, Eq, Structural)]
pub enum CacheStrategy {
    Cpu,
    Gpu,
}

impl CacheStrategy {
    pub fn is_gpu_based(&self) -> (r: bool)
        ensures
            r == (*self == CacheStrategy::Gpu),
    {
        match self {
            CacheStrategy::Cpu => false,
            CacheStrategy::Gpu => true,
        }
    }
}

/// Whether textures are uploaded as they are or BC1-compressed.
#[derive(Debug, Clone, Copy, PartialEq, Eq, Structural)]
pub enum CompressionStrategy {
    Uncompressed,
    Bc1,
}

/// Dimensions and file size of a cached image.
#[derive(Debug, Clone, Copy, Default)]
pub struct ImageMetadata {
    pub width: u32,
    pub height: u32,
    pub file_size: u64,
}

/// The unit in which a file size is shown.
#[derive(Debug, Clone, Copy, PartialEq, Eq, Structural)]
pub enum SizeUnit {
    Bytes,
    KiloBytes,
    MegaBytes,
}

impl ImageMetadata {
    pub fn new(width: u32, height: u32, file_size: u64) -> (r: Self)
        ensures
            r.width == width,
            r.height == height,
            r.file_size == file_size,
    {
        ImageMetadata { width, height, file_size }
    }

    /// The resolution written as "WIDTHxHEIGHT".
    pub fn resolution_string(&self) -> (r: String)
        ensures
            r@ == decimal(self.width as nat) + seq!['x'] + decimal(self.height as nat),
    {
        let mut s = decimal_string(self.width as u64);
        proof {
            reveal_strlit("x");
        }
        s.append("x");
        let h = decimal_string(self.height as u64);
        s.append(h.as_str());
        s
    }

    /// The unit the file size is shown in: bytes below 1024, kilobytes below 1024 * 1024,
    /// megabytes above.
    pub fn file_size_unit(&self) -> (r: SizeUnit)
        ensures
            r == (if self.file_size < 1024 { SizeUnit::Bytes }
                else if self.file_size < 1024 * 1024 { SizeUnit::KiloBytes }
                else { SizeUnit::MegaBytes }),
    {
        if self.file_size < 1024 {
            SizeUnit::Bytes
        } else if self.file_size < 1024 * 1024 {
            SizeUnit::KiloBytes
        } else {
            SizeUnit::MegaBytes
        }
    }
}

/// Where an image comes from: the filesystem, an archive, or archive content already in memory.
#[derive(Debug)]
pub enum PathSource {
    Filesystem(String),
    Archive(String),
    Preloaded(String),
}

impl Clone for PathSource {
    fn clone(&self) -> (r: Self)
        ensures
            r == *self,
    {
        match self {
            PathSource::Filesystem(p) => PathSource::Filesystem(p.clone()),
            PathSource::Archive(p) => PathSource::Archive(p.clone()),
            PathSource::Preloaded(p) => PathSource::Preloaded(p.clone()),
        }
    }
}

impl PathSource {
    /// The path, whatever its source.
    pub open spec fn spec_path(&self) -> String {
        match self {
            PathSource::Filesystem(p) => *p,
            PathSource::Archive(p) => *p,
            PathSource::Preloaded(p) => *p,
        }
    }

    pub fn path(&self) -> (r: &String)
        ensures
            *r == self.spec_path(),
    {
        match self {
            PathSource::Filesystem(p) => p,
            PathSource::Archive(p) => p,
            PathSource::Preloaded(p) => p,
        }
    }

    /// The name shown for the image: the last component of a file on disk (empty when the
    /// path has none), the whole path inside an archive.
    pub open spec fn spec_display_name(&self) -> Seq<char> {
        match self {
            PathSource::Filesystem(p) => match spec_file_name(p@) {
                Some(n) => n,
                None => Seq::empty(),
            },
            PathSource::Archive(p) => p@,
            PathSource::Preloaded(p) => p@,
        }
    }

    pub fn file_name(&self) -> (r: String)
        ensures
            r@ == self.spec_display_name(),
    {
        match self {
            PathSource::Filesystem(p) => match std_file_name(p.as_str()) {
                Some(n) => n,
                None => String::new(),
            },
            PathSource::Archive(p) => p.clone(),
            PathSource::Preloaded(p) => p.clone(),
        }
    }
}

/// Why a cached image could not be handed out or the window could not move.
#[derive(Debug, Clone, Copy, PartialEq, Eq, Structural)]
pub enum CacheError {
    /// The slot exists but holds no image.
    NotCached,
    /// The slot lies outside the window.
    InvalidCacheIndex,
    /// The current image is the last one.
    NoMoreImages,
    /// The current image is the first one.
    NoPreviousImages,
    /// The image index lies outside the list of paths.
    InvalidImageIndex,
}

/// The image in a slot of the window, or why there is none.
pub open spec fn lookup_slot<T>(data: Seq<Option<T>>, k: int) -> Result<T, CacheError> {
    if 0 <= k < data.len() {
        match data[k] {
            Some(d) => Ok(d),
            None => Err(CacheError::NotCached),
        }
    } else {
        Err(CacheError::InvalidCacheIndex)
    }
}

/// True when a slot of the window exists and holds an image.
pub open spec fn slot_filled<T>(data: Seq<Option<T>>, k: int) -> bool {
    0 <= k < data.len() && data[k] is Some
}

/// True when each cached image index is one more than the one before.
pub open spec fn contiguous(ind: Seq<isize>) -> bool {
    forall|i: int| 0 <= i < ind.len() - 1 ==> #[trigger] ind[i + 1] == ind[i] + 1
}

/// The image indices after the window moves one step forward.
pub open spec fn shifted_left_indices(ind: Seq<isize>) -> Seq<isize> {
    let rest = ind.drop_first();
    if rest.len() > 0 {
        rest.push((rest.last() + 1) as isize)
    } else {
        rest.push(0)
    }
}

/// The image indices after the window moves one step backward.
pub open spec fn shifted_right_indices(ind: Seq<isize>) -> Seq<isize> {
    let rest = ind.drop_last();
    seq![(rest[0] - 1) as isize] + rest
}

/// The slots after the window moves one step forward and `item` enters at the end.
pub open spec fn shifted_left<A>(s: Seq<A>, item: A) -> Seq<A> {
    s.drop_first().push(item)
}

/// The slots after the window moves one step backward and `item` enters at the front.
pub open spec fn shifted_right<A>(s: Seq<A>, item: A) -> Seq<A> {
    seq![item] + s.drop_last()
}

/// A window of `2 * cache_count + 1` cached images around the current one.
///
/// Slot `cache_count + current_offset` holds the current image; `cached_image_indices`
/// records which image each slot holds (-1 for none). Queued operations wait in
/// `loading_queue`; started ones in `being_loaded_queue`.
pub struct ImageCache<T> {
    pub image_paths: Vec<PathSource>,
    pub num_files: usize,
    pub current_index: usize,
    pub current_offset: isize,
    pub cache_count: usize,
    pub cached_image_indices: Vec<isize>,
    pub cache_states: Vec<bool>,
    pub loading_queue: VecDeque<LoadOperation>,
    pub being_loaded_queue: VecDeque<LoadOperation>,
    pub cached_data: Vec<Option<T>>,
    pub cached_metadata: Vec<Option<ImageMetadata>>,
    pub compression_strategy: CompressionStrategy,
}

impl<T> ImageCache<T> {
    /// The number of slots a window of this cache count has.
    pub open spec fn window_size(&self) -> int {
        2 * self.cache_count + 1
    }

    /// The three parallel slot vectors have the window's size.
    pub open spec fn wf(&self) -> bool {
        &&& self.cached_data@.len() == self.window_size()
        &&& self.cached_metadata@.len() == self.window_size()
        &&& self.cached_image_indices@.len() == self.window_size()
    }

    /// The slot of the current image.
    pub open spec fn center(&self) -> int {
        self.cache_count + self.current_offset
    }

    /// Everything but the slot vectors and the offset is the same in both caches.
    pub open spec fn same_frame(&self, other: &Self) -> bool {
        &&& self.image_paths@ == other.image_paths@
        &&& self.num_files == other.num_files
        &&& self.current_index == other.current_index
        &&& self.cache_count == other.cache_count
        &&& self.cache_states@ == other.cache_states@
        &&& self.loading_queue@ == other.loading_queue@
        &&& self.being_loaded_queue@ == other.being_loaded_queue@
        &&& self.compression_strategy == other.compression_strategy
    }

    /// An empty window of `2 * cache_count + 1` slots over the given paths, centred on
    /// `initial_index`.
    pub fn new(
        image_paths: &[PathSource],
        cache_count: usize,
        compression_strategy: CompressionStrategy,
        initial_index: usize,
    ) -> (r: Self)
        requires
            2 * cache_count + 1 <= usize::MAX,
        ensures
            r.wf(),
            r.image_paths@ == image_paths@,
            r.num_files == image_paths@.len(),
            r.current_index == initial_index,
            r.current_offset == 0,
            r.cache_count == cache_count,
            forall|i: int| 0 <= i < r.window_size() ==> #[trigger] r.cached_data@[i] is None,
            forall|i: int| 0 <= i < r.window_size() ==> #[trigger] r.cached_metadata@[i] is None,
            forall|i: int| 0 <= i < r.window_size() ==> #[trigger] r.cached_image_indices@[i] == -1,
            r.cache_states@.len() == r.window_size(),
            forall|i: int| 0 <= i < r.window_size() ==> !#[trigger] r.cache_states@[i],
            r.loading_queue@.len() == 0,
            r.being_loaded_queue@.len() == 0,
            r.compression_strategy == compression_strategy,
    {
        let cache_size = cache_count * 2 + 1;
        let mut paths: Vec<PathSource> = Vec::new();
        let mut i: usize = 0;
        while i < image_paths.len()
            invariant
                i <= image_paths@.len(),
                paths@ == image_paths@.subrange(0, i as int),
            decreases image_paths@.len() - i,
        {
            paths.push(image_paths[i].clone());
            i += 1;
        }
        let mut cached_data: Vec<Option<T>> = Vec::new();
        let mut cached_metadata: Vec<Option<ImageMetadata>> = Vec::new();
        let mut indices: Vec<isize> = Vec::new();
        let mut states: Vec<bool> = Vec::new();
        let mut j: usize = 0;
        while j < cache_size
            invariant
                j <= cache_size,
                cached_data@.len() == j,
                cached_metadata@.len() == j,
                indices@.len() == j,
                states@.len() == j,
                forall|k: int| 0 <= k < j ==> #[trigger] cached_data@[k] is None,
                forall|k: int| 0 <= k < j ==> #[trigger] cached_metadata@[k] is None,
                forall|k: int| 0 <= k < j ==> #[trigger] indices@[k] == -1,
                forall|k: int| 0 <= k < j ==> !#[trigger] states@[k],
            decreases cache_size - j,
        {
            cached_data.push(None);
            cached_metadata.push(None);
            indices.push(-1);
            states.push(false);
            j += 1;
        }
        ImageCache {
            image_paths: paths,
            num_files: image_paths.len(),
            current_index: initial_index,
            current_offset: 0,
            cache_count,
            cached_image_indices: indices,
            cache_states: states,
            loading_queue: VecDeque::new(),
            being_loaded_queue: VecDeque::new(),
            cached_data,
            cached_metadata,
            compression_strategy,
        }
    }
}

impl<T> ImageCache<T> {
    /// Stores an image in a slot; a slot outside the window is left alone.
    pub fn set_cached_data(&mut self, index: usize, data: T)
        ensures
            final(self).cached_data@ == (if index < old(self).cached_data@.len() {
                old(self).cached_data@.update(index as int, Some(data))
            } else {
                old(self).cached_data@
            }),
            final(self).cached_metadata@ == old(self).cached_metadata@,
            final(self).cached_image_indices@ == old(self).cached_image_indices@,
            final(self).current_offset == old(self).current_offset,
            final(self).same_frame(old(self)),
    {
        if index < self.cached_data.len() {
            self.cached_data.set(index, Some(data));
        }
    }

    /// Stores metadata in a slot; a slot outside the window is left alone.
    pub fn set_cached_metadata(&mut self, index: usize, metadata: ImageMetadata)
        ensures
            final(self).cached_metadata@ == (if index < old(self).cached_metadata@.len() {
                old(self).cached_metadata@.update(index as int, Some(metadata))
            } else {
                old(self).cached_metadata@
            }),
            final(self).cached_data@ == old(self).cached_data@,
            final(self).cached_image_indices@ == old(self).cached_image_indices@,
            final(self).current_offset == old(self).current_offset,
            final(self).same_frame(old(self)),
    {
        if index < self.cached_metadata.len() {
            self.cached_metadata.set(index, Some(metadata));
        }
    }

    /// Fills one slot with an image, its metadata and the index of the image it holds.
    pub fn fill_slot(&mut self, slot: usize, data: Option<T>, metadata: Option<ImageMetadata>, image_index: isize)
        requires
            old(self).wf(),
            slot < old(self).window_size(),
        ensures
            final(self).wf(),
            final(self).cached_data@ == old(self).cached_data@.update(slot as int, data),
            final(self).cached_metadata@ == old(self).cached_metadata@.update(slot as int, metadata),
            final(self).cached_image_indices@ == old(self).cached_image_indices@.update(slot as int, image_index),
            final(self).current_offset == old(self).current_offset,
            final(self).same_frame(old(self)),
    {
        self.cached_data.set(slot, data);
        self.cached_metadata.set(slot, metadata);
        self.cached_image_indices.set(slot, image_index);
    }

    /// Moves the window one step forward: the first slot falls out, `new_item` enters at
    /// the end, the new last slot holds the image after the old last one, and the offset
    /// of the current image drops by one.
    pub fn shift_cache_left(&mut self, new_item: Option<T>, new_metadata: Option<ImageMetadata>)
        requires
            old(self).cached_data@.len() > 0,
            old(self).cached_metadata@.len() > 0,
            old(self).cached_image_indices@.len() > 0,
            old(self).cached_image_indices@.len() > 1 ==> old(self).cached_image_indices@.last() < isize::MAX,
            old(self).current_offset > isize::MIN,
        ensures
            final(self).cached_data@ == shifted_left(old(self).cached_data@, new_item),
            final(self).cached_metadata@ == shifted_left(old(self).cached_metadata@, new_metadata),
            final(self).cached_image_indices@ == shifted_left_indices(old(self).cached_image_indices@),
            final(self).current_offset == old(self).current_offset - 1,
            final(self).same_frame(old(self)),
    {
        self.cached_data.remove(0);
        self.cached_data.push(new_item);
        self.cached_metadata.remove(0);
        self.cached_metadata.push(new_metadata);
        let ghost old_ind = self.cached_image_indices@;
        self.cached_image_indices.remove(0);
        if !self.cached_image_indices.is_empty() {
            let last = self.cached_image_indices.len() - 1;
            let next_index = self.cached_image_indices[last] + 1;
            self.cached_image_indices.push(next_index);
        } else {
            self.cached_image_indices.push(0);
        }
        self.current_offset -= 1;
        proof {
            assert(old(self).cached_data@.remove(0) =~= old(self).cached_data@.drop_first());
            assert(old(self).cached_metadata@.remove(0) =~= old(self).cached_metadata@.drop_first());
            assert(old_ind.remove(0) =~= old_ind.drop_first());
        }
    }

    /// Moves the window one step backward: the last slot falls out, `new_item` enters at
    /// the front, the new first slot holds the image before the old first one, and the
    /// offset of the current image grows by one.
    pub fn shift_cache_right(&mut self, new_item: Option<T>, new_metadata: Option<ImageMetadata>)
        requires
            old(self).cached_data@.len() > 0,
            old(self).cached_metadata@.len() > 0,
            old(self).cached_image_indices@.len() > 1,
            old(self).cached_image_indices@[0] > isize::MIN,
            old(self).current_offset < isize::MAX,
        ensures
            final(self).cached_data@ == shifted_right(old(self).cached_data@, new_item),
            final(self).cached_metadata@ == shifted_right(old(self).cached_metadata@, new_metadata),
            final(self).cached_image_indices@ == shifted_right_indices(old(self).cached_image_indices@),
            final(self).current_offset == old(self).current_offset + 1,
            final(self).same_frame(old(self)),
    {
        self.cached_data.pop();
        self.cached_data.insert(0, new_item);
        self.cached_metadata.pop();
        self.cached_metadata.insert(0, new_metadata);
        self.cached_image_indices.pop();
        let prev_index = self.cached_image_indices[0] - 1;
        self.cached_image_indices.insert(0, prev_index);
        self.current_offset += 1;
        proof {
            assert(final(self).cached_data@ =~= shifted_right(old(self).cached_data@, new_item));
            assert(final(self).cached_metadata@ =~= shifted_right(old(self).cached_metadata@, new_metadata));
            assert(final(self).cached_image_indices@ =~= shifted_right_indices(old(self).cached_image_indices@));
        }
    }

    /// Empties the cache: no paths, a single empty slot, no indices, no states, empty queues.
    pub fn clear_cache(&mut self)
        ensures
            final(self).cached_data@.len() == 1,
            final(self).cached_data@[0] is None,
            final(self).cached_metadata@.len() == 1,
            final(self).cached_metadata@[0] is None,
            final(self).cached_image_indices@.len() == 0,
            final(self).cache_states@.len() == 0,
            final(self).image_paths@.len() == 0,
            final(self).num_files == 0,
            final(self).current_index == 0,
            final(self).current_offset == 0,
            final(self).cache_count == 0,
            final(self).loading_queue@.len() == 0,
            final(self).being_loaded_queue@.len() == 0,
            final(self).compression_strategy == old(self).compression_strategy,
    {
        self.cached_data.clear();
        self.cached_metadata.clear();
        self.cached_image_indices.clear();
        self.cache_states.clear();
        self.image_paths.clear();
        self.num_files = 0;
        self.current_index = 0;
        self.current_offset = 0;
        self.cache_count = 0;
        self.loading_queue.clear();
        self.being_loaded_queue.clear();
        let mut cached_data: Vec<Option<T>> = Vec::new();
        cached_data.push(None);
        let mut cached_metadata: Vec<Option<ImageMetadata>> = Vec::new();
        cached_metadata.push(None);
        self.cached_data = cached_data;
        self.cached_metadata = cached_metadata;
        self.cache_states = Vec::new();
    }

    /// Moves forward unless the current image is the last one.
    pub fn move_next(&mut self, new_image: Option<T>, new_metadata: Option<ImageMetadata>, _image_index: isize)
        -> (r: Result<bool, CacheError>)
        requires
            old(self).image_paths@.len() > 0,
            old(self).current_index < old(self).image_paths@.len() - 1 ==> {
                &&& old(self).cached_data@.len() > 0
                &&& old(self).cached_metadata@.len() > 0
                &&& old(self).cached_image_indices@.len() > 0
                &&& old(self).cached_image_indices@.len() > 1 ==> old(self).cached_image_indices@.last() < isize::MAX
                &&& old(self).current_offset > isize::MIN
            },
        ensures
            old(self).current_index < old(self).image_paths@.len() - 1 ==> {
                &&& r == Ok::<bool, CacheError>(false)
                &&& final(self).cached_data@ == shifted_left(old(self).cached_data@, new_image)
                &&& final(self).cached_metadata@ == shifted_left(old(self).cached_metadata@, new_metadata)
                &&& final(self).cached_image_indices@ == shifted_left_indices(old(self).cached_image_indices@)
                &&& final(self).current_offset == old(self).current_offset - 1
            },
            old(self).current_index >= old(self).image_paths@.len() - 1 ==> {
                &&& r == Err::<bool, CacheError>(CacheError::NoMoreImages)
                &&& final(self).cached_data@ == old(self).cached_data@
                &&& final(self).cached_metadata@ == old(self).cached_metadata@
                &&& final(self).cached_image_indices@ == old(self).cached_image_indices@
                &&& final(self).current_offset == old(self).current_offset
            },
            final(self).same_frame(old(self)),
    {
        if self.current_index < self.image_paths.len() - 1 {
            self.shift_cache_left(new_image, new_metadata);
            Ok(false)
        } else {
            Err(CacheError::NoMoreImages)
        }
    }

    /// Moves backward unless the current image is the first one.
    pub fn move_prev(&mut self, new_image: Option<T>, new_metadata: Option<ImageMetadata>, _image_index: isize)
        -> (r: Result<bool, CacheError>)
        requires
            old(self).current_index > 0 ==> {
                &&& old(self).cached_data@.len() > 0
                &&& old(self).cached_metadata@.len() > 0
                &&& old(self).cached_image_indices@.len() > 1
                &&& old(self).cached_image_indices@[0] > isize::MIN
                &&& old(self).current_offset < isize::MAX
            },
        ensures
            old(self).current_index > 0 ==> {
                &&& r == Ok::<bool, CacheError>(false)
                &&& final(self).cached_data@ == shifted_right(old(self).cached_data@, new_image)
                &&& final(self).cached_metadata@ == shifted_right(old(self).cached_metadata@, new_metadata)
                &&& final(self).cached_image_indices@ == shifted_right_indices(old(self).cached_image_indices@)
                &&& final(self).current_offset == old(self).current_offset + 1
            },
            old(self).current_index == 0 ==> {
                &&& r == Err::<bool, CacheError>(CacheError::NoPreviousImages)
                &&& final(self).cached_data@ == old(self).cached_data@
                &&& final(self).cached_metadata@ == old(self).cached_metadata@
                &&& final(self).cached_image_indices@ == old(self).cached_image_indices@
                &&& final(self).current_offset == old(self).current_offset
            },
            final(self).same_frame(old(self)),
    {
        if self.current_index > 0 {
            self.shift_cache_right(new_image, new_metadata);
            Ok(false)
        } else {
            Err(CacheError::NoPreviousImages)
        }
    }

    /// Whether the window could move forward, without moving it.
    pub fn move_next_edge(&self, _new_image: Option<T>, _image_index: isize) -> (r: Result<bool, CacheError>)
        requires
            self.image_paths@.len() > 0,
        ensures
            r == (if self.current_index < self.image_paths@.len() - 1 { Ok::<bool, CacheError>(false) }
                else { Err::<bool, CacheError>(CacheError::NoMoreImages) }),
    {
        if self.current_index < self.image_paths.len() - 1 {
            Ok(false)
        } else {
            Err(CacheError::NoMoreImages)
        }
    }

    /// Whether the window could move backward, without moving it.
    pub fn move_prev_edge(&self, _new_image: Option<T>, _image_index: isize) -> (r: Result<bool, CacheError>)
        ensures
            r == (if self.current_index > 0 { Ok::<bool, CacheError>(false) }
                else { Err::<bool, CacheError>(CacheError::NoPreviousImages) }),
    {
        if self.current_index > 0 {
            Ok(false)
        } else {
            Err(CacheError::NoPreviousImages)
        }
    }

    /// The image in a slot, or why there is none.
    pub fn get_image_by_index(&self, index: usize) -> (r: Result<&T, CacheError>)
        ensures
            match r {
                Ok(d) => lookup_slot(self.cached_data@, index as int) == Ok::<T, CacheError>(*d),
                Err(e) => lookup_slot(self.cached_data@, index as int) == Err::<T, CacheError>(e),
            },
    {
        if index < self.cached_data.len() {
            match &self.cached_data[index] {
                Some(d) => Ok(d),
                None => Err(CacheError::NotCached),
            }
        } else {
            Err(CacheError::InvalidCacheIndex)
        }
    }

    /// The current image, found at slot `cache_count + current_offset`.
    pub fn get_initial_image(&self) -> (r: Result<&T, CacheError>)
        requires
            self.cache_count <= isize::MAX,
            isize::MIN <= self.center() <= isize::MAX,
        ensures
            match r {
                Ok(d) => lookup_slot(self.cached_data@, self.center()) == Ok::<T, CacheError>(*d),
                Err(e) => lookup_slot(self.cached_data@, self.center()) == Err::<T, CacheError>(e),
            },
    {
        let k = self.cache_count as isize + self.current_offset;
        if k < 0 {
            return Err(CacheError::InvalidCacheIndex);
        }
        self.get_image_by_index(k as usize)
    }

    /// The image in the middle slot of the window.
    pub fn get_current_image(&self) -> (r: Result<&T, CacheError>)
        ensures
            match r {
                Ok(d) => lookup_slot(self.cached_data@, self.cache_count as int) == Ok::<T, CacheError>(*d),
                Err(e) => lookup_slot(self.cached_data@, self.cache_count as int) == Err::<T, CacheError>(e),
            },
    {
        self.get_image_by_index(self.cache_count)
    }

    /// The metadata in a slot, if the slot exists and holds some.
    pub fn get_metadata_by_index(&self, index: usize) -> (r: Option<&ImageMetadata>)
        ensures
            r == (if index < self.cached_metadata@.len() {
                match self.cached_metadata@[index as int] {
                    Some(m) => Some(&m),
                    None => None,
                }
            } else {
                None::<&ImageMetadata>
            }),
    {
        if index < self.cached_metadata.len() {
            match &self.cached_metadata[index] {
                Some(m) => Some(m),
                None => None,
            }
        } else {
            None
        }
    }

    /// The metadata of the current image, if its slot holds some.
    pub fn get_initial_metadata(&self) -> (r: Option<&ImageMetadata>)
        requires
            self.cache_count <= isize::MAX,
            isize::MIN <= self.center() <= isize::MAX,
        ensures
            r == (if 0 <= self.center() < self.cached_metadata@.len() {
                match self.cached_metadata@[self.center()] {
                    Some(m) => Some(&m),
                    None => None,
                }
            } else {
                None::<&ImageMetadata>
            }),
    {
        let k = self.cache_count as isize + self.current_offset;
        if k < 0 {
            return None;
        }
        self.get_metadata_by_index(k as usize)
    }

    /// The slot after the current image.
    pub fn get_next_cache_index(&self) -> (r: isize)
        requires
            self.cache_count <= isize::MAX,
            isize::MIN <= self.center() + 1 <= isize::MAX,
        ensures
            r == self.center() + 1,
    {
        self.cache_count as isize + self.current_offset + 1
    }

    /// The image index just past the end of the window.
    pub fn get_next_image_to_load(&self) -> (r: usize)
        requires
            self.current_index <= isize::MAX,
            self.cache_count <= isize::MAX,
            isize::MIN <= self.cache_count - self.current_offset <= isize::MAX,
            isize::MIN <= self.current_index + self.cache_count - self.current_offset <= isize::MAX,
            (((self.current_index + self.cache_count - self.current_offset) as isize) as usize) < usize::MAX,
        ensures
            r == (((self.current_index + self.cache_count - self.current_offset) as isize) as usize) + 1,
    {
        let next_image_index = (self.current_index as isize + (self.cache_count as isize - self.current_offset)) as usize + 1;
        next_image_index
    }

    /// The image index just before the start of the window, taken as an unsigned number.
    pub fn get_prev_image_to_load(&self) -> (r: usize)
        requires
            self.current_index <= isize::MAX,
            self.cache_count <= isize::MAX,
            isize::MIN <= -self.cache_count - self.current_offset <= isize::MAX,
            isize::MIN <= self.current_index - self.cache_count - self.current_offset <= isize::MAX,
            isize::MIN <= self.current_index - self.cache_count - self.current_offset - 1 <= isize::MAX,
        ensures
            r == ((self.current_index - self.cache_count - self.current_offset - 1) as isize) as usize,
    {
        let prev_image_index_to_load = (self.current_index as isize + (-(self.cache_count as isize) - self.current_offset)) - 1;
        #[verifier::truncate] (prev_image_index_to_load as usize)
    }

    /// Whether a slot exists and holds an image.
    pub fn is_some_at_index(&self, index: usize) -> (r: bool)
        ensures
            r == slot_filled(self.cached_data@, index as int),
    {
        if index < self.cached_data.len() {
            self.cached_data[index].is_some()
        } else {
            false
        }
    }

    /// Whether a slot lies in the window and holds an image.
    pub fn is_cache_index_within_bounds(&self, index: usize) -> (r: bool)
        ensures
            r == slot_filled(self.cached_data@, index as int),
    {
        if index >= self.cached_data.len() {
            return false;
        }
        self.is_some_at_index(index)
    }

    /// Whether the slot after the current image holds an image; the slot number is also
    /// compared against the number of paths.
    pub fn is_next_cache_index_within_bounds(&self) -> (r: bool)
        requires
            self.cache_count <= isize::MAX,
            isize::MIN <= self.center() + 1 <= isize::MAX,
        ensures
            r == ({
                let n = ((self.center() + 1) as isize) as usize;
                n < self.image_paths@.len() && slot_filled(self.cached_data@, n as int)
            }),
    {
        let next_image_index_to_render: usize = self.get_next_cache_index() as usize;
        if next_image_index_to_render >= self.image_paths.len() {
            return false;
        }
        self.is_cache_index_within_bounds(next_image_index_to_render)
    }

    /// Whether the slot before the current image exists and holds an image.
    pub fn is_prev_cache_index_within_bounds(&self) -> (r: bool)
        requires
            self.cache_count <= isize::MAX,
            isize::MIN <= self.center() - 1,
            self.center() <= isize::MAX,
        ensures
            r == (self.center() - 1 >= 0 && slot_filled(self.cached_data@, self.center() - 1)),
    {
        let prev_image_index_to_render: isize = self.cache_count as isize + self.current_offset - 1;
        if prev_image_index_to_render < 0 {
            return false;
        }
        self.is_cache_index_within_bounds(prev_image_index_to_render as usize)
    }

    /// Whether an image index lies in the range a window over these paths can hold:
    /// from `-cache_count` to `len + cache_count - 1`.
    pub fn is_image_index_within_bounds(&self, index: isize) -> (r: bool)
        requires
            self.image_paths@.len() + self.cache_count <= isize::MAX,
        ensures
            r == (-(self.cache_count as int) <= index < self.image_paths@.len() + self.cache_count),
    {
        let len = self.image_paths.len() as isize;
        let c = self.cache_count as isize;
        index < 0 && index >= -c || index >= 0 && index < len || index >= len && index < len + c
    }

    /// Whether either queue of this cache holds an operation of the given kind.
    pub fn _is_operation_in_queues(&self, operation: LoadOperationType) -> (r: bool)
        ensures
            r == (any_op(self.loading_queue@, |op: LoadOperation| op.kind() == operation)
                || any_op(self.being_loaded_queue@, |op: LoadOperation| op.kind() == operation)),
    {
        queue_has_kind(&self.loading_queue, operation) || queue_has_kind(&self.being_loaded_queue, operation)
    }

    /// A `LoadNext` blocks when the window is at its first position, a `LoadPrevious` when it
    /// is at its last; other kinds never block.
    pub fn is_operation_blocking(&self, operation: LoadOperationType) -> (r: bool)
        requires
            self.cache_count <= isize::MAX,
        ensures
            r == ((operation == LoadOperationType::LoadNext && self.current_offset == -(self.cache_count as int))
                || (operation == LoadOperationType::LoadPrevious && self.current_offset == self.cache_count)),
    {
        match operation {
            LoadOperationType::LoadNext => {
                if self.current_offset == -(self.cache_count as isize) {
                    return true;
                }
            },
            LoadOperationType::LoadPrevious => {
                if self.current_offset == self.cache_count as isize {
                    return true;
                }
            },
            _ => {},
        }
        false
    }

    /// Whether starting `loading_operation` now would push the window out of its slots.
    pub fn is_blocking_loading_ops_in_queue(&self, loading_operation: LoadOperation, loading_status: &LoadingStatus)
        -> (r: bool)
        requires
            self.cache_count <= isize::MAX,
        ensures
            r == blocks(self.current_offset as int, self.cache_count as int, loading_operation.kind(),
                loading_status.being_loaded_queue@, self.being_loaded_queue@),
            loading_operation.kind() != LoadOperationType::LoadNext
                && loading_operation.kind() != LoadOperationType::LoadPrevious ==> !r,
            loading_operation.kind() == LoadOperationType::LoadNext && self.current_offset == -(self.cache_count as int)
                ==> r,
            loading_operation.kind() == LoadOperationType::LoadPrevious && self.current_offset == self.cache_count ==> r,
            -(self.cache_count as int) < self.current_offset < self.cache_count ==> !r,
    {
        match loading_operation {
            LoadOperation::LoadNext(_) => {
                if self.current_offset == -(self.cache_count as isize) {
                    return true;
                }
                if self.current_offset == self.cache_count as isize {
                    if loading_status.being_loaded_queue.len() == 0 {
                        return false;
                    }
                    let k = loading_status.being_loaded_queue[0].operation_type();
                    if k == LoadOperationType::LoadPrevious || k == LoadOperationType::ShiftPrevious {
                        return true;
                    }
                }
            },
            LoadOperation::LoadPrevious(_) => {
                if self.current_offset == self.cache_count as isize {
                    return true;
                }
                if self.current_offset == -(self.cache_count as isize) {
                    if self.being_loaded_queue.len() > 0 {
                        let k = self.being_loaded_queue[0].operation_type();
                        if k == LoadOperationType::LoadNext || k == LoadOperationType::ShiftNext {
                            return true;
                        }
                    }
                }
            },
            _ => {},
        }
        false
    }

    pub fn _set_compression_strategy(&mut self, strategy: CompressionStrategy)
        ensures
            final(self).compression_strategy == strategy,
            final(self).cached_data@ == old(self).cached_data@,
            final(self).cached_metadata@ == old(self).cached_metadata@,
            final(self).cached_image_indices@ == old(self).cached_image_indices@,
            final(self).current_offset == old(self).current_offset,
            final(self).image_paths@ == old(self).image_paths@,
            final(self).current_index == old(self).current_index,
            final(self).cache_count == old(self).cache_count,
    {
        self.compression_strategy = strategy;
    }
}

/// When a new operation of kind `kind` must wait: a `LoadNext` at the first window position,
/// or at the last one while the global in-flight queue starts with a backward operation; a
/// `LoadPrevious` at the last window position, or at the first one while the cache's own
/// in-flight queue starts with a forward operation.
pub open spec fn blocks(
    offset: int,
    cache_count: int,
    kind: LoadOperationType,
    global_in_flight: Seq<LoadOperation>,
    own_in_flight: Seq<LoadOperation>,
) -> bool {
    if kind == LoadOperationType::LoadNext {
        offset == -cache_count || (offset == cache_count && global_in_flight.len() > 0
            && (global_in_flight[0].kind() == LoadOperationType::LoadPrevious
                || global_in_flight[0].kind() == LoadOperationType::ShiftPrevious))
    } else if kind == LoadOperationType::LoadPrevious {
        offset == cache_count || (offset == -cache_count && own_in_flight.len() > 0
            && (own_in_flight[0].kind() == LoadOperationType::LoadNext
                || own_in_flight[0].kind() == LoadOperationType::ShiftNext))
    } else {
        false
    }
}

/// First and one-past-last image index the window covers when the cache is filled
/// around `cur` (`len` paths, `c` images on each side).
pub open spec fn initial_window(len: int, c: int, cur: int) -> (int, int) {
    if cur <= c {
        (0, 2 * c + 1)
    } else if cur > (len - 1) - c {
        (len - 2 * c - 1, len)
    } else {
        (cur - c, cur + c + 1)
    }
}

/// The offset of the current image once the window is filled around `cur`; in the
/// middle of the list the offset is left as it was.
pub open spec fn initial_offset(len: int, c: int, cur: int, old_offset: int) -> int {
    if cur <= c {
        -(c - cur)
    } else if cur > (len - 1) - c {
        c - ((len - 1) - cur)
    } else {
        old_offset
    }
}

/// The first slot whose image index is not negative.
pub open spec fn plan_low(start: int) -> int {
    if start < 0 { -start } else { 0 }
}

/// One past the last slot whose image index lies before `len`.
pub open spec fn plan_high(start: int, end: int, len: int) -> int {
    if end - start < len - start { end - start } else { len - start }
}

/// The number of (slot, image index) pairs the initial fill loads.
pub open spec fn plan_len(start: int, end: int, len: int) -> int {
    if plan_high(start, end, len) > plan_low(start) { plan_high(start, end, len) - plan_low(start) } else { 0 }
}

/// Filling a fresh window (offset 0) centres it on the current image: the slot that offset
/// shows, `c` plus the new offset, holds the current image, that slot is among the loaded
/// ones, and the window spans `2 * c + 1` consecutive images, so slot `k` holds image
/// `cur - shown + k`.
pub proof fn lemma_initial_plan_centred(len: int, c: int, cur: int)
    requires
        0 <= cur < len,
        0 <= c,
        cur <= c || len - 1 >= c,
    ensures
        ({
            let (start, end) = initial_window(len, c, cur);
            let shown = c + initial_offset(len, c, cur, 0);
            &&& 0 <= shown < 2 * c + 1
            &&& start + shown == cur
            &&& end - start == 2 * c + 1
            &&& plan_low(start) <= shown < plan_high(start, end, len)
        }),
{
}

/// The slot of the current image, and its offset, when only that image is loaded.
pub open spec fn single_slot(len: int, c: int, cur: int) -> (int, int) {
    if cur <= c {
        (cur, -(c - cur))
    } else if cur > (len - 1) - c {
        (c + (c - ((len - 1) - cur)), c - ((len - 1) - cur))
    } else {
        (c, 0)
    }
}

/// The slot of the image at slider position `pos`, and the offset it gets.
pub open spec fn slider_slot(len: int, c: int, pos: int) -> (int, int) {
    if pos < c {
        (pos, -(c - pos))
    } else if pos >= len - c {
        (c + (c - ((len - 1) - pos)), c - ((len - 1) - pos))
    } else {
        (c, 0)
    }
}

impl<T> ImageCache<T> {
    /// Sets the offset for filling the window around the current image and returns the
    /// (slot, image index) pairs to load, in slot order: the slots whose image index lies
    /// between 0 and the last path.
    pub fn initial_load_plan(&mut self) -> (r: Vec<(usize, usize)>)
        requires
            old(self).image_paths@.len() > 0,
            old(self).current_index <= old(self).cache_count
                || old(self).image_paths@.len() - 1 >= old(self).cache_count,
            old(self).image_paths@.len() + 2 * old(self).cache_count + 1 <= isize::MAX,
            old(self).current_index + old(self).cache_count + 1 <= isize::MAX,
        ensures
            ({
                let len = old(self).image_paths@.len() as int;
                let c = old(self).cache_count as int;
                let cur = old(self).current_index as int;
                let (start, end) = initial_window(len, c, cur);
                &&& final(self).current_offset == initial_offset(len, c, cur, old(self).current_offset as int)
                &&& r@.len() == plan_len(start, end, len)
                &&& forall|k: int| 0 <= k < r@.len() ==> #[trigger] r@[k]
                    == ((plan_low(start) + k) as usize, (start + plan_low(start) + k) as usize)
            }),
            old(self).current_offset == 0 && old(self).current_index < old(self).image_paths@.len() ==> {
                let shown = old(self).cache_count + final(self).current_offset;
                &&& r@.contains((shown as usize, old(self).current_index))
                &&& forall|k: int| 0 <= k < r@.len() ==> #[trigger] r@[k].1 + shown == r@[k].0 + old(self).current_index
            },
            final(self).cached_data@ == old(self).cached_data@,
            final(self).cached_metadata@ == old(self).cached_metadata@,
            final(self).cached_image_indices@ == old(self).cached_image_indices@,
            final(self).same_frame(old(self)),
    {
        let ghost old_offset = self.current_offset as int;
        let len = self.image_paths.len();
        let c = self.cache_count;
        let cur = self.current_index;
        let start: isize;
        let end: isize;
        if cur <= c {
            start = 0;
            end = (c * 2 + 1) as isize;
            self.current_offset = -(c as isize - cur as isize);
        } else if cur > (len - 1) - c {
            start = len as isize - c as isize * 2 - 1;
            end = len as isize;
            self.current_offset = c as isize - ((len - 1) as isize - cur as isize);
        } else {
            start = cur as isize - c as isize;
            end = cur as isize + c as isize + 1;
        }
        let ghost lo = plan_low(start as int);
        let ghost hi = plan_high(start as int, end as int, len as int);
        let mut r: Vec<(usize, usize)> = Vec::new();
        let mut i: isize = 0;
        while i < end - start
            invariant
                0 <= i <= end - start,
                end - start <= 2 * c + 1,
                start + i <= isize::MAX,
                len as int + 2 * c + 1 <= isize::MAX,
                start >= -(2 * c as int + 1),
                lo == plan_low(start as int),
                hi == plan_high(start as int, end as int, len as int),
                end <= len as int || start == 0,
                i <= hi,
                r@.len() == (if i > lo { i - lo } else { 0 }),
                forall|k: int| 0 <= k < r@.len() ==> #[trigger] r@[k]
                    == ((lo + k) as usize, (start + lo + k) as usize),
            ensures
                r@.len() == (if hi > lo { hi - lo } else { 0 }),
                forall|k: int| 0 <= k < r@.len() ==> #[trigger] r@[k]
                    == ((lo + k) as usize, (start + lo + k) as usize),
            decreases end - start - i,
        {
            let idx = start + i;
            if idx < 0 {
                i += 1;
                continue;
            }
            if idx > len as isize - 1 {
                break;
            }
            r.push((i as usize, idx as usize));
            i += 1;
        }
        proof {
            if old_offset == 0 && cur < len {
                lemma_initial_plan_centred(len as int, c as int, cur as int);
                let shown = c + self.current_offset;
                let k = shown - lo;
                assert(r@[k] == (shown as usize, cur));
            }
        }
        r
    }

    /// Sets the offset for loading only the current image and returns the slot it goes
    /// to, or `InvalidImageIndex` when the current index lies past the last path.
    pub fn single_image_slot(&mut self) -> (r: Result<usize, CacheError>)
        requires
            old(self).image_paths@.len() > 0,
            old(self).current_index <= old(self).cache_count
                || old(self).image_paths@.len() - 1 >= old(self).cache_count,
            old(self).image_paths@.len() + 2 * old(self).cache_count + 1 <= isize::MAX,
            old(self).current_index + old(self).cache_count + 1 <= isize::MAX,
        ensures
            ({
                let len = old(self).image_paths@.len() as int;
                let c = old(self).cache_count as int;
                let cur = old(self).current_index as int;
                &&& final(self).current_offset == single_slot(len, c, cur).1
                &&& r == (if cur < len { Ok::<usize, CacheError>(single_slot(len, c, cur).0 as usize) }
                    else { Err::<usize, CacheError>(CacheError::InvalidImageIndex) })
                &&& cur < len ==> 0 <= single_slot(len, c, cur).0 < 2 * c + 1
            }),
            r matches Ok(slot) ==> slot == old(self).cache_count + final(self).current_offset
                && (old(self).image_paths@.len() >= 2 * old(self).cache_count + 1 ==> slot <= old(self).current_index
                    && old(self).current_index - slot + 2 * old(self).cache_count + 1 <= old(self).image_paths@.len()),
            old(self).current_index < old(self).image_paths@.len() ==> r is Ok,
            old(self).cache_count < old(self).current_index
                && old(self).current_index + old(self).cache_count < old(self).image_paths@.len()
                ==> final(self).current_offset == 0,
            final(self).cached_data@ == old(self).cached_data@,
            final(self).cached_metadata@ == old(self).cached_metadata@,
            final(self).cached_image_indices@ == old(self).cached_image_indices@,
            final(self).same_frame(old(self)),
    {
        let len = self.image_paths.len();
        let c = self.cache_count;
        let cur = self.current_index;
        let slot: isize;
        if cur <= c {
            slot = cur as isize;
            self.current_offset = -(c as isize - cur as isize);
        } else if cur > (len - 1) - c {
            slot = c as isize + (c as isize - ((len - 1) as isize - cur as isize));
            self.current_offset = c as isize - ((len - 1) as isize - cur as isize);
        } else {
            slot = c as isize;
            self.current_offset = 0;
        }
        if cur < len {
            Ok(slot as usize)
        } else {
            Err(CacheError::InvalidImageIndex)
        }
    }

    /// Puts the full-resolution image at slider position `pos` into its slot, moves the
    /// offset and the current index there, and returns the slot.
    pub fn place_slider_image(&mut self, pos: usize, data: T) -> (r: usize)
        requires
            old(self).wf(),
            pos < old(self).image_paths@.len(),
            pos >= old(self).cache_count ==> old(self).image_paths@.len() >= old(self).cache_count,
            old(self).image_paths@.len() + 2 * old(self).cache_count + 1 <= isize::MAX,
        ensures
            ({
                let (slot, offset) = slider_slot(old(self).image_paths@.len() as int,
                    old(self).cache_count as int, pos as int);
                &&& r == slot
                &&& 0 <= slot < old(self).window_size()
                &&& final(self).current_offset == offset
                &&& final(self).cached_data@ == old(self).cached_data@.update(slot, Some(data))
                &&& final(self).cached_image_indices@ == old(self).cached_image_indices@.update(slot, pos as isize)
                &&& final(self).current_index == pos
            }),
            r == old(self).cache_count + final(self).current_offset,
            old(self).cache_count <= pos < old(self).image_paths@.len() - old(self).cache_count
                ==> r == old(self).cache_count && final(self).current_offset == 0,
            old(self).image_paths@.len() >= 2 * old(self).cache_count + 1 ==> r <= pos
                && pos - r + 2 * old(self).cache_count + 1 <= old(self).image_paths@.len(),
            final(self).cached_data@[r as int] matches Some(d) && d == data,
            final(self).cached_image_indices@[r as int] == pos as isize,
            final(self).wf(),
            final(self).cached_metadata@ == old(self).cached_metadata@,
            final(self).image_paths@ == old(self).image_paths@,
            final(self).cache_count == old(self).cache_count,
            final(self).num_files == old(self).num_files,
    {
        let len = self.image_paths.len();
        let c = self.cache_count;
        let target: usize;
        if pos < c {
            target = pos;
            self.current_offset = -(c as isize - pos as isize);
        } else if pos >= len - c {
            target = c + (c as isize - ((len - 1) as isize - pos as isize)) as usize;
            self.current_offset = c as isize - ((len - 1) as isize - pos as isize);
        } else {
            target = c;
            self.current_offset = 0;
        }
        self.cached_data.set(target, Some(data));
        self.cached_image_indices.set(target, pos as isize);
        self.current_index = pos;
        target
    }
}

/// The (image index, slot) pairs the slider loads around position `pos`: the whole first
/// window near the start, the whole last window near the end, and otherwise the
/// neighbours at distance 1, 2, ... on both sides.
pub open spec fn slider_targets(pos: int, c: int, len: int) -> Seq<Option<(isize, usize)>> {
    if pos < c {
        Seq::new((2 * c + 1) as nat, |i: int| Some((i as isize, i as usize)))
    } else if pos >= len - c {
        Seq::new((2 * c + 1) as nat, |i: int| Some(((len - (2 * c + 1) + i) as isize, i as usize)))
    } else {
        Seq::new((2 * c) as nat, |k: int|
            if k % 2 == 0 {
                Some(((pos + k / 2 + 1) as isize, (c + k / 2 + 1) as usize))
            } else {
                Some(((pos - k / 2 - 1) as isize, (c - k / 2 - 1) as usize))
            })
    }
}

/// The load targets for the slider at position `pos`, as the slider's batched load asks for them.
pub fn slider_load_targets(pos: usize, cache_count: usize, num_paths: usize) -> (r: Vec<Option<(isize, usize)>>)
    requires
        pos >= cache_count ==> num_paths >= cache_count,
        pos >= cache_count && pos >= num_paths - cache_count ==> num_paths >= 2 * cache_count + 1,
        num_paths + 2 * cache_count + 1 <= isize::MAX,
        pos + cache_count + 1 <= isize::MAX,
    ensures
        r@ == slider_targets(pos as int, cache_count as int, num_paths as int),
{
    let c = cache_count;
    let last_index = c * 2 + 1;
    let mut r: Vec<Option<(isize, usize)>> = Vec::new();
    if pos < c {
        let mut i: usize = 0;
        while i < last_index
            invariant
                last_index == 2 * c + 1,
                last_index <= isize::MAX,
                i <= last_index,
                r@ == Seq::new(i as nat, |j: int| Some((j as isize, j as usize))),
            decreases last_index - i,
        {
            r.push(Some((i as isize, i)));
            i += 1;
            proof {
                assert(r@ =~= Seq::new(i as nat, |j: int| Some((j as isize, j as usize))));
            }
        }
    } else if pos >= num_paths - c {
        let mut i: usize = 0;
        while i < last_index
            invariant
                last_index == 2 * c + 1,
                num_paths >= last_index,
                num_paths + last_index <= isize::MAX,
                i <= last_index,
                r@ == Seq::new(i as nat, |j: int| Some(((num_paths - last_index + j) as isize, j as usize))),
            decreases last_index - i,
        {
            r.push(Some(((num_paths - last_index + i) as isize, i)));
            i += 1;
            proof {
                assert(r@ =~= Seq::new(i as nat,
                    |j: int| Some(((num_paths - last_index + j) as isize, j as usize))));
            }
        }
    } else {
        let center_index = c;
        let mut i: usize = 0;
        while i < c
            invariant
                c <= pos,
                pos < num_paths - c,
                num_paths + 2 * c + 1 <= isize::MAX,
                center_index == c,
                i <= c,
                r@ == Seq::new((2 * i) as nat, |k: int|
                    if k % 2 == 0 {
                        Some(((pos + k / 2 + 1) as isize, (c + k / 2 + 1) as usize))
                    } else {
                        Some(((pos - k / 2 - 1) as isize, (c - k / 2 - 1) as usize))
                    }),
            decreases c - i,
        {
            let next_image_index = pos + i + 1;
            let prev_raw = pos as isize - i as isize - 1;
            let prev_image_index = if prev_raw > 0 { prev_raw } else { 0 };
            if next_image_index < num_paths {
                r.push(Some((next_image_index as isize, center_index + i + 1)));
            }
            if prev_image_index >= 0 {
                r.push(Some((prev_image_index as isize, center_index - i - 1)));
            }
            i += 1;
            proof {
                assert(r@ =~= Seq::new((2 * i) as nat, |k: int|
                    if k % 2 == 0 {
                        Some(((pos + k / 2 + 1) as isize, (c + k / 2 + 1) as usize))
                    } else {
                        Some(((pos - k / 2 - 1) as isize, (c - k / 2 - 1) as usize))
                    }));
            }
        }
    }
    r
}

/// The image a slider load target names, and the slot it fills.
pub open spec fn target_image(t: Option<(isize, usize)>) -> int {
    match t {
        Some(p) => p.0 as int,
        None => -1,
    }
}

/// The slot a slider load target fills.
pub open spec fn target_slot(t: Option<(isize, usize)>) -> int {
    match t {
        Some(p) => p.1 as int,
        None => -1,
    }
}

/// Whatever the position, each slider load target fills a slot of a window of `2 * c + 1`.
pub proof fn lemma_slider_slots_in_window(pos: int, c: int, len: int)
    requires
        0 <= c,
        2 * c + 1 <= usize::MAX,
    ensures
        forall|k: int| 0 <= k < slider_targets(pos, c, len).len() ==> {
            let t = #[trigger] slider_targets(pos, c, len)[k];
            &&& t is Some
            &&& 0 <= target_slot(t) <= 2 * c
        },
{
    let s = slider_targets(pos, c, len);
    assert forall|k: int| 0 <= k < s.len() implies {
        let t = #[trigger] s[k];
        &&& t is Some
        &&& 0 <= target_slot(t) <= 2 * c
    } by {
        if !(pos < c || pos >= len - c) {
            assert(k / 2 < c);
        }
    }
}

/// When the window fits in the list, each slider load target names an image of the list and
/// a slot of the window, and no two targets fill the same slot.
pub proof fn lemma_slider_targets_valid(pos: int, c: int, len: int)
    requires
        0 <= c,
        0 <= pos < len,
        2 * c + 1 <= len <= isize::MAX,
    ensures
        forall|k: int| 0 <= k < slider_targets(pos, c, len).len() ==> {
            let t = #[trigger] slider_targets(pos, c, len)[k];
            &&& t is Some
            &&& 0 <= target_image(t) < len
            &&& 0 <= target_slot(t) <= 2 * c
        },
        forall|a: int, b: int| 0 <= a < b < slider_targets(pos, c, len).len() ==>
            target_slot(#[trigger] slider_targets(pos, c, len)[a])
                != target_slot(#[trigger] slider_targets(pos, c, len)[b]),
{
    let s = slider_targets(pos, c, len);
    assert forall|k: int| 0 <= k < s.len() implies {
        let t = #[trigger] s[k];
        &&& t is Some
        &&& 0 <= target_image(t) < len
        &&& 0 <= target_slot(t) <= 2 * c
    } by {
        if pos < c || pos >= len - c {
        } else if k % 2 == 0 {
            assert(k / 2 < c);
        } else {
            assert(k / 2 < c);
        }
    }
    assert forall|a: int, b: int| 0 <= a < b < s.len() implies
        target_slot(#[trigger] s[a]) != target_slot(#[trigger] s[b]) by {
        if pos < c || pos >= len - c {
        } else {
            assert(a / 2 < c && b / 2 < c);
            if a % 2 == b % 2 {
                assert(a / 2 != b / 2);
            }
        }
    }
}

/// Moving the window forward and then back, handing back the slot that fell out,
/// restores the slots.
pub proof fn lemma_shift_left_then_right<A>(s: Seq<A>, item: A)
    requires
        s.len() > 0,
    ensures
        shifted_right(shifted_left(s, item), s[0]) == s,
        shifted_left(s, item).len() == s.len(),
{
    assert(shifted_right(shifted_left(s, item), s[0]) =~= s);
}

/// Moving the window back and then forward, handing back the slot that fell out,
/// restores the slots.
pub proof fn lemma_shift_right_then_left<A>(s: Seq<A>, item: A)
    requires
        s.len() > 0,
    ensures
        shifted_left(shifted_right(s, item), s.last()) == s,
        shifted_right(s, item).len() == s.len(),
{
    assert(shifted_left(shifted_right(s, item), s.last()) =~= s);
}

/// A window of consecutive image indices stays consecutive, and keeps its size, when it
/// moves in either direction.
pub proof fn lemma_shifts_keep_contiguous(ind: Seq<isize>)
    requires
        contiguous(ind),
        ind.len() > 1,
        ind.last() < isize::MAX,
        ind[0] > isize::MIN,
    ensures
        contiguous(shifted_left_indices(ind)),
        contiguous(shifted_right_indices(ind)),
        shifted_left_indices(ind).len() == ind.len(),
        shifted_right_indices(ind).len() == ind.len(),
        shifted_left_indices(ind).last() == ind.last() + 1,
        shifted_right_indices(ind)[0] == ind[0] - 1,
{
    let l = shifted_left_indices(ind);
    let r = shifted_right_indices(ind);
    assert forall|i: int| 0 <= i < l.len() - 1 implies #[trigger] l[i + 1] == l[i] + 1 by {
        if i + 1 < l.len() - 1 {
            assert(l[i + 1] == ind[i + 2]);
            assert(l[i] == ind[i + 1]);
        } else {
            assert(l[i] == ind[i + 1]);
        }
    }
    assert forall|i: int| 0 <= i < r.len() - 1 implies #[trigger] r[i + 1] == r[i] + 1 by {
        if i == 0 {
            assert(r[1] == ind[0]);
            assert(ind[1] == ind[0] + 1);
        } else {
            assert(r[i] == ind[i - 1]);
            assert(r[i + 1] == ind[i]);
            assert(ind[(i - 1) + 1] == ind[i - 1] + 1);
        }
    }
}

/// On consecutive indices, moving the window forward and back (or back and forward)
/// restores the indices.
pub proof fn lemma_shift_indices_inverse(ind: Seq<isize>)
    requires
        contiguous(ind),
        ind.len() > 1,
        ind.last() < isize::MAX,
        ind[0] > isize::MIN,
    ensures
        shifted_right_indices(shifted_left_indices(ind)) == ind,
        shifted_left_indices(shifted_right_indices(ind)) == ind,
{
    let l = shifted_left_indices(ind);
    assert(l[0] == ind[1]);
    assert(ind[0int + 1] == ind[0] + 1);
    assert(shifted_right_indices(l) =~= ind);
    let r = shifted_right_indices(ind);
    assert(r.drop_first() =~= ind.drop_last());
    assert(ind[(ind.len() - 2) + 1] == ind[ind.len() - 2] + 1);
    assert(shifted_left_indices(r) =~= ind);
}

impl<T> ImageCache<T> {
    /// A cache with no paths, no slots and empty queues.
    pub open spec fn is_empty_cache(&self) -> bool {
        &&& self.image_paths@.len() == 0
        &&& self.num_files == 0
        &&& self.current_index == 0
        &&& self.current_offset == 0
        &&& self.cache_count == 0
        &&& self.cached_image_indices@.len() == 0
        &&& self.cache_states@.len() == 0
        &&& self.loading_queue@.len() == 0
        &&& self.being_loaded_queue@.len() == 0
        &&& self.cached_data@.len() == 0
        &&& self.cached_metadata@.len() == 0
        &&& self.compression_strategy == CompressionStrategy::Uncompressed
    }
}

impl<T> Default for ImageCache<T> {
    fn default() -> (r: Self)
        ensures
            r.is_empty_cache(),
    {
        ImageCache {
            image_paths: Vec::new(),
            num_files: 0,
            current_index: 0,
            current_offset: 0,
            cache_count: 0,
            cached_image_indices: Vec::new(),
            cache_states: Vec::new(),
            loading_queue: VecDeque::new(),
            being_loaded_queue: VecDeque::new(),
            cached_data: Vec::new(),
            cached_metadata: Vec::new(),
            compression_strategy: CompressionStrategy::Uncompressed,
        }
    }
}

/// The backend that keeps images as encoded bytes in memory.
#[derive(Debug, Clone, Copy)]
pub struct CpuImageCache;

impl CpuImageCache {
    pub fn new() -> (r: Self)
        ensures
            r == CpuImageCache,
    {
        CpuImageCache
    }
}

} // verus!
