use vstd::prelude::*;
use crate::img_cache::{CompressionStrategy, PathSource};
use crate::pane::{Pane, PaneLayout, get_master_slider_value, is_largest_dir, no_loaded_files, resize_panes};
use crate::archive::{sort_archive_paths, sorted_by_name, spec_natural_order, display_names};
use crate::file_io::{get_file_index, spec_file_name};
use crate::img_cache::ImageCache;

verus! {

/// The image index the shared slider shows: that of the pane with the most files (the first
/// of them on a tie), or of the first pane when no loaded pane has any.
pub open spec fn master_index<T>(panes: Seq<Pane<T>>) -> usize {
    if no_loaded_files(panes) {
        panes[0].img_cache.current_index
    } else {
        panes[choose|i: int| is_largest_dir(panes, i)].img_cache.current_index
    }
}

proof fn lemma_largest_dir_unique<T>(panes: Seq<Pane<T>>, i: int, j: int)
    requires
        is_largest_dir(panes, i),
        is_largest_dir(panes, j),
    ensures
        i == j,
{
    if i < j {
        assert(panes[i].img_cache.num_files < panes[j].img_cache.num_files);
    } else if j < i {
        assert(panes[j].img_cache.num_files < panes[i].img_cache.num_files);
    }
}

fn master_slider_index<T>(panes: &Vec<Pane<T>>, pane_layout: &PaneLayout, is_slider_dual: bool, last_opened_pane: usize)
    -> (r: usize)
    requires
        panes@.len() > 0,
    ensures
        r == master_index(panes@),
{
    let r = get_master_slider_value(panes, pane_layout, is_slider_dual, last_opened_pane);
    proof {
        if !no_loaded_files(panes@) {
            let i = choose|i: int| is_largest_dir(panes@, i) && r == panes@[i].img_cache.current_index;
            let c = choose|i: int| is_largest_dir(panes@, i);
            lemma_largest_dir_unique(panes@, i, c);
        }
    }
    r
}

/// A pane as the single slider takes it over: selected, its selection kept aside, and both
/// neighbours counted as not yet shown.
pub open spec fn joined_slider<T>(p: Pane<T>) -> Pane<T> {
    Pane { is_selected_cache: p.is_selected, is_selected: true, is_next_image_loaded: false,
        is_prev_image_loaded: false, ..p }
}

/// A pane as it gets a slider of its own: the slider at its image, its earlier selection back.
pub open spec fn split_slider<T>(p: Pane<T>) -> Pane<T> {
    Pane { slider_value: p.img_cache.current_index as u16, is_selected: p.is_selected_cache, ..p }
}

/// Switches between one slider for all panes and one slider per pane. To one slider: every
/// pane is selected (its selection kept aside), its neighbours count as not shown, and the
/// shared slider goes to the image of the pane with the most files. To a slider per pane:
/// each slider goes to its pane's image and each pane's earlier selection comes back.
pub fn toggle_slider_type<T>(panes: &mut Vec<Pane<T>>, is_slider_dual: &mut bool, slider_value: &mut u16,
    pane_layout: &PaneLayout, last_opened_pane: usize)
    requires
        *old(is_slider_dual) ==> old(panes)@.len() > 0,
    ensures
        *final(is_slider_dual) == !*old(is_slider_dual),
        final(panes)@.len() == old(panes)@.len(),
        *old(is_slider_dual) ==> {
            &&& forall|i: int| 0 <= i < old(panes)@.len() ==> #[trigger] final(panes)@[i] == joined_slider(old(panes)@[i])
            &&& *final(slider_value) == master_index(old(panes)@) as u16
        },
        !*old(is_slider_dual) ==> {
            &&& forall|i: int| 0 <= i < old(panes)@.len() ==> #[trigger] final(panes)@[i] == split_slider(old(panes)@[i])
            &&& *final(slider_value) == *old(slider_value)
        },
{
    let ghost before = panes@;
    let mut i: usize = 0;
    if *is_slider_dual {
        // The panes' files and positions do not change below, so the master image is read first.
        let master = master_slider_index(panes, pane_layout, *is_slider_dual, last_opened_pane);
        while i < panes.len()
            invariant
                i <= panes@.len(),
                panes@.len() == before.len(),
                forall|k: int| 0 <= k < i ==> #[trigger] panes@[k] == joined_slider(before[k]),
                forall|k: int| i <= k < panes@.len() ==> #[trigger] panes@[k] == before[k],
            decreases panes@.len() - i,
        {
            let mut p = panes.remove(i);
            p.is_selected_cache = p.is_selected;
            p.is_selected = true;
            p.is_next_image_loaded = false;
            p.is_prev_image_loaded = false;
            panes.insert(i, p);
            i += 1;
        }
        *slider_value = #[verifier::truncate] (master as u16);
    } else {
        while i < panes.len()
            invariant
                i <= panes@.len(),
                panes@.len() == before.len(),
                forall|k: int| 0 <= k < i ==> #[trigger] panes@[k] == split_slider(before[k]),
                forall|k: int| i <= k < panes@.len() ==> #[trigger] panes@[k] == before[k],
            decreases panes@.len() - i,
        {
            let mut p = panes.remove(i);
            p.slider_value = #[verifier::truncate] (p.img_cache.current_index as u16);
            p.is_selected = p.is_selected_cache;
            panes.insert(i, p);
            i += 1;
        }
    }
    *is_slider_dual = !*is_slider_dual;
}

/// Switches between one pane and two: to one, the panes beyond the first go, and coming
/// from two the shared slider goes to the image of the pane with the most files and the
/// remaining pane is selected; to two, a fresh second pane is added when there is only one
/// (with the first pane's compression). The list is cut or grown to the new number of panes.
pub fn toggle_pane_layout<T>(panes: &mut Vec<Pane<T>>, current_layout: &mut PaneLayout, new_layout: PaneLayout,
    slider_value: &mut u16, is_slider_dual: bool, last_opened_pane: usize)
    ensures
        *final(current_layout) == new_layout,
        ({
            let n: int = if new_layout == PaneLayout::SinglePane { 1 } else { 2 };
            let template = if old(panes)@.len() > 0 { old(panes)@[0].compression_strategy }
                else { CompressionStrategy::Uncompressed };
            &&& final(panes)@.len() == n
            &&& forall|i: int| 0 <= i < n && i < old(panes)@.len() && !(i == 0 && new_layout == PaneLayout::SinglePane
                && *old(current_layout) == PaneLayout::DualPane) ==> #[trigger] final(panes)@[i] == old(panes)@[i]
            &&& forall|i: int| old(panes)@.len() <= i < n ==> (#[trigger] final(panes)@[i]).is_fresh(i as usize, template)
        }),
        new_layout == PaneLayout::SinglePane && *old(current_layout) == PaneLayout::DualPane ==> {
            let kept = if old(panes)@.len() > 0 { old(panes)@[0] } else { final(panes)@[0] };
            &&& *final(slider_value) == master_index(seq![kept]) as u16
            &&& final(panes)@[0] == Pane { is_selected: true, ..kept }
        },
        !(new_layout == PaneLayout::SinglePane && *old(current_layout) == PaneLayout::DualPane)
            ==> *final(slider_value) == *old(slider_value),
{
    let template = if panes.len() > 0 { Some(panes[0].compression_strategy) } else { None };
    let ghost before = panes@;
    match new_layout {
        PaneLayout::SinglePane => {
            resize_panes(panes, 1, template);
            if *current_layout == PaneLayout::DualPane {
                let ghost kept = panes@[0];
                proof {
                    assert(panes@ =~= seq![kept]);
                }
                let master = master_slider_index(panes, &new_layout, is_slider_dual, last_opened_pane);
                *slider_value = #[verifier::truncate] (master as u16);
                let mut p = panes.remove(0);
                p.is_selected = true;
                panes.insert(0, p);
            }
        },
        PaneLayout::DualPane => {
            resize_panes(panes, 2, template);
        },
    }
    *current_layout = new_layout;
}

/// The window title: in one pane the name of its current image (or `title` when no folder
/// is open); in two, "Left: NAME | Right: NAME" (or "Top" and "Bottom" for a horizontal
/// split), with "No File" for a pane without folder.
pub open spec fn spec_window_title<T>(panes: Seq<Pane<T>>, layout: PaneLayout, is_horizontal_split: bool,
    title: Seq<char>) -> Seq<char> {
    let name = |p: Pane<T>| if p.dir_loaded {
        p.img_cache.image_paths@[p.img_cache.current_index as int].spec_display_name()
    } else {
        "No File"@
    };
    match layout {
        PaneLayout::SinglePane => if panes[0].dir_loaded { name(panes[0]) } else { title },
        PaneLayout::DualPane => {
            let (first, second) = if is_horizontal_split { ("Top"@, "Bottom"@) } else { ("Left"@, "Right"@) };
            first + ": "@ + name(panes[0]) + " | "@ + second + ": "@ + name(panes[1])
        },
    }
}

/// A loaded pane's current index names one of its paths.
pub open spec fn shows_a_path<T>(p: Pane<T>) -> bool {
    p.dir_loaded ==> p.img_cache.current_index < p.img_cache.image_paths@.len()
}

fn pane_file_name<T>(p: &Pane<T>) -> (r: String)
    requires
        shows_a_path(*p),
    ensures
        r@ == if p.dir_loaded {
            p.img_cache.image_paths@[p.img_cache.current_index as int].spec_display_name()
        } else {
            "No File"@
        },
{
    if p.dir_loaded {
        p.img_cache.image_paths[p.img_cache.current_index].file_name()
    } else {
        String::from_str("No File")
    }
}

/// The window title, as `spec_window_title` states it.
pub fn window_title<T>(panes: &Vec<Pane<T>>, layout: &PaneLayout, is_horizontal_split: bool, title: &String)
    -> (r: String)
    requires
        panes@.len() >= if *layout == PaneLayout::DualPane { 2int } else { 1int },
        forall|i: int| 0 <= i < panes@.len() ==> shows_a_path(#[trigger] panes@[i]),
    ensures
        r@ == spec_window_title(panes@, *layout, is_horizontal_split, title@),
        *layout == PaneLayout::SinglePane && !panes@[0].dir_loaded ==> r@ == title@,
        *layout == PaneLayout::DualPane && !is_horizontal_split ==> r@.take(6) == "Left: "@,
        *layout == PaneLayout::DualPane && is_horizontal_split ==> r@.take(5) == "Top: "@,
{
    proof {
        reveal_strlit("Left: ");
        reveal_strlit("Left");
        reveal_strlit(": ");
        reveal_strlit("Top: ");
        reveal_strlit("Top");
    }
    match layout {
        PaneLayout::SinglePane => {
            if panes[0].dir_loaded {
                pane_file_name(&panes[0])
            } else {
                title.clone()
            }
        },
        PaneLayout::DualPane => {
            let (first, second) = if is_horizontal_split { ("Top", "Bottom") } else { ("Left", "Right") };
            let mut s = String::from_str(first);
            s.append(": ");
            s.append(pane_file_name(&panes[0]).as_str());
            s.append(" | ");
            s.append(second);
            s.append(": ");
            s.append(pane_file_name(&panes[1]).as_str());
            s
        },
    }
}

/// The panes that a change of cache or compression strategy reopens: those with a folder
/// open, in order.
pub open spec fn reopened<T>(panes: Seq<Pane<T>>, n: int) -> Seq<usize>
    decreases n,
{
    if n <= 0 {
        Seq::empty()
    } else {
        let rest = reopened(panes, n - 1);
        let p = panes[n - 1];
        if p.dir_loaded && p.directory_path is Some { rest.push((n - 1) as usize) } else { rest }
    }
}

/// The positions of the panes to reopen after the cache or compression strategy changed.
pub fn panes_to_reinitialize<T>(panes: &Vec<Pane<T>>) -> (r: Vec<usize>)
    ensures
        r@ == reopened(panes@, panes@.len() as int),
{
    let mut r: Vec<usize> = Vec::new();
    let mut i: usize = 0;
    while i < panes.len()
        invariant
            i <= panes@.len(),
            r@ == reopened(panes@, i as int),
        decreases panes@.len() - i,
    {
        if panes[i].dir_loaded && panes[i].directory_path.is_some() {
            r.push(i);
        }
        i += 1;
    }
    r
}

/// A pane shows slider position `pos` from a file: it has a folder open and a path there.
pub open spec fn slider_shows<T>(p: Pane<T>, pos: int) -> bool {
    p.dir_loaded && p.img_cache.image_paths@.len() > 0 && pos < p.img_cache.image_paths@.len()
}

/// The file a pane reads for slider position `pos`: its position in the list of panes, the
/// path at `pos`, and whether that path lies inside the pane's archive.
pub open spec fn slider_read<T>(p: Pane<T>, i: int, pos: int) -> (usize, PathSource, bool) {
    (i as usize, p.img_cache.image_paths@[pos], p.has_compressed_file)
}

/// The files the first `n` panes read for the shared slider at `pos`, pane by pane.
pub open spec fn shared_slider_reads<T>(panes: Seq<Pane<T>>, pos: int, n: int) -> Seq<(usize, PathSource, bool)>
    decreases n,
{
    if n <= 0 {
        Seq::empty()
    } else {
        let rest = shared_slider_reads(panes, pos, n - 1);
        if slider_shows(panes[n - 1], pos) { rest.push(slider_read(panes[n - 1], n - 1, pos)) } else { rest }
    }
}

/// The files to read when a slider moves to `pos`: for the shared slider (`pane_index` -1)
/// one per pane that can show the position; for a pane's own slider, that pane's file if it
/// can show it; nothing for an index that names no pane.
pub open spec fn spec_slider_reads<T>(panes: Seq<Pane<T>>, pane_index: isize, pos: int) -> Seq<(usize, PathSource, bool)> {
    if pane_index == -1 {
        shared_slider_reads(panes, pos, panes.len() as int)
    } else if 0 <= pane_index < panes.len() && slider_shows(panes[pane_index as int], pos) {
        seq![slider_read(panes[pane_index as int], pane_index as int, pos)]
    } else {
        Seq::empty()
    }
}

/// The files to read, with the pane that shows each, when a slider moves to `pos`.
pub fn slider_reads<T>(panes: &Vec<Pane<T>>, pane_index: isize, pos: usize) -> (r: Vec<(usize, PathSource, bool)>)
    ensures
        r@ == spec_slider_reads(panes@, pane_index, pos as int),
{
    let mut r: Vec<(usize, PathSource, bool)> = Vec::new();
    if pane_index == -1 {
        let mut i: usize = 0;
        while i < panes.len()
            invariant
                i <= panes@.len(),
                r@ == shared_slider_reads(panes@, pos as int, i as int),
            decreases panes@.len() - i,
        {
            let p = &panes[i];
            if p.dir_loaded && p.img_cache.image_paths.len() > 0 && pos < p.img_cache.image_paths.len() {
                r.push((i, p.img_cache.image_paths[pos].clone(), p.has_compressed_file));
            }
            i += 1;
        }
    } else if pane_index >= 0 && (pane_index as usize) < panes.len() {
        let i = pane_index as usize;
        let p = &panes[i];
        if p.dir_loaded && p.img_cache.image_paths.len() > 0 && pos < p.img_cache.image_paths.len() {
            r.push((i, p.img_cache.image_paths[pos].clone(), p.has_compressed_file));
            proof {
                assert(r@ =~= seq![slider_read(panes@[i as int], i as int, pos as int)]);
            }
        }
    }
    r
}

/// Turns zooming with the mouse wheel on or off in every pane; nothing else changes.
pub fn set_mouse_wheel_zoom<T>(panes: &mut Vec<Pane<T>>, enabled: bool)
    ensures
        final(panes)@.len() == old(panes)@.len(),
        forall|i: int| 0 <= i < old(panes)@.len() ==> #[trigger] final(panes)@[i]
            == (Pane { mouse_wheel_zoom: enabled, ..old(panes)@[i] }),
{
    let mut i: usize = 0;
    while i < panes.len()
        invariant
            i <= panes@.len(),
            panes@.len() == old(panes)@.len(),
            forall|k: int| 0 <= k < i ==> #[trigger] panes@[k] == (Pane { mouse_wheel_zoom: enabled, ..old(panes)@[k] }),
            forall|k: int| i <= k < panes@.len() ==> #[trigger] panes@[k] == old(panes)@[k],
        decreases panes@.len() - i,
    {
        let mut p = panes.remove(i);
        p.mouse_wheel_zoom = enabled;
        panes.insert(i, p);
        i += 1;
    }
}

/// What reading a path that was opened in a pane gave.
pub enum Listing {
    /// An archive, with the image entries found in it.
    Archive(String, Vec<PathSource>),
    /// A folder with its image files in natural order, and the file that was opened, when a
    /// file rather than a folder was opened.
    Folder(String, Vec<String>, Option<String>),
    /// The path could not be read, or held no image.
    Failed,
}

/// `r` is the first position among `files` of a file with the same name as `file`; none when
/// `file` has no name or no such file is there.
pub open spec fn file_index_is(files: Seq<String>, file: Seq<char>, r: Option<usize>) -> bool {
    match spec_file_name(file) {
        None => r is None,
        Some(name) => match r {
            Some(i) => i < files.len() && spec_file_name(files[i as int]@) == Some(name)
                && forall|k: int| 0 <= k < i ==> spec_file_name((#[trigger] files[k])@) != Some(name),
            None => forall|k: int| 0 <= k < files.len() ==> spec_file_name((#[trigger] files[k])@) != Some(name),
        },
    }
}

/// A cache just made over `paths` around `initial`: a window of `2 * cache_count + 1` empty
/// slots, nothing queued.
pub open spec fn fresh_cache<T>(c: ImageCache<T>, paths: Seq<PathSource>, cache_count: usize,
    compression: CompressionStrategy, initial: usize) -> bool {
    &&& c.wf()
    &&& c.image_paths@ == paths
    &&& c.num_files == paths.len()
    &&& c.current_index == initial
    &&& c.current_offset == 0
    &&& c.cache_count == cache_count
    &&& forall|i: int| 0 <= i < c.window_size() ==> #[trigger] c.cached_data@[i] is None
    &&& forall|i: int| 0 <= i < c.window_size() ==> #[trigger] c.cached_image_indices@[i] == -1
    &&& c.loading_queue@.len() == 0
    &&& c.being_loaded_queue@.len() == 0
    &&& c.compression_strategy == compression
}

/// The files of a folder listing, as paths on the filesystem.
pub open spec fn filesystem_paths(files: Seq<String>) -> Seq<PathSource> {
    files.map_values(|f: String| PathSource::Filesystem(f))
}

fn to_filesystem_paths(files: &Vec<String>) -> (r: Vec<PathSource>)
    ensures
        r@ == filesystem_paths(files@),
{
    let mut r: Vec<PathSource> = Vec::new();
    let mut i: usize = 0;
    while i < files.len()
        invariant
            i <= files@.len(),
            r@ == filesystem_paths(files@.subrange(0, i as int)),
        decreases files@.len() - i,
    {
        r.push(PathSource::Filesystem(files[i].clone()));
        i += 1;
        proof {
            assert(filesystem_paths(files@.subrange(0, i as int))
                =~= filesystem_paths(files@.subrange(0, i - 1)).push(PathSource::Filesystem(files@[i - 1])));
        }
    }
    proof {
        assert(files@.subrange(0, files@.len() as int) =~= files@);
    }
    r
}

/// Opens what a listing found in a pane: the cache to fill over its images, around the
/// opened file (or the first image), or none when the listing failed, an archive held no
/// image, or the opened file is not among the folder's images. On success the pane records
/// where its images come from and counts its folder as open; an archive's entries are put in
/// the natural order of their names. A folder records its path before the opened file is
/// looked for, so a missing file leaves the folder's path recorded and nothing else changed.
pub fn begin_dir<T>(pane: &mut Pane<T>, listing: Listing, cache_size: usize, compression: CompressionStrategy)
    -> (r: Option<ImageCache<T>>)
    requires
        2 * cache_size + 1 <= usize::MAX,
    ensures
        match listing {
            Listing::Failed => r is None && *final(pane) == *old(pane),
            Listing::Archive(path, entries) => if entries@.len() == 0 {
                r is None && *final(pane) == *old(pane)
            } else {
                &&& r matches Some(c) && fresh_cache(c,
                    sorted_by_name(entries@, spec_natural_order(display_names(entries@))), cache_size, compression, 0)
                &&& *final(pane) == (Pane { directory_path: Some(path), has_compressed_file: true, dir_loaded: true,
                    ..*old(pane) })
            },
            Listing::Folder(dir, files, opened) => match opened {
                Some(f) => {
                    ||| (r is None && file_index_is(files@, f@, None)
                        && *final(pane) == (Pane { directory_path: Some(dir), ..*old(pane) }))
                    ||| (r matches Some(c) && file_index_is(files@, f@, Some(c.current_index))
                        && fresh_cache(c, filesystem_paths(files@), cache_size, compression, c.current_index)
                        && *final(pane) == (Pane { directory_path: Some(dir), has_compressed_file: false,
                            dir_loaded: true, ..*old(pane) }))
                },
                None => {
                    &&& r matches Some(c) && fresh_cache(c, filesystem_paths(files@), cache_size, compression, 0)
                    &&& *final(pane) == (Pane { directory_path: Some(dir), has_compressed_file: false,
                        dir_loaded: true, ..*old(pane) })
                },
            },
        },
{
    match listing {
        Listing::Failed => None,
        Listing::Archive(path, entries) => {
            if entries.len() == 0 {
                return None;
            }
            let sorted = sort_archive_paths(&entries);
            pane.directory_path = Some(path);
            pane.has_compressed_file = true;
            pane.dir_loaded = true;
            Some(ImageCache::new(sorted.as_slice(), cache_size, compression, 0))
        },
        Listing::Folder(dir, files, opened) => {
            pane.directory_path = Some(dir);
            let initial = match opened {
                Some(f) => match get_file_index(files.as_slice(), &f) {
                    Some(i) => i,
                    None => return None,
                },
                None => 0,
            };
            pane.has_compressed_file = false;
            pane.dir_loaded = true;
            let paths = to_filesystem_paths(&files);
            Some(ImageCache::new(paths.as_slice(), cache_size, compression, initial))
        },
    }
}

/// Finishes opening a folder once the images around the opened one were read into `cache`:
/// when reading them failed the pane keeps its old cache; otherwise the sliders go to the
/// opened image as [`Pane::apply_initial_slider`] states and the pane takes the cache.
pub fn finish_dir<T>(pane: &mut Pane<T>, cache: ImageCache<T>, loaded: bool, slider_value: &mut u16,
    pane_layout: &PaneLayout, is_slider_dual: bool, is_dir_size_bigger: bool)
    ensures
        !loaded ==> *final(pane) == *old(pane) && *final(slider_value) == *old(slider_value),
        loaded ==> {
            let v = cache.current_index as u16;
            &&& final(pane).img_cache == cache
            &&& is_slider_dual ==> *final(slider_value) == v
                && *final(pane) == (Pane { slider_value: v, img_cache: cache, ..*old(pane) })
            &&& !is_slider_dual ==> *final(pane) == (Pane { img_cache: cache, ..*old(pane) })
                && *final(slider_value) == if *pane_layout == PaneLayout::SinglePane || is_dir_size_bigger { v }
                    else { *old(slider_value) }
        },
{
    if !loaded {
        return;
    }
    let initial = cache.current_index;
    pane.apply_initial_slider(slider_value, pane_layout, is_slider_dual, is_dir_size_bigger, initial);
    pane.img_cache = cache;
}

} // verus!
