use vstd::prelude::*;
use crate::coco::{
    AnnotationRef, CocoCategory, CocoImage, DatasetStats, category_label, last_image_with_id, resolve_annotation,
};
use crate::coco_view::{spec_path_join, std_path_join};

verus! {

/// An annotation as the overlays of an image read it: its position among the dataset's
/// annotations, its category id and the label shown for its category.
#[derive(Debug, Clone)]
pub struct ImageAnnotationRef {
    pub annotation_index: usize,
    pub category_id: u64,
    pub category_name: String,
}

/// What the contracts read of an annotation entry.
pub open spec fn entry_view(e: ImageAnnotationRef) -> (usize, u64, Seq<char>) {
    (e.annotation_index, e.category_id, e.category_name@)
}

/// The entries of a list, as the contracts read them.
pub open spec fn entries_view(v: Seq<ImageAnnotationRef>) -> Seq<(usize, u64, Seq<char>)> {
    v.map_values(|e: ImageAnnotationRef| entry_view(e))
}

/// The file an annotation is shown on: that of the last image with its image id.
pub open spec fn annotation_file(images: Seq<CocoImage>, a: AnnotationRef) -> Option<Seq<char>> {
    match last_image_with_id(images, a.image_id) {
        Some(img) => Some(img.file_name@),
        None => None,
    }
}

/// The entries of the annotations shown on `file`, in annotation order.
pub open spec fn annotations_on(images: Seq<CocoImage>, categories: Seq<CocoCategory>, anns: Seq<AnnotationRef>,
    file: Seq<char>) -> Seq<(usize, u64, Seq<char>)>
    decreases anns.len(),
{
    if anns.len() == 0 {
        Seq::empty()
    } else {
        let rest = annotations_on(images, categories, anns.drop_last(), file);
        if annotation_file(images, anns.last()) == Some(file) {
            rest.push(((anns.len() - 1) as usize, anns.last().category_id,
                category_label(categories, anns.last().category_id)))
        } else {
            rest
        }
    }
}

/// The entries for a file name exactly the annotations shown on it: each once, by
/// increasing position, with its own category.
pub proof fn lemma_annotations_on_exact(images: Seq<CocoImage>, categories: Seq<CocoCategory>,
    anns: Seq<AnnotationRef>, f: Seq<char>)
    requires
        anns.len() <= usize::MAX,
    ensures
        ({
            let on = annotations_on(images, categories, anns, f);
            &&& forall|k: int| 0 <= k < on.len() ==> {
                &&& (#[trigger] on[k]).0 < anns.len()
                &&& annotation_file(images, anns[on[k].0 as int]) == Some(f)
                &&& on[k].1 == anns[on[k].0 as int].category_id
                &&& on[k].2 == category_label(categories, anns[on[k].0 as int].category_id)
            }
            &&& forall|a: int, b: int| 0 <= a < b < on.len() ==> (#[trigger] on[a]).0 < (#[trigger] on[b]).0
            &&& forall|i: int| 0 <= i < anns.len() && annotation_file(images, #[trigger] anns[i]) == Some(f)
                ==> exists|k: int| 0 <= k < on.len() && (#[trigger] on[k]).0 == i
        }),
    decreases anns.len(),
{
    if anns.len() > 0 {
        let rest = anns.drop_last();
        lemma_annotations_on_exact(images, categories, rest, f);
        let on = annotations_on(images, categories, anns, f);
        let prev = annotations_on(images, categories, rest, f);
        let n = anns.len() - 1;
        assert forall|k: int| 0 <= k < prev.len() implies (#[trigger] prev[k]).0 < n && anns[prev[k].0 as int] == rest[prev[k].0 as int] by {}
        assert forall|i: int| 0 <= i < anns.len() && annotation_file(images, #[trigger] anns[i]) == Some(f)
            implies exists|k: int| 0 <= k < on.len() && (#[trigger] on[k]).0 == i by {
            if i < n {
                assert(rest[i] == anns[i]);
                let k = choose|k: int| 0 <= k < prev.len() && (#[trigger] prev[k]).0 == i;
                assert(on[k] == prev[k]);
            } else {
                assert(on[on.len() - 1].0 == i);
            }
        }
    }
}

/// No two entries of the map share a file name.
pub open spec fn map_keys_unique(m: Seq<(String, Vec<ImageAnnotationRef>)>) -> bool {
    forall|i: int, j: int| 0 <= i < m.len() && 0 <= j < m.len() && i != j ==> (#[trigger] m[i]).0@ != (#[trigger] m[j]).0@
}

/// The map holds, for each file that some annotation is shown on, the entries of those
/// annotations in order, and holds no other file.
pub open spec fn is_annotation_map(m: Seq<(String, Vec<ImageAnnotationRef>)>, images: Seq<CocoImage>,
    categories: Seq<CocoCategory>, anns: Seq<AnnotationRef>) -> bool {
    &&& map_keys_unique(m)
    &&& forall|i: int| 0 <= i < m.len() ==> {
        &&& entries_view((#[trigger] m[i]).1@) == annotations_on(images, categories, anns, m[i].0@)
        &&& m[i].1@.len() > 0
    }
    &&& forall|f: Seq<char>| #[trigger] annotations_on(images, categories, anns, f).len() > 0
        ==> exists|i: int| 0 <= i < m.len() && (#[trigger] m[i]).0@ == f
}

proof fn lemma_annotations_on_step(images: Seq<CocoImage>, categories: Seq<CocoCategory>, anns: Seq<AnnotationRef>,
    i: int, f: Seq<char>)
    requires
        0 <= i < anns.len(),
    ensures
        annotations_on(images, categories, anns.take(i + 1), f) == if annotation_file(images, anns[i]) == Some(f) {
            annotations_on(images, categories, anns.take(i), f).push((i as usize, anns[i].category_id,
                category_label(categories, anns[i].category_id)))
        } else {
            annotations_on(images, categories, anns.take(i), f)
        },
{
    assert(anns.take(i + 1).drop_last() =~= anns.take(i));
    assert(anns.take(i + 1).last() == anns[i]);
}

proof fn lemma_entries_push(v: Seq<ImageAnnotationRef>, e: ImageAnnotationRef)
    ensures
        entries_view(v.push(e)) == entries_view(v).push(entry_view(e)),
{
    assert(entries_view(v.push(e)) =~= entries_view(v).push(entry_view(e)));
}

/// The position of the map entry for a file name, if there is one.
fn find_entry(m: &Vec<(String, Vec<ImageAnnotationRef>)>, file: &str) -> (r: Option<usize>)
    requires
        map_keys_unique(m@),
    ensures
        match r {
            Some(j) => j < m@.len() && m@[j as int].0@ == file@,
            None => forall|k: int| 0 <= k < m@.len() ==> (#[trigger] m@[k]).0@ != file@,
        },
{
    let wanted = String::from_str(file);
    let mut j: usize = 0;
    while j < m.len()
        invariant
            j <= m@.len(),
            wanted@ == file@,
            forall|k: int| 0 <= k < j ==> (#[trigger] m@[k]).0@ != file@,
        decreases m@.len() - j,
    {
        if m[j].0 == wanted {
            return Some(j);
        }
        j += 1;
    }
    None
}

/// Groups the annotations by the file of the image each one refers to: one entry per file,
/// holding its annotations in order with their category labels; annotations whose image id
/// no image has are left out.
pub fn build_image_annotation_map(images: &Vec<CocoImage>, categories: &Vec<CocoCategory>,
    annotations: &Vec<AnnotationRef>) -> (r: Vec<(String, Vec<ImageAnnotationRef>)>)
    ensures
        is_annotation_map(r@, images@, categories@, annotations@),
{
    let mut m: Vec<(String, Vec<ImageAnnotationRef>)> = Vec::new();
    let mut i: usize = 0;
    proof {
        assert forall|f: Seq<char>| #[trigger] annotations_on(images@, categories@, annotations@.take(0), f).len() == 0 by {
            assert(annotations@.take(0).len() == 0);
        }
    }
    while i < annotations.len()
        invariant
            i <= annotations@.len(),
            is_annotation_map(m@, images@, categories@, annotations@.take(i as int)),
        decreases annotations@.len() - i,
    {
        let ghost before = m@;
        let ghost prefix = annotations@.take(i as int);
        let ghost next = annotations@.take(i + 1);
        let a = annotations[i];
        proof {
            assert forall|f: Seq<char>| #[trigger] annotations_on(images@, categories@, next, f)
                == if annotation_file(images@, a) == Some(f) {
                    annotations_on(images@, categories@, prefix, f).push((i as usize, a.category_id,
                        category_label(categories@, a.category_id)))
                } else {
                    annotations_on(images@, categories@, prefix, f)
                } by {
                lemma_annotations_on_step(images@, categories@, annotations@, i as int, f);
            }
        }
        match resolve_annotation(images, categories, &a) {
            None => {
                proof {
                    assert forall|f: Seq<char>| #[trigger] annotations_on(images@, categories@, next, f)
                        == annotations_on(images@, categories@, prefix, f) by {
                        lemma_annotations_on_step(images@, categories@, annotations@, i as int, f);
                    }
                }
            },
            Some((file, label)) => {
                let ghost key = file@;
                let entry = ImageAnnotationRef { annotation_index: i, category_id: a.category_id, category_name: label };
                let ghost ev = entry_view(entry);
                assert(annotation_file(images@, a) == Some(key));
                match find_entry(&m, file.as_str()) {
                    Some(j) => {
                        let (k, mut list) = m.remove(j);
                        let ghost old_list = list@;
                        list.push(entry);
                        m.insert(j, (k, list));
                        proof {
                            lemma_entries_push(old_list, entry);
                            assert forall|x: int| 0 <= x < m@.len() && x != j implies #[trigger] m@[x] == before[x] by {}
                            assert(m@[j as int].0@ == key);
                            assert forall|x: int, y: int| 0 <= x < m@.len() && 0 <= y < m@.len() && x != y
                                implies (#[trigger] m@[x]).0@ != (#[trigger] m@[y]).0@ by {
                                assert(before[x].0@ == m@[x].0@);
                                assert(before[y].0@ == m@[y].0@);
                            }
                            assert forall|x: int| 0 <= x < m@.len() implies {
                                &&& entries_view((#[trigger] m@[x]).1@) == annotations_on(images@, categories@, next, m@[x].0@)
                                &&& m@[x].1@.len() > 0
                            } by {
                                if x != j {
                                    assert(m@[x] == before[x]);
                                    assert(before[x].0@ != key);
                                }
                            }
                            assert forall|f: Seq<char>| #[trigger] annotations_on(images@, categories@, next, f).len() > 0
                                implies exists|x: int| 0 <= x < m@.len() && (#[trigger] m@[x]).0@ == f by {
                                if f == key {
                                    assert(m@[j as int].0@ == f);
                                } else {
                                    assert(annotations_on(images@, categories@, prefix, f).len() > 0);
                                    let x = choose|x: int| 0 <= x < before.len() && (#[trigger] before[x]).0@ == f;
                                    assert(m@[x] == before[x]);
                                }
                            }
                        }
                    },
                    None => {
                        let mut list: Vec<ImageAnnotationRef> = Vec::new();
                        list.push(entry);
                        m.push((file, list));
                        proof {
                            let n = before.len() as int;
                            assert(annotations_on(images@, categories@, prefix, key).len() == 0);
                            assert(annotations_on(images@, categories@, prefix, key) =~= Seq::empty());
                            assert(entries_view(m@[n].1@) =~= seq![ev]);
                            assert forall|x: int| 0 <= x < n implies #[trigger] m@[x] == before[x] by {}
                            assert forall|x: int, y: int| 0 <= x < m@.len() && 0 <= y < m@.len() && x != y
                                implies (#[trigger] m@[x]).0@ != (#[trigger] m@[y]).0@ by {
                                if x < n && y < n {
                                    assert(before[x] == m@[x] && before[y] == m@[y]);
                                } else if x == n {
                                    assert(before[y] == m@[y]);
                                } else {
                                    assert(before[x] == m@[x]);
                                }
                            }
                            assert forall|x: int| 0 <= x < m@.len() implies {
                                &&& entries_view((#[trigger] m@[x]).1@) == annotations_on(images@, categories@, next, m@[x].0@)
                                &&& m@[x].1@.len() > 0
                            } by {
                                if x < n {
                                    assert(m@[x] == before[x]);
                                    assert(before[x].0@ != key);
                                }
                            }
                            assert forall|f: Seq<char>| #[trigger] annotations_on(images@, categories@, next, f).len() > 0
                                implies exists|x: int| 0 <= x < m@.len() && (#[trigger] m@[x]).0@ == f by {
                                if f == key {
                                    assert(m@[n].0@ == f);
                                } else {
                                    assert(annotations_on(images@, categories@, prefix, f).len() > 0);
                                    let x = choose|x: int| 0 <= x < before.len() && (#[trigger] before[x]).0@ == f;
                                    assert(m@[x] == before[x]);
                                }
                            }
                        }
                    },
                }
            },
        }
        i += 1;
    }
    proof {
        assert(annotations@.take(annotations@.len() as int) =~= annotations@);
    }
    m
}

/// A dataset whose image folder is known, with its annotations grouped by image file.
pub struct LoadedDataset {
    pub images: Vec<CocoImage>,
    pub categories: Vec<CocoCategory>,
    pub annotations: Vec<AnnotationRef>,
    pub image_directory: String,
    pub annotation_map: Vec<(String, Vec<ImageAnnotationRef>)>,
}

/// The annotations of the session: the dataset in use, if any, and the file it came from.
pub struct AnnotationManager {
    pub current_dataset: Option<LoadedDataset>,
    pub current_json_path: Option<String>,
}

/// The number of the dataset's first images looked for in a folder before it is accepted.
pub const VERIFY_COUNT: usize = 20;

/// The names of the first images of a dataset, those looked for in its image folder.
pub fn verification_filenames(images: &Vec<CocoImage>) -> (r: Vec<String>)
    ensures
        r@.len() == if images@.len() < VERIFY_COUNT { images@.len() as int } else { VERIFY_COUNT as int },
        forall|i: int| 0 <= i < r@.len() ==> #[trigger] r@[i] == images@[i].file_name,
{
    first_filenames(images, VERIFY_COUNT)
}

impl AnnotationManager {
    /// The loaded dataset's map groups its annotations.
    pub open spec fn wf(&self) -> bool {
        match self.current_dataset {
            Some(ds) => is_annotation_map(ds.annotation_map@, ds.images@, ds.categories@, ds.annotations@),
            None => true,
        }
    }

    /// A manager with no dataset.
    pub fn new() -> (r: Self)
        ensures
            r.current_dataset is None,
            r.current_json_path is None,
            r.wf(),
    {
        AnnotationManager { current_dataset: None, current_json_path: None }
    }

    /// Takes a dataset whose images were looked for in `image_directory`; `found` is how many
    /// of its first images (see [`verification_filenames`]) are there. With none found the
    /// folder is refused and the manager is unchanged; otherwise the dataset, its grouped
    /// annotations and the file it came from replace what the manager held.
    pub fn set_image_directory(&mut self, images: Vec<CocoImage>, categories: Vec<CocoCategory>,
        annotations: Vec<AnnotationRef>, json_path: String, image_directory: String, found: usize)
        -> (r: Result<(), String>)
        requires
            old(self).wf(),
        ensures
            final(self).wf(),
            found == 0 ==> {
                &&& r matches Err(m) && m@ == "No images from the COCO dataset found in directory: "@ + image_directory@
                &&& final(self).current_dataset == old(self).current_dataset
                &&& final(self).current_json_path == old(self).current_json_path
            },
            found > 0 ==> {
                &&& r is Ok
                &&& final(self).current_dataset matches Some(ds) && ds.images@ == images@
                    && ds.categories@ == categories@ && ds.annotations@ == annotations@
                    && ds.image_directory@ == image_directory@
                &&& final(self).current_json_path matches Some(p) && p@ == json_path@
            },
    {
        if found == 0 {
            let mut m = String::from_str("No images from the COCO dataset found in directory: ");
            m.append(image_directory.as_str());
            return Err(m);
        }
        let annotation_map = build_image_annotation_map(&images, &categories, &annotations);
        self.current_dataset = Some(LoadedDataset { images, categories, annotations, image_directory, annotation_map });
        self.current_json_path = Some(json_path);
        Ok(())
    }

    /// The annotations shown on an image file, in order; none when no dataset is loaded or
    /// no annotation is shown on the file.
    pub fn get_annotations(&self, filename: &str) -> (r: Option<&Vec<ImageAnnotationRef>>)
        requires
            self.wf(),
        ensures
            match self.current_dataset {
                None => r is None,
                Some(ds) => {
                    let on = annotations_on(ds.images@, ds.categories@, ds.annotations@, filename@);
                    if on.len() > 0 {
                        r matches Some(v) && entries_view(v@) == on
                    } else {
                        r is None
                    }
                },
            },
    {
        match &self.current_dataset {
            None => None,
            Some(ds) => match find_entry(&ds.annotation_map, filename) {
                Some(j) => Some(&ds.annotation_map[j].1),
                None => {
                    proof {
                        let on = annotations_on(ds.images@, ds.categories@, ds.annotations@, filename@);
                        if on.len() > 0 {
                            let x = choose|x: int| 0 <= x < ds.annotation_map@.len() && (#[trigger] ds.annotation_map@[x]).0@ == filename@;
                            assert(ds.annotation_map@[x].0@ != filename@);
                        }
                    }
                    None
                },
            },
        }
    }

    /// Whether a dataset is loaded.
    pub fn has_annotations(&self) -> (r: bool)
        ensures
            r == self.current_dataset is Some,
    {
        self.current_dataset.is_some()
    }

    /// The image folder of the loaded dataset.
    pub fn get_image_directory(&self) -> (r: Option<&String>)
        ensures
            match self.current_dataset {
                Some(ds) => r == Some(&ds.image_directory),
                None => r is None,
            },
    {
        match &self.current_dataset {
            Some(ds) => Some(&ds.image_directory),
            None => None,
        }
    }

    /// The file the dataset came from.
    pub fn get_json_path(&self) -> (r: Option<&String>)
        ensures
            match self.current_json_path {
                Some(p) => r == Some(&p),
                None => r is None,
            },
    {
        match &self.current_json_path {
            Some(p) => Some(p),
            None => None,
        }
    }

    /// How many images, annotations and categories the loaded dataset has.
    pub fn get_stats(&self) -> (r: Option<DatasetStats>)
        ensures
            match self.current_dataset {
                Some(ds) => r matches Some(s) && s.num_images == ds.images@.len()
                    && s.num_annotations == ds.annotations@.len() && s.num_categories == ds.categories@.len(),
                None => r is None,
            },
    {
        match &self.current_dataset {
            Some(ds) => Some(DatasetStats {
                num_images: ds.images.len(),
                num_annotations: ds.annotations.len(),
                num_categories: ds.categories.len(),
            }),
            None => None,
        }
    }

    /// Forgets the dataset and its file.
    pub fn clear(&mut self)
        ensures
            final(self).current_dataset is None,
            final(self).current_json_path is None,
            final(self).wf(),
    {
        self.current_dataset = None;
        self.current_json_path = None;
    }
}

impl Default for AnnotationManager {
    fn default() -> (r: Self)
        ensures
            r.current_dataset is None,
            r.current_json_path is None,
    {
        AnnotationManager::new()
    }
}

/// The folders where the manager looks for a dataset's images, in order: the dataset file's
/// own folder, then its "images", "img", "data", "train", "val" and "test" subfolders.
pub open spec fn spec_manager_dir_candidates(json_dir: Seq<char>) -> Seq<Seq<char>> {
    seq![
        json_dir,
        spec_path_join(json_dir, "images"@),
        spec_path_join(json_dir, "img"@),
        spec_path_join(json_dir, "data"@),
        spec_path_join(json_dir, "train"@),
        spec_path_join(json_dir, "val"@),
        spec_path_join(json_dir, "test"@),
    ]
}

/// The folders where the manager looks for a dataset's images.
pub fn manager_dir_candidates(json_dir: &str) -> (r: Vec<String>)
    ensures
        r.deep_view() == spec_manager_dir_candidates(json_dir@),
{
    let mut r: Vec<String> = Vec::new();
    r.push(String::from_str(json_dir));
    r.push(std_path_join(json_dir, "images"));
    r.push(std_path_join(json_dir, "img"));
    r.push(std_path_join(json_dir, "data"));
    r.push(std_path_join(json_dir, "train"));
    r.push(std_path_join(json_dir, "val"));
    r.push(std_path_join(json_dir, "test"));
    proof {
        assert(r.deep_view() =~= spec_manager_dir_candidates(json_dir@));
    }
    r
}

/// The number of the dataset's first images the manager looks for in each candidate folder.
pub const MANAGER_PROBE_COUNT: usize = 5;

/// The names of the first `n` images of a dataset, or of all of them when it has fewer.
pub fn first_filenames(images: &Vec<CocoImage>, n: usize) -> (r: Vec<String>)
    ensures
        r@.len() == if images@.len() < n { images@.len() as int } else { n as int },
        forall|i: int| 0 <= i < r@.len() ==> #[trigger] r@[i] == images@[i].file_name,
{
    let mut r: Vec<String> = Vec::new();
    let mut i: usize = 0;
    while i < images.len() && i < n
        invariant
            i <= images@.len(),
            i <= n,
            r@.len() == i,
            forall|k: int| 0 <= k < i ==> #[trigger] r@[k] == images@[k].file_name,
        decreases images@.len() - i,
    {
        r.push(images[i].file_name.clone());
        i += 1;
    }
    r
}

} // verus!
