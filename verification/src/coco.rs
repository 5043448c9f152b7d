use vstd::prelude::*;
use crate::decimal::{decimal, decimal_string};

verus! {

/// An image entry of a COCO dataset.
#[derive(Debug, Clone)]
pub struct CocoImage {
    pub id: u64,
    pub file_name: String,
    pub width: u32,
    pub height: u32,
}

/// A category entry of a COCO dataset.
#[derive(Debug, Clone)]
pub struct CocoCategory {
    pub id: u64,
    pub name: String,
    pub supercategory: String,
}

/// What validation reads of an annotation: its id, the image and category it refers to,
/// and how many numbers its bounding box has.
#[derive(Debug, Clone, Copy, PartialEq, Eq, Structural)]
pub struct AnnotationRef {
    pub id: u64,
    pub image_id: u64,
    pub category_id: u64,
    pub bbox_len: usize,
}

/// A problem found while validating a COCO dataset.
#[derive(Debug, Clone, Copy, PartialEq, Eq, Structural)]
pub enum CocoWarning {
    /// The dataset lists no images.
    NoImages,
    /// The dataset lists no categories.
    NoCategories,
    /// An annotation refers to an image id that no image has.
    MissingImage { annotation_id: u64, image_id: u64 },
    /// An annotation refers to a category id that no category has.
    MissingCategory { annotation_id: u64, category_id: u64 },
    /// An annotation's bounding box does not have four numbers.
    InvalidBbox { annotation_id: u64, bbox_len: usize },
}

/// The text shown for a warning.
pub open spec fn warning_text(w: CocoWarning) -> Seq<char> {
    match w {
        CocoWarning::NoImages => "COCO dataset has no images"@,
        CocoWarning::NoCategories => "COCO dataset has no categories"@,
        CocoWarning::MissingImage { annotation_id, image_id } => "Skipping annotation "@
            + decimal(annotation_id as nat) + ": references non-existent image_id "@ + decimal(image_id as nat),
        CocoWarning::MissingCategory { annotation_id, category_id } => "Skipping annotation "@
            + decimal(annotation_id as nat) + ": references non-existent category_id "@
            + decimal(category_id as nat),
        CocoWarning::InvalidBbox { annotation_id, bbox_len } => "Skipping annotation "@
            + decimal(annotation_id as nat) + ": invalid bbox format (expected 4 values, got "@
            + decimal(bbox_len as nat) + ")"@,
    }
}

impl CocoWarning {
    /// The text shown for the warning.
    pub fn message(&self) -> (r: String)
        ensures
            r@ == warning_text(*self),
    {
        match *self {
            CocoWarning::NoImages => String::from_str("COCO dataset has no images"),
            CocoWarning::NoCategories => String::from_str("COCO dataset has no categories"),
            CocoWarning::MissingImage { annotation_id, image_id } => {
                let mut m = String::from_str("Skipping annotation ");
                m.append(decimal_string(annotation_id).as_str());
                m.append(": references non-existent image_id ");
                m.append(decimal_string(image_id).as_str());
                m
            },
            CocoWarning::MissingCategory { annotation_id, category_id } => {
                let mut m = String::from_str("Skipping annotation ");
                m.append(decimal_string(annotation_id).as_str());
                m.append(": references non-existent category_id ");
                m.append(decimal_string(category_id).as_str());
                m
            },
            CocoWarning::InvalidBbox { annotation_id, bbox_len } => {
                let mut m = String::from_str("Skipping annotation ");
                m.append(decimal_string(annotation_id).as_str());
                m.append(": invalid bbox format (expected 4 values, got ");
                m.append(decimal_string(bbox_len as u64).as_str());
                m.append(")");
                m
            },
        }
    }
}

/// Sizes of a loaded dataset.
#[derive(Debug, Clone, Copy)]
pub struct DatasetStats {
    pub num_images: usize,
    pub num_annotations: usize,
    pub num_categories: usize,
}

/// Some image has the id.
pub open spec fn has_image(images: Seq<CocoImage>, id: u64) -> bool {
    exists|i: int| 0 <= i < images.len() && (#[trigger] images[i]).id == id
}

/// Some category has the id.
pub open spec fn has_category(categories: Seq<CocoCategory>, id: u64) -> bool {
    exists|i: int| 0 <= i < categories.len() && (#[trigger] categories[i]).id == id
}

/// Why an annotation is dropped, checked in this order: unknown image, unknown category,
/// a bounding box without four numbers; none when it is kept.
pub open spec fn annotation_problem(images: Seq<CocoImage>, categories: Seq<CocoCategory>, a: AnnotationRef)
    -> Option<CocoWarning>
{
    if !has_image(images, a.image_id) {
        Some(CocoWarning::MissingImage { annotation_id: a.id, image_id: a.image_id })
    } else if !has_category(categories, a.category_id) {
        Some(CocoWarning::MissingCategory { annotation_id: a.id, category_id: a.category_id })
    } else if a.bbox_len != 4 {
        Some(CocoWarning::InvalidBbox { annotation_id: a.id, bbox_len: a.bbox_len })
    } else {
        None
    }
}

/// The problems of the annotations, in annotation order.
pub open spec fn annotation_warnings(images: Seq<CocoImage>, categories: Seq<CocoCategory>, anns: Seq<AnnotationRef>)
    -> Seq<CocoWarning>
    decreases anns.len(),
{
    if anns.len() == 0 {
        Seq::empty()
    } else {
        annotation_warnings(images, categories, anns.drop_last()) + match annotation_problem(images, categories, anns.last()) {
            Some(w) => seq![w],
            None => Seq::empty(),
        }
    }
}

/// Each dropped annotation gets exactly one warning: after the warnings about an empty image
/// or category list, there are as many warnings as annotations that are not kept.
pub proof fn lemma_one_warning_per_dropped_annotation(images: Seq<CocoImage>, categories: Seq<CocoCategory>,
    anns: Seq<AnnotationRef>)
    ensures
        annotation_warnings(images, categories, anns).len()
            == anns.filter(|a: AnnotationRef| annotation_problem(images, categories, a) is Some).len(),
    decreases anns.len(),
{
    let dropped = |a: AnnotationRef| annotation_problem(images, categories, a) is Some;
    if anns.len() > 0 {
        lemma_one_warning_per_dropped_annotation(images, categories, anns.drop_last());
        let rest = anns.drop_last().filter(dropped);
        reveal(Seq::filter);
        assert(anns.filter(dropped) == if dropped(anns.last()) { rest.push(anns.last()) } else { rest });
    }
}

/// The warnings about an empty image or category list.
pub open spec fn dataset_warnings(images: Seq<CocoImage>, categories: Seq<CocoCategory>) -> Seq<CocoWarning> {
    (if images.len() == 0 { seq![CocoWarning::NoImages] } else { Seq::empty() })
        + (if categories.len() == 0 { seq![CocoWarning::NoCategories] } else { Seq::empty() })
}

fn contains_image(images: &Vec<CocoImage>, id: u64) -> (r: bool)
    ensures
        r == has_image(images@, id),
{
    let mut i: usize = 0;
    while i < images.len()
        invariant
            i <= images@.len(),
            forall|k: int| 0 <= k < i ==> (#[trigger] images@[k]).id != id,
        decreases images@.len() - i,
    {
        if images[i].id == id {
            assert(images@[i as int].id == id);
            return true;
        }
        i += 1;
    }
    false
}

fn contains_category(categories: &Vec<CocoCategory>, id: u64) -> (r: bool)
    ensures
        r == has_category(categories@, id),
{
    let mut i: usize = 0;
    while i < categories.len()
        invariant
            i <= categories@.len(),
            forall|k: int| 0 <= k < i ==> (#[trigger] categories@[k]).id != id,
        decreases categories@.len() - i,
    {
        if categories[i].id == id {
            assert(categories@[i as int].id == id);
            return true;
        }
        i += 1;
    }
    false
}

/// Checks a dataset: which annotations to keep (those whose image and category exist and
/// whose bounding box has four numbers), and the warnings, first about an empty image or
/// category list, then about each dropped annotation in order.
pub fn validate_annotations(
    images: &Vec<CocoImage>,
    categories: &Vec<CocoCategory>,
    annotations: &Vec<AnnotationRef>,
) -> (r: (Vec<bool>, Vec<CocoWarning>))
    ensures
        r.0@.len() == annotations@.len(),
        forall|i: int| 0 <= i < annotations@.len() ==> #[trigger] r.0@[i]
            == (annotation_problem(images@, categories@, annotations@[i]) is None),
        r.1@ == dataset_warnings(images@, categories@) + annotation_warnings(images@, categories@, annotations@),
        forall|i: int| 0 <= i < annotations@.len() ==> #[trigger] r.0@[i] == (
            (exists|m: int| 0 <= m < images@.len() && images@[m].id == annotations@[i].image_id)
            && (exists|m: int| 0 <= m < categories@.len() && categories@[m].id == annotations@[i].category_id)
            && annotations@[i].bbox_len == 4),
{
    let mut warnings: Vec<CocoWarning> = Vec::new();
    if images.len() == 0 {
        warnings.push(CocoWarning::NoImages);
    }
    if categories.len() == 0 {
        warnings.push(CocoWarning::NoCategories);
    }
    let ghost head = warnings@;
    proof {
        assert(head =~= dataset_warnings(images@, categories@));
    }
    let mut keep: Vec<bool> = Vec::new();
    let mut i: usize = 0;
    while i < annotations.len()
        invariant
            i <= annotations@.len(),
            head == dataset_warnings(images@, categories@),
            keep@.len() == i,
            forall|k: int| 0 <= k < i ==> #[trigger] keep@[k]
                == (annotation_problem(images@, categories@, annotations@[k]) is None),
            warnings@ == head + annotation_warnings(images@, categories@, annotations@.subrange(0, i as int)),
        decreases annotations@.len() - i,
    {
        let a = annotations[i];
        let ghost before = warnings@;
        proof {
            let s = annotations@.subrange(0, i as int + 1);
            assert(s.drop_last() =~= annotations@.subrange(0, i as int));
            assert(s.last() == a);
        }
        if !contains_image(images, a.image_id) {
            warnings.push(CocoWarning::MissingImage { annotation_id: a.id, image_id: a.image_id });
            keep.push(false);
        } else if !contains_category(categories, a.category_id) {
            warnings.push(CocoWarning::MissingCategory { annotation_id: a.id, category_id: a.category_id });
            keep.push(false);
        } else if a.bbox_len != 4 {
            warnings.push(CocoWarning::InvalidBbox { annotation_id: a.id, bbox_len: a.bbox_len });
            keep.push(false);
        } else {
            keep.push(true);
        }
        i += 1;
        proof {
            let s = annotations@.subrange(0, i as int);
            match annotation_problem(images@, categories@, a) {
                Some(w) => {
                    assert(warnings@ =~= head + annotation_warnings(images@, categories@, s));
                },
                None => {
                    assert(warnings@ =~= head + annotation_warnings(images@, categories@, s));
                },
            }
        }
    }
    proof {
        assert(annotations@.subrange(0, annotations@.len() as int) =~= annotations@);
    }
    (keep, warnings)
}

/// The items whose flag is set, in their order.
pub open spec fn kept_by<T>(items: Seq<T>, flags: Seq<bool>) -> Seq<T>
    decreases items.len(),
{
    if items.len() == 0 {
        Seq::empty()
    } else {
        let rest = kept_by(items.drop_last(), flags.take(items.len() - 1));
        if flags[items.len() - 1] { rest.push(items.last()) } else { rest }
    }
}

/// Keeps the items whose flag is set, in their order, as validation decides which
/// annotations stay; gives them and how many were dropped.
pub fn filter_by_flags<T>(items: Vec<T>, flags: &Vec<bool>) -> (r: (Vec<T>, usize))
    requires
        flags@.len() == items@.len(),
    ensures
        r.0@ == kept_by(items@, flags@),
        r.1 == items@.len() - r.0@.len(),
{
    let ghost orig = items@;
    let mut items = items;
    let mut rev: Vec<T> = Vec::new();
    proof {
        assert(orig.take(orig.len() as int) =~= orig);
        assert(flags@.take(orig.len() as int) =~= flags@);
        assert(rev@.reverse() =~= Seq::<T>::empty());
    }
    while items.len() > 0
        invariant
            flags@.len() == orig.len(),
            items@.len() <= orig.len(),
            items@ == orig.take(items@.len() as int),
            kept_by(orig, flags@) == kept_by(items@, flags@.take(items@.len() as int)) + rev@.reverse(),
            rev@.len() <= orig.len() - items@.len(),
        decreases items@.len(),
    {
        let ghost before = items@;
        let ghost rev_before = rev@;
        let x = items.pop().unwrap();
        let k = items.len();
        proof {
            assert(before.drop_last() =~= items@);
            assert(flags@.take(k + 1).take(k as int) =~= flags@.take(k as int));
            assert(items@ =~= orig.take(k as int));
        }
        if flags[k] {
            rev.push(x);
            proof {
                assert(rev@.reverse() =~= seq![x] + rev_before.reverse());
                assert(kept_by(before, flags@.take(k + 1))
                    == kept_by(items@, flags@.take(k as int)).push(x));
                assert(kept_by(items@, flags@.take(k as int)).push(x) + rev_before.reverse()
                    =~= kept_by(items@, flags@.take(k as int)) + rev@.reverse());
            }
        }
    }
    let mut kept: Vec<T> = Vec::new();
    let ghost all = rev@.reverse();
    proof {
        assert(kept_by(items@, flags@.take(0)) =~= Seq::<T>::empty());
        assert(kept_by(orig, flags@) =~= all);
        assert(kept@ + rev@.reverse() =~= all);
    }
    while rev.len() > 0
        invariant
            kept@ + rev@.reverse() == all,
        decreases rev@.len(),
    {
        let ghost rb = rev@;
        let x = rev.pop().unwrap();
        kept.push(x);
        proof {
            assert(rb.reverse() =~= seq![x] + rev@.reverse());
            assert(kept@ + rev@.reverse() =~= all);
        }
    }
    proof {
        assert(rev@.reverse() =~= Seq::<T>::empty());
        assert(kept@ =~= all);
        lemma_kept_by_len(orig, flags@);
    }
    let dropped = flags.len() - kept.len();
    (kept, dropped)
}

proof fn lemma_kept_by_len<T>(items: Seq<T>, flags: Seq<bool>)
    ensures
        kept_by(items, flags).len() <= items.len(),
    decreases items.len(),
{
    if items.len() > 0 {
        lemma_kept_by_len(items.drop_last(), flags.take(items.len() - 1));
    }
}

/// The image an id refers to when images are looked up by id and a later image with the
/// same id replaces an earlier one: the last image with that id.
pub open spec fn last_image_with_id(images: Seq<CocoImage>, id: u64) -> Option<CocoImage>
    decreases images.len(),
{
    if images.len() == 0 {
        None
    } else if images.last().id == id {
        Some(images.last())
    } else {
        last_image_with_id(images.drop_last(), id)
    }
}

/// The category an id refers to, the last one with that id.
pub open spec fn last_category_with_id(categories: Seq<CocoCategory>, id: u64) -> Option<CocoCategory>
    decreases categories.len(),
{
    if categories.len() == 0 {
        None
    } else if categories.last().id == id {
        Some(categories.last())
    } else {
        last_category_with_id(categories.drop_last(), id)
    }
}

/// The name shown for a category id: the category's name, or "Unknown (ID)".
pub open spec fn category_label(categories: Seq<CocoCategory>, id: u64) -> Seq<char> {
    match last_category_with_id(categories, id) {
        Some(c) => c.name@,
        None => "Unknown ("@ + decimal(id as nat) + ")"@,
    }
}

fn find_last_image(images: &Vec<CocoImage>, id: u64) -> (r: Option<usize>)
    ensures
        match r {
            Some(i) => i < images@.len() && last_image_with_id(images@, id) == Some(images@[i as int]),
            None => last_image_with_id(images@, id) is None,
        },
{
    let mut i: usize = images.len();
    assert(images@.subrange(0, i as int) =~= images@);
    while i > 0
        invariant
            i <= images@.len(),
            last_image_with_id(images@, id) == last_image_with_id(images@.subrange(0, i as int), id),
        decreases i,
    {
        let ghost s = images@.subrange(0, i as int);
        proof {
            assert(s.drop_last() =~= images@.subrange(0, i as int - 1));
        }
        if images[i - 1].id == id {
            return Some(i - 1);
        }
        i -= 1;
    }
    None
}

fn find_last_category(categories: &Vec<CocoCategory>, id: u64) -> (r: Option<usize>)
    ensures
        match r {
            Some(i) => i < categories@.len() && last_category_with_id(categories@, id) == Some(categories@[i as int]),
            None => last_category_with_id(categories@, id) is None,
        },
{
    let mut i: usize = categories.len();
    assert(categories@.subrange(0, i as int) =~= categories@);
    while i > 0
        invariant
            i <= categories@.len(),
            last_category_with_id(categories@, id) == last_category_with_id(categories@.subrange(0, i as int), id),
        decreases i,
    {
        let ghost s = categories@.subrange(0, i as int);
        proof {
            assert(s.drop_last() =~= categories@.subrange(0, i as int - 1));
        }
        if categories[i - 1].id == id {
            return Some(i - 1);
        }
        i -= 1;
    }
    None
}

/// Where an annotation is shown and under which label: the file name of the image it refers
/// to and its category label; none when no image has its image id.
pub fn resolve_annotation(images: &Vec<CocoImage>, categories: &Vec<CocoCategory>, annotation: &AnnotationRef)
    -> (r: Option<(String, String)>)
    ensures
        match last_image_with_id(images@, annotation.image_id) {
            Some(img) => r matches Some(p) && p.0@ == img.file_name@
                && p.1@ == category_label(categories@, annotation.category_id),
            None => r is None,
        },
{
    let img = match find_last_image(images, annotation.image_id) {
        Some(i) => i,
        None => return None,
    };
    let label = match find_last_category(categories, annotation.category_id) {
        Some(c) => categories[c].name.clone(),
        None => {
            let mut s = String::from_str("Unknown (");
            let d = decimal_string(annotation.category_id);
            s.append(d.as_str());
            s.append(")");
            s
        },
    };
    Some((images[img].file_name.clone(), label))
}

/// The file names of the images, in order.
pub fn get_image_filenames(images: &Vec<CocoImage>) -> (r: Vec<String>)
    ensures
        r@.len() == images@.len(),
        forall|i: int| 0 <= i < images@.len() ==> #[trigger] r@[i] == images@[i].file_name,
{
    let mut r: Vec<String> = Vec::new();
    let mut i: usize = 0;
    while i < images.len()
        invariant
            i <= images@.len(),
            r@.len() == i,
            forall|k: int| 0 <= k < i ==> #[trigger] r@[k] == images@[k].file_name,
        decreases images@.len() - i,
    {
        r.push(images[i].file_name.clone());
        i += 1;
    }
    r
}

/// The number of colours in the category palette: the colours repeat every ten category
/// ids, so that id 10 is drawn like id 0, and neighbouring ids differ.
pub const CATEGORY_PALETTE_SIZE: usize = 10;

/// The palette entry of a category: its id taken around the palette.
pub fn category_color_index(category_id: u64) -> (r: usize)
    ensures
        r == (category_id as int) % (CATEGORY_PALETTE_SIZE as int),
        r < CATEGORY_PALETTE_SIZE,
{
    (category_id % (CATEGORY_PALETTE_SIZE as u64)) as usize
}

/// The keys of the top-level JSON object in a text, as `serde_json` parses it into a
/// `serde_json::Value`; none when the text is not JSON or not an object.
pub uninterp spec fn spec_json_object_keys(content: Seq<char>) -> Option<Seq<Seq<char>>>;

/// Calls `serde_json::from_str::<serde_json::Value>`: when the text parses to a JSON
/// object, its keys; otherwise none. The keys are named by `spec_json_object_keys`.
#[verifier::external_body]
fn json_object_keys(content: &str) -> (r: Option<Vec<String>>)
    ensures
        match r {
            Some(keys) => spec_json_object_keys(content@) == Some(keys.deep_view()),
            None => spec_json_object_keys(content@) is None,
        },
{
    match serde_json::from_str::<serde_json::Value>(content) {
        Ok(value) => value.as_object().map(|obj| obj.keys().cloned().collect()),
        Err(_) => None,
    }
}

fn keys_contain(keys: &Vec<String>, key: &str) -> (r: bool)
    ensures
        r == keys.deep_view().contains(key@),
{
    let wanted = String::from_str(key);
    let mut i: usize = 0;
    while i < keys.len()
        invariant
            i <= keys@.len(),
            wanted@ == key@,
            forall|k: int| 0 <= k < i ==> keys.deep_view()[k] != key@,
        decreases keys@.len() - i,
    {
        if keys[i] == wanted {
            assert(keys.deep_view()[i as int] == key@);
            return true;
        }
        i += 1;
    }
    false
}

/// The keys a COCO dataset's top-level object has: "images", "annotations" and "categories".
pub open spec fn coco_keys(keys: Seq<Seq<char>>) -> bool {
    keys.contains("images"@) && keys.contains("annotations"@) && keys.contains("categories"@)
}

/// A COCO dataset needs all three of its keys: a JSON object without "annotations" (or
/// without "images" or "categories") is not taken for one, whatever other keys it has.
pub proof fn lemma_coco_keys_all_needed(keys: Seq<Seq<char>>)
    ensures
        !keys.contains("annotations"@) ==> !coco_keys(keys),
        !keys.contains("images"@) ==> !coco_keys(keys),
        !keys.contains("categories"@) ==> !coco_keys(keys),
        keys.contains("images"@) && keys.contains("annotations"@) && keys.contains("categories"@) ==> coco_keys(keys),
{
}

/// Whether the keys of a JSON object include the three of a COCO dataset.
pub fn has_coco_keys(keys: &Vec<String>) -> (r: bool)
    ensures
        r == coco_keys(keys.deep_view()),
        r ==> keys.deep_view().contains("annotations"@),
        r <==> (keys.deep_view().contains("images"@) && keys.deep_view().contains("annotations"@)
            && keys.deep_view().contains("categories"@)),
{
    keys_contain(keys, "images") && keys_contain(keys, "annotations") && keys_contain(keys, "categories")
}

/// Whether a text looks like a COCO dataset: a JSON object with the keys "images",
/// "annotations" and "categories".
pub fn is_coco_format(content: &str) -> (r: bool)
    ensures
        r == match spec_json_object_keys(content@) {
            Some(keys) => coco_keys(keys),
            None => false,
        },
        r <==> (spec_json_object_keys(content@) matches Some(keys) && keys.contains("images"@)
            && keys.contains("annotations"@) && keys.contains("categories"@)),
{
    match json_object_keys(content) {
        Some(keys) => has_coco_keys(&keys),
        None => false,
    }
}

} // verus!
