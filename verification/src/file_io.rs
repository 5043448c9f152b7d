use vstd::prelude::*;

verus! {

#[verifier::external_type_specification]
#[verifier::external_body]
pub struct ExIoError(std::io::Error);

/// Failures of the file dialogs.
#[derive(Debug, Clone, Copy, PartialEq, Eq, Structural)]
pub enum Error {
    DialogClosed,
    InvalidSelection,
    InvalidExtension,
}

/// Failures when listing the images of a directory.
#[derive(Debug)]
pub enum ImageError {
    /// The directory holds no file with a supported image extension.
    NoImagesFound,
    /// The directory could not be read.
    DirectoryError(std::io::Error),
}

/// The last component of a path, as `std::path::Path::file_name` gives it under the path
/// rules of the target the crate is built for.
pub uninterp spec fn spec_file_name(path: Seq<char>) -> Option<Seq<char>>;

/// The extension of a path, as `std::path::Path::extension` gives it under the path rules of
/// the target the crate is built for.
pub uninterp spec fn spec_extension(path: Seq<char>) -> Option<Seq<char>>;

/// A string in lower case, as `str::to_lowercase` gives it.
pub uninterp spec fn spec_to_lowercase(s: Seq<char>) -> Seq<char>;

/// Paths in the order `alphanumeric_sort::sort_path_slice` leaves them.
pub uninterp spec fn spec_alphanumeric_sorted(paths: Seq<Seq<char>>) -> Seq<Seq<char>>;

/// Calls `std::path::Path::file_name`; the result is named by `spec_file_name`.
#[verifier::external_body]
pub(crate) fn std_file_name(path: &str) -> (r: Option<String>)
    ensures
        match r {
            Some(s) => spec_file_name(path@) == Some(s@),
            None => spec_file_name(path@) is None,
        },
{
    std::path::Path::new(path).file_name().and_then(|s| s.to_str()).map(|s| s.to_string())
}

/// Calls `std::path::Path::extension`; the result is named by `spec_extension`.
#[verifier::external_body]
pub(crate) fn std_extension(path: &str) -> (r: Option<String>)
    ensures
        match r {
            Some(s) => spec_extension(path@) == Some(s@),
            None => spec_extension(path@) is None,
        },
{
    std::path::Path::new(path).extension().and_then(|s| s.to_str()).map(|s| s.to_string())
}

/// Calls `str::to_lowercase`; the result is named by `spec_to_lowercase`.
#[verifier::external_body]
fn std_to_lowercase(s: &str) -> (r: String)
    ensures
        r@ == spec_to_lowercase(s@),
{
    s.to_lowercase()
}

/// Calls `alphanumeric_sort::sort_path_slice`, which sorts the paths in place: the result
/// holds the same paths, in the order named by `spec_alphanumeric_sorted`.
#[verifier::external_body]
fn sort_paths_alphanumeric(paths: Vec<String>) -> (r: Vec<String>)
    ensures
        r.deep_view() == spec_alphanumeric_sorted(paths.deep_view()),
        r.deep_view().to_multiset() == paths.deep_view().to_multiset(),
{
    let mut v = paths;
    alphanumeric_sort::sort_path_slice(&mut v);
    v
}

/// The file name of a path, if it has one.
pub fn get_filename(path: &str) -> (r: Option<String>)
    ensures
        match r {
            Some(s) => spec_file_name(path@) == Some(s@),
            None => spec_file_name(path@) is None,
        },
{
    std_file_name(path)
}

/// The first position in `files` whose file name equals the file name of `file`; none if
/// `file` has no file name or no entry matches.
pub fn get_file_index(files: &[String], file: &String) -> (r: Option<usize>)
    ensures
        match spec_file_name(file@) {
            None => r is None,
            Some(name) => match r {
                Some(i) => i < files@.len() && spec_file_name(files@[i as int]@) == Some(name)
                    && forall|k: int| 0 <= k < i ==> spec_file_name((#[trigger] files@[k])@) != Some(name),
                None => forall|k: int| 0 <= k < files@.len() ==> spec_file_name((#[trigger] files@[k])@) != Some(name),
            },
        },
{
    let file_name = match std_file_name(file.as_str()) {
        Some(n) => n,
        None => return None,
    };
    let mut i: usize = 0;
    while i < files.len()
        invariant
            i <= files@.len(),
            spec_file_name(file@) == Some(file_name@),
            forall|k: int| 0 <= k < i ==> spec_file_name((#[trigger] files@[k])@) != Some(file_name@),
        decreases files@.len() - i,
    {
        match std_file_name(files[i].as_str()) {
            Some(n) => {
                if n == file_name {
                    return Some(i);
                }
            },
            None => {},
        }
        i += 1;
    }
    None
}

/// The image extensions the viewer opens, in lower case.
pub open spec fn allowed_extensions() -> Seq<Seq<char>> {
    seq!["jpg"@, "jpeg"@, "png"@, "gif"@, "bmp"@, "ico"@, "tiff"@, "tif"@,
        "webp"@, "pnm"@, "pbm"@, "pgm"@, "ppm"@, "qoi"@, "tga"@]
}

/// A path names an image when it has an extension whose lower-case form is allowed.
pub open spec fn is_image_path(path: Seq<char>) -> bool {
    match spec_extension(path) {
        Some(ext) => allowed_extensions().contains(spec_to_lowercase(ext)),
        None => false,
    }
}

fn allowed_extension_list() -> (r: Vec<String>)
    ensures
        r.deep_view() == allowed_extensions(),
{
    let mut v: Vec<String> = Vec::new();
    v.push(String::from_str("jpg"));
    v.push(String::from_str("jpeg"));
    v.push(String::from_str("png"));
    v.push(String::from_str("gif"));
    v.push(String::from_str("bmp"));
    v.push(String::from_str("ico"));
    v.push(String::from_str("tiff"));
    v.push(String::from_str("tif"));
    v.push(String::from_str("webp"));
    v.push(String::from_str("pnm"));
    v.push(String::from_str("pbm"));
    v.push(String::from_str("pgm"));
    v.push(String::from_str("ppm"));
    v.push(String::from_str("qoi"));
    v.push(String::from_str("tga"));
    assert(v.deep_view() =~= allowed_extensions());
    v
}

/// The extensions of the image formats the viewer reads, written out: JPEG (jpg, jpeg), PNG,
/// GIF, BMP, ICO, TIFF (tiff, tif), WebP, the PNM family (pnm, pbm, pgm, ppm), QOI and TGA.
pub open spec fn names_image_format(e: Seq<char>) -> bool {
    ||| e == "jpg"@ || e == "jpeg"@ || e == "png"@ || e == "gif"@ || e == "bmp"@
    ||| e == "ico"@ || e == "tiff"@ || e == "tif"@ || e == "webp"@
    ||| e == "pnm"@ || e == "pbm"@ || e == "pgm"@ || e == "ppm"@ || e == "qoi"@ || e == "tga"@
}

/// A path names an image exactly when the lower-case form of its extension is that of one
/// of the image formats the viewer reads.
pub proof fn lemma_image_extensions(e: Seq<char>)
    ensures
        allowed_extensions().contains(e) <==> names_image_format(e),
{
    if names_image_format(e) {
        let l = allowed_extensions();
        if e == "jpg"@ { assert(l[0] == e); } else if e == "jpeg"@ { assert(l[1] == e); }
        else if e == "png"@ { assert(l[2] == e); } else if e == "gif"@ { assert(l[3] == e); }
        else if e == "bmp"@ { assert(l[4] == e); } else if e == "ico"@ { assert(l[5] == e); }
        else if e == "tiff"@ { assert(l[6] == e); } else if e == "tif"@ { assert(l[7] == e); }
        else if e == "webp"@ { assert(l[8] == e); } else if e == "pnm"@ { assert(l[9] == e); }
        else if e == "pbm"@ { assert(l[10] == e); } else if e == "pgm"@ { assert(l[11] == e); }
        else if e == "ppm"@ { assert(l[12] == e); } else if e == "qoi"@ { assert(l[13] == e); }
        else { assert(l[14] == e); }
    }
}

/// Whether a path has an allowed image extension, compared in lower case.
pub fn has_image_extension(path: &str) -> (r: bool)
    ensures
        r == is_image_path(path@),
        r <==> (spec_extension(path@) matches Some(ext) && names_image_format(spec_to_lowercase(ext))),
{
    proof {
        if let Some(ext) = spec_extension(path@) {
            lemma_image_extensions(spec_to_lowercase(ext));
        }
    }
    let ext = match std_extension(path) {
        Some(e) => e,
        None => return false,
    };
    let lower = std_to_lowercase(ext.as_str());
    let allowed = allowed_extension_list();
    let mut i: usize = 0;
    while i < allowed.len()
        invariant
            i <= allowed@.len(),
            allowed.deep_view() == allowed_extensions(),
            lower@ == spec_to_lowercase(ext@),
            spec_extension(path@) == Some(ext@),
            forall|k: int| 0 <= k < i ==> allowed_extensions()[k] != lower@,
        decreases allowed@.len() - i,
    {
        if allowed[i] == lower {
            proof {
                assert(allowed_extensions()[i as int] == lower@);
                assert(allowed_extensions().contains(lower@));
            }
            return true;
        }
        i += 1;
    }
    proof {
        assert(!allowed_extensions().contains(lower@));
    }
    false
}

/// Keeps the paths with an allowed image extension and sorts them alphanumerically;
/// `NoImagesFound` when none is left.
pub fn convert_file_paths_to_image_paths(file_paths: Vec<String>) -> (r: Result<Vec<String>, ImageError>)
    ensures
        ({
            let kept = file_paths.deep_view().filter(|p: Seq<char>| is_image_path(p));
            match r {
                Ok(v) => kept.len() > 0 && v.deep_view() == spec_alphanumeric_sorted(kept)
                    && v.deep_view().to_multiset() == kept.to_multiset(),
                Err(e) => kept.len() == 0 && e is NoImagesFound,
            }
        }),
{
    let ghost all = file_paths.deep_view();
    let mut image_paths: Vec<String> = Vec::new();
    let mut i: usize = 0;
    while i < file_paths.len()
        invariant
            i <= file_paths@.len(),
            all == file_paths.deep_view(),
            image_paths.deep_view() == all.subrange(0, i as int).filter(|p: Seq<char>| is_image_path(p)),
        decreases file_paths@.len() - i,
    {
        proof {
            reveal(Seq::filter);
            assert(all.subrange(0, i as int + 1).drop_last() =~= all.subrange(0, i as int));
        }
        if has_image_extension(file_paths[i].as_str()) {
            image_paths.push(file_paths[i].clone());
        }
        i += 1;
        proof {
            assert(image_paths.deep_view() =~= all.subrange(0, i as int).filter(|p: Seq<char>| is_image_path(p)));
        }
    }
    proof {
        assert(all.subrange(0, all.len() as int) =~= all);
    }
    if image_paths.len() == 0 {
        Err(ImageError::NoImagesFound)
    } else {
        Ok(sort_paths_alphanumeric(image_paths))
    }
}

} // verus!
