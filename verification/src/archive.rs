use vstd::prelude::*;
use crate::file_io::{spec_extension, std_extension};
use crate::img_cache::PathSource;

verus! {

/// The kinds of archive whose images the viewer can show.
#[derive(Debug, Clone, Copy, PartialEq, Eq, Structural)]
pub enum ArchiveType {
    Zip,
    Rar,
    SevenZ,
}

/// A character with ASCII upper case turned into lower case.
pub open spec fn ascii_lower_char(c: char) -> char {
    if 'A' <= c && c <= 'Z' {
        ((c as u32) + 32) as char
    } else {
        c
    }
}

/// A string with ASCII upper case turned into lower case, other characters kept.
pub open spec fn ascii_lower(s: Seq<char>) -> Seq<char> {
    s.map_values(|c: char| ascii_lower_char(c))
}

/// The characters of a text with ASCII upper case turned into lower case.
fn ascii_lower_chars(s: &str) -> (r: Vec<char>)
    ensures
        r@ == ascii_lower(s@),
{
    broadcast use vstd::string::axiom_spec_iter;
    let mut r: Vec<char> = Vec::new();
    for c in it: s.chars()
        invariant
            it.seq() == s@,
            r@ == ascii_lower(s@.take(it.index() as int)),
    {
        let lower = if 'A' <= c && c <= 'Z' { ((c as u8) + 32) as char } else { c };
        proof {
            assert(s@.take(it.index() + 1) =~= s@.take(it.index() as int).push(c));
        }
        r.push(lower);
        proof {
            assert(r@ =~= ascii_lower(s@.take(it.index() + 1)));
        }
    }
    proof {
        assert(s@.take(s@.len() as int) =~= s@);
    }
    r
}

/// Whether two character sequences are equal.
fn same_chars(a: &Vec<char>, b: &[char]) -> (r: bool)
    ensures
        r == (a@ == b@),
{
    if a.len() != b.len() {
        return false;
    }
    let mut i: usize = 0;
    while i < a.len()
        invariant
            i <= a@.len(),
            a@.len() == b@.len(),
            forall|k: int| 0 <= k < i ==> a@[k] == b@[k],
        decreases a@.len() - i,
    {
        if a[i] != b[i] {
            return false;
        }
        i += 1;
    }
    assert(a@ =~= b@);
    true
}

/// The archive kind named by an extension already in lower case.
pub open spec fn archive_type_for(ext: Seq<char>) -> Option<ArchiveType> {
    if ext == "zip"@ {
        Some(ArchiveType::Zip)
    } else if ext == "rar"@ {
        Some(ArchiveType::Rar)
    } else if ext == "7z"@ {
        Some(ArchiveType::SevenZ)
    } else {
        None
    }
}

/// The archive kind of a path, by its extension in any case: "zip", "rar" or "7z".
pub open spec fn spec_archive_type_of(path: Seq<char>) -> Option<ArchiveType> {
    match spec_extension(path) {
        Some(e) => archive_type_for(ascii_lower(e)),
        None => None,
    }
}

/// The archive kind of a path, if its extension names one the viewer reads.
pub fn archive_type_of(path: &str) -> (r: Option<ArchiveType>)
    ensures
        r == spec_archive_type_of(path@),
        r == Some(ArchiveType::Zip) <==> (spec_extension(path@) matches Some(e) && ascii_lower(e) == "zip"@),
        r == Some(ArchiveType::Rar) <==> (spec_extension(path@) matches Some(e) && ascii_lower(e) == "rar"@),
        r == Some(ArchiveType::SevenZ) <==> (spec_extension(path@) matches Some(e) && ascii_lower(e) == "7z"@),
{
    match std_extension(path) {
        None => None,
        Some(e) => {
            let lower = ascii_lower_chars(e.as_str());
            let zip = ['z', 'i', 'p'];
            let rar = ['r', 'a', 'r'];
            let seven = ['7', 'z'];
            proof {
                reveal_strlit("zip");
                reveal_strlit("rar");
                reveal_strlit("7z");
                assert(zip@ =~= "zip"@);
                assert(rar@ =~= "rar"@);
                assert(seven@ =~= "7z"@);
            }
            if same_chars(&lower, &zip) {
                Some(ArchiveType::Zip)
            } else if same_chars(&lower, &rar) {
                Some(ArchiveType::Rar)
            } else if same_chars(&lower, &seven) {
                Some(ArchiveType::SevenZ)
            } else {
                None
            }
        },
    }
}

/// The order in which `alphanumeric_sort::compare_str` puts names, as positions into
/// `names`: a stable sort of `0..names.len()` by the name at each position.
pub uninterp spec fn spec_natural_order(names: Seq<Seq<char>>) -> Seq<usize>;

/// Calls `slice::sort_by` with `alphanumeric_sort::compare_str` on the names at each
/// position. The result holds the positions it was given, in the order named by
/// `spec_natural_order`.
#[verifier::external_body]
fn natural_order(names: &Vec<String>, positions: Vec<usize>) -> (r: Vec<usize>)
    requires
        positions@.len() == names@.len(),
        forall|i: int| 0 <= i < positions@.len() ==> #[trigger] positions@[i] == i,
    ensures
        r@ == spec_natural_order(names.deep_view()),
        r@.to_multiset() == positions@.to_multiset(),
{
    let mut order = positions;
    order.sort_by(|a, b| alphanumeric_sort::compare_str(&names[*a], &names[*b]));
    order
}

/// The paths arranged by the natural order of their shown names.
pub open spec fn sorted_by_name(paths: Seq<PathSource>, order: Seq<usize>) -> Seq<PathSource> {
    Seq::new(order.len(), |k: int| paths[order[k] as int])
}

/// The shown names of the paths.
pub open spec fn display_names(paths: Seq<PathSource>) -> Seq<Seq<char>> {
    paths.map_values(|p: PathSource| p.spec_display_name())
}

/// The positions `0..n`, each exactly once, in some order.
pub open spec fn rearranges(order: Seq<usize>, n: int) -> bool {
    &&& order.len() == n
    &&& order.no_duplicates()
    &&& forall|k: int| 0 <= k < n ==> #[trigger] order[k] < n
    &&& forall|j: int| 0 <= j < n ==> #[trigger] order.contains(j as usize)
}

/// Sorts the entries of an archive by the natural order of their shown names, as
/// `alphanumeric_sort::compare_str` orders them; every entry is kept, exactly once.
pub fn sort_archive_paths(paths: &Vec<PathSource>) -> (r: Vec<PathSource>)
    ensures
        r@ == sorted_by_name(paths@, spec_natural_order(display_names(paths@))),
        r@.len() == paths@.len(),
        rearranges(spec_natural_order(display_names(paths@)), paths@.len() as int),
{
    let mut names: Vec<String> = Vec::new();
    let mut positions: Vec<usize> = Vec::new();
    let mut i: usize = 0;
    while i < paths.len()
        invariant
            i <= paths@.len(),
            names@.len() == i,
            positions@.len() == i,
            forall|k: int| 0 <= k < i ==> (#[trigger] names@[k])@ == paths@[k].spec_display_name(),
            forall|k: int| 0 <= k < i ==> #[trigger] positions@[k] == k,
        decreases paths@.len() - i,
    {
        names.push(paths[i].file_name());
        positions.push(i);
        i += 1;
    }
    proof {
        assert(names.deep_view() =~= display_names(paths@));
    }
    let ghost ids = positions@;
    let order = natural_order(&names, positions);
    proof {
        broadcast use vstd::seq_lib::group_to_multiset_ensures;
        assert forall|k: int| 0 <= k < order@.len() implies (#[trigger] order@[k]) < paths@.len() by {
            assert(order@.contains(order@[k]));
            assert(order@.to_multiset().count(order@[k]) > 0);
            assert(ids.to_multiset().count(order@[k]) > 0);
            assert(ids.contains(order@[k]));
        }
        assert(order@.to_multiset().len() == order@.len());
        assert(ids.to_multiset().len() == ids.len());
        assert(ids.no_duplicates());
        ids.lemma_multiset_has_no_duplicates();
        order@.lemma_multiset_has_no_duplicates_conv();
        assert forall|j: int| 0 <= j < paths@.len() implies #[trigger] order@.contains(j as usize) by {
            assert(ids[j] == j as usize);
            assert(ids.contains(j as usize));
            assert(ids.to_multiset().count(j as usize) > 0);
            assert(order@.to_multiset().count(j as usize) > 0);
        }
    }
    let mut r: Vec<PathSource> = Vec::new();
    let mut k: usize = 0;
    while k < order.len()
        invariant
            k <= order@.len(),
            forall|j: int| 0 <= j < order@.len() ==> (#[trigger] order@[j]) < paths@.len(),
            r@.len() == k,
            forall|j: int| 0 <= j < k ==> #[trigger] r@[j] == paths@[order@[j] as int],
        decreases order@.len() - k,
    {
        r.push(paths[order[k]].clone());
        k += 1;
    }
    proof {
        assert(r@ =~= sorted_by_name(paths@, spec_natural_order(display_names(paths@))));
    }
    r
}

} // verus!
