//! Finding an index file in the SHA256 section of a release file.
use vstd::prelude::*;

use crate::text::{
    chars_of, ends_with, find, find_chars, is_ws, lemma_find_from_bound, lemma_words_are_words, parse_usize, parse_usize_range, range_ends_with,
    spans_view, string_of, word_spans, words,
};
use crate::types::{hash_name, HashType, PackageFileInfo};

verus! {

/// Why no entry was found.
#[derive(Debug, PartialEq, Eq, Clone)]
pub enum PackageInfoError {
    /// The release file has no SHA256 section.
    SectionNotFound,
    /// An entry line's size, given here, is not a number that fits a `usize`.
    InvalidSize(String),
    /// No entry of the section names the target.
    TargetNotFound,
}

pub enum PackageInfoErrorView {
    SectionNotFound,
    InvalidSize(Seq<char>),
    TargetNotFound,
}

impl View for PackageInfoError {
    type V = PackageInfoErrorView;

    open spec fn view(&self) -> PackageInfoErrorView {
        match self {
            PackageInfoError::SectionNotFound => PackageInfoErrorView::SectionNotFound,
            PackageInfoError::InvalidSize(s) => PackageInfoErrorView::InvalidSize(s@),
            PackageInfoError::TargetNotFound => PackageInfoErrorView::TargetNotFound,
        }
    }
}

/// End of the line that starts at `i`: the next `\n`, or the end of the text.
pub open spec fn next_newline(c: Seq<char>, i: int) -> int
    decreases c.len() - i,
{
    if 0 <= i < c.len() && c[i] != '\n' {
        next_newline(c, i + 1)
    } else {
        i
    }
}

pub proof fn lemma_next_newline_bounds(c: Seq<char>, i: int)
    requires
        0 <= i <= c.len(),
    ensures
        i <= next_newline(c, i) <= c.len(),
        next_newline(c, i) < c.len() ==> c[next_newline(c, i)] == '\n',
    decreases c.len() - i,
{
    if i < c.len() && c[i] != '\n' {
        lemma_next_newline_bounds(c, i + 1);
    }
}

/// Reads the lines of `c` from position `i` on. A line of exactly three
/// words `hash size path` whose path ends with `target` is the answer; a
/// three-word line whose size does not parse stops the search.
pub open spec fn scan_entries(c: Seq<char>, target: Seq<char>, i: int) -> Result<
    (Seq<char>, usize, Seq<char>),
    PackageInfoErrorView,
>
    decreases c.len() + 1 - i,
{
    if 0 <= i <= c.len() {
        let e = next_newline(c, i);
        let w = words(c.subrange(i, e));
        proof {
            lemma_next_newline_bounds(c, i);
        }
        if w.len() == 3 {
            match parse_usize(w[1]) {
                None => Err(PackageInfoErrorView::InvalidSize(w[1])),
                Some(n) => if ends_with(w[2], target) {
                    Ok((w[0], n, w[2]))
                } else {
                    scan_entries(c, target, e + 1)
                },
            }
        } else {
            scan_entries(c, target, e + 1)
        }
    } else {
        Err(PackageInfoErrorView::TargetNotFound)
    }
}

/// What `get_package_file_info` gives: the lines read start where the text
/// `SHA256` first occurs.
pub open spec fn spec_package_file_info(content: Seq<char>, target: Seq<char>) -> Result<
    (Seq<char>, usize, Seq<char>),
    PackageInfoErrorView,
> {
    match find(content, hash_name(HashType::SHA256)) {
        None => Err(PackageInfoErrorView::SectionNotFound),
        Some(i) => scan_entries(content, target, i),
    }
}

/// The hash, size and path that the SHA256 section of the release file
/// `content` gives for the index file `target_path`.
pub fn get_package_file_info(content: &str, target_path: &str) -> (res: Result<
    PackageFileInfo,
    PackageInfoError,
>)
    ensures
        match res {
            Ok(info) => spec_package_file_info(content@, target_path@) == Ok::<
                (Seq<char>, usize, Seq<char>),
                PackageInfoErrorView,
            >(info@),
            Err(e) => spec_package_file_info(content@, target_path@) == Err::<
                (Seq<char>, usize, Seq<char>),
                PackageInfoErrorView,
            >(e@),
        },
{
    let hash_type = HashType::SHA256;
    let c = chars_of(content);
    let target = chars_of(target_path);
    let heading = chars_of(hash_type.as_str());
    let start = match find_chars(&c, &heading) {
        Some(i) => i,
        None => {
            return Err(PackageInfoError::SectionNotFound);
        },
    };
    let mut i = start;
    assert(start <= c.len()) by {
        lemma_find_from_bound(c@, heading@, 0);
    }
    loop
        invariant
            i <= c.len(),
            c@ == content@,
            target@ == target_path@,
            spec_package_file_info(content@, target_path@) == scan_entries(c@, target@, i as int),
        decreases c.len() - i,
    {
        let mut e = i;
        while e < c.len() && c[e] != '\n'
            invariant
                i <= e <= c.len(),
                next_newline(c@, i as int) == next_newline(c@, e as int),
            decreases c.len() - e,
        {
            e = e + 1;
        }
        let spans = word_spans(&c, i, e);
        if spans.len() == 3 {
            let (h0, h1) = spans[0];
            let (s0, s1) = spans[1];
            let (p0, p1) = spans[2];
            assert(spans_view(c@, spans@)[1] == c@.subrange(s0 as int, s1 as int));
            assert(spans_view(c@, spans@)[0] == c@.subrange(h0 as int, h1 as int));
            assert(spans_view(c@, spans@)[2] == c@.subrange(p0 as int, p1 as int));
            match parse_usize_range(&c, s0, s1) {
                None => {
                    return Err(PackageInfoError::InvalidSize(string_of(&c, s0, s1)));
                },
                Some(size) => {
                    if range_ends_with(&c, p0, p1, &target) {
                        let hash = string_of(&c, h0, h1);
                        let path = string_of(&c, p0, p1);
                        return Ok(PackageFileInfo::new(hash, size, path));
                    }
                },
            }
        }
        if e == c.len() {
            assert(scan_entries(c@, target@, e + 1) == Err::<
                (Seq<char>, usize, Seq<char>),
                PackageInfoErrorView,
            >(PackageInfoErrorView::TargetNotFound));
            return Err(PackageInfoError::TargetNotFound);
        }
        i = e + 1;
    }
}

pub proof fn lemma_scan_entries_matches_target(c: Seq<char>, target: Seq<char>, i: int)
    ensures
        scan_entries(c, target, i) matches Ok((hash, _size, path)) ==> {
            &&& ends_with(path, target)
            &&& hash.len() > 0 && forall|k: int| 0 <= k < hash.len() ==> !is_ws(#[trigger] hash[k])
            &&& path.len() > 0 && forall|k: int| 0 <= k < path.len() ==> !is_ws(#[trigger] path[k])
        },
    decreases c.len() + 1 - i,
{
    if 0 <= i <= c.len() {
        let e = next_newline(c, i);
        lemma_next_newline_bounds(c, i);
        let w = words(c.subrange(i, e));
        lemma_words_are_words(c.subrange(i, e));
        if w.len() == 3 {
            assert(w[0].len() > 0);
            assert(w[2].len() > 0);
            if let Some(n) = parse_usize(w[1]) {
                if !ends_with(w[2], target) {
                    lemma_scan_entries_matches_target(c, target, e + 1);
                }
            }
        } else {
            lemma_scan_entries_matches_target(c, target, e + 1);
        }
    }
}

/// An entry found for a target has a path that ends with the target, and
/// its hash and path are single words.
pub proof fn lemma_found_entry_matches_target(content: Seq<char>, target: Seq<char>)
    ensures
        spec_package_file_info(content, target) matches Ok((hash, _size, path)) ==> {
            &&& ends_with(path, target)
            &&& hash.len() > 0 && forall|k: int| 0 <= k < hash.len() ==> !is_ws(#[trigger] hash[k])
            &&& path.len() > 0 && forall|k: int| 0 <= k < path.len() ==> !is_ws(#[trigger] path[k])
        },
{
    if let Some(i) = find(content, hash_name(HashType::SHA256)) {
        lemma_scan_entries_matches_target(content, target, i);
    }
}

} // verus!
