//! The repository list in DEB822 form: blocks of `Key: value` lines, with
//! `#` comment lines, separated by blank lines.
use vstd::prelude::*;

use crate::url::{host_str, parse_url, url_host, url_parses};
use crate::text::{
    is_ws, lemma_leading_word_len_exact, option_string_view, trim_end, trim_start,
    chars_of, range_equals, spans_view, string_of, trim, trim_range, word_spans, words,
};

verus! {

/// A repository entry of the sources list.
#[derive(Debug, PartialEq, Clone)]
pub struct Repository {
    pub uris: Vec<String>,
    pub suites: Vec<String>,
    pub components: Vec<String>,
    pub signed_by: Option<String>,
}

/// What a [`Repository`] holds, as character sequences.
#[verifier::ext_equal]
pub struct RepositoryView {
    pub uris: Seq<Seq<char>>,
    pub suites: Seq<Seq<char>>,
    pub components: Seq<Seq<char>>,
    pub signed_by: Option<Seq<char>>,
}

pub open spec fn strings_view(v: Seq<String>) -> Seq<Seq<char>> {
    v.map_values(|s: String| s@)
}

impl View for Repository {
    type V = RepositoryView;

    open spec fn view(&self) -> RepositoryView {
        RepositoryView {
            uris: strings_view(self.uris@),
            suites: strings_view(self.suites@),
            components: strings_view(self.components@),
            signed_by: option_string_view(self.signed_by),
        }
    }
}

pub open spec fn empty_repository() -> RepositoryView {
    RepositoryView { uris: seq![], suites: seq![], components: seq![], signed_by: None }
}

/// A repository is usable when it names at least one URI, suite and component.
pub open spec fn repository_is_valid(r: RepositoryView) -> bool {
    r.uris.len() > 0 && r.suites.len() > 0 && r.components.len() > 0
}

/// The repository after reading the field `key: value`.
pub open spec fn with_field(r: RepositoryView, key: Seq<char>, value: Seq<char>) -> RepositoryView {
    if key == "URIs"@ {
        RepositoryView { uris: r.uris + words(value), ..r }
    } else if key == "Suites"@ {
        RepositoryView { suites: r.suites + words(value), ..r }
    } else if key == "Components"@ {
        RepositoryView { components: r.components + words(value), ..r }
    } else if key == "Signed-By"@ {
        RepositoryView { signed_by: Some(value), ..r }
    } else {
        r
    }
}

pub open spec fn spec_inrelease_url(r: RepositoryView) -> Option<Seq<char>> {
    if r.uris.len() > 0 && r.suites.len() > 0 {
        Some(r.uris[0] + "/dists/"@ + r.suites[0] + "/InRelease"@)
    } else {
        None
    }
}

pub open spec fn basename(domain: Seq<char>, delimiter: Seq<char>, suite: Seq<char>, component: Seq<char>) -> Seq<char> {
    domain + delimiter + suite + delimiter + component
}

/// What `download_basename` gives for a repository with a URI and a suite.
pub open spec fn spec_download_basename(r: RepositoryView, delimiter: Seq<char>) -> Option<Seq<char>> {
    let uri = r.uris[0] + "/dists/"@ + r.suites[0] + "/InRelease"@;
    if r.components.len() > 0 && url_parses(uri) {
        match url_host(uri) {
            Some(domain) => Some(basename(domain, delimiter, r.suites[0], r.components[0])),
            None => None,
        }
    } else {
        None
    }
}

/// The base name is built from the first suite and the first component: it
/// ends with `delimiter + suite + delimiter + component` for those, and two
/// repositories that agree on their first URI, suite and component (whatever
/// their later suites and components) have the same base name.
pub proof fn lemma_basename_uses_first_suite_and_component(
    r1: RepositoryView,
    r2: RepositoryView,
    delimiter: Seq<char>,
)
    requires
        r1.uris.len() > 0 && r1.suites.len() > 0,
        r2.uris.len() > 0 && r2.suites.len() > 0,
    ensures
        spec_download_basename(r1, delimiter) matches Some(b) ==> r1.components.len() > 0 && {
            let tail = delimiter + r1.suites[0] + delimiter + r1.components[0];
            b.skip(b.len() - tail.len()) == tail
        },
        r1.uris[0] == r2.uris[0] && r1.suites[0] == r2.suites[0] && r1.components.len() > 0
            && r2.components.len() > 0 && r1.components[0] == r2.components[0]
            ==> spec_download_basename(r1, delimiter) == spec_download_basename(r2, delimiter),
{
    if let Some(b) = spec_download_basename(r1, delimiter) {
        let tail = delimiter + r1.suites[0] + delimiter + r1.components[0];
        let uri = r1.uris[0] + "/dists/"@ + r1.suites[0] + "/InRelease"@;
        let domain = url_host(uri)->0;
        assert(b =~= domain + tail);
        assert(b.skip(b.len() - tail.len()) =~= tail);
    }
}

/// `domain`, `suite` and `component`, joined by `delimiter`.
pub fn join_basename(domain: &str, delimiter: &str, suite: &str, component: &str) -> (res: String)
    ensures
        res@ == basename(domain@, delimiter@, suite@, component@),
{
    let mut res = String::from_str(domain);
    res.append(delimiter);
    res.append(suite);
    res.append(delimiter);
    res.append(component);
    res
}

// ---- positions in the input ------------------------------------------------
// Each function below takes the input `s` and a position `i` in it and says
// where the construct that starts at `i` ends.

pub open spec fn is_space_or_tab(c: char) -> bool {
    c == ' ' || c == '\t'
}

pub open spec fn is_multispace(c: char) -> bool {
    c == ' ' || c == '\t' || c == '\r' || c == '\n'
}

/// End of the spaces and tabs that start at `i`.
pub open spec fn skip_spaces(s: Seq<char>, i: int) -> int
    decreases s.len() - i,
{
    if 0 <= i < s.len() && is_space_or_tab(s[i]) {
        skip_spaces(s, i + 1)
    } else {
        i
    }
}

/// End of the spaces, tabs, carriage returns and line feeds that start at `i`.
pub open spec fn skip_multispace(s: Seq<char>, i: int) -> int
    decreases s.len() - i,
{
    if 0 <= i < s.len() && is_multispace(s[i]) {
        skip_multispace(s, i + 1)
    } else {
        i
    }
}

/// End of the run of characters other than `\r` and `\n` that starts at `i`.
pub open spec fn rest_of_line(s: Seq<char>, i: int) -> int
    decreases s.len() - i,
{
    if 0 <= i < s.len() && s[i] != '\r' && s[i] != '\n' {
        rest_of_line(s, i + 1)
    } else {
        i
    }
}

/// End of the run of characters other than `:`, `\r` and `\n` that starts at `i`.
pub open spec fn key_end(s: Seq<char>, i: int) -> int
    decreases s.len() - i,
{
    if 0 <= i < s.len() && s[i] != ':' && s[i] != '\r' && s[i] != '\n' {
        key_end(s, i + 1)
    } else {
        i
    }
}

/// A line ending (`\n` or `\r\n`) or the end of the input, at `i`.
pub open spec fn line_ending_or_eof(s: Seq<char>, i: int) -> Option<int> {
    if i >= s.len() {
        Some(i)
    } else if s[i] == '\n' {
        Some(i + 1)
    } else if s[i] == '\r' && i + 1 < s.len() && s[i + 1] == '\n' {
        Some(i + 2)
    } else {
        None
    }
}

/// A comment line: `#`, the rest of the line, and its line ending.
pub open spec fn comment_line(s: Seq<char>, i: int) -> Option<int> {
    if 0 <= i < s.len() && s[i] == '#' {
        line_ending_or_eof(s, rest_of_line(s, i + 1))
    } else {
        None
    }
}

/// A blank line: spaces and tabs, then a line ending or the end of the input.
pub open spec fn blank_line(s: Seq<char>, i: int) -> Option<int> {
    line_ending_or_eof(s, skip_spaces(s, i))
}

pub proof fn lemma_skip_bounds(s: Seq<char>, i: int)
    requires
        0 <= i <= s.len(),
    ensures
        i <= skip_spaces(s, i) <= s.len(),
        i <= skip_multispace(s, i) <= s.len(),
        i <= rest_of_line(s, i) <= s.len(),
        i <= key_end(s, i) <= s.len(),
    decreases s.len() - i,
{
    if i < s.len() {
        lemma_skip_bounds(s, i + 1);
    }
}

pub proof fn lemma_line_bounds(s: Seq<char>, i: int)
    requires
        0 <= i <= s.len(),
    ensures
        line_ending_or_eof(s, i) matches Some(j) ==> i <= j <= s.len(),
        comment_line(s, i) matches Some(j) ==> i < j <= s.len(),
        blank_line(s, i) matches Some(j) ==> i <= j <= s.len() && (j == i ==> i == s.len()),
{
    lemma_skip_bounds(s, i);
    if i < s.len() {
        lemma_skip_bounds(s, i + 1);
    }
}

/// Skips comment lines; stops at a blank line, and otherwise also skips the
/// spaces and tabs that open the next line.
pub open spec fn clean_inside_block(s: Seq<char>, i: int) -> int
    decreases s.len() - i,
{
    if 0 <= i <= s.len() {
        match comment_line(s, i) {
            Some(j) => {
                proof {
                    lemma_line_bounds(s, i);
                }
                clean_inside_block(s, j)
            },
            None => if blank_line(s, i) is Some {
                i
            } else {
                skip_spaces(s, i)
            },
        }
    } else {
        i
    }
}

pub proof fn lemma_clean_bounds(s: Seq<char>, i: int)
    requires
        0 <= i <= s.len(),
    ensures
        i <= clean_inside_block(s, i) <= s.len(),
    decreases s.len() - i,
{
    lemma_line_bounds(s, i);
    lemma_skip_bounds(s, i);
    if let Some(j) = comment_line(s, i) {
        lemma_clean_bounds(s, j);
    }
}

/// A `Key: value` line: the end of the line, the trimmed key and the trimmed value.
pub open spec fn key_value_line(s: Seq<char>, i: int) -> Option<(int, Seq<char>, Seq<char>)> {
    let k = key_end(s, i);
    if 0 <= i && i < k && k < s.len() && s[k] == ':' {
        let v = rest_of_line(s, k + 1);
        match line_ending_or_eof(s, v) {
            Some(e) => Some((e, trim(s.subrange(i, k)), trim(s.subrange(k + 1, v)))),
            None => None,
        }
    } else {
        None
    }
}

pub proof fn lemma_key_value_bounds(s: Seq<char>, i: int)
    requires
        0 <= i <= s.len(),
    ensures
        key_value_line(s, i) matches Some((e, _, _)) ==> i < e <= s.len(),
{
    lemma_skip_bounds(s, i);
    let k = key_end(s, i);
    if i < k && k < s.len() {
        lemma_skip_bounds(s, k + 1);
        lemma_line_bounds(s, rest_of_line(s, k + 1));
    }
}

/// Reads `Key: value` lines from `i` into `r`, skipping comments between them.
pub open spec fn block_fields(s: Seq<char>, i: int, r: RepositoryView) -> (int, RepositoryView)
    decreases s.len() - i,
{
    if 0 <= i <= s.len() {
        match key_value_line(s, i) {
            Some((e, key, value)) => {
                proof {
                    lemma_key_value_bounds(s, i);
                    lemma_clean_bounds(s, e);
                }
                block_fields(s, clean_inside_block(s, e), with_field(r, key, value))
            },
            None => (i, r),
        }
    } else {
        (i, r)
    }
}

pub proof fn lemma_block_fields_bounds(s: Seq<char>, i: int, r: RepositoryView)
    requires
        0 <= i <= s.len(),
    ensures
        i <= block_fields(s, i, r).0 <= s.len(),
    decreases s.len() - i,
{
    if let Some((e, key, value)) = key_value_line(s, i) {
        lemma_key_value_bounds(s, i);
        lemma_clean_bounds(s, e);
        lemma_block_fields_bounds(s, clean_inside_block(s, e), with_field(r, key, value));
    }
}

/// One repository block starting at `i`: its end and the repository, or, when
/// the block lacks a URI, suite or component, the position where it stopped.
pub open spec fn parse_block(s: Seq<char>, i: int) -> Result<(int, RepositoryView), int> {
    let (p, r) = block_fields(s, clean_inside_block(s, i), empty_repository());
    if repository_is_valid(r) {
        Ok((p, r))
    } else {
        Err(p)
    }
}

pub proof fn lemma_block_bounds(s: Seq<char>, i: int)
    requires
        0 <= i <= s.len(),
    ensures
        parse_block(s, i) matches Ok((p, _)) ==> i <= p <= s.len(),
{
    lemma_clean_bounds(s, i);
    lemma_block_fields_bounds(s, clean_inside_block(s, i), empty_repository());
}

/// The blank lines that follow the first one of a separator.
pub open spec fn more_blank_lines(s: Seq<char>, j: int) -> Option<int>
    decreases s.len() - j,
{
    if 0 <= j <= s.len() {
        match blank_line(s, j) {
            None => Some(j),
            Some(k) => if k > j {
                proof {
                    lemma_line_bounds(s, j);
                }
                more_blank_lines(s, k)
            } else {
                None
            },
        }
    } else {
        None
    }
}

/// One or more blank lines, none of them empty at the end of the input.
pub open spec fn block_separator(s: Seq<char>, i: int) -> Option<int> {
    match blank_line(s, i) {
        None => None,
        Some(j) => more_blank_lines(s, j),
    }
}

pub proof fn lemma_more_blank_bounds(s: Seq<char>, j: int)
    requires
        0 <= j <= s.len(),
    ensures
        more_blank_lines(s, j) matches Some(k) ==> j <= k <= s.len(),
    decreases s.len() - j,
{
    lemma_line_bounds(s, j);
    if let Some(k) = blank_line(s, j) {
        if k > j {
            lemma_more_blank_bounds(s, k);
        }
    }
}

pub proof fn lemma_separator_bounds(s: Seq<char>, i: int)
    requires
        0 <= i <= s.len(),
    ensures
        block_separator(s, i) matches Some(j) ==> i < j <= s.len(),
{
    lemma_line_bounds(s, i);
    if let Some(j) = blank_line(s, i) {
        lemma_more_blank_bounds(s, j);
        if j == i {
            lemma_line_bounds(s, j);
        }
    }
}

/// The blocks after the first: each preceded by a separator, up to the first
/// separator or block that does not parse. Gives where reading stopped (just
/// after the last block read) and the repositories.
pub open spec fn more_blocks(s: Seq<char>, i: int, acc: Seq<RepositoryView>) -> (int, Seq<RepositoryView>)
    decreases s.len() - i,
{
    if 0 <= i <= s.len() {
        match block_separator(s, i) {
            None => (i, acc),
            Some(j) => match parse_block(s, j) {
                Err(_) => (i, acc),
                Ok((k, r)) => {
                    proof {
                        lemma_separator_bounds(s, i);
                        lemma_block_bounds(s, j);
                    }
                    more_blocks(s, k, acc.push(r))
                },
            },
        }
    } else {
        (i, acc)
    }
}

/// The repositories of a sources file, with the position where the text
/// left unread begins (after the last block read and the spaces and line
/// endings that follow it); or the position at which its first block was
/// found incomplete.
pub open spec fn parse_sources(s: Seq<char>) -> Result<(int, Seq<RepositoryView>), int> {
    match parse_block(s, skip_multispace(s, 0)) {
        Err(p) => Err(p),
        Ok((k, r)) => {
            let (end, v) = more_blocks(s, k, seq![r]);
            Ok((skip_multispace(s, end), v))
        },
    }
}

// ---- what the parser promises ---------------------------------------------

pub proof fn lemma_more_blocks_valid(s: Seq<char>, i: int, acc: Seq<RepositoryView>)
    requires
        0 <= i <= s.len(),
        forall|k: int| 0 <= k < acc.len() ==> repository_is_valid(#[trigger] acc[k]),
    ensures
        i <= more_blocks(s, i, acc).0 <= s.len(),
        more_blocks(s, i, acc).1.len() >= acc.len(),
        forall|k: int|
            0 <= k < more_blocks(s, i, acc).1.len() ==> repository_is_valid(
                #[trigger] more_blocks(s, i, acc).1[k],
            ),
    decreases s.len() - i,
{
    if let Some(j) = block_separator(s, i) {
        if let Ok((k, r)) = parse_block(s, j) {
            lemma_separator_bounds(s, i);
            lemma_block_bounds(s, j);
            let next = acc.push(r);
            assert forall|x: int| 0 <= x < next.len() implies repository_is_valid(
                #[trigger] next[x],
            ) by {
                if x < acc.len() {
                    assert(next[x] == acc[x]);
                }
            }
            lemma_more_blocks_valid(s, k, next);
        }
    }
}

/// Every repository read from a sources file names at least one URI, one
/// suite and one component, a file that is read gives at least one, and the
/// text left unread is a suffix of the input.
pub proof fn lemma_parsed_repositories_are_valid(s: Seq<char>)
    ensures
        parse_sources(s) matches Ok((rest, v)) ==> {
            &&& 0 <= rest <= s.len()
            &&& v.len() >= 1
            &&& forall|k: int| 0 <= k < v.len() ==> repository_is_valid(#[trigger] v[k])
        },
{
    lemma_skip_bounds(s, 0);
    let i = skip_multispace(s, 0);
    lemma_block_bounds(s, i);
    if let Ok((k, r)) = parse_block(s, i) {
        lemma_more_blocks_valid(s, k, seq![r]);
        lemma_skip_bounds(s, more_blocks(s, k, seq![r]).0);
    }
}

// ---- every block is read -------------------------------------------------

/// A `Key: value` line.
pub open spec fn field_line(key: Seq<char>, value: Seq<char>) -> Seq<char> {
    key + seq![':', ' '] + value + seq!['\n']
}

/// A block naming one URI, one suite and one component.
pub open spec fn block_text(uri: Seq<char>, suite: Seq<char>, component: Seq<char>) -> Seq<char> {
    field_line("URIs"@, uri) + field_line("Suites"@, suite) + field_line("Components"@, component)
}

/// Blocks, each given by its URI, suite and component, separated by blank lines.
pub open spec fn sources_text(rs: Seq<(Seq<char>, Seq<char>, Seq<char>)>) -> Seq<char>
    decreases rs.len(),
{
    if rs.len() == 0 {
        seq![]
    } else if rs.len() == 1 {
        block_text(rs[0].0, rs[0].1, rs[0].2)
    } else {
        block_text(rs[0].0, rs[0].1, rs[0].2) + seq!['\n'] + sources_text(rs.drop_first())
    }
}

/// One or more characters, none of them whitespace.
pub open spec fn is_word(w: Seq<char>) -> bool {
    w.len() > 0 && forall|k: int| 0 <= k < w.len() ==> !is_ws(#[trigger] w[k])
}

pub open spec fn all_words(rs: Seq<(Seq<char>, Seq<char>, Seq<char>)>) -> bool {
    forall|k: int|
        0 <= k < rs.len() ==> is_word(#[trigger] rs[k].0) && is_word(rs[k].1) && is_word(rs[k].2)
}

/// The repository with one URI, one suite, one component and no key.
pub open spec fn single_repository(uri: Seq<char>, suite: Seq<char>, component: Seq<char>) -> RepositoryView {
    RepositoryView { uris: seq![uri], suites: seq![suite], components: seq![component], signed_by: None }
}

pub open spec fn single_repositories(rs: Seq<(Seq<char>, Seq<char>, Seq<char>)>) -> Seq<RepositoryView> {
    rs.map_values(|x: (Seq<char>, Seq<char>, Seq<char>)| single_repository(x.0, x.1, x.2))
}

proof fn lemma_key_end_scan(t: Seq<char>, i: int, n: int)
    requires
        0 <= i,
        0 <= n,
        i + n < t.len(),
        forall|j: int| i <= j < i + n ==> t[j] != ':' && t[j] != '\r' && t[j] != '\n',
        t[i + n] == ':',
    ensures
        key_end(t, i) == i + n,
    decreases n,
{
    if n > 0 {
        lemma_key_end_scan(t, i + 1, n - 1);
    }
}

proof fn lemma_rest_of_line_scan(t: Seq<char>, i: int, n: int)
    requires
        0 <= i,
        0 <= n,
        i + n <= t.len(),
        forall|j: int| i <= j < i + n ==> t[j] != '\r' && t[j] != '\n',
        i + n == t.len() || t[i + n] == '\r' || t[i + n] == '\n',
    ensures
        rest_of_line(t, i) == i + n,
    decreases n,
{
    if n > 0 {
        lemma_rest_of_line_scan(t, i + 1, n - 1);
    }
}

proof fn lemma_trim_word(w: Seq<char>)
    requires
        is_word(w),
    ensures
        trim(w) == w,
        trim(seq![' '] + w) == w,
{
    assert(!is_ws(w[0]));
    assert(!is_ws(w.last()));
    assert(trim_start(w) == w);
    assert((seq![' '] + w).drop_first() =~= w);
    assert(trim_start(seq![' '] + w) == trim_start(w));
}

proof fn lemma_words_of_word(w: Seq<char>)
    requires
        is_word(w),
    ensures
        words(w) == seq![w],
{
    lemma_leading_word_len_exact(w, w.len() as int);
    assert(w.take(w.len() as int) =~= w);
    assert(words(w.skip(w.len() as int)) =~= Seq::<Seq<char>>::empty());
    assert(words(w) =~= seq![w]);
}

proof fn lemma_field_line_at(t: Seq<char>, i: int, key: Seq<char>, value: Seq<char>)
    requires
        is_word(key),
        forall|k: int| 0 <= k < key.len() ==> key[k] != ':',
        is_word(value),
        0 <= i,
        i + field_line(key, value).len() <= t.len(),
        t.subrange(i, i + field_line(key, value).len()) == field_line(key, value),
    ensures
        key_value_line(t, i) == Some((i + field_line(key, value).len(), key, value)),
{
    let f = field_line(key, value);
    let kl = key.len() as int;
    let vl = value.len() as int;
    assert forall|j: int| 0 <= j < f.len() implies t[i + j] == f[j] by {
        assert(t.subrange(i, i + f.len())[j] == t[i + j]);
    }
    assert forall|j: int| i <= j < i + kl implies t[j] != ':' && t[j] != '\r' && t[j] != '\n' by {
        assert(t[j] == f[j - i]);
        assert(f[j - i] == key[j - i]);
        assert(!is_ws(key[j - i]));
    }
    assert(t[i + kl] == f[kl]);
    lemma_key_end_scan(t, i, kl);
    assert forall|j: int| i + kl + 1 <= j < i + kl + 2 + vl implies t[j] != '\r' && t[j] != '\n' by {
        assert(t[j] == f[j - i]);
        if j > i + kl + 1 {
            assert(f[j - i] == value[j - i - kl - 2]);
            assert(!is_ws(value[j - i - kl - 2]));
        }
    }
    assert(t[i + kl + 2 + vl] == f[kl + 2 + vl]);
    lemma_rest_of_line_scan(t, i + kl + 1, vl + 1);
    assert(t.subrange(i, i + kl) =~= key);
    assert forall|j: int| 0 <= j < vl + 1 implies t.subrange(i + kl + 1, i + kl + 2 + vl)[j] == (seq![
        ' ',
    ] + value)[j] by {
        assert(t.subrange(i + kl + 1, i + kl + 2 + vl)[j] == t[i + kl + 1 + j]);
        assert(t[i + kl + 1 + j] == f[kl + 1 + j]);
        if j > 0 {
            assert(f[kl + 1 + j] == value[j - 1]);
        }
    }
    assert(t.subrange(i + kl + 1, i + kl + 2 + vl) =~= seq![' '] + value);
    lemma_trim_word(key);
    lemma_trim_word(value);
}

proof fn lemma_block_at(t: Seq<char>, o: int, uri: Seq<char>, suite: Seq<char>, component: Seq<char>)
    requires
        is_word(uri),
        is_word(suite),
        is_word(component),
        0 <= o,
        o + block_text(uri, suite, component).len() <= t.len(),
        t.subrange(o, o + block_text(uri, suite, component).len()) == block_text(uri, suite, component),
        o + block_text(uri, suite, component).len() == t.len() || t[o + block_text(
            uri,
            suite,
            component,
        ).len()] == '\n',
    ensures
        parse_block(t, o) == Ok::<(int, RepositoryView), int>(
            (o + block_text(uri, suite, component).len(), single_repository(uri, suite, component)),
        ),
{
    reveal_strlit("URIs");
    reveal_strlit("Suites");
    reveal_strlit("Components");
    let k1 = "URIs"@;
    let k2 = "Suites"@;
    let k3 = "Components"@;
    let f1 = field_line(k1, uri);
    let f2 = field_line(k2, suite);
    let f3 = field_line(k3, component);
    let b = block_text(uri, suite, component);
    let o1 = o + f1.len();
    let o2 = o1 + f2.len();
    let o3 = o2 + f3.len();
    assert(b == f1 + f2 + f3);
    assert(o3 == o + b.len());
    assert(is_word(k1) && forall|k: int| 0 <= k < k1.len() ==> k1[k] != ':');
    assert(is_word(k2) && forall|k: int| 0 <= k < k2.len() ==> k2[k] != ':');
    assert(is_word(k3) && forall|k: int| 0 <= k < k3.len() ==> k3[k] != ':');
    assert(t.subrange(o, o1) =~= f1) by {
        assert(t.subrange(o, o1) =~= t.subrange(o, o + b.len()).subrange(0, f1.len() as int));
    }
    assert(t.subrange(o1, o2) =~= f2) by {
        assert(t.subrange(o1, o2) =~= t.subrange(o, o + b.len()).subrange(
            f1.len() as int,
            (f1.len() + f2.len()) as int,
        ));
    }
    assert(t.subrange(o2, o3) =~= f3) by {
        assert(t.subrange(o2, o3) =~= t.subrange(o, o + b.len()).subrange(
            (f1.len() + f2.len()) as int,
            b.len() as int,
        ));
    }
    assert(t[o] == 'U') by {
        assert(t.subrange(o, o1)[0] == t[o]);
    }
    assert(t[o1] == 'S') by {
        assert(t.subrange(o1, o2)[0] == t[o1]);
    }
    assert(t[o2] == 'C') by {
        assert(t.subrange(o2, o3)[0] == t[o2]);
    }
    lemma_field_line_at(t, o, k1, uri);
    lemma_field_line_at(t, o1, k2, suite);
    lemma_field_line_at(t, o2, k3, component);
    assert(clean_inside_block(t, o) == o);
    assert(clean_inside_block(t, o1) == o1);
    assert(clean_inside_block(t, o2) == o2);
    assert(clean_inside_block(t, o3) == o3);
    assert(key_end(t, o3) == o3);
    assert(key_value_line(t, o3) is None);
    lemma_words_of_word(uri);
    lemma_words_of_word(suite);
    lemma_words_of_word(component);
    let r1 = with_field(empty_repository(), k1, uri);
    let r2 = with_field(r1, k2, suite);
    let r3 = with_field(r2, k3, component);
    assert(k2 != k1);
    assert(k3 != k1 && k3 != k2);
    assert(r3 =~= single_repository(uri, suite, component));
    assert(block_fields(t, o3, r3) == (o3, r3));
    assert(block_fields(t, o2, r2) == (o3, r3));
    assert(block_fields(t, o1, r1) == (o3, r3));
    assert(block_fields(t, o, empty_repository()) == (o3, r3));
}

proof fn lemma_blocks_of_text(t: Seq<char>, o: int, rs: Seq<(Seq<char>, Seq<char>, Seq<char>)>, acc: Seq<RepositoryView>)
    requires
        rs.len() >= 1,
        all_words(rs),
        0 <= o <= t.len(),
        t.subrange(o, t.len() as int) == sources_text(rs),
    ensures
        parse_block(t, o) == Ok::<(int, RepositoryView), int>(
            (o + block_text(rs[0].0, rs[0].1, rs[0].2).len(), single_repository(rs[0].0, rs[0].1, rs[0].2)),
        ),
        more_blocks(
            t,
            o + block_text(rs[0].0, rs[0].1, rs[0].2).len(),
            acc.push(single_repository(rs[0].0, rs[0].1, rs[0].2)),
        ) == (t.len() as int, acc + single_repositories(rs)),
    decreases rs.len(),
{
    reveal_strlit("URIs");
    let b0 = block_text(rs[0].0, rs[0].1, rs[0].2);
    let v0 = single_repository(rs[0].0, rs[0].1, rs[0].2);
    let e = o + b0.len();
    let st = t.subrange(o, t.len() as int);
    assert(is_word(rs[0].0) && is_word(rs[0].1) && is_word(rs[0].2));
    if rs.len() == 1 {
        assert(st == b0);
        assert(t.subrange(o, e) =~= b0);
        lemma_block_at(t, o, rs[0].0, rs[0].1, rs[0].2);
        assert(blank_line(t, e) == Some(e));
        assert(more_blank_lines(t, e) is None);
        assert(block_separator(t, e) is None);
        assert(acc + single_repositories(rs) =~= acc.push(v0));
    } else {
        let rest = rs.drop_first();
        assert(st == b0 + seq!['\n'] + sources_text(rest));
        assert(st.len() == b0.len() + 1 + sources_text(rest).len());
        assert(st.subrange(0, b0.len() as int) =~= b0);
        assert(t.subrange(o, e) =~= st.subrange(0, b0.len() as int));
        assert(t[e] == st[b0.len() as int]);
        lemma_block_at(t, o, rs[0].0, rs[0].1, rs[0].2);
        assert(t.subrange(e + 1, t.len() as int) =~= st.subrange(b0.len() as int + 1, st.len() as int));
        assert(t.subrange(e + 1, t.len() as int) =~= sources_text(rest));
        assert forall|k: int| 0 <= k < rest.len() implies is_word(#[trigger] rest[k].0) && is_word(
            rest[k].1,
        ) && is_word(rest[k].2) by {
            assert(rest[k] == rs[k + 1]);
        }
        let b1 = block_text(rest[0].0, rest[0].1, rest[0].2);
        assert(sources_text(rest).len() >= b1.len() && sources_text(rest)[0] == b1[0]) by {
            if rest.len() > 1 {
                assert(sources_text(rest) == b1 + seq!['\n'] + sources_text(rest.drop_first()));
            }
        }
        assert(b1[0] == 'U');
        assert(t[e + 1] == 'U') by {
            assert(t.subrange(e + 1, t.len() as int)[0] == t[e + 1]);
        }
        assert(blank_line(t, e) == Some(e + 1));
        assert(blank_line(t, e + 1) is None);
        assert(block_separator(t, e) == Some(e + 1));
        lemma_blocks_of_text(t, e + 1, rest, acc.push(v0));
        assert(acc.push(v0) + single_repositories(rest) =~= acc + single_repositories(rs));
    }
}

/// Every block of a sources file is read, however many there are: blocks
/// that each name a URI, a suite and a component, separated by blank
/// lines, give one repository each, in order, and leave nothing unread.
pub proof fn lemma_every_block_is_read(rs: Seq<(Seq<char>, Seq<char>, Seq<char>)>)
    requires
        rs.len() >= 1,
        all_words(rs),
    ensures
        parse_sources(sources_text(rs)) == Ok::<(int, Seq<RepositoryView>), int>(
            (sources_text(rs).len() as int, single_repositories(rs)),
        ),
{
    reveal_strlit("URIs");
    let t = sources_text(rs);
    assert(t.subrange(0, t.len() as int) =~= t);
    let b0 = block_text(rs[0].0, rs[0].1, rs[0].2);
    assert(t.len() >= b0.len() && t[0] == b0[0]) by {
        if rs.len() > 1 {
            assert(t == b0 + seq!['\n'] + sources_text(rs.drop_first()));
        }
    }
    assert(skip_multispace(t, 0) == 0);
    lemma_blocks_of_text(t, 0, rs, Seq::<RepositoryView>::empty());
    assert(Seq::<RepositoryView>::empty().push(single_repository(rs[0].0, rs[0].1, rs[0].2))
        =~= seq![single_repository(rs[0].0, rs[0].1, rs[0].2)]);
    assert(Seq::<RepositoryView>::empty() + single_repositories(rs) =~= single_repositories(rs));
}

proof fn lemma_sources_text_concat(a: Seq<(Seq<char>, Seq<char>, Seq<char>)>, b: Seq<(Seq<char>, Seq<char>, Seq<char>)>)
    requires
        a.len() >= 1,
        b.len() >= 1,
    ensures
        sources_text(a + b) == sources_text(a) + seq!['\n'] + sources_text(b),
    decreases a.len(),
{
    let ab = a + b;
    assert(ab[0] == a[0]);
    if a.len() == 1 {
        assert(ab.drop_first() =~= b);
    } else {
        assert(ab.drop_first() =~= a.drop_first() + b);
        lemma_sources_text_concat(a.drop_first(), b);
    }
}

/// Two sources files joined by a blank line read as the repositories of the
/// first followed by those of the second.
pub proof fn lemma_joined_files_read_in_order(
    a: Seq<(Seq<char>, Seq<char>, Seq<char>)>,
    b: Seq<(Seq<char>, Seq<char>, Seq<char>)>,
)
    requires
        a.len() >= 1,
        b.len() >= 1,
        all_words(a),
        all_words(b),
    ensures
        parse_sources(sources_text(a) + seq!['\n'] + sources_text(b)) == Ok::<(int, Seq<RepositoryView>), int>(
            (
                (sources_text(a) + seq!['\n'] + sources_text(b)).len() as int,
                single_repositories(a) + single_repositories(b),
            ),
        ),
{
    lemma_sources_text_concat(a, b);
    let ab = a + b;
    assert forall|k: int| 0 <= k < ab.len() implies is_word(#[trigger] ab[k].0) && is_word(ab[k].1)
        && is_word(ab[k].2) by {
        if k < a.len() {
            assert(ab[k] == a[k]);
        } else {
            assert(ab[k] == b[k - a.len()]);
        }
    }
    lemma_every_block_is_read(ab);
    assert(single_repositories(ab) =~= single_repositories(a) + single_repositories(b));
}

// ---- the parser ------------------------------------------------------------

pub open spec fn repositories_view(v: Seq<Repository>) -> Seq<RepositoryView> {
    v.map_values(|r: Repository| r@)
}

/// Why a sources file was refused: its first block lacks a URI, suite or
/// component. `position` is the index (in characters) where reading stopped.
#[derive(Debug, PartialEq, Eq, Clone, Copy)]
pub struct ParseError {
    pub position: usize,
}

impl Repository {
    pub fn new() -> (r: Self)
        ensures
            r@ == empty_repository(),
    {
        let r = Repository { uris: Vec::new(), suites: Vec::new(), components: Vec::new(), signed_by: None };
        assert(r@.uris =~= Seq::<Seq<char>>::empty());
        assert(r@.suites =~= Seq::<Seq<char>>::empty());
        assert(r@.components =~= Seq::<Seq<char>>::empty());
        r
    }

    /// The address of the repository's `InRelease` file, from its first URI and
    /// first suite.
    pub fn inrelease_url(&self) -> (res: Option<String>)
        ensures
            option_string_view(res) == spec_inrelease_url(self@),
    {
        if self.uris.len() == 0 || self.suites.len() == 0 {
            return None;
        }
        let mut url = String::from_str(self.uris[0].as_str());
        url.append("/dists/");
        url.append(self.suites[0].as_str());
        url.append("/InRelease");
        Some(url)
    }

    /// The base name for the repository's downloads: the host of its
    /// `InRelease` address, its first suite and its first component, joined
    /// by `delimiter`.
    pub fn download_basename(&self, delimiter: &str) -> (res: Option<String>)
        requires
            self@.uris.len() > 0,
            self@.suites.len() > 0,
        ensures
            option_string_view(res) == spec_download_basename(self@, delimiter@),
    {
        let uri = self.inrelease_url().unwrap();
        if self.components.len() == 0 {
            return None;
        }
        let suite = self.suites[0].as_str();
        let component = self.components[0].as_str();
        let url_parsed = parse_url(uri.as_str())?;
        let domain = host_str(&url_parsed)?;
        Some(join_basename(domain, delimiter, suite, component))
    }

    pub fn is_valid(&self) -> (res: bool)
        ensures
            res == repository_is_valid(self@),
    {
        !self.uris.is_empty() && !self.suites.is_empty() && !self.components.is_empty()
    }
}

fn skip_spaces_exec(s: &Vec<char>, i: usize) -> (r: usize)
    requires
        i <= s.len(),
    ensures
        r == skip_spaces(s@, i as int),
        i <= r <= s.len(),
{
    let mut k = i;
    while k < s.len() && (s[k] == ' ' || s[k] == '\t')
        invariant
            i <= k <= s.len(),
            skip_spaces(s@, i as int) == skip_spaces(s@, k as int),
        decreases s.len() - k,
    {
        k = k + 1;
    }
    k
}

fn skip_multispace_exec(s: &Vec<char>, i: usize) -> (r: usize)
    requires
        i <= s.len(),
    ensures
        r == skip_multispace(s@, i as int),
        i <= r <= s.len(),
{
    let mut k = i;
    while k < s.len() && (s[k] == ' ' || s[k] == '\t' || s[k] == '\r' || s[k] == '\n')
        invariant
            i <= k <= s.len(),
            skip_multispace(s@, i as int) == skip_multispace(s@, k as int),
        decreases s.len() - k,
    {
        k = k + 1;
    }
    k
}

fn rest_of_line_exec(s: &Vec<char>, i: usize) -> (r: usize)
    requires
        i <= s.len(),
    ensures
        r == rest_of_line(s@, i as int),
        i <= r <= s.len(),
{
    let mut k = i;
    while k < s.len() && s[k] != '\r' && s[k] != '\n'
        invariant
            i <= k <= s.len(),
            rest_of_line(s@, i as int) == rest_of_line(s@, k as int),
        decreases s.len() - k,
    {
        k = k + 1;
    }
    k
}

fn key_end_exec(s: &Vec<char>, i: usize) -> (r: usize)
    requires
        i <= s.len(),
    ensures
        r == key_end(s@, i as int),
        i <= r <= s.len(),
{
    let mut k = i;
    while k < s.len() && s[k] != ':' && s[k] != '\r' && s[k] != '\n'
        invariant
            i <= k <= s.len(),
            key_end(s@, i as int) == key_end(s@, k as int),
        decreases s.len() - k,
    {
        k = k + 1;
    }
    k
}

fn line_ending_or_eof_exec(s: &Vec<char>, i: usize) -> (r: Option<usize>)
    requires
        i <= s.len(),
    ensures
        match r {
            Some(j) => line_ending_or_eof(s@, i as int) == Some(j as int) && i <= j <= s.len(),
            None => line_ending_or_eof(s@, i as int) is None,
        },
{
    if i >= s.len() {
        Some(i)
    } else if s[i] == '\n' {
        Some(i + 1)
    } else if s[i] == '\r' && i + 1 < s.len() && s[i + 1] == '\n' {
        Some(i + 2)
    } else {
        None
    }
}

fn comment_line_exec(s: &Vec<char>, i: usize) -> (r: Option<usize>)
    requires
        i <= s.len(),
    ensures
        match r {
            Some(j) => comment_line(s@, i as int) == Some(j as int) && i < j <= s.len(),
            None => comment_line(s@, i as int) is None,
        },
{
    if i < s.len() && s[i] == '#' {
        let v = rest_of_line_exec(s, i + 1);
        line_ending_or_eof_exec(s, v)
    } else {
        None
    }
}

fn blank_line_exec(s: &Vec<char>, i: usize) -> (r: Option<usize>)
    requires
        i <= s.len(),
    ensures
        match r {
            Some(j) => blank_line(s@, i as int) == Some(j as int) && i <= j <= s.len(),
            None => blank_line(s@, i as int) is None,
        },
{
    let k = skip_spaces_exec(s, i);
    line_ending_or_eof_exec(s, k)
}

fn clean_inside_block_exec(s: &Vec<char>, i: usize) -> (r: usize)
    requires
        i <= s.len(),
    ensures
        r == clean_inside_block(s@, i as int),
        i <= r <= s.len(),
{
    let mut k = i;
    loop
        invariant
            i <= k <= s.len(),
            clean_inside_block(s@, i as int) == clean_inside_block(s@, k as int),
        decreases s.len() - k,
    {
        match comment_line_exec(s, k) {
            Some(j) => {
                k = j;
            },
            None => {
                if blank_line_exec(s, k).is_some() {
                    return k;
                }
                return skip_spaces_exec(s, k);
            },
        }
    }
}

/// A `Key: value` line at `i`: its end and the bounds of the trimmed key and value.
fn key_value_line_exec(s: &Vec<char>, i: usize) -> (r: Option<(usize, (usize, usize), (usize, usize))>)
    requires
        i <= s.len(),
    ensures
        match r {
            Some((e, k, v)) => {
                &&& key_value_line(s@, i as int) matches Some((e2, key, value))
                &&& e2 == e
                &&& i < e <= s.len()
                &&& k.0 <= k.1 <= s.len()
                &&& v.0 <= v.1 <= s.len()
                &&& s@.subrange(k.0 as int, k.1 as int) == key
                &&& s@.subrange(v.0 as int, v.1 as int) == value
            },
            None => key_value_line(s@, i as int) is None,
        },
{
    let k = key_end_exec(s, i);
    if i < k && k < s.len() && s[k] == ':' {
        let v = rest_of_line_exec(s, k + 1);
        match line_ending_or_eof_exec(s, v) {
            Some(e) => {
                let key = trim_range(s, i, k);
                let value = trim_range(s, k + 1, v);
                Some((e, key, value))
            },
            None => None,
        }
    } else {
        None
    }
}

/// Appends to `v` the words of `s[a..b]`.
fn push_words(v: &mut Vec<String>, s: &Vec<char>, a: usize, b: usize)
    requires
        a <= b <= s.len(),
    ensures
        strings_view(final(v)@) == strings_view(old(v)@) + words(s@.subrange(a as int, b as int)),
{
    let spans = word_spans(s, a, b);
    let ghost start = strings_view(v@);
    let mut j: usize = 0;
    while j < spans.len()
        invariant
            0 <= j <= spans.len(),
            a <= b <= s.len(),
            forall|x: int| 0 <= x < spans.len() ==> a <= (#[trigger] spans@[x]).0 <= spans@[x].1 <= b,
            strings_view(v@) == start + spans_view(s@, spans@).take(j as int),
        decreases spans.len() - j,
    {
        let (p, q) = spans[j];
        let w = string_of(s, p, q);
        let ghost before = v@;
        v.push(w);
        assert(strings_view(v@) =~= strings_view(before).push(w@));
        assert(spans_view(s@, spans@).take(j + 1) =~= spans_view(s@, spans@).take(j as int).push(
            s@.subrange(p as int, q as int),
        ));
        j = j + 1;
    }
    assert(spans_view(s@, spans@).take(j as int) =~= spans_view(s@, spans@));
}

/// Records the field whose key is `s[k]` and whose value is `s[v]` in `repo`.
fn apply_field(repo: &mut Repository, s: &Vec<char>, k: (usize, usize), v: (usize, usize))
    requires
        k.0 <= k.1 <= s.len(),
        v.0 <= v.1 <= s.len(),
    ensures
        final(repo)@ == with_field(
            old(repo)@,
            s@.subrange(k.0 as int, k.1 as int),
            s@.subrange(v.0 as int, v.1 as int),
        ),
{
    let uris_key = chars_of("URIs");
    let suites_key = chars_of("Suites");
    let components_key = chars_of("Components");
    let signed_by_key = chars_of("Signed-By");
    if range_equals(s, k.0, k.1, &uris_key) {
        push_words(&mut repo.uris, s, v.0, v.1);
    } else if range_equals(s, k.0, k.1, &suites_key) {
        push_words(&mut repo.suites, s, v.0, v.1);
    } else if range_equals(s, k.0, k.1, &components_key) {
        push_words(&mut repo.components, s, v.0, v.1);
    } else if range_equals(s, k.0, k.1, &signed_by_key) {
        repo.signed_by = Some(string_of(s, v.0, v.1));
    }
}

fn parse_block_exec(s: &Vec<char>, i: usize) -> (r: Result<(usize, Repository), usize>)
    requires
        i <= s.len(),
    ensures
        match r {
            Ok((p, repo)) => parse_block(s@, i as int) == Ok::<(int, RepositoryView), int>((p as int, repo@))
                && i <= p <= s.len(),
            Err(p) => parse_block(s@, i as int) == Err::<(int, RepositoryView), int>(p as int),
        },
{
    let start = clean_inside_block_exec(s, i);
    let mut k = start;
    let mut repo = Repository::new();
    proof {
        lemma_clean_bounds(s@, i as int);
    }
    loop
        invariant
            i <= start <= k <= s.len(),
            block_fields(s@, start as int, empty_repository()) == block_fields(s@, k as int, repo@),
        ensures
            i <= start <= k <= s.len(),
            block_fields(s@, start as int, empty_repository()) == (k as int, repo@),
        decreases s.len() - k,
    {
        match key_value_line_exec(s, k) {
            Some((e, key, value)) => {
                apply_field(&mut repo, s, key, value);
                k = clean_inside_block_exec(s, e);
            },
            None => {
                break;
            },
        }
    }
    if repo.is_valid() {
        Ok((k, repo))
    } else {
        Err(k)
    }
}

fn block_separator_exec(s: &Vec<char>, i: usize) -> (r: Option<usize>)
    requires
        i <= s.len(),
    ensures
        match r {
            Some(j) => block_separator(s@, i as int) == Some(j as int) && i < j <= s.len(),
            None => block_separator(s@, i as int) is None,
        },
{
    proof {
        lemma_separator_bounds(s@, i as int);
    }
    match blank_line_exec(s, i) {
        None => None,
        Some(first) => {
            let mut j = first;
            loop
                invariant
                    i <= first <= j <= s.len(),
                    block_separator(s@, i as int) == more_blank_lines(s@, j as int),
                decreases s.len() - j,
            {
                match blank_line_exec(s, j) {
                    None => {
                        return Some(j);
                    },
                    Some(k) => {
                        if k > j {
                            j = k;
                        } else {
                            return None;
                        }
                    },
                }
            }
        },
    }
}

/// Parses the text of a sources file into its repositories. Also gives the
/// position (in characters) where the text left unread begins.
pub fn parse_file(input: &str) -> (res: Result<(usize, Vec<Repository>), ParseError>)
    ensures
        match res {
            Ok((rest, v)) => parse_sources(input@) == Ok::<(int, Seq<RepositoryView>), int>(
                (rest as int, repositories_view(v@)),
            ),
            Err(e) => parse_sources(input@) == Err::<(int, Seq<RepositoryView>), int>(e.position as int),
        },
{
    let s = chars_of(input);
    let start = skip_multispace_exec(&s, 0);
    match parse_block_exec(&s, start) {
        Err(p) => Err(ParseError { position: p }),
        Ok((first_end, first)) => {
            let mut acc: Vec<Repository> = Vec::new();
            acc.push(first);
            let mut k = first_end;
            assert(repositories_view(acc@) =~= seq![first@]);
            let ghost result = more_blocks(s@, first_end as int, seq![first@]);
            loop
                invariant
                    k <= s.len(),
                    result == more_blocks(s@, k as int, repositories_view(acc@)),
                ensures
                    k <= s.len(),
                    result == (k as int, repositories_view(acc@)),
                decreases s.len() - k,
            {
                match block_separator_exec(&s, k) {
                    None => {
                        break;
                    },
                    Some(j) => match parse_block_exec(&s, j) {
                        Err(_) => {
                            break;
                        },
                        Ok((next, repo)) => {
                            let ghost before = acc@;
                            acc.push(repo);
                            assert(repositories_view(acc@) =~= repositories_view(before).push(
                                repo@,
                            ));
                            k = next;
                        },
                    },
                }
            }
            let rest = skip_multispace_exec(&s, k);
            Ok((rest, acc))
        },
    }
}

} // verus!
