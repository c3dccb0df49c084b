//! Turning a URL into a flat file name: its host followed by its path, with
//! every `/` of the path replaced by a separator.
use vstd::prelude::*;

use crate::text::option_str_view;

verus! {

/// `url::Url`, declared so that it can be held; proofs see nothing inside it.
#[verifier::external_type_specification]
#[verifier::external_body]
pub struct ExUrl(::url::Url);

/// Whether `url::Url::parse` accepts `text`.
pub uninterp spec fn url_parses(text: Seq<char>) -> bool;

/// `url::Url::host_str` of the URL that `url::Url::parse` makes of `text`.
pub uninterp spec fn url_host(text: Seq<char>) -> Option<Seq<char>>;

/// `url::Url::path` of the URL that `url::Url::parse` makes of `text`.
pub uninterp spec fn url_path(text: Seq<char>) -> Seq<char>;

/// A URL accepted by `url::Url::parse`, with the text it was parsed from.
pub struct ParsedUrl {
    url: ::url::Url,
    text: String,
}

impl View for ParsedUrl {
    type V = Seq<char>;

    closed spec fn view(&self) -> Seq<char> {
        self.text@
    }
}

/// Calls `url::Url::parse`. Claims that it succeeds exactly when
/// `url_parses(text)`, a fixed property of the text; what that property is
/// (the WHATWG URL grammar) is not stated here.
#[verifier::external_body]
pub(crate) fn parse_url(text: &str) -> (res: Option<ParsedUrl>)
    ensures
        res is Some <==> url_parses(text@),
        res matches Some(u) ==> u@ == text@,
{
    match ::url::Url::parse(text) {
        Ok(url) => Some(ParsedUrl { url, text: text.to_string() }),
        Err(_) => None,
    }
}

/// Calls `url::Url::host_str`. Claims that its result depends on the parsed
/// text alone, and names it `url_host`; and that a host holds no `/` (the
/// parser ends the host at the first `/`).
#[verifier::external_body]
pub(crate) fn host_str(u: &ParsedUrl) -> (res: Option<&str>)
    ensures
        option_str_view(res) == url_host(u@),
        res matches Some(h) ==> !h@.contains('/'),
{
    u.url.host_str()
}

/// Calls `url::Url::path`. Claims that its result depends on the parsed
/// text alone, and names it `url_path`.
#[verifier::external_body]
pub(crate) fn path(u: &ParsedUrl) -> (res: &str)
    ensures
        res@ == url_path(u@),
{
    u.url.path()
}

/// `t` with every `from` replaced by `to` (`str::replace` with a `char` pattern).
pub open spec fn replace_char(t: Seq<char>, from: char, to: Seq<char>) -> Seq<char>
    decreases t.len(),
{
    if t.len() == 0 {
        seq![]
    } else {
        replace_char(t.drop_last(), from, to) + if t.last() == from {
            to
        } else {
            seq![t.last()]
        }
    }
}

pub proof fn lemma_replace_char_removes(t: Seq<char>, from: char, to: Seq<char>)
    requires
        !to.contains(from),
    ensures
        !replace_char(t, from, to).contains(from),
    decreases t.len(),
{
    if t.len() > 0 {
        lemma_replace_char_removes(t.drop_last(), from, to);
        let a = replace_char(t.drop_last(), from, to);
        let b = if t.last() == from { to } else { seq![t.last()] };
        assert(replace_char(t, from, to) == a + b);
        assert forall|i: int| 0 <= i < (a + b).len() implies (a + b)[i] != from by {
            if i < a.len() {
                assert((a + b)[i] == a[i]);
            } else {
                assert((a + b)[i] == b[i - a.len()]);
            }
        }
    }
}

/// Replacing `/` by `/` changes nothing: the path is kept whole and in order.
pub proof fn lemma_replace_char_by_itself(t: Seq<char>, c: char)
    ensures
        replace_char(t, c, seq![c]) == t,
    decreases t.len(),
{
    if t.len() > 0 {
        lemma_replace_char_by_itself(t.drop_last(), c);
        assert(t.drop_last() + seq![t.last()] =~= t);
    }
}

/// A flat name is one path component: when neither the host nor the
/// separator holds a `/`, neither does the name.
pub proof fn lemma_flat_name_has_no_slash(domain: Seq<char>, path: Seq<char>, separator: Seq<char>)
    requires
        !domain.contains('/'),
        !separator.contains('/'),
    ensures
        !flat_name(domain, path, separator).contains('/'),
{
    let r = replace_char(path, '/', separator);
    lemma_replace_char_removes(path, '/', separator);
    assert forall|i: int| 0 <= i < (domain + r).len() implies (domain + r)[i] != '/' by {
        if i < domain.len() {
            assert((domain + r)[i] == domain[i]);
        } else {
            assert((domain + r)[i] == r[i - domain.len()]);
        }
    }
}

/// The flat name of a URL whose host is `domain` and whose path is `path`.
pub open spec fn flat_name(domain: Seq<char>, path: Seq<char>, separator: Seq<char>) -> Seq<char> {
    domain + replace_char(path, '/', separator)
}

/// What `format_url` gives for `uri`.
pub open spec fn spec_format_url(separator: Seq<char>, uri: Seq<char>) -> Option<Seq<char>> {
    if url_parses(uri) {
        match url_host(uri) {
            Some(domain) => Some(flat_name(domain, url_path(uri), separator)),
            None => None,
        }
    } else {
        None
    }
}

/// With `/` as the separator the flat name is the host followed by the path
/// unchanged; with any separator it starts with the host.
pub proof fn lemma_flat_name_keeps_host_and_path(domain: Seq<char>, path: Seq<char>, separator: Seq<char>)
    ensures
        flat_name(domain, path, seq!['/']) == domain + path,
        flat_name(domain, path, separator).take(domain.len() as int) == domain,
{
    lemma_replace_char_by_itself(path, '/');
    assert(flat_name(domain, path, separator).take(domain.len() as int) =~= domain);
}

/// The host `domain` followed by `path` with each `/` replaced by `separator`.
pub fn flatten_url(domain: &str, path: &str, separator: &str) -> (res: String)
    ensures
        res@ == flat_name(domain@, path@, separator@),
{
    let mut res = String::from_str(domain);
    let mut tail = String::new();
    let ghost p = path@;
    for c in it: path.chars()
        invariant
            tail@ == replace_char(it.seq().take(it.index() as int), '/', separator@),
            it.seq() == p,
    {
        let ghost before = tail@;
        if c == '/' {
            tail.append(separator);
        } else {
            tail.push(c);
        }
        assert(it.seq().take(it.index() + 1).drop_last() =~= it.seq().take(it.index() as int));
    }
    assert(p.take(p.len() as int) =~= p);
    res.append(tail.as_str());
    res
}

/// The flat file name of `uri`: its host, then its path with each `/`
/// replaced by `separator`; `None` when the URL does not parse or has no host.
/// When the separator holds no `/`, neither does the name.
pub fn format_url(separator: &str, uri: &str) -> (res: Option<String>)
    ensures
        match res {
            Some(name) => spec_format_url(separator@, uri@) == Some(name@),
            None => spec_format_url(separator@, uri@) is None,
        },
        !separator@.contains('/') ==> (res matches Some(name) ==> !name@.contains('/')),
{
    let url_parsed = parse_url(uri)?;
    let domain = host_str(&url_parsed)?;
    let p = path(&url_parsed);
    proof {
        if !separator@.contains('/') {
            lemma_flat_name_has_no_slash(domain@, p@, separator@);
        }
    }
    Some(flatten_url(domain, p, separator))
}

} // verus!
