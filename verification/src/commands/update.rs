//! The decisions of `update`: which mirror to fetch a release file from,
//! checking it, and fetching and checking the package index it lists.
use vstd::prelude::*;

use crate::package_info::{
    get_package_file_info, spec_package_file_info, PackageInfoError, PackageInfoErrorView,
};
use crate::signature::{
    cleartext_parses, cleartext_signed_text, signature_accepted, validate_signature, PublicKey,
    SignatureError,
};
use crate::text::{option_string_view, str_equal};
use crate::types::{
    first_of, target_package_path_of, DownloadedInRelease, PackageFileInfo, Repository,
    RepositoryView,
};
use crate::url::{format_url, spec_format_url};

verus! {

/// Why fetching a repository's files stopped.
#[derive(Debug, PartialEq, Eq, Clone, Copy)]
pub enum UpdateError {
    /// The repository names no suite.
    NoSuite,
    /// A release file's address has no flat file name.
    InReleaseUrl,
    /// A package index's address has no flat file name.
    PackagesUrl,
    /// No mirror gave the release file.
    NoInReleaseMirror,
    /// No mirror gave a package index with the expected hash.
    NoPackagesMirror,
}

// ---- the release file ------------------------------------------------------

/// What to do for the release file at a given attempt.
#[derive(Debug, PartialEq, Eq, Clone)]
pub enum InReleaseStep {
    /// Download `url` into the file `filename`; on failure, try the next attempt.
    Download { url: String, filename: String },
    /// Give up.
    Failed(UpdateError),
}

/// The address and file name of the release file at mirror `attempt`.
pub open spec fn inrelease_plan(r: RepositoryView, attempt: int) -> Result<
    (Seq<char>, Seq<char>),
    UpdateError,
> {
    match first_of(r.suites) {
        None => Err(UpdateError::NoSuite),
        Some(suite) => if attempt >= r.uris.len() {
            Err(UpdateError::NoInReleaseMirror)
        } else {
            let url = r.uris[attempt] + "/dists/"@ + suite + "/InRelease"@;
            match spec_format_url("_"@, url) {
                None => Err(UpdateError::InReleaseUrl),
                Some(filename) => Ok((url, filename)),
            }
        },
    }
}

/// The release file is tried from each mirror in turn; `attempt` counts the
/// mirrors already tried.
pub fn inrelease_step(repository: &Repository, attempt: usize) -> (res: InReleaseStep)
    ensures
        match res {
            InReleaseStep::Download { url, filename } => inrelease_plan(repository@, attempt as int)
                == Ok::<(Seq<char>, Seq<char>), UpdateError>((url@, filename@)),
            InReleaseStep::Failed(e) => inrelease_plan(repository@, attempt as int) == Err::<
                (Seq<char>, Seq<char>),
                UpdateError,
            >(e),
        },
{
    let suite = match repository.suite() {
        Some(s) => s,
        None => {
            return InReleaseStep::Failed(UpdateError::NoSuite);
        },
    };
    let urls = repository.urls();
    if attempt >= urls.len() {
        return InReleaseStep::Failed(UpdateError::NoInReleaseMirror);
    }
    let mut url = String::from_str(urls[attempt].as_str());
    url.append("/dists/");
    url.append(suite);
    url.append("/InRelease");
    match format_url("_", url.as_str()) {
        None => InReleaseStep::Failed(UpdateError::InReleaseUrl),
        Some(filename) => InReleaseStep::Download { url, filename },
    }
}

/// Why a downloaded release file was not used.
#[derive(Debug, PartialEq, Eq, Clone)]
pub enum ProcessError {
    Signature(SignatureError),
    PackageInfo(PackageInfoError),
}

/// What `process_inrelease` gives: the signature check of the release
/// `text` with `key`, then the entry of `target` in the text it signs.
pub open spec fn process_outcome(
    downloaded: DownloadedInRelease,
    key: Seq<u8>,
    text: Seq<char>,
    target: Seq<char>,
    res: Result<(DownloadedInRelease, PackageFileInfo), ProcessError>,
) -> bool {
    let signed = cleartext_signed_text(text);
    match res {
        Ok((d, info)) => d == downloaded && cleartext_parses(text) && signature_accepted(text, key)
            && spec_package_file_info(signed, target) == Ok::<
            (Seq<char>, usize, Seq<char>),
            PackageInfoErrorView,
        >(info@),
        Err(ProcessError::Signature(SignatureError::InvalidMessage(_))) => !cleartext_parses(text),
        Err(ProcessError::Signature(SignatureError::NoMatchingSignature)) => cleartext_parses(text)
            && !signature_accepted(text, key),
        Err(ProcessError::Signature(SignatureError::InvalidKey(_))) => false,
        Err(ProcessError::PackageInfo(e)) => cleartext_parses(text) && signature_accepted(text, key)
            && spec_package_file_info(signed, target) == Err::<
            (Seq<char>, usize, Seq<char>),
            PackageInfoErrorView,
        >(e@),
    }
}

/// Checks the signature of the downloaded release file `inrelease_text` with
/// the repository's `key`, and finds in it the package index of the first
/// component for `architecture`. A release whose signature is not accepted
/// is refused whatever the repository holds; only a release that is
/// accepted needs the repository to name a component.
pub fn process_inrelease(
    downloaded: DownloadedInRelease,
    key: &PublicKey,
    inrelease_text: &str,
    architecture: &str,
) -> (res: Result<(DownloadedInRelease, PackageFileInfo), ProcessError>)
    requires
        cleartext_parses(inrelease_text@) && signature_accepted(inrelease_text@, key@)
            ==> downloaded.repository@.components.len() > 0,
    ensures
        process_outcome(
            downloaded,
            key@,
            inrelease_text@,
            target_package_path_of(downloaded.repository@.components[0], architecture@),
            res,
        ),
{
    let content = match validate_signature(inrelease_text, key) {
        Ok(c) => c,
        Err(e) => {
            return Err(ProcessError::Signature(e));
        },
    };
    let target = downloaded.target_package_path(architecture);
    match get_package_file_info(content.as_str(), target.as_str()) {
        Ok(info) => Ok((downloaded, info)),
        Err(e) => Err(ProcessError::PackageInfo(e)),
    }
}

/// `process_inrelease` where the repository may lack a component: `None`
/// exactly when the release is accepted but the repository names no
/// component, so that no package index path can be formed.
pub fn try_process_inrelease(
    downloaded: DownloadedInRelease,
    key: &PublicKey,
    inrelease_text: &str,
    architecture: &str,
) -> (res: Option<Result<(DownloadedInRelease, PackageFileInfo), ProcessError>>)
    ensures
        res is None <==> (cleartext_parses(inrelease_text@) && signature_accepted(
            inrelease_text@,
            key@,
        ) && downloaded.repository@.components.len() == 0),
        res matches Some(r) ==> process_outcome(
            downloaded,
            key@,
            inrelease_text@,
            target_package_path_of(downloaded.repository@.components[0], architecture@),
            r,
        ),
{
    if downloaded.repository.component().is_some() {
        return Some(process_inrelease(downloaded, key, inrelease_text, architecture));
    }
    match validate_signature(inrelease_text, key) {
        Err(e) => Some(Err(ProcessError::Signature(e))),
        Ok(_) => None,
    }
}

// ---- the package index -----------------------------------------------------

/// What to do next for a package index.
#[derive(Debug, PartialEq, Eq, Clone)]
pub enum PackagesAction {
    /// If `file_path` exists, hash it; then call `after_existing`.
    CheckExisting { mirror: usize, file_path: String },
    /// Download `url` into the file `filename`; then call `after_download`.
    Download { mirror: usize, url: String, filename: String },
    /// Hash the downloaded file `path`; then call `after_hash`.
    VerifyDownload { mirror: usize, path: String },
    /// The file at `file_path` already has the expected hash.
    AlreadyPresent { file_path: String },
    /// The index was downloaded to `path` and has the expected hash.
    Fetched { path: String },
    /// Give up.
    Failed(UpdateError),
}

pub enum PackagesActionView {
    CheckExisting { mirror: int, file_path: Seq<char> },
    Download { mirror: int, url: Seq<char>, filename: Seq<char> },
    VerifyDownload { mirror: int, path: Seq<char> },
    AlreadyPresent { file_path: Seq<char> },
    Fetched { path: Seq<char> },
    Failed(UpdateError),
}

impl View for PackagesAction {
    type V = PackagesActionView;

    open spec fn view(&self) -> PackagesActionView {
        match self {
            PackagesAction::CheckExisting { mirror, file_path } => PackagesActionView::CheckExisting {
                mirror: *mirror as int,
                file_path: file_path@,
            },
            PackagesAction::Download { mirror, url, filename } => PackagesActionView::Download {
                mirror: *mirror as int,
                url: url@,
                filename: filename@,
            },
            PackagesAction::VerifyDownload { mirror, path } => PackagesActionView::VerifyDownload {
                mirror: *mirror as int,
                path: path@,
            },
            PackagesAction::AlreadyPresent { file_path } => PackagesActionView::AlreadyPresent {
                file_path: file_path@,
            },
            PackagesAction::Fetched { path } => PackagesActionView::Fetched { path: path@ },
            PackagesAction::Failed(e) => PackagesActionView::Failed(*e),
        }
    }
}

/// The address, file name and local path of the package index at `mirror`.
pub open spec fn packages_plan(
    r: RepositoryView,
    info: (Seq<char>, usize, Seq<char>),
    download_path: Seq<char>,
    mirror: int,
) -> Result<(Seq<char>, Seq<char>, Seq<char>), UpdateError> {
    match first_of(r.suites) {
        None => Err(UpdateError::NoSuite),
        Some(suite) => if mirror >= r.uris.len() {
            Err(UpdateError::NoPackagesMirror)
        } else {
            let url = r.uris[mirror] + "/dists/"@ + suite + "/"@ + info.2;
            match spec_format_url("_"@, url) {
                None => Err(UpdateError::PackagesUrl),
                Some(filename) => Ok((url, filename, download_path + "/"@ + filename)),
            }
        },
    }
}

pub open spec fn spec_begin_mirror(
    r: RepositoryView,
    info: (Seq<char>, usize, Seq<char>),
    download_path: Seq<char>,
    mirror: int,
) -> PackagesActionView {
    match packages_plan(r, info, download_path, mirror) {
        Err(e) => PackagesActionView::Failed(e),
        Ok((_, _, file_path)) => PackagesActionView::CheckExisting { mirror, file_path },
    }
}

pub open spec fn spec_after_existing(
    r: RepositoryView,
    info: (Seq<char>, usize, Seq<char>),
    download_path: Seq<char>,
    mirror: int,
    existing_hash: Option<Seq<char>>,
) -> PackagesActionView {
    match packages_plan(r, info, download_path, mirror) {
        Err(e) => PackagesActionView::Failed(e),
        Ok((url, filename, file_path)) => if existing_hash == Some(info.0) {
            PackagesActionView::AlreadyPresent { file_path }
        } else {
            PackagesActionView::Download { mirror, url, filename }
        },
    }
}

pub open spec fn spec_after_download(
    r: RepositoryView,
    info: (Seq<char>, usize, Seq<char>),
    download_path: Seq<char>,
    mirror: int,
    downloaded: Option<Seq<char>>,
) -> PackagesActionView {
    match downloaded {
        Some(path) => PackagesActionView::VerifyDownload { mirror, path },
        None => spec_begin_mirror(r, info, download_path, mirror + 1),
    }
}

pub open spec fn spec_after_hash(
    r: RepositoryView,
    info: (Seq<char>, usize, Seq<char>),
    download_path: Seq<char>,
    mirror: int,
    path: Seq<char>,
    hash: Option<Seq<char>>,
) -> PackagesActionView {
    if hash == Some(info.0) {
        PackagesActionView::Fetched { path }
    } else {
        spec_begin_mirror(r, info, download_path, mirror + 1)
    }
}

/// The address, file name and local path of the package index at `mirror`.
fn packages_mirror(
    repository: &Repository,
    info: &PackageFileInfo,
    download_path: &str,
    mirror: usize,
) -> (res: Result<(String, String, String), UpdateError>)
    ensures
        match res {
            Ok((u, f, p)) => packages_plan(repository@, info@, download_path@, mirror as int)
                == Ok::<(Seq<char>, Seq<char>, Seq<char>), UpdateError>((u@, f@, p@)),
            Err(e) => packages_plan(repository@, info@, download_path@, mirror as int) == Err::<
                (Seq<char>, Seq<char>, Seq<char>),
                UpdateError,
            >(e),
        },
{
    let suite = match repository.suite() {
        Some(s) => s,
        None => {
            return Err(UpdateError::NoSuite);
        },
    };
    let urls = repository.urls();
    if mirror >= urls.len() {
        return Err(UpdateError::NoPackagesMirror);
    }
    let mut url = String::from_str(urls[mirror].as_str());
    url.append("/dists/");
    url.append(suite);
    url.append("/");
    url.append(info.path());
    let filename = match format_url("_", url.as_str()) {
        None => {
            return Err(UpdateError::PackagesUrl);
        },
        Some(f) => f,
    };
    let mut file_path = String::from_str(download_path);
    file_path.append("/");
    file_path.append(filename.as_str());
    Ok((url, filename, file_path))
}

/// Starts on the package index at `mirror` (the first one is 0).
pub fn begin_mirror(
    repository: &Repository,
    info: &PackageFileInfo,
    download_path: &str,
    mirror: usize,
) -> (res: PackagesAction)
    ensures
        res@ == spec_begin_mirror(repository@, info@, download_path@, mirror as int),
{
    match packages_mirror(repository, info, download_path, mirror) {
        Err(e) => PackagesAction::Failed(e),
        Ok((_, _, file_path)) => PackagesAction::CheckExisting { mirror, file_path },
    }
}

/// After hashing the file already present (`None` when there is none, or
/// it could not be hashed): keep it when its hash is the expected one,
/// otherwise download it from `mirror`.
pub fn after_existing(
    repository: &Repository,
    info: &PackageFileInfo,
    download_path: &str,
    mirror: usize,
    existing_hash: Option<String>,
) -> (res: PackagesAction)
    ensures
        res@ == spec_after_existing(
            repository@,
            info@,
            download_path@,
            mirror as int,
            option_string_view(existing_hash),
        ),
{
    match packages_mirror(repository, info, download_path, mirror) {
        Err(e) => PackagesAction::Failed(e),
        Ok((url, filename, file_path)) => {
            let matches = match &existing_hash {
                Some(h) => str_equal(h.as_str(), info.hash()),
                None => false,
            };
            if matches {
                PackagesAction::AlreadyPresent { file_path }
            } else {
                PackagesAction::Download { mirror, url, filename }
            }
        },
    }
}

/// After the download from `mirror` (`None` when it failed): hash what was
/// downloaded, or move to the next mirror.
pub fn after_download(
    repository: &Repository,
    info: &PackageFileInfo,
    download_path: &str,
    mirror: usize,
    downloaded: Option<String>,
) -> (res: PackagesAction)
    requires
        mirror < repository@.uris.len(),
    ensures
        res@ == spec_after_download(
            repository@,
            info@,
            download_path@,
            mirror as int,
            option_string_view(downloaded),
        ),
{
    match downloaded {
        Some(path) => PackagesAction::VerifyDownload { mirror, path },
        None => {
            let mirrors = repository.urls().len();
            assert(mirror < mirrors);
            begin_mirror(repository, info, download_path, mirror + 1)
        },
    }
}

/// After hashing the file downloaded from `mirror` to `path` (`None` when
/// it could not be hashed): done when the hash is the expected one,
/// otherwise move to the next mirror.
pub fn after_hash(
    repository: &Repository,
    info: &PackageFileInfo,
    download_path: &str,
    mirror: usize,
    path: String,
    hash: Option<String>,
) -> (res: PackagesAction)
    requires
        mirror < repository@.uris.len(),
    ensures
        res@ == spec_after_hash(
            repository@,
            info@,
            download_path@,
            mirror as int,
            path@,
            option_string_view(hash),
        ),
{
    let matches = match &hash {
        Some(h) => str_equal(h.as_str(), info.hash()),
        None => false,
    };
    if matches {
        PackagesAction::Fetched { path }
    } else {
        let mirrors = repository.urls().len();
        assert(mirror < mirrors);
        begin_mirror(repository, info, download_path, mirror + 1)
    }
}


// ---- what the package index steps promise --------------------------------

pub open spec fn accepts_file(a: PackagesActionView) -> bool {
    a is AlreadyPresent || a is Fetched
}

/// A package index is only ever kept when its hash is the one that the
/// signed release file lists: starting on a mirror or leaving a failed
/// download never accepts a file, and a file found or downloaded is
/// accepted only when its hash is the expected one. A file already present
/// with that hash is kept without downloading it again.
pub proof fn lemma_only_expected_hash_is_accepted(
    r: RepositoryView,
    info: (Seq<char>, usize, Seq<char>),
    download_path: Seq<char>,
    mirror: int,
    found: Option<Seq<char>>,
    path: Seq<char>,
)
    ensures
        !accepts_file(spec_begin_mirror(r, info, download_path, mirror)),
        accepts_file(spec_after_existing(r, info, download_path, mirror, found)) ==> found == Some(
            info.0,
        ),
        !accepts_file(spec_after_download(r, info, download_path, mirror, None)),
        accepts_file(spec_after_hash(r, info, download_path, mirror, path, found)) ==> found == Some(
            info.0,
        ),
        packages_plan(r, info, download_path, mirror) is Ok && found == Some(info.0) ==> spec_after_existing(
            r,
            info,
            download_path,
            mirror,
            found,
        ) is AlreadyPresent,
{
}

/// Mirrors are tried in order, each once: a step that does not finish works
/// on the mirror it was given, a failure moves to the next mirror, and once
/// the mirrors are used up the fetch fails.
pub proof fn lemma_mirrors_are_tried_in_order(
    r: RepositoryView,
    info: (Seq<char>, usize, Seq<char>),
    download_path: Seq<char>,
    mirror: int,
    found: Option<Seq<char>>,
    path: Seq<char>,
)
    requires
        0 <= mirror,
    ensures
        spec_begin_mirror(r, info, download_path, mirror) matches PackagesActionView::CheckExisting {
            mirror: m,
            ..
        } ==> m == mirror && mirror < r.uris.len(),
        spec_after_existing(r, info, download_path, mirror, found) matches PackagesActionView::Download {
            mirror: m,
            ..
        } ==> m == mirror,
        spec_after_download(r, info, download_path, mirror, None) matches PackagesActionView::CheckExisting {
            mirror: m,
            ..
        } ==> m == mirror + 1,
        found != Some(info.0) ==> (spec_after_hash(r, info, download_path, mirror, path, found)
            matches PackagesActionView::CheckExisting { mirror: m, .. } ==> m == mirror + 1),
        mirror >= r.uris.len() && r.suites.len() > 0 ==> spec_begin_mirror(
            r,
            info,
            download_path,
            mirror,
        ) == PackagesActionView::Failed(UpdateError::NoPackagesMirror),
        mirror >= r.uris.len() && r.suites.len() > 0 ==> inrelease_plan(r, mirror) == Err::<
            (Seq<char>, Seq<char>),
            UpdateError,
        >(UpdateError::NoInReleaseMirror),
{
}


pub proof fn lemma_prefix_determines(u1: Seq<char>, u2: Seq<char>, x: Seq<char>)
    ensures
        (u1 + x).take(u1.len() as int) == u1,
        u1 != u2 ==> u1 + x != u2 + x,
{
    assert((u1 + x).take(u1.len() as int) =~= u1);
    if u1 != u2 && u1.len() == u2.len() {
        assert((u2 + x).take(u2.len() as int) =~= u2);
    }
}

/// The package index at mirror `m` is fetched from mirror `m`: its address is
/// `<uri m>/dists/<first suite>/<index path>`, so it starts with that mirror's
/// URI and ends with the index's path, its file
/// name is the flat name of that address, and it is stored under the
/// download directory. Two mirrors with different URIs give different
/// addresses.
pub proof fn lemma_packages_come_from_their_mirror(
    r: RepositoryView,
    info: (Seq<char>, usize, Seq<char>),
    download_path: Seq<char>,
    m: int,
    n: int,
)
    requires
        0 <= m,
        0 <= n,
    ensures
        packages_plan(r, info, download_path, m) matches Ok((url, filename, file_path)) ==> {
            &&& m < r.uris.len()
            &&& r.suites.len() > 0
            &&& url == r.uris[m] + "/dists/"@ + r.suites[0] + "/"@ + info.2
            &&& url.take(r.uris[m].len() as int) == r.uris[m]
            &&& url.skip(url.len() - info.2.len()) == info.2
            &&& spec_format_url("_"@, url) == Some(filename)
            &&& file_path == download_path + "/"@ + filename
        },
        packages_plan(r, info, download_path, m) matches Ok((url_m, _, _)) ==> (packages_plan(
            r,
            info,
            download_path,
            n,
        ) matches Ok((url_n, _, _)) ==> (r.uris[m] != r.uris[n] ==> url_m != url_n)),
{
    if let Ok((url, _, _)) = packages_plan(r, info, download_path, m) {
        let suite = r.suites[0];
        let x = "/dists/"@ + suite + "/"@ + info.2;
        assert(url =~= r.uris[m] + x);
        lemma_prefix_determines(r.uris[m], r.uris[m], x);
        assert(url.skip(url.len() - info.2.len()) =~= info.2);
        if let Ok((url_n, _, _)) = packages_plan(r, info, download_path, n) {
            assert(url_n =~= r.uris[n] + x);
            lemma_prefix_determines(r.uris[m], r.uris[n], x);
        }
    }
}

/// The release file at attempt `m` is fetched from mirror `m`: its address is
/// `<uri m>/dists/<first suite>/InRelease`, so it starts with that mirror's URI
/// and ends with `/InRelease`, and two mirrors
/// with different URIs give different addresses.
pub proof fn lemma_inrelease_comes_from_its_mirror(r: RepositoryView, m: int, n: int)
    requires
        0 <= m,
        0 <= n,
    ensures
        inrelease_plan(r, m) matches Ok((url, filename)) ==> {
            &&& m < r.uris.len()
            &&& r.suites.len() > 0
            &&& url == r.uris[m] + "/dists/"@ + r.suites[0] + "/InRelease"@
            &&& url.take(r.uris[m].len() as int) == r.uris[m]
            &&& url.skip(url.len() - 10) == "/InRelease"@
            &&& spec_format_url("_"@, url) == Some(filename)
        },
        inrelease_plan(r, m) matches Ok((url_m, _)) ==> (inrelease_plan(r, n) matches Ok((url_n, _))
            ==> (r.uris[m] != r.uris[n] ==> url_m != url_n)),
{
    reveal_strlit("/InRelease");
    if let Ok((url, _)) = inrelease_plan(r, m) {
        let x = "/dists/"@ + r.suites[0] + "/InRelease"@;
        assert(url =~= r.uris[m] + x);
        lemma_prefix_determines(r.uris[m], r.uris[m], x);
        assert(url.skip(url.len() - 10) =~= "/InRelease"@);
        if let Ok((url_n, _)) = inrelease_plan(r, n) {
            assert(url_n =~= r.uris[n] + x);
            lemma_prefix_determines(r.uris[m], r.uris[n], x);
        }
    }
}

} // verus!
