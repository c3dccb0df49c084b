//! The values that the update pipeline passes along.
use vstd::prelude::*;

mod repository;

pub use repository::{first_of, Repository, RepositoryView};

verus! {

/// The hash algorithms of a release file's index sections.
#[derive(Debug, Clone, Copy, PartialEq, Eq)]
#[non_exhaustive]
pub enum HashType {
    MD5,
    SHA1,
    SHA256,
    SHA512,
}

/// The heading of the release-file section that lists hashes of this kind.
pub open spec fn hash_name(h: HashType) -> Seq<char> {
    match h {
        HashType::MD5 => "MD5"@,
        HashType::SHA1 => "SHA1"@,
        HashType::SHA256 => "SHA256"@,
        HashType::SHA512 => "SHA512"@,
    }
}

/// The number of hexadecimal digits of a hash of this kind.
pub open spec fn hash_size(h: HashType) -> usize {
    match h {
        HashType::MD5 => 32,
        HashType::SHA1 => 40,
        HashType::SHA256 => 64,
        HashType::SHA512 => 128,
    }
}

impl HashType {
    pub fn as_str(&self) -> (res: &'static str)
        ensures
            res@ == hash_name(*self),
    {
        match self {
            HashType::MD5 => "MD5",
            HashType::SHA1 => "SHA1",
            HashType::SHA256 => "SHA256",
            HashType::SHA512 => "SHA512",
        }
    }

    pub fn size(&self) -> (res: usize)
        ensures
            res == hash_size(*self),
    {
        match self {
            HashType::MD5 => 32,
            HashType::SHA1 => 40,
            HashType::SHA256 => 64,
            HashType::SHA512 => 128,
        }
    }
}

/// An index file listed in a release file: its hash, its size and its path.
pub struct PackageFileInfo {
    hash: String,
    size: usize,
    path: String,
}

impl View for PackageFileInfo {
    type V = (Seq<char>, usize, Seq<char>);

    closed spec fn view(&self) -> (Seq<char>, usize, Seq<char>) {
        (self.hash@, self.size, self.path@)
    }
}

impl PackageFileInfo {
    pub fn new(hash: String, size: usize, path: String) -> (res: Self)
        ensures
            res@ == (hash@, size, path@),
    {
        PackageFileInfo { hash, size, path }
    }

    pub fn hash(&self) -> (res: &str)
        ensures
            res@ == self@.0,
    {
        self.hash.as_str()
    }

    pub fn size(&self) -> (res: usize)
        ensures
            res == self@.1,
    {
        self.size
    }

    pub fn path(&self) -> (res: &str)
        ensures
            res@ == self@.2,
    {
        self.path.as_str()
    }
}

/// A release file that was downloaded, with the repository it belongs to.
#[derive(Debug, Clone)]
pub struct DownloadedInRelease {
    pub inrelease_path: String,
    pub repository: Repository,
}

impl DownloadedInRelease {
    pub fn new(inrelease_path: String, repository: Repository) -> (res: Self)
        ensures
            res.inrelease_path@ == inrelease_path@,
            res.repository == repository,
    {
        DownloadedInRelease { inrelease_path, repository }
    }

    pub fn inrelease_path(&self) -> (res: &str)
        ensures
            res@ == self.inrelease_path@,
    {
        self.inrelease_path.as_str()
    }

    /// The path of the key that signs the release file.
    pub fn signature_path(&self) -> (res: &str)
        ensures
            res@ == self.repository@.signed_by,
    {
        self.repository.signed_by()
    }

    /// The path, inside the release, of the package index of the first
    /// component for `architecture`.
    pub fn target_package_path(&self, architecture: &str) -> (res: String)
        requires
            self.repository@.components.len() > 0,
        ensures
            res@ == target_package_path_of(self.repository@.components[0], architecture@),
    {
        let component = self.repository.component().unwrap();
        let mut res = String::from_str(component);
        res.append("/binary-");
        res.append(architecture);
        res.append("/Packages");
        res
    }
}

pub open spec fn target_package_path_of(component: Seq<char>, architecture: Seq<char>) -> Seq<char> {
    component + "/binary-"@ + architecture + "/Packages"@
}


/// The package index path names the first component and the architecture:
/// it is `<component>/binary-<architecture>/Packages`, so it starts with the
/// component and ends with `<architecture>/Packages`, and different components
/// (or architectures) give different paths.
pub proof fn lemma_target_path_names_component_and_architecture(
    c1: Seq<char>,
    c2: Seq<char>,
    a1: Seq<char>,
    a2: Seq<char>,
)
    ensures
        target_package_path_of(c1, a1) == c1 + "/binary-"@ + a1 + "/Packages"@,
        target_package_path_of(c1, a1).take(c1.len() as int) == c1,
        target_package_path_of(c1, a1).skip(
            target_package_path_of(c1, a1).len() - a1.len() - 9,
        ) == a1 + "/Packages"@,
        c1 != c2 ==> target_package_path_of(c1, a1) != target_package_path_of(c2, a1),
        a1 != a2 ==> target_package_path_of(c1, a1) != target_package_path_of(c1, a2),
{
    reveal_strlit("/Packages");
    reveal_strlit("/binary-");
    let p = target_package_path_of(c1, a1);
    assert(p.take(c1.len() as int) =~= c1);
    assert(p.skip(p.len() - a1.len() - 9) =~= a1 + "/Packages"@);
    if c1 != c2 {
        let q = target_package_path_of(c2, a1);
        if c1.len() == c2.len() {
            assert(q.take(c2.len() as int) =~= c2);
            assert(p.take(c1.len() as int) != q.take(c2.len() as int));
        } else {
            assert(p.len() != q.len());
        }
    }
    if a1 != a2 {
        let q = target_package_path_of(c1, a2);
        if a1.len() == a2.len() {
            assert(q.skip(q.len() - a2.len() - 9) =~= a2 + "/Packages"@);
            assert((a1 + "/Packages"@).take(a1.len() as int) =~= a1);
            assert((a2 + "/Packages"@).take(a2.len() as int) =~= a2);
            assert(p.skip(p.len() - a1.len() - 9) != q.skip(q.len() - a2.len() - 9));
        } else {
            assert(p.len() != q.len());
        }
    }
}

} // verus!
