use nya::parser;
use nya::types::{DownloadedInRelease, PackageFileInfo, Repository};

fn parsed(components: &[&str], signed_by: Option<&str>) -> parser::Repository {
    parser::Repository {
        uris: vec!["http://a.example/debian".to_string(), "http://b.example/debian".to_string()],
        suites: vec!["stable".to_string()],
        components: components.iter().map(|s| s.to_string()).collect(),
        signed_by: signed_by.map(|s| s.to_string()),
    }
}

#[test]
fn a_parsed_repository_keeps_its_fields() {
    let r = Repository::from_parsed(parsed(&["main", "contrib"], Some("/k.asc")));
    assert_eq!(r.urls(), &["http://a.example/debian".to_string(), "http://b.example/debian".to_string()]);
    assert_eq!(r.suite(), Some("stable"));
    assert_eq!(r.component(), Some("main"));
    assert_eq!(r.signed_by(), "/k.asc");
    assert!(r.is_valid());
    let r = Repository::from_parsed(parsed(&[], None));
    assert_eq!(r.component(), None);
    assert_eq!(r.signed_by(), "");
    assert!(!r.is_valid());
}

#[test]
fn a_new_repository_is_empty() {
    let r = Repository::new();
    assert!(r.urls().is_empty());
    assert_eq!(r.suite(), None);
    assert_eq!(r.component(), None);
    assert_eq!(r.signed_by(), "");
    assert!(!r.is_valid());
}

#[test]
fn a_downloaded_release_knows_its_paths() {
    let d = DownloadedInRelease::new(
        "/var/cache/a_InRelease".to_string(),
        Repository::from_parsed(parsed(&["main"], Some("/k.asc"))),
    );
    assert_eq!(d.inrelease_path(), "/var/cache/a_InRelease");
    assert_eq!(d.signature_path(), "/k.asc");
    assert_eq!(d.target_package_path("amd64"), "main/binary-amd64/Packages");
}

#[test]
fn package_file_info_keeps_its_fields() {
    let info = PackageFileInfo::new("ab12".to_string(), 77, "main/Packages".to_string());
    assert_eq!(info.hash(), "ab12");
    assert_eq!(info.size(), 77);
    assert_eq!(info.path(), "main/Packages");
}
