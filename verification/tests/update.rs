use nya::commands::update::{
    after_download, after_existing, after_hash, begin_mirror, inrelease_step, InReleaseStep,
    PackagesAction, UpdateError,
};
use nya::parser;
use nya::types::{PackageFileInfo, Repository};

fn repository(uris: &[&str], suites: &[&str]) -> Repository {
    Repository::from_parsed(parser::Repository {
        uris: uris.iter().map(|s| s.to_string()).collect(),
        suites: suites.iter().map(|s| s.to_string()).collect(),
        components: vec!["main".to_string()],
        signed_by: None,
    })
}

fn info() -> PackageFileInfo {
    PackageFileInfo::new("abcd".to_string(), 10, "main/binary-amd64/Packages".to_string())
}

#[test]
fn release_files_are_tried_from_each_mirror() {
    let r = repository(&["http://a.example/debian", "not a url", "http://c.example"], &["stable"]);
    assert_eq!(
        inrelease_step(&r, 0),
        InReleaseStep::Download {
            url: "http://a.example/debian/dists/stable/InRelease".to_string(),
            filename: "a.example_debian_dists_stable_InRelease".to_string(),
        }
    );
    assert_eq!(inrelease_step(&r, 1), InReleaseStep::Failed(UpdateError::InReleaseUrl));
    assert_eq!(
        inrelease_step(&r, 2),
        InReleaseStep::Download {
            url: "http://c.example/dists/stable/InRelease".to_string(),
            filename: "c.example_dists_stable_InRelease".to_string(),
        }
    );
    assert_eq!(inrelease_step(&r, 3), InReleaseStep::Failed(UpdateError::NoInReleaseMirror));
    assert_eq!(inrelease_step(&repository(&[], &[]), 0), InReleaseStep::Failed(UpdateError::NoSuite));
}

#[test]
fn a_package_index_with_the_right_hash_is_kept() {
    let r = repository(&["http://a.example/debian"], &["stable"]);
    let i = info();
    let file_path = "/cache/a.example_debian_dists_stable_main_binary-amd64_Packages".to_string();
    assert_eq!(
        begin_mirror(&r, &i, "/cache", 0),
        PackagesAction::CheckExisting { mirror: 0, file_path: file_path.clone() }
    );
    assert_eq!(
        after_existing(&r, &i, "/cache", 0, Some("abcd".to_string())),
        PackagesAction::AlreadyPresent { file_path }
    );
}

#[test]
fn a_package_index_is_downloaded_and_checked() {
    let r = repository(&["http://a.example/debian", "http://b.example/debian"], &["stable"]);
    let i = info();
    assert_eq!(
        after_existing(&r, &i, "/cache", 0, Some("ffff".to_string())),
        PackagesAction::Download {
            mirror: 0,
            url: "http://a.example/debian/dists/stable/main/binary-amd64/Packages".to_string(),
            filename: "a.example_debian_dists_stable_main_binary-amd64_Packages".to_string(),
        }
    );
    assert_eq!(
        after_existing(&r, &i, "/cache", 0, None),
        after_existing(&r, &i, "/cache", 0, Some("ffff".to_string()))
    );
    assert_eq!(
        after_download(&r, &i, "/cache", 0, Some("/cache/f".to_string())),
        PackagesAction::VerifyDownload { mirror: 0, path: "/cache/f".to_string() }
    );
    assert_eq!(
        after_hash(&r, &i, "/cache", 0, "/cache/f".to_string(), Some("abcd".to_string())),
        PackagesAction::Fetched { path: "/cache/f".to_string() }
    );
}

#[test]
fn a_bad_hash_moves_to_the_next_mirror() {
    let r = repository(&["http://a.example/debian", "http://b.example/debian"], &["stable"]);
    let i = info();
    let next = PackagesAction::CheckExisting {
        mirror: 1,
        file_path: "/cache/b.example_debian_dists_stable_main_binary-amd64_Packages".to_string(),
    };
    assert_eq!(after_hash(&r, &i, "/cache", 0, "/cache/f".to_string(), Some("0000".to_string())), next);
    assert_eq!(after_hash(&r, &i, "/cache", 0, "/cache/f".to_string(), None), next);
    assert_eq!(after_download(&r, &i, "/cache", 0, None), next);
    assert_eq!(
        after_hash(&r, &i, "/cache", 1, "/cache/f".to_string(), None),
        PackagesAction::Failed(UpdateError::NoPackagesMirror)
    );
}

#[test]
fn package_index_failures() {
    let i = info();
    assert_eq!(begin_mirror(&repository(&["u"], &[]), &i, "/c", 0), PackagesAction::Failed(UpdateError::NoSuite));
    assert_eq!(
        begin_mirror(&repository(&["not a url"], &["s"]), &i, "/c", 0),
        PackagesAction::Failed(UpdateError::PackagesUrl)
    );
    assert_eq!(
        begin_mirror(&repository(&[], &["s"]), &i, "/c", 0),
        PackagesAction::Failed(UpdateError::NoPackagesMirror)
    );
}
