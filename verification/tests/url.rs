use nya::url::{flatten_url, format_url};

#[test]
fn flattens_a_url_into_a_file_name() {
    assert_eq!(
        format_url("_", "http://deb.debian.org/debian/dists/bookworm/InRelease"),
        Some("deb.debian.org_debian_dists_bookworm_InRelease".to_string())
    );
    assert_eq!(
        format_url("-", "https://mirror.example.org:8080/a/b?x=1"),
        Some("mirror.example.org-a-b".to_string())
    );
}

#[test]
fn refuses_what_has_no_host() {
    assert_eq!(format_url("_", "no scheme here"), None);
    assert_eq!(format_url("_", "file:///etc/apt"), None);
}

#[test]
fn the_host_is_normalised_by_the_url_parser() {
    assert_eq!(format_url("_", "HTTP://Deb.Debian.ORG/x"), Some("deb.debian.org_x".to_string()));
}

#[test]
fn flat_names_have_no_slash() {
    let name = flatten_url("host.example", "/a/b/c/", "__");
    assert_eq!(name, "host.example__a__b__c__");
    assert!(!name.contains('/'));
    assert_eq!(flatten_url("h", "", "_"), "h");
}

#[test]
fn formatted_names_have_no_slash() {
    for uri in ["http://deb.debian.org/debian/dists/bookworm/InRelease", "https://h.example:81/a/b/c"] {
        let name = format_url("_", uri).unwrap();
        assert!(!name.contains('/'));
    }
}
