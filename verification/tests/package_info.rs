use nya::package_info::{get_package_file_info, PackageInfoError};
use nya::types::HashType;

#[test]
fn verify_package_file_info() {
    let hash_type = HashType::SHA256;
    let inrelease_content = r#"
          Origin: Test
          Suite: stable
          
          SHA256:
           a1b2c3d4e5f6a7b8c9d0e1f2a3b4c5d6e7f8a9b0c1d2e3f4a5b6c7d8e9f0a1b2 12345 main/binary-amd64/Packages
           f1e2d3c4b5a697887766554433221100ffeeddccbbaa99887766554433221100 67890 main/binary-amd64/Packages.gz
          
          MD5Sum:
           aaaa 12345 main/binary-amd64/Packages
          "#;
    let target_path = "main/binary-amd64/Packages";
    let result = get_package_file_info(inrelease_content, target_path);
    assert!(result.is_ok(), "get_package_file_info should return Ok");
    let package_file_info = result.unwrap();
    assert_eq!(
        package_file_info.hash().len(),
        hash_type.size(),
        "hash should be {} characters long",
        hash_type.size()
    );
}

const RELEASE: &str = "Origin: Debian\nSuite: stable\nMD5Sum:\n 0123 10 main/binary-amd64/Packages\nSHA256:\n aaaa 100 main/binary-arm64/Packages\n bbbb 200 main/binary-amd64/Packages\n cccc 300 main/binary-amd64/Packages.xz\n";

#[test]
fn finds_the_entry_of_the_sha256_section() {
    let info = get_package_file_info(RELEASE, "main/binary-amd64/Packages").unwrap();
    assert_eq!(info.hash(), "bbbb");
    assert_eq!(info.size(), 200);
    assert_eq!(info.path(), "main/binary-amd64/Packages");
}

#[test]
fn matches_a_path_that_ends_with_the_target() {
    let info = get_package_file_info(RELEASE, "binary-amd64/Packages.xz").unwrap();
    assert_eq!(info.hash(), "cccc");
    assert_eq!(info.size(), 300);
    assert_eq!(info.path(), "main/binary-amd64/Packages.xz");
    assert!(info.path().ends_with("binary-amd64/Packages.xz"));
}

#[test]
fn reports_a_missing_section() {
    let content = "Origin: Debian\nMD5Sum:\n 0123 10 main/binary-amd64/Packages\n";
    assert_eq!(
        get_package_file_info(content, "main/binary-amd64/Packages").err(),
        Some(PackageInfoError::SectionNotFound)
    );
}

#[test]
fn reports_a_missing_target() {
    assert_eq!(
        get_package_file_info(RELEASE, "contrib/binary-amd64/Packages").err(),
        Some(PackageInfoError::TargetNotFound)
    );
}

#[test]
fn stops_at_a_size_that_is_not_a_number() {
    let content = "SHA256:\n aaaa 1x0 other/Packages\n bbbb 200 main/binary-amd64/Packages\n";
    assert_eq!(
        get_package_file_info(content, "main/binary-amd64/Packages").err(),
        Some(PackageInfoError::InvalidSize("1x0".to_string()))
    );
    let content = "SHA256:\n aaaa 99999999999999999999999 other/Packages\n";
    assert_eq!(
        get_package_file_info(content, "x").err(),
        Some(PackageInfoError::InvalidSize("99999999999999999999999".to_string()))
    );
}

#[test]
fn reads_sizes_as_usize_does() {
    let content = "SHA256:\r\n\tabcd  +42\tmain/Packages\r\n";
    let info = get_package_file_info(content, "main/Packages").unwrap();
    assert_eq!(info.size(), 42);
    assert_eq!(info.hash(), "abcd");
    let content = "SHA256:\n abcd + main/Packages\n";
    assert_eq!(
        get_package_file_info(content, "main/Packages").err(),
        Some(PackageInfoError::InvalidSize("+".to_string()))
    );
    let content = "SHA256:\n abcd -1 main/Packages\n";
    assert!(matches!(
        get_package_file_info(content, "main/Packages"),
        Err(PackageInfoError::InvalidSize(_))
    ));
}

#[test]
fn skips_lines_that_are_not_three_words() {
    let content = "xSHA256y 1 2\n a b c d\n ab 5\n\n h 7 t/Packages\n";
    let info = get_package_file_info(content, "Packages").unwrap();
    assert_eq!(info.hash(), "h");
    assert_eq!(info.size(), 7);
}

#[test]
fn the_section_starts_at_the_first_occurrence_of_its_heading() {
    // The heading text may appear inside a line; reading starts there.
    let content = "Comment: SHA256 1 main/Packages\n";
    let info = get_package_file_info(content, "main/Packages").unwrap();
    assert_eq!(info.hash(), "SHA256");
    assert_eq!(info.size(), 1);
}

#[test]
fn found_entries_end_with_the_target() {
    for target in ["Packages", "binary-amd64/Packages", "main/binary-arm64/Packages"] {
        let info = get_package_file_info(RELEASE, target).unwrap();
        assert!(info.path().ends_with(target));
        assert!(!info.hash().is_empty() && !info.hash().contains(char::is_whitespace));
    }
}

#[test]
fn hash_types_name_their_sections() {
    assert_eq!(HashType::MD5.as_str(), "MD5");
    assert_eq!(HashType::SHA1.as_str(), "SHA1");
    assert_eq!(HashType::SHA256.as_str(), "SHA256");
    assert_eq!(HashType::SHA512.as_str(), "SHA512");
    assert_eq!(HashType::MD5.size(), 32);
    assert_eq!(HashType::SHA1.size(), 40);
    assert_eq!(HashType::SHA256.size(), 64);
    assert_eq!(HashType::SHA512.size(), 128);
}
