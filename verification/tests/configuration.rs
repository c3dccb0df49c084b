use nya::configuration::{debian_architecture, env_or_default, DEFAULT_CACHE_DIR, DEFAULT_REPOSITORIES_FILE};

#[test]
fn settings_fall_back_to_the_trimmed_default() {
    assert_eq!(env_or_default(None, "  sources \n"), "sources");
    assert_eq!(env_or_default(Some(" /tmp/x ".to_string()), "sources"), " /tmp/x ");
    assert_eq!(env_or_default(None, DEFAULT_CACHE_DIR), "/etc/nya");
    assert_eq!(env_or_default(None, DEFAULT_REPOSITORIES_FILE), "sources");
    assert_eq!(env_or_default(None, "\u{3000}a b\u{a0}"), "a b");
}

#[test]
fn maps_architectures_to_debian_names() {
    assert_eq!(debian_architecture("x86_64"), Some("amd64"));
    assert_eq!(debian_architecture("aarch64"), Some("arm64"));
    assert_eq!(debian_architecture("riscv64"), None);
    assert_eq!(debian_architecture("x86_64 "), None);
}
