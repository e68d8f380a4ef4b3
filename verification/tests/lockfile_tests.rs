use gpu_probe::lockfile::locked_version;

const LOCK: &str = "# This file is automatically @generated by Cargo.\nversion = 4\n\n[[package]]\nname = \"wgpu-core\"\nversion = \"29.0.0\"\n\n[[package]]\nname = \"wgpu\"\nversion = \"30.0.1\"\nsource = \"registry+https://github.com/rust-lang/crates.io-index\"\n\n[[package]]\nname = \"zeroize\"\nversion = \"1.8.1\"\n";

#[test]
fn finds_the_locked_version() {
    assert_eq!(locked_version(LOCK, "wgpu").as_deref(), Some("30.0.1"));
    assert_eq!(locked_version(LOCK, "wgpu-core").as_deref(), Some("29.0.0"));
    assert_eq!(locked_version(LOCK, "zeroize").as_deref(), Some("1.8.1"));
}

#[test]
fn absent_package_has_no_version() {
    assert_eq!(locked_version(LOCK, "naga"), None);
    assert_eq!(locked_version("", "wgpu"), None);
}

#[test]
fn version_must_follow_the_name_in_its_block() {
    let lock = "[[package]]\nversion = \"1.0.0\"\nname = \"wgpu\"\n[[package]]\nname = \"other\"\nversion = \"2.0.0\"\n";
    assert_eq!(locked_version(lock, "wgpu"), None);
}

#[test]
fn lines_are_trimmed_and_crlf_accepted() {
    let lock = "[[package]]\r\n  name = \"wgpu\"  \r\n\tversion = \"30.0.1\"\r\n";
    assert_eq!(locked_version(lock, "wgpu").as_deref(), Some("30.0.1"));
    let no_newline = "[[package]]\nname = \"wgpu\"\nversion = \"7\"";
    assert_eq!(locked_version(no_newline, "wgpu").as_deref(), Some("7"));
}

#[test]
fn prefix_and_quotes_are_removed_repeatedly() {
    let lock = "[[package]]\nname = \"wgpu\"\nversion = version = \"\"1.2\"\"\n";
    assert_eq!(locked_version(lock, "wgpu").as_deref(), Some("1.2"));
}

#[test]
fn first_version_after_the_name_wins() {
    let lock = "[[package]]\nname = \"wgpu\"\nversion = \"1\"\nversion = \"2\"\n";
    assert_eq!(locked_version(lock, "wgpu").as_deref(), Some("1"));
}
