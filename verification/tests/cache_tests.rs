use githops::cache::{
    compute_key, configured_hooks_path, entries_by_age, format_age, git_checkout_dir_name, key_bytes,
    lower_hex_string, marker_file_name,
};
use sha2::{Digest, Sha256};

fn input(path: &str, content: &[u8]) -> (String, Vec<u8>) {
    (path.to_string(), content.to_vec())
}

#[test]
fn test_compute_key_is_deterministic() {
    let inputs = vec![input("src/main.rs", b"fn main() {}")];
    let key1 = compute_key("cargo build", &[], &inputs);
    let key2 = compute_key("cargo build", &[], &inputs);
    assert_eq!(key1, key2);
}

#[test]
fn test_compute_key_differs_on_run_change() {
    let inputs: Vec<(String, Vec<u8>)> = vec![];
    let key1 = compute_key("cargo build", &[], &inputs);
    let key2 = compute_key("cargo test", &[], &inputs);
    assert_ne!(key1, key2);
}

#[test]
fn test_compute_key_differs_on_file_content_change() {
    let inputs1 = vec![input("src/main.rs", b"fn main() { println!(\"v1\"); }")];
    let inputs2 = vec![input("src/main.rs", b"fn main() { println!(\"v2\"); }")];
    let key1 = compute_key("build", &[], &inputs1);
    let key2 = compute_key("build", &[], &inputs2);
    assert_ne!(key1, key2);
}

#[test]
fn test_compute_key_differs_on_extra_keys() {
    let inputs: Vec<(String, Vec<u8>)> = vec![];
    let key1 = compute_key("build", &["1.70.0".to_string()], &inputs);
    let key2 = compute_key("build", &["1.71.0".to_string()], &inputs);
    assert_ne!(key1, key2);
}

#[test]
fn test_compute_key_is_hex_string() {
    let inputs: Vec<(String, Vec<u8>)> = vec![];
    let key = compute_key("build", &[], &inputs);
    assert_eq!(key.len(), 64);
    assert!(key.chars().all(|c| c.is_ascii_hexdigit()));
}

#[test]
fn key_bytes_frame_each_part() {
    let bytes = key_bytes("run", &["k".to_string()], &[input("p", b"xy")]);
    assert_eq!(bytes, b"run\x00key\x00k\x00file\x00p\x00xy".to_vec());
}

#[test]
fn compute_key_is_the_sha256_of_the_framed_bytes() {
    let keys = vec!["v1".to_string()];
    let inputs = vec![input("a.rs", b"A"), input("b.rs", b"B")];
    let mut hasher = Sha256::new();
    hasher.update(b"cargo test");
    hasher.update(b"\x00key\x00v1");
    hasher.update(b"\x00file\x00a.rs\x00A");
    hasher.update(b"\x00file\x00b.rs\x00B");
    let expected = format!("{:x}", hasher.finalize());
    assert_eq!(compute_key("cargo test", &keys, &inputs), expected);
}

#[test]
fn compute_key_of_empty_script() {
    assert_eq!(compute_key("", &[], &[]), "e3b0c44298fc1c149afbf4c8996fb92427ae41e4649b934ca495991b7852b855");
}

#[test]
fn hex_encoding_is_lower_case_two_digits_per_byte() {
    assert_eq!(lower_hex_string(&[0x0a, 0x14, 0x1e, 0xff]), "0a141eff");
    assert_eq!(lower_hex_string(&[]), "");
}

#[test]
fn marker_file_is_named_after_the_key() {
    assert_eq!(marker_file_name("deadbeef"), "deadbeef.ok");
}

#[test]
fn format_age_picks_the_largest_unit() {
    assert_eq!(format_age(0), "0s ago");
    assert_eq!(format_age(59), "59s ago");
    assert_eq!(format_age(60), "1m ago");
    assert_eq!(format_age(3599), "59m ago");
    assert_eq!(format_age(3600), "1h ago");
    assert_eq!(format_age(86399), "23h ago");
    assert_eq!(format_age(86400), "1d ago");
    assert_eq!(format_age(3 * 86400 + 5), "3d ago");
}

#[test]
fn entries_are_listed_newest_first_and_stably() {
    let entries = vec![
        ("old".to_string(), 500u64),
        ("new".to_string(), 5),
        ("mid".to_string(), 60),
        ("new2".to_string(), 5),
    ];
    let sorted = entries_by_age(&entries);
    let keys: Vec<&str> = sorted.iter().map(|e| e.0.as_str()).collect();
    assert_eq!(keys, vec!["new", "new2", "mid", "old"]);
}

#[test]
fn git_checkout_dir_uses_a_short_hash() {
    let name = git_checkout_dir_name("https://github.com/org/repo.git", "main");
    let mut hasher = Sha256::new();
    hasher.update(b"https://github.com/org/repo.git");
    hasher.update(b"main");
    let full = format!("{:x}", hasher.finalize());
    assert_eq!(name, format!("githops-git-{}", &full[..12]));
}

#[test]
fn hooks_path_from_git_config_output() {
    assert_eq!(configured_hooks_path("  .githooks\n"), Some(".githooks".to_string()));
    assert_eq!(configured_hooks_path("\n"), None);
}
