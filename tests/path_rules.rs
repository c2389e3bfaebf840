use pipeserve::path::{is_plain, sanitize_components, sanitize_path, PathComponent};
use pipeserve::upload::{stored_path, upload_location};

fn strings(v: &[&str]) -> Vec<String> {
    v.iter().map(|s| s.to_string()).collect()
}

#[test]
fn sanitize_drops_parent_dirs_above_start() {
    assert_eq!(sanitize_path("../../etc/passwd"), strings(&["etc", "passwd"]));
}

#[test]
fn sanitize_drops_root_and_cur_dir() {
    assert_eq!(sanitize_path("/abs/./x"), strings(&["abs", "x"]));
    assert_eq!(sanitize_path("./a"), strings(&["a"]));
}

#[test]
fn sanitize_parent_removes_previous_name() {
    assert_eq!(sanitize_path("a/../b"), strings(&["b"]));
    assert_eq!(sanitize_path("a/b/../../.."), strings(&[]));
}

#[test]
fn sanitize_empty_and_plain() {
    assert_eq!(sanitize_path(""), strings(&[]));
    assert_eq!(sanitize_path("dir//file.txt/"), strings(&["dir", "file.txt"]));
}

#[test]
fn stored_path_defaults_to_untitled() {
    assert_eq!(stored_path(None), strings(&["untitled"]));
    assert_eq!(stored_path(Some("../up/load.bin")), strings(&["up", "load.bin"]));
}

#[test]
fn location_uses_defaults() {
    let segs = strings(&["a", "b.txt"]);
    assert_eq!(upload_location(None, None, &segs), "http://localhost/a/b.txt\n");
}

#[test]
fn location_uses_forwarded_scheme_and_host() {
    let segs = strings(&["f"]);
    assert_eq!(
        upload_location(Some("https"), Some("example.com:8080"), &segs),
        "https://example.com:8080/f\n"
    );
    assert_eq!(upload_location(Some("https"), Some("h"), &strings(&[])), "https://h/\n");
}

#[test]
fn sanitize_components_folds_given_components() {
    let cs = vec![
        PathComponent::RootDir,
        PathComponent::Normal("a".to_string()),
        PathComponent::CurDir,
        PathComponent::Normal("b".to_string()),
        PathComponent::ParentDir,
        PathComponent::ParentDir,
        PathComponent::ParentDir,
        PathComponent::Prefix,
        PathComponent::Normal("c".to_string()),
    ];
    assert_eq!(sanitize_components(&cs), strings(&["c"]));
    assert_eq!(sanitize_components(&vec![]), strings(&[]));
}

#[test]
fn sanitized_names_are_plain() {
    for p in ["../..//x/./y/..", "/.../a/../../b/", "./.hidden/../..."] {
        for seg in sanitize_path(p) {
            assert!(!seg.is_empty() && !seg.contains('/') && seg != "." && seg != "..");
        }
    }
    assert_eq!(sanitize_path("/.../a/../../b/"), strings(&["b"]));
}

#[test]
fn plain_names() {
    assert!(is_plain("a.txt"));
    assert!(is_plain("..."));
    assert!(is_plain(".hidden"));
    assert!(!is_plain(""));
    assert!(!is_plain("."));
    assert!(!is_plain(".."));
    assert!(!is_plain("../../x"));
    assert!(!is_plain("a/b"));
}

#[test]
fn sanitize_components_drops_names_that_are_not_plain() {
    let cs = vec![
        PathComponent::Prefix,
        PathComponent::Normal("../../x".to_string()),
        PathComponent::Normal("keep".to_string()),
        PathComponent::Normal("".to_string()),
        PathComponent::Normal("..".to_string()),
        PathComponent::Normal(".".to_string()),
        PathComponent::Normal("also".to_string()),
    ];
    assert_eq!(sanitize_components(&cs), strings(&["keep", "also"]));
}
