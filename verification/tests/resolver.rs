use app_shell::resolver::{get_project_dir, parent_dir, project_dir_bytes};

#[test]
fn resolves_nested_manifest_path() {
    assert_eq!(get_project_dir(b"/home/user/app/src-tauri"), "/home/user/app");
}

#[test]
fn resolves_to_filesystem_root() {
    assert_eq!(get_project_dir(b"/src-tauri"), "/");
}

#[test]
fn root_like_path_is_returned_unchanged() {
    assert_eq!(get_project_dir(b"/"), "/");
    assert_eq!(get_project_dir(b"//"), "//");
    assert_eq!(get_project_dir(b""), "");
}

#[test]
fn repeated_resolution_is_identical() {
    let first = get_project_dir(b"/home/user/app/src-tauri");
    let second = get_project_dir(b"/home/user/app/src-tauri");
    assert_eq!(first, second);
}

#[test]
fn trailing_separators_are_ignored() {
    assert_eq!(get_project_dir(b"/home/user/app/src-tauri/"), "/home/user/app");
    assert_eq!(get_project_dir(b"/home/user/app/src-tauri///"), "/home/user/app");
}

#[test]
fn repeated_separators_between_components() {
    assert_eq!(get_project_dir(b"/home//src-tauri"), "/home");
    assert_eq!(get_project_dir(b"a//b"), "a");
}

#[test]
fn relative_paths() {
    assert_eq!(get_project_dir(b"src-tauri"), "");
    assert_eq!(get_project_dir(b"a/b"), "a");
}

#[test]
fn multi_byte_text_survives_resolution() {
    let resolved = get_project_dir("/home/\u{e9}cole/src-tauri".as_bytes());
    assert_eq!(resolved, "/home/\u{e9}cole");
    assert!(!resolved.contains('\u{fffd}'));
}

#[test]
fn invalid_bytes_resolve_to_replacement_characters() {
    let resolved = get_project_dir(b"/home/us\xffer/src-tauri");
    assert!(resolved.contains('\u{fffd}'));
    assert_eq!(resolved, "/home/us\u{fffd}er");
}

#[test]
fn invalid_bytes_only_in_final_component_are_cut_away() {
    let resolved = get_project_dir(b"/home/user/src\xfftauri");
    assert_eq!(resolved, "/home/user");
    assert!(!resolved.contains('\u{fffd}'));
}

#[test]
fn parent_dir_of_root_like_paths_is_none() {
    assert_eq!(parent_dir(b""), None);
    assert_eq!(parent_dir(b"/"), None);
    assert_eq!(parent_dir(b"///"), None);
}

#[test]
fn parent_dir_of_single_component_is_empty() {
    assert_eq!(parent_dir(b"src-tauri"), Some(Vec::new()));
    assert_eq!(parent_dir(b"src-tauri/"), Some(Vec::new()));
}

#[test]
fn parent_dir_under_root_is_root() {
    assert_eq!(parent_dir(b"/src-tauri"), Some(b"/".to_vec()));
    assert_eq!(parent_dir(b"//src-tauri"), Some(b"/".to_vec()));
}

#[test]
fn parent_dir_of_nested_path() {
    assert_eq!(parent_dir(b"/x/y"), Some(b"/x".to_vec()));
}

#[test]
fn project_dir_bytes_falls_back_to_the_path_itself() {
    assert_eq!(project_dir_bytes(b"/"), b"/".to_vec());
    assert_eq!(project_dir_bytes(b"/x/y"), b"/x".to_vec());
}
