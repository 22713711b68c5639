use shell_emulator::commands::{
    BaseCommand, CDCommand, ChmodCommand, ClearCommand, ExitCommand, FindCommand, LSCommand,
};

fn setup_vfs() -> Vec<String> {
    vec![
        "/folder1/file1.txt".to_string(),
        "/folder1/file2.txt".to_string(),
        "/folder2/file3.txt".to_string(),
    ]
}

#[test]
fn test_ls_lists_files_in_current_directory() {
    let vfs = setup_vfs();
    let result = LSCommand::run(&vfs, "/folder1/", &[]);
    assert!(result.contains("file1.txt"));
    assert!(result.contains("file2.txt"));
    assert!(!result.contains("file3.txt"));
}

#[test]
fn test_cd_to_subdirectory() {
    let vfs = setup_vfs();
    let result = CDCommand::run(&vfs, "/", &["folder1"]);
    assert_eq!(result, "/folder1/");
}

#[test]
fn test_cd_to_parent_directory() {
    let vfs = setup_vfs();
    let result = CDCommand::run(&vfs, "/folder1/", &[".."]);
    assert_eq!(result, "/");
}

#[test]
fn test_cd_non_existent_directory() {
    let vfs = setup_vfs();
    let result = CDCommand::run(&vfs, "/", &["non_existent_folder"]);
    assert_eq!(result, "Error: path not found");
}

#[test]
fn test_exit_command() {
    let vfs = setup_vfs();
    let result = ExitCommand::run(&vfs, "/", &[]);
    assert_eq!(result, "exit");
}

#[test]
fn test_find_file_in_vfs() {
    let vfs = setup_vfs();
    let result = FindCommand::run(&vfs, "/", &["file1.txt"]);
    assert_eq!(result, "/folder1/file1.txt");
}

#[test]
fn test_find_file_not_found() {
    let vfs = setup_vfs();
    let result = FindCommand::run(&vfs, "/", &["nonexistent_file.txt"]);
    assert_eq!(result, "Error: path not found");
}

#[test]
fn test_find_without_arguments() {
    let vfs = setup_vfs();
    let result = FindCommand::run(&vfs, "/", &[]);
    assert_eq!(result, "Error: not enough arguments");
}

#[test]
fn test_clear_command() {
    let vfs = setup_vfs();
    let result = ClearCommand::run(&vfs, "/", &[]);
    assert_eq!(result, "clear");
}

#[test]
fn test_chmod_command() {
    let vfs = setup_vfs();
    let result = ChmodCommand::run(&vfs, "/", &["755", "/folder1/file1.txt"]);
    assert_eq!(result, "Changed permissions for /folder1/file1.txt");
}

#[test]
fn test_chmod_file_not_found() {
    let vfs = setup_vfs();
    let result = ChmodCommand::run(&vfs, "/", &["755", "/nonexistent_file.txt"]);
    assert_eq!(result, "Error: file not found");
}

#[test]
fn test_chmod_not_enough_arguments() {
    let vfs = setup_vfs();
    let result = ChmodCommand::run(&vfs, "/", &["755"]);
    assert_eq!(result, "Error: not enough arguments");
}

#[test]
fn test_ls_at_root_lists_top_level_names() {
    // At the root the final segment is empty, which matches the leading
    // empty field of every entry's split, so the first real segment of
    // each entry is collected.
    let vfs = setup_vfs();
    let result = LSCommand::run(&vfs, "/", &[]);
    let mut names: Vec<&str> = result.split('\n').collect();
    names.sort();
    assert_eq!(names, vec!["folder1", "folder2"]);
}

#[test]
fn test_ls_set_from_folder1() {
    let vfs = setup_vfs();
    let result = LSCommand::run(&vfs, "/folder1/", &[]);
    let mut names: Vec<&str> = result.split('\n').collect();
    names.sort();
    assert_eq!(names, vec!["file1.txt", "file2.txt"]);
}

#[test]
fn test_ls_repeated_without_cd_is_stable() {
    let vfs = setup_vfs();
    let first = LSCommand::run(&vfs, "/folder1/", &[]);
    let second = LSCommand::run(&vfs, "/folder1/", &[]);
    assert_eq!(first, second);
}

#[test]
fn test_cd_without_arguments() {
    let vfs = setup_vfs();
    let result = CDCommand::run(&vfs, "/", &[]);
    assert_eq!(result, "Error: not enough arguments");
}

#[test]
fn test_cd_root_from_any_state() {
    let vfs = setup_vfs();
    assert_eq!(CDCommand::run(&vfs, "/folder1/", &["/"]), "/");
    assert_eq!(CDCommand::run(&vfs, "/", &["/"]), "/");
}

#[test]
fn test_cd_parent_from_deep_path_has_no_trailing_slash() {
    // `cd ..` from more than one segment deep joins the remaining segments
    // without a trailing slash.
    let vfs = vec!["/folder1/sub/file.txt".to_string()];
    let result = CDCommand::run(&vfs, "/folder1/sub/", &[".."]);
    assert_eq!(result, "/folder1");
}

#[test]
fn test_cd_matches_filename_prefix() {
    // Directory existence is prefix existence: a filename prefix counts.
    let vfs = setup_vfs();
    let result = CDCommand::run(&vfs, "/folder1/", &["fil"]);
    assert_eq!(result, "/folder1/fil/");
}

#[test]
fn test_find_returns_first_match_in_order() {
    let vfs = setup_vfs();
    let result = FindCommand::run(&vfs, "/", &["file"]);
    assert_eq!(result, "/folder1/file1.txt");
}

#[test]
fn test_chmod_does_not_interpret_mode_token() {
    let vfs = setup_vfs();
    let result = ChmodCommand::run(&vfs, "/", &["not-a-mode", "/folder2/file3.txt"]);
    assert_eq!(result, "Changed permissions for /folder2/file3.txt");
}
