use shell_emulator::session::{default_vfs, vfs_from_entries, Config, ShellEmulator};

fn fresh_session() -> ShellEmulator {
    ShellEmulator::new(default_vfs())
}

#[test]
fn test_session_starts_at_root() {
    let session = fresh_session();
    assert_eq!(session.current_path, "/");
    assert_eq!(session.audit.len(), 0);
}

#[test]
fn test_session_cd_updates_current_path() {
    let mut session = fresh_session();
    let result = session.execute_command("cd folder1", 1);
    assert_eq!(result, "/folder1/\n");
    assert_eq!(session.current_path, "/folder1/");
}

#[test]
fn test_session_cd_parent_returns_to_root() {
    let mut session = fresh_session();
    session.execute_command("cd folder1", 1);
    let result = session.execute_command("cd ..", 2);
    assert_eq!(result, "/\n");
    assert_eq!(session.current_path, "/");
}

#[test]
fn test_session_cd_failure_keeps_current_path() {
    let mut session = fresh_session();
    let result = session.execute_command("cd nowhere", 1);
    assert_eq!(result, "Error: path not found\n");
    assert_eq!(session.current_path, "/");
}

#[test]
fn test_session_ls_from_folder1() {
    let mut session = fresh_session();
    session.execute_command("cd folder1", 1);
    let result = session.execute_command("ls", 2);
    let listing = result.trim_end_matches('\n');
    let mut names: Vec<&str> = listing.split('\n').collect();
    names.sort();
    assert_eq!(names, vec!["file1.txt", "file2.txt"]);
    assert!(!result.contains("file3.txt"));
}

#[test]
fn test_session_find_file() {
    let mut session = fresh_session();
    let result = session.execute_command("find file1.txt", 1);
    assert_eq!(result, "/folder1/file1.txt\n");
}

#[test]
fn test_session_find_missing_file() {
    let mut session = fresh_session();
    let result = session.execute_command("find nonexistent", 1);
    assert_eq!(result, "Error: path not found\n");
}

#[test]
fn test_session_chmod_success() {
    let mut session = fresh_session();
    let result = session.execute_command("chmod 755 /folder1/file1.txt", 1);
    assert_eq!(result, "Changed permissions for /folder1/file1.txt\n");
    assert_eq!(session.current_path, "/");
    assert_eq!(session.vfs, default_vfs());
}

#[test]
fn test_session_chmod_missing_file() {
    let mut session = fresh_session();
    let result = session.execute_command("chmod 755 /missing.txt", 1);
    assert_eq!(result, "Error: file not found\n");
}

#[test]
fn test_session_chmod_not_enough_arguments() {
    let mut session = fresh_session();
    let result = session.execute_command("chmod 755", 1);
    assert_eq!(result, "Error: not enough arguments\n");
}

#[test]
fn test_session_exit_appends_one_audit_record() {
    let mut session = fresh_session();
    let result = session.execute_command("exit", 42);
    assert_eq!(result, "exit\n");
    assert_eq!(session.audit.len(), 1);
    assert_eq!(session.audit[0].seconds, 42);
    assert_eq!(session.audit[0].line, "exit");
}

#[test]
fn test_session_clear() {
    let mut session = fresh_session();
    let result = session.execute_command("clear", 1);
    assert_eq!(result, "clear\n");
}

#[test]
fn test_session_unknown_command() {
    let mut session = fresh_session();
    let result = session.execute_command("frobnicate now", 1);
    assert_eq!(result, "Unknown command\n");
    assert_eq!(session.current_path, "/");
}

#[test]
fn test_session_audits_every_line_verbatim() {
    let mut session = fresh_session();
    session.execute_command("ls", 10);
    session.execute_command("cd nowhere", 11);
    session.execute_command("  odd   spacing  ", 12);
    assert_eq!(session.audit.len(), 3);
    assert_eq!(session.audit[0].line, "ls");
    assert_eq!(session.audit[1].line, "cd nowhere");
    assert_eq!(session.audit[2].line, "  odd   spacing  ");
    assert_eq!(session.audit[0].seconds, 10);
    assert_eq!(session.audit[1].seconds, 11);
    assert_eq!(session.audit[2].seconds, 12);
}

#[test]
fn test_session_empty_line_emits_nothing_but_is_audited() {
    let mut session = fresh_session();
    let result = session.execute_command("", 7);
    assert_eq!(result, "");
    assert_eq!(session.audit.len(), 1);
    assert_eq!(session.audit[0].line, "");
}

#[test]
fn test_session_path_stays_root_without_successful_cd() {
    let mut session = fresh_session();
    session.execute_command("ls", 1);
    session.execute_command("find file2.txt", 2);
    session.execute_command("cd nowhere", 3);
    session.execute_command("chmod 644 /folder2/file3.txt", 4);
    session.execute_command("exit", 5);
    assert_eq!(session.current_path, "/");
}

#[test]
fn test_session_cd_root_from_subdirectory() {
    let mut session = fresh_session();
    session.execute_command("cd folder2", 1);
    assert_eq!(session.current_path, "/folder2/");
    let result = session.execute_command("cd /", 2);
    assert_eq!(result, "/\n");
    assert_eq!(session.current_path, "/");
}

#[test]
fn test_vfs_from_entries_prefixes_names() {
    let entries = vec!["folder1/file1.txt".to_string(), "notes.md".to_string()];
    let vfs = vfs_from_entries(&entries);
    assert_eq!(vfs, vec![
        "/folder1/file1.txt".to_string(),
        "/notes.md".to_string(),
    ]);
}

#[test]
fn test_default_vfs_seed() {
    assert_eq!(default_vfs(), vec![
        "/folder1/file1.txt".to_string(),
        "/folder1/file2.txt".to_string(),
        "/folder2/file3.txt".to_string(),
    ]);
}

#[test]
fn test_config_applies_recognised_keys() {
    let mut config = Config::new();
    config.apply_line("hostname,devbox");
    config.apply_line("filesystem_path,vfs.zip");
    config.apply_line("log_path,audit.csv");
    config.apply_line("startup_script,init.sh");
    assert_eq!(config.hostname, "devbox");
    assert_eq!(config.fs_path, "vfs.zip");
    assert_eq!(config.log_path, "audit.csv");
    assert_eq!(config.startup_script, "init.sh");
}

#[test]
fn test_config_ignores_unknown_and_malformed_lines() {
    let mut config = Config::new();
    config.apply_line("hostname,devbox");
    config.apply_line("colour,blue");
    config.apply_line("hostname");
    assert_eq!(config.hostname, "devbox");
    assert_eq!(config.fs_path, "");
}
