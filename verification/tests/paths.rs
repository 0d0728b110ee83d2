use std::path::{Path, PathBuf};
use termdeck::paths::{
    dock_directory, dock_suggested_name, dropped_path, executable_candidates, without_windows_verbatim_prefix,
    working_directory,
};
use termdeck::shell::Platform;

#[test]
fn removes_windows_verbatim_path_prefix() {
    assert_eq!(
        PathBuf::from(without_windows_verbatim_prefix(r"\\?\C:\Users\dennis")),
        PathBuf::from(r"C:\Users\dennis")
    );
    assert_eq!(
        PathBuf::from(without_windows_verbatim_prefix(r"\\?\UNC\server\share")),
        PathBuf::from(r"\\server\share")
    );
}

#[test]
fn paths_without_a_verbatim_prefix_are_kept() {
    assert_eq!(without_windows_verbatim_prefix(r"C:\dir"), r"C:\dir");
    assert_eq!(without_windows_verbatim_prefix(r"\\server\share"), r"\\server\share");
    assert_eq!(without_windows_verbatim_prefix(r"\\?"), r"\\?");
    assert_eq!(without_windows_verbatim_prefix(""), "");
}

#[test]
fn invalid_working_directory_falls_back_to_home() {
    let requested = "this-path-does-not-exist";
    let home = dirs::home_dir().map(|h| h.to_string_lossy().into_owned());
    assert_eq!(
        working_directory(requested, Path::new(requested).is_dir(), None, home.clone(), &Platform::Unix),
        home.unwrap_or_else(|| ".".to_string())
    );
}

#[test]
fn working_directory_prefers_the_canonical_requested_directory() {
    assert_eq!(
        working_directory("proj", true, Some("/home/u/proj".to_string()), None, &Platform::Unix),
        "/home/u/proj"
    );
    assert_eq!(working_directory("proj", true, None, None, &Platform::Unix), "proj");
    assert_eq!(
        working_directory("d", true, Some(r"\\?\C:\d".to_string()), None, &Platform::Windows),
        r"C:\d"
    );
    assert_eq!(working_directory("", true, None, None, &Platform::Unix), ".");
    assert_eq!(
        working_directory("x", false, None, Some("/home/u".to_string()), &Platform::Unix),
        "/home/u"
    );
}

#[test]
fn dropped_paths_lose_surrounding_whitespace_and_quotes() {
    assert_eq!(dropped_path("  \"/home/u/my dir\"\n"), Ok("/home/u/my dir".to_string()));
    assert_eq!(dropped_path("'C:\\x'"), Ok("C:\\x".to_string()));
    assert_eq!(dropped_path("\"' a '\""), Ok(" a ".to_string()));
    assert_eq!(dropped_path("   "), Err("No path was provided".to_string()));
    assert_eq!(dropped_path(" \"\" "), Err("No path was provided".to_string()));
}

#[test]
fn docked_terminals_are_named_after_their_directory() {
    assert_eq!(dock_suggested_name(Some("proj".to_string())), "proj");
    assert_eq!(dock_suggested_name(Some(String::new())), "Docked terminal");
    assert_eq!(dock_suggested_name(None), "Docked terminal");
}

#[test]
fn executable_candidates_are_the_trimmed_non_empty_lines() {
    assert_eq!(
        executable_candidates("C:\\a\\pwsh.exe\r\n\r\n  C:\\b\\pwsh.exe \r\n"),
        vec!["C:\\a\\pwsh.exe".to_string(), "C:\\b\\pwsh.exe".to_string()]
    );
    assert_eq!(executable_candidates("last line without end"), vec!["last line without end".to_string()]);
    assert_eq!(executable_candidates(""), Vec::<String>::new());
    assert_eq!(executable_candidates("\n \n\t"), Vec::<String>::new());
}

#[test]
fn a_dropped_directory_is_docked_as_it_is() {
    assert_eq!(
        dock_directory("/home/me/src".to_string(), true, Some("/home/me".to_string())),
        Ok("/home/me/src".to_string())
    );
}

#[test]
fn a_dropped_file_is_docked_at_its_parent() {
    assert_eq!(
        dock_directory("/home/me/notes.txt".to_string(), false, Some("/home/me".to_string())),
        Ok("/home/me".to_string())
    );
}

#[test]
fn a_dropped_file_without_a_parent_is_refused() {
    assert_eq!(
        dock_directory("/".to_string(), false, None),
        Err("Dropped file has no parent directory".to_string())
    );
}
