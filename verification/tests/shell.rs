use termdeck::session::session_file_stem;
use termdeck::shell::{
    resolve_shell, selected_shell, shell_paths, windows_powershell_path, ShellChoice,
    ascii_lowercase, bash_rc, command_environment, powershell_command, powershell_history_file,
    launch_plan, shell_kind, shell_override, unix_history_setup, zsh_rc, Platform, ShellKind,
    ShellLaunch, ShellPaths, BASH_RC_HEAD, BASH_RC_HOOKS, ZSH_RC_HEAD, ZSH_RC_HOOKS,
};

fn paths_for(session_id: &str, generation: u64) -> ShellPaths {
    let stem = session_file_stem(session_id, generation);
    ShellPaths {
        powershell_history: format!("/tmp/{stem}.history.txt"),
        bash_rc: format!("/tmp/{stem}.bashrc"),
        zsh_dir: format!("/tmp/{stem}"),
        zsh_rc: format!("/tmp/{stem}/.zshrc"),
    }
}

#[test]
fn powershell_history_file_holds_one_command_per_line() {
    let contents = powershell_history_file(&[
        "first".to_string(),
        "  ".to_string(),
        "second".to_string(),
    ]);
    assert_eq!(contents, "first\nsecond\n");
}

#[test]
fn powershell_history_file_drops_entries_it_cannot_represent() {
    let contents = powershell_history_file(&[
        "keep me".to_string(),
        "spans\nlines".to_string(),
        "has\0nul".to_string(),
    ]);
    assert_eq!(contents, "keep me\n");
}

#[test]
fn powershell_history_file_drops_unicode_blank_and_carriage_returns() {
    let contents = powershell_history_file(&[
        "\u{3000}\t".to_string(),
        "cr\rhere".to_string(),
        "".to_string(),
        " padded ".to_string(),
    ]);
    assert_eq!(contents, " padded \n");
}

#[test]
fn non_powershell_shell_uses_no_bootstrap_args() {
    let plan = launch_plan(
        &Platform::Windows,
        "C:\\tools\\bash.exe".to_string(),
        "bash.exe",
        &Vec::new(),
        &paths_for("term_test", 1),
        String::new(),
    );
    assert!(plan.launch.args.is_empty());
    assert!(plan.launch.init_path.is_none());
    assert!(plan.init_file.is_none());
    assert_eq!(plan.launch.shell, "C:\\tools\\bash.exe");
}

#[test]
fn powershell_shell_args_include_pwd_bootstrap() {
    let paths = paths_for("term_test", 1);
    let plan = launch_plan(
        &Platform::Windows,
        "C:\\Program Files\\PowerShell\\7\\pwsh.exe".to_string(),
        "pwsh.exe",
        &vec!["ls ~/Downloads".to_string()],
        &paths,
        String::new(),
    );
    let launch = &plan.launch;
    assert_eq!(launch.args[0], "-NoLogo");
    assert_eq!(launch.args[1], "-NoExit");
    assert_eq!(launch.args[2], "-Command");
    assert!(launch.args[3].contains("function global:prompt"));
    assert!(launch.args[3].contains("]7;"));
    assert!(launch.args[3].contains("Set-PSReadLineOption -HistorySavePath"));
    assert!(!launch.args[3].contains("Set-PSReadLineKeyHandler"));
    assert!(launch.args[3].contains(&format!("'{}'", paths.powershell_history)));
    let file = plan.init_file.expect("history file planned");
    assert_eq!(file.path, paths.powershell_history);
    assert_eq!(file.contents, "ls ~/Downloads\n");
    assert_eq!(plan.purpose, "PowerShell history");
    assert_eq!(launch.init_path.as_deref(), Some(paths.powershell_history.as_str()));
}

#[test]
fn powershell_command_doubles_quotes_in_the_history_path() {
    let command = powershell_command("C:\\Users\\o'brien\\h.txt");
    assert!(command.contains("-HistorySavePath 'C:\\Users\\o''brien\\h.txt' }"));
    assert!(!command.contains("__TERMDECK_HISTORY_PATH__"));
}

#[test]
fn shell_kind_ignores_ascii_case() {
    assert!(matches!(shell_kind(&Platform::Windows, "PowerShell.EXE"), ShellKind::PowerShell));
    assert!(matches!(shell_kind(&Platform::Windows, "pwsh.exe"), ShellKind::PowerShell));
    assert!(matches!(shell_kind(&Platform::Windows, "bash"), ShellKind::Other));
    assert!(matches!(shell_kind(&Platform::Unix, "BASH"), ShellKind::Bash));
    assert!(matches!(shell_kind(&Platform::Unix, "zsh"), ShellKind::Zsh));
    assert!(matches!(shell_kind(&Platform::Unix, "fish"), ShellKind::Other));
    assert!(matches!(shell_kind(&Platform::Unix, "pwsh.exe"), ShellKind::Other));
    assert_eq!(ascii_lowercase("Ab\u{c9}Z"), "ab\u{c9}z");
}

#[test]
fn unix_history_setup_quotes_each_entry() {
    let setup = unix_history_setup(
        &["echo 'hi'".to_string(), "".to_string(), "a\0b".to_string(), "ls".to_string()],
        "history -s ",
    );
    assert_eq!(setup, "history -s 'echo '\\''hi'\\'''\nhistory -s 'ls'\n");
}

#[test]
fn bash_plan_writes_an_rc_file_and_points_bash_at_it() {
    let paths = paths_for("term_1", 7);
    let history = vec!["make".to_string()];
    let plan = launch_plan(
        &Platform::Unix,
        "/bin/bash".to_string(),
        "bash",
        &history,
        &paths,
        String::new(),
    );
    assert_eq!(plan.launch.args, vec!["--rcfile".to_string(), paths.bash_rc.clone(), "-i".to_string()]);
    assert!(plan.launch.environment.is_empty());
    assert!(plan.create_dir.is_none());
    let file = plan.init_file.expect("rc file planned");
    assert_eq!(file.path, paths.bash_rc);
    assert_eq!(file.contents, format!("{BASH_RC_HEAD}history -s 'make'\n{BASH_RC_HOOKS}"));
    assert_eq!(file.contents, bash_rc(&history));
    assert_eq!(plan.purpose, "Bash integration");
    assert_eq!(plan.launch.init_path, Some(paths.bash_rc.clone()));
}

#[test]
fn zsh_plan_points_zdotdir_at_its_own_directory() {
    let paths = paths_for("term_1", 7);
    let history = vec!["git status".to_string()];
    let plan = launch_plan(
        &Platform::Unix,
        "/usr/bin/zsh".to_string(),
        "zsh",
        &history,
        &paths,
        "/home/u/.config/zsh".to_string(),
    );
    assert_eq!(plan.launch.args, vec!["-i".to_string()]);
    assert_eq!(
        plan.launch.environment,
        vec![
            ("ZDOTDIR".to_string(), paths.zsh_dir.clone()),
            ("TERMDECK_ORIGINAL_ZDOTDIR".to_string(), "/home/u/.config/zsh".to_string()),
        ]
    );
    assert_eq!(plan.create_dir, Some(paths.zsh_dir.clone()));
    let file = plan.init_file.expect("rc file planned");
    assert_eq!(file.path, paths.zsh_rc);
    assert_eq!(file.contents, format!("{ZSH_RC_HEAD}print -s -- 'git status'\n{ZSH_RC_HOOKS}"));
    assert_eq!(file.contents, zsh_rc(&history));
    assert_eq!(plan.purpose, "Zsh integration");
    assert_eq!(plan.launch.init_path, Some(paths.zsh_dir.clone()));
}

#[test]
fn other_unix_shells_start_as_they_are() {
    let plan = launch_plan(
        &Platform::Unix,
        "/usr/bin/fish".to_string(),
        "fish",
        &vec!["ls".to_string()],
        &paths_for("t", 1),
        String::new(),
    );
    assert!(plan.launch.args.is_empty());
    assert!(plan.launch.environment.is_empty());
    assert!(plan.init_file.is_none());
    assert!(plan.create_dir.is_none());
    assert!(plan.launch.init_path.is_none());
}

#[test]
fn every_shell_gets_the_terminal_variables_first() {
    let launch = ShellLaunch {
        shell: "/usr/bin/zsh".to_string(),
        args: Vec::new(),
        environment: vec![("ZDOTDIR".to_string(), "/tmp/z".to_string())],
        init_path: None,
    };
    assert_eq!(
        command_environment(&launch),
        vec![
            ("TERM".to_string(), "xterm-256color".to_string()),
            ("COLORTERM".to_string(), "truecolor".to_string()),
            ("TERM_PROGRAM".to_string(), "TermDeck".to_string()),
            ("ZDOTDIR".to_string(), "/tmp/z".to_string()),
        ]
    );
}

#[test]
fn a_blank_shell_override_is_ignored() {
    assert_eq!(shell_override(None), None);
    assert_eq!(shell_override(Some(" \t ".to_string())), None);
    assert_eq!(shell_override(Some(String::new())), None);
    assert_eq!(
        shell_override(Some(" /usr/bin/zsh".to_string())),
        Some(" /usr/bin/zsh".to_string())
    );
}

/// Reads a word the way a POSIX shell does for single quotes and backslashes.
fn read_word(word: &str) -> String {
    let mut value = String::new();
    let mut chars = word.chars();
    let mut quoted = false;
    while let Some(c) = chars.next() {
        if quoted {
            if c == '\'' {
                quoted = false;
            } else {
                value.push(c);
            }
        } else if c == '\'' {
            quoted = true;
        } else if c == '\\' {
            if let Some(next) = chars.next() {
                value.push(next);
            }
        } else {
            value.push(c);
        }
    }
    assert!(!quoted, "unterminated quote in {word:?}");
    value
}

#[test]
fn seeded_history_entries_read_back_unchanged() {
    for entry in ["plain", "it's", "''", "a'b'c", "back\\slash", "tab\there", "\u{1f600}'"] {
        let setup = unix_history_setup(&[entry.to_string()], "");
        let word = setup.strip_suffix('\n').expect("one line");
        assert_eq!(read_word(word), entry);
    }
}

#[test]
fn history_file_lines_are_the_kept_entries() {
    let history = vec![
        "first".to_string(),
        "two\nlines".to_string(),
        " ".to_string(),
        "third one".to_string(),
    ];
    let contents = powershell_history_file(&history);
    let lines: Vec<&str> = contents.lines().collect();
    assert_eq!(lines, vec!["first", "third one"]);
}

fn unix_choice(override_value: Option<&str>, login_shell: Option<&str>) -> ShellChoice {
    ShellChoice {
        override_value: override_value.map(str::to_string),
        override_found: None,
        login_shell: login_shell.map(str::to_string),
        pwsh_found: None,
        windows_powershell: String::new(),
    }
}

#[test]
fn the_shell_is_the_override_then_the_login_shell_then_bash() {
    assert_eq!(selected_shell(&Platform::Unix, unix_choice(Some("/usr/bin/zsh"), Some("/bin/sh"))), "/usr/bin/zsh");
    assert_eq!(selected_shell(&Platform::Unix, unix_choice(Some("  "), Some("/bin/sh"))), "/bin/sh");
    assert_eq!(selected_shell(&Platform::Unix, unix_choice(None, None)), "/bin/bash");
}

#[test]
fn windows_prefers_the_found_override_then_pwsh_then_windows_powershell() {
    let choice = |override_value: Option<&str>, override_found: Option<&str>, pwsh: Option<&str>| ShellChoice {
        override_value: override_value.map(str::to_string),
        override_found: override_found.map(str::to_string),
        login_shell: None,
        pwsh_found: pwsh.map(str::to_string),
        windows_powershell: "C:\\Windows\\System32\\WindowsPowerShell\\v1.0\\powershell.exe".to_string(),
    };
    assert_eq!(
        selected_shell(&Platform::Windows, choice(Some("nu.exe"), Some("C:\\nu\\nu.exe"), None)),
        "C:\\nu\\nu.exe"
    );
    assert_eq!(selected_shell(&Platform::Windows, choice(Some("nu.exe"), None, None)), "nu.exe");
    assert_eq!(
        selected_shell(&Platform::Windows, choice(None, None, Some("C:\\pwsh\\pwsh.exe"))),
        "C:\\pwsh\\pwsh.exe"
    );
    assert_eq!(
        selected_shell(&Platform::Windows, choice(Some(" "), None, None)),
        "C:\\Windows\\System32\\WindowsPowerShell\\v1.0\\powershell.exe"
    );
}

#[test]
fn a_plain_login_shell_is_launched_as_it_is() {
    let resolved = resolve_shell(
        &Platform::Unix,
        unix_choice(None, Some("/bin/sh")),
        &vec!["ls".to_string()],
        &paths_for("term_1", 1),
        String::new(),
    );
    assert_eq!(resolved.executable, "sh");
    assert_eq!(resolved.plan.launch.shell, "/bin/sh");
    assert!(resolved.plan.launch.args.is_empty());
    assert!(resolved.plan.launch.environment.is_empty());
    assert!(resolved.plan.launch.init_path.is_none());
    assert!(resolved.plan.init_file.is_none());
}

#[test]
fn an_overridden_bash_gets_its_integration() {
    let paths = paths_for("term_1", 2);
    let resolved = resolve_shell(
        &Platform::Unix,
        unix_choice(Some("/usr/local/bin/Bash"), Some("/bin/sh")),
        &vec!["make".to_string()],
        &paths,
        String::new(),
    );
    assert_eq!(resolved.executable, "Bash");
    assert_eq!(resolved.plan.launch.shell, "/usr/local/bin/Bash");
    assert_eq!(resolved.plan.launch.args, vec!["--rcfile".to_string(), paths.bash_rc.clone(), "-i".to_string()]);
}

#[test]
fn the_executable_name_of_a_plain_path_decides_the_integration() {
    for (shell, name, args) in [
        ("/bin/bash", "bash", 3usize),
        ("/usr/bin/zsh", "zsh", 1),
        ("/bin/sh", "sh", 0),
        ("zsh", "zsh", 1),
    ] {
        let resolved = resolve_shell(
            &Platform::Unix,
            unix_choice(Some(shell), None),
            &Vec::new(),
            &paths_for("t", 1),
            String::new(),
        );
        assert_eq!(resolved.executable, name);
        assert_eq!(resolved.plan.launch.args.len(), args);
    }
}

fn joined(dir: &str, name: &str) -> [String; 2] {
    [format!("{dir}/{name}"), format!("{dir}\\{name}")]
}

#[test]
fn integration_files_are_named_by_the_session_stem() {
    let paths = shell_paths("/tmp", "termdeck-term_1-3");
    assert!(joined("/tmp", "termdeck-term_1-3.history.txt").contains(&paths.powershell_history));
    assert!(joined("/tmp", "termdeck-term_1-3.bashrc").contains(&paths.bash_rc));
    assert!(joined("/tmp", "termdeck-term_1-3").contains(&paths.zsh_dir));
    assert!(joined(&paths.zsh_dir, ".zshrc").contains(&paths.zsh_rc));
}

#[test]
fn windows_powershell_lives_under_the_system_root() {
    let path = windows_powershell_path(Some("D:\\Win".to_string()));
    assert!(path.starts_with("D:\\Win"));
    assert!(path.ends_with("powershell.exe"));
    let rest: String = path["D:\\Win".len()..].replace('/', "\\");
    assert_eq!(rest, "\\System32\\WindowsPowerShell\\v1.0\\powershell.exe");
    let default = windows_powershell_path(None);
    assert!(default.starts_with("C:\\Windows"));
    assert!(default.ends_with("powershell.exe"));
}

#[test]
fn a_windows_shell_path_is_named_by_one_of_its_readings() {
    let resolved = resolve_shell(
        &Platform::Unix,
        unix_choice(Some("C:\\Tools\\pwsh.exe"), None),
        &Vec::new(),
        &paths_for("t", 1),
        String::new(),
    );
    assert!(resolved.executable == "pwsh.exe" || resolved.executable == "C:\\Tools\\pwsh.exe");
}
