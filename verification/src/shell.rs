//! How a shell is launched for a terminal session: which integration it
//! gets, the startup files that carry the session's command history, and the
//! arguments and environment it is started with.
use vstd::prelude::*;
use crate::text::{all_white_space, chars_of, contains_char, is_blank, push_char, string_of};

verus! {

/// The operating system family that a shell is launched on.
pub enum Platform {
    Windows,
    Unix,
}

/// The shells that get an integration.
pub enum ShellKind {
    PowerShell,
    Bash,
    Zsh,
    Other,
}

/// The part of the PowerShell startup script before the history file path.
pub const POWERSHELL_INIT_HEAD: &'static str = "Import-Module PSReadLine -ErrorAction SilentlyContinue; if (Get-Module PSReadLine) { Set-PSReadLineOption -HistorySavePath '";

/// The part of the PowerShell startup script after the history file path.
pub const POWERSHELL_INIT_TAIL: &'static str = "' }; $script:termdeckHistoryId = -1; $script:termdeckPrompt = (Get-Command prompt -CommandType Function).ScriptBlock; function global:prompt { $entry = Get-History -Count 1; if ($script:termdeckHistoryId -lt 0) { $script:termdeckHistoryId = $(if ($entry) { $entry.Id } else { 0 }) } elseif ($entry -and $entry.Id -ne $script:termdeckHistoryId) { $script:termdeckHistoryId = $entry.Id; [Console]::Write(\"$([char]27)]6973;$([Convert]::ToBase64String([Text.Encoding]::UTF8.GetBytes($entry.CommandLine)))$([char]7)\") }; $uri = [System.Uri]::new((Get-Location).Path).AbsoluteUri; [Console]::Write(\"$([char]27)]7;$uri$([char]7)\"); & $script:termdeckPrompt }";

/// The start of the Bash rc file: it runs the user's own `.bashrc`.
pub const BASH_RC_HEAD: &'static str = "if [ -r \"$HOME/.bashrc\" ]; then . \"$HOME/.bashrc\"; fi\n";

/// The end of the Bash rc file: the hooks that report the working directory
/// and each command run.
pub const BASH_RC_HOOKS: &'static str = r#"__termdeck_emit_cwd() { printf '\033]7;file://%s%s\007' "${HOSTNAME:-localhost}" "$(pwd -P)"; }
__termdeck_last_history=
__termdeck_read_history() {
  local line
  line=$(HISTTIMEFORMAT= builtin history 1) || return 1
  [[ $line =~ ^[[:space:]]*([0-9]+)[[:space:]]+(.*)$ ]] || return 1
  __termdeck_history_id=${BASH_REMATCH[1]}
  __termdeck_history_command=${BASH_REMATCH[2]}
}
__termdeck_emit_history() {
  __termdeck_read_history || return
  [ "$__termdeck_history_id" = "$__termdeck_last_history" ] && return
  __termdeck_last_history=$__termdeck_history_id
  printf '\033]6973;%s\007' "$(printf '%s' "$__termdeck_history_command" | base64 | tr -d '\n')"
}
# Seeded entries are already known to the app; start from the current entry so
# the first prompt does not report them back as newly run commands.
__termdeck_read_history && __termdeck_last_history=$__termdeck_history_id
PROMPT_COMMAND="__termdeck_emit_cwd;__termdeck_emit_history${PROMPT_COMMAND:+;$PROMPT_COMMAND}"
"#;

/// The start of the Zsh rc file: it runs the user's own `.zshrc`.
pub const ZSH_RC_HEAD: &'static str = "if [[ -n \"$TERMDECK_ORIGINAL_ZDOTDIR\" && -r \"$TERMDECK_ORIGINAL_ZDOTDIR/.zshrc\" ]]; then\n  source \"$TERMDECK_ORIGINAL_ZDOTDIR/.zshrc\"\nelif [[ -r \"$HOME/.zshrc\" ]]; then\n  source \"$HOME/.zshrc\"\nfi\n";

/// The end of the Zsh rc file: the hooks that report the working directory
/// and each command run.
pub const ZSH_RC_HOOKS: &'static str = r#"function __termdeck_emit_cwd() { print -n -- "\e]7;file://${HOSTNAME:-localhost}${PWD}\a"; }
precmd_functions+=(__termdeck_emit_cwd)
function __termdeck_emit_history() { print -n -- "\e]6973;$(printf '%s' "$1" | base64 | tr -d '\n')\a"; }
preexec_functions+=(__termdeck_emit_history)
"#;

/// ASCII letters made lower case, other chars kept.
pub open spec fn ascii_lower_char(c: char) -> char {
    if 'A' <= c <= 'Z' {
        ((c as u32) + 32) as char
    } else {
        c
    }
}

/// A string with its ASCII letters made lower case.
pub open spec fn ascii_lower(s: Seq<char>) -> Seq<char> {
    s.map_values(|c: char| ascii_lower_char(c))
}

/// The integration a shell gets, from the file name of its executable.
pub open spec fn shell_kind_spec(platform: Platform, executable: Seq<char>) -> ShellKind {
    let name = ascii_lower(executable);
    match platform {
        Platform::Windows => if name == "pwsh.exe"@ || name == "powershell.exe"@ {
            ShellKind::PowerShell
        } else {
            ShellKind::Other
        },
        Platform::Unix => if name == "bash"@ {
            ShellKind::Bash
        } else if name == "zsh"@ {
            ShellKind::Zsh
        } else {
            ShellKind::Other
        },
    }
}

/// Each `c` in `s` replaced by `with`.
pub open spec fn replace_char(s: Seq<char>, c: char, with: Seq<char>) -> Seq<char>
    decreases s.len(),
{
    if s.len() == 0 {
        s
    } else if s.last() == c {
        replace_char(s.drop_last(), c, with) + with
    } else {
        replace_char(s.drop_last(), c, with).push(s.last())
    }
}

/// The views of a sequence of strings.
pub open spec fn strings_view(s: Seq<String>) -> Seq<Seq<char>> {
    s.map_values(|e: String| e@)
}

/// A history entry that the PowerShell history file can hold: not blank,
/// and without line breaks or NUL.
pub open spec fn powershell_entry_kept(e: Seq<char>) -> bool {
    &&& !all_white_space(e)
    &&& !e.contains('\n')
    &&& !e.contains('\r')
    &&& !e.contains('\0')
}

/// The PowerShell history file: each entry it can hold on a line of its own.
pub open spec fn powershell_history_text(history: Seq<Seq<char>>) -> Seq<char>
    decreases history.len(),
{
    if history.len() == 0 {
        Seq::empty()
    } else {
        let before = powershell_history_text(history.drop_last());
        if powershell_entry_kept(history.last()) {
            before + history.last() + "\n"@
        } else {
            before
        }
    }
}

/// A history entry that a Unix shell is seeded with: not empty, without NUL.
pub open spec fn unix_entry_kept(e: Seq<char>) -> bool {
    e.len() > 0 && !e.contains('\0')
}

/// An entry as one single-quoted shell word: each `'` closes the quote,
/// adds an escaped quote, and opens it again.
pub open spec fn single_quoted(e: Seq<char>) -> Seq<char> {
    seq!['\''] + replace_char(e, '\'', seq!['\'', '\\', '\'', '\'']) + seq!['\'']
}

/// The lines that seed a Unix shell's history: `command` and the quoted
/// entry, for each entry kept.
pub open spec fn unix_history_text(history: Seq<Seq<char>>, command: Seq<char>) -> Seq<char>
    decreases history.len(),
{
    if history.len() == 0 {
        Seq::empty()
    } else {
        let before = unix_history_text(history.drop_last(), command);
        if unix_entry_kept(history.last()) {
            before + command + single_quoted(history.last()) + "\n"@
        } else {
            before
        }
    }
}

/// The Bash rc file for a session.
pub open spec fn bash_rc_text(history: Seq<Seq<char>>) -> Seq<char> {
    BASH_RC_HEAD@ + unix_history_text(history, "history -s "@) + BASH_RC_HOOKS@
}

/// The Zsh rc file for a session.
pub open spec fn zsh_rc_text(history: Seq<Seq<char>>) -> Seq<char> {
    ZSH_RC_HEAD@ + unix_history_text(history, "print -s -- "@) + ZSH_RC_HOOKS@
}

/// The PowerShell startup script, pointed at the history file; quotes in
/// the path are doubled for the single-quoted PowerShell string.
pub open spec fn powershell_command_text(history_path: Seq<char>) -> Seq<char> {
    POWERSHELL_INIT_HEAD@ + replace_char(history_path, '\'', "''"@) + POWERSHELL_INIT_TAIL@
}


/// Appends `chars` with each `c` replaced by `with`.
fn append_replacing(out: &mut String, chars: &Vec<char>, c: char, with: &str)
    ensures
        final(out)@ == old(out)@ + replace_char(chars@, c, with@),
{
    let n = chars.len();
    let mut i: usize = 0;
    while i < n
        invariant
            n == chars@.len(),
            i <= n,
            out@ == old(out)@ + replace_char(chars@.take(i as int), c, with@),
        decreases n - i,
    {
        let ch = chars[i];
        proof {
            assert(chars@.take(i + 1).drop_last() =~= chars@.take(i as int));
            assert(chars@.take(i + 1).last() == ch);
        }
        if ch == c {
            out.append(with);
        } else {
            push_char(out, ch);
        }
        i = i + 1;
    }
    assert(chars@.take(n as int) =~= chars@);
}

/// Whether PowerShell's history file can hold the entry.
fn powershell_entry_is_kept(entry: &String) -> (r: bool)
    ensures
        r == powershell_entry_kept(entry@),
{
    let cs = chars_of(entry.as_str());
    !is_blank(entry.as_str()) && !contains_char(&cs, '\n') && !contains_char(&cs, '\r')
        && !contains_char(&cs, '\0')
}

/// PSReadLine's history file is one command per line, so entries that span
/// lines cannot be represented and are dropped rather than split into
/// fragments; blank entries are dropped too.
pub fn powershell_history_file(history: &[String]) -> (text: String)
    ensures
        text@ == powershell_history_text(strings_view(history@)),
{
    let mut text = String::new();
    let n = history.len();
    let mut i: usize = 0;
    while i < n
        invariant
            n == history@.len(),
            i <= n,
            text@ == powershell_history_text(strings_view(history@.take(i as int))),
        decreases n - i,
    {
        proof {
            assert(strings_view(history@.take(i + 1)).drop_last() =~= strings_view(
                history@.take(i as int),
            ));
            assert(strings_view(history@.take(i + 1)).last() == history@[i as int]@);
        }
        if powershell_entry_is_kept(&history[i]) {
            text.append(history[i].as_str());
            text.append("\n");
        }
        i = i + 1;
    }
    assert(history@.take(n as int) =~= history@);
    text
}

/// Lines that seed a Unix shell's history with `command` and each entry,
/// quoted as one word; empty entries and entries with NUL are left out.
pub fn unix_history_setup(history: &[String], command: &str) -> (text: String)
    ensures
        text@ == unix_history_text(strings_view(history@), command@),
{
    let mut text = String::new();
    let n = history.len();
    let mut i: usize = 0;
    while i < n
        invariant
            n == history@.len(),
            i <= n,
            text@ == unix_history_text(strings_view(history@.take(i as int)), command@),
        decreases n - i,
    {
        proof {
            assert(strings_view(history@.take(i + 1)).drop_last() =~= strings_view(
                history@.take(i as int),
            ));
            assert(strings_view(history@.take(i + 1)).last() == history@[i as int]@);
        }
        let cs = chars_of(history[i].as_str());
        if cs.len() > 0 && !contains_char(&cs, '\0') {
            let ghost before = text@;
            text.append(command);
            text.append("'");
            append_replacing(&mut text, &cs, '\'', "'\\''");
            text.append("'\n");
            assert(text@ =~= before + command@ + single_quoted(history@[i as int]@) + "\n"@) by {
                reveal_strlit("'");
                reveal_strlit("'\\''");
                assert("'\\''"@ =~= seq!['\'', '\\', '\'', '\'']);
                reveal_strlit("'\n");
                reveal_strlit("\n");
            }
        }
        i = i + 1;
    }
    assert(history@.take(n as int) =~= history@);
    text
}

/// The Bash rc file for a session: the user's `.bashrc`, the seeded
/// history, and the reporting hooks.
pub fn bash_rc(history: &[String]) -> (text: String)
    ensures
        text@ == bash_rc_text(strings_view(history@)),
{
    let mut text = string_of(BASH_RC_HEAD);
    let setup = unix_history_setup(history, "history -s ");
    text.append(setup.as_str());
    text.append(BASH_RC_HOOKS);
    text
}

/// The Zsh rc file for a session: the user's `.zshrc`, the seeded history,
/// and the reporting hooks.
pub fn zsh_rc(history: &[String]) -> (text: String)
    ensures
        text@ == zsh_rc_text(strings_view(history@)),
{
    let mut text = string_of(ZSH_RC_HEAD);
    let setup = unix_history_setup(history, "print -s -- ");
    text.append(setup.as_str());
    text.append(ZSH_RC_HOOKS);
    text
}

/// The PowerShell startup script, pointed at the history file.
pub fn powershell_command(history_path: &str) -> (text: String)
    ensures
        text@ == powershell_command_text(history_path@),
{
    let mut text = string_of(POWERSHELL_INIT_HEAD);
    let cs = chars_of(history_path);
    append_replacing(&mut text, &cs, '\'', "''");
    text.append(POWERSHELL_INIT_TAIL);
    text
}

/// The string with its ASCII letters made lower case.
pub fn ascii_lowercase(s: &str) -> (r: String)
    ensures
        r@ == ascii_lower(s@),
{
    let cs = chars_of(s);
    let n = cs.len();
    let mut r = String::new();
    let mut i: usize = 0;
    while i < n
        invariant
            n == cs@.len(),
            cs@ == s@,
            i <= n,
            r@ == ascii_lower(s@.take(i as int)),
        decreases n - i,
    {
        let c = cs[i];
        let lower = if 'A' <= c && c <= 'Z' {
            ((c as u8) + 32) as char
        } else {
            c
        };
        proof {
            assert(ascii_lower(s@.take(i + 1)) =~= ascii_lower(s@.take(i as int)).push(
                ascii_lower_char(c),
            ));
        }
        push_char(&mut r, lower);
        i = i + 1;
    }
    assert(s@.take(n as int) =~= s@);
    r
}


/// The integration a shell gets, from the file name of its executable,
/// compared without regard to ASCII case.
pub fn shell_kind(platform: &Platform, executable: &str) -> (kind: ShellKind)
    ensures
        kind == shell_kind_spec(*platform, executable@),
{
    let name = ascii_lowercase(executable);
    match platform {
        Platform::Windows => {
            if name == string_of("pwsh.exe") || name == string_of("powershell.exe") {
                ShellKind::PowerShell
            } else {
                ShellKind::Other
            }
        },
        Platform::Unix => {
            if name == string_of("bash") {
                ShellKind::Bash
            } else if name == string_of("zsh") {
                ShellKind::Zsh
            } else {
                ShellKind::Other
            }
        },
    }
}

/// How a shell is started: the executable, its arguments, extra
/// environment variables, and the file or directory its integration wrote,
/// to be removed when the shell exits.
pub struct ShellLaunch {
    pub shell: String,
    pub args: Vec<String>,
    pub environment: Vec<(String, String)>,
    pub init_path: Option<String>,
}

/// A file that must be written before the shell starts.
pub struct InitFile {
    pub path: String,
    pub contents: String,
}

/// Where the integrations of one session write their files.
pub struct ShellPaths {
    /// The PowerShell history file.
    pub powershell_history: String,
    /// The Bash rc file.
    pub bash_rc: String,
    /// The directory that Zsh is pointed at as `ZDOTDIR`.
    pub zsh_dir: String,
    /// The `.zshrc` inside that directory.
    pub zsh_rc: String,
}

/// Whether `joined` is `dir` and `name` with one path separator between
/// them (`/`, or `\` on Windows).
pub open spec fn joined_with_separator(joined: Seq<char>, dir: Seq<char>, name: Seq<char>) -> bool {
    joined == dir + seq!['/'] + name || joined == dir + seq!['\\'] + name
}

/// A directory path that a name joins to with a separator on every host:
/// not empty, not ending in `/`, `\` or `:` (a bare drive), and not starting
/// with two separators (a network or verbatim prefix).
pub open spec fn joinable_dir(dir: Seq<char>) -> bool {
    &&& dir.len() > 0
    &&& dir.last() != '/' && dir.last() != '\\' && dir.last() != ':'
    &&& !(dir.len() >= 2 && (dir[0] == '/' || dir[0] == '\\') && (dir[1] == '/' || dir[1]
        == '\\'))
}

/// A name that joins as one relative component: not empty, with no `/`,
/// `\` or `:`.
pub open spec fn relative_name(name: Seq<char>) -> bool {
    name.len() > 0 && !name.contains('/') && !name.contains('\\') && !name.contains(':')
}

/// Calls `Path::join`, and converts the joined path back to text (it was
/// built from text, so nothing is lost). Claims what holds on every host:
/// a relative name joined to a directory path that does not end in a
/// separator follows it after one separator, `/` or `\` by host.
#[verifier::external_body]
fn join_path(dir: &str, name: &str) -> (joined: String)
    ensures
        joinable_dir(dir@) && relative_name(name@) ==> joined_with_separator(joined@, dir@, name@),
{
    std::path::Path::new(dir).join(name).to_string_lossy().into_owned()
}

/// The files of a session's shell integration, in the temporary directory:
/// `<stem>.history.txt` for PowerShell, `<stem>.bashrc` for Bash, and the
/// directory `<stem>` holding `.zshrc` for Zsh, where the stem is the
/// session's file stem. (A valid session ID holds no `.`, so the Bash file
/// is the stem with the extension `bashrc`.)
pub fn shell_paths(temp_dir: &str, stem: &str) -> (paths: ShellPaths)
    ensures
        joinable_dir(temp_dir@) && relative_name(stem@) ==> {
            &&& joined_with_separator(paths.powershell_history@, temp_dir@, stem@ + ".history.txt"@)
            &&& joined_with_separator(paths.bash_rc@, temp_dir@, stem@ + ".bashrc"@)
            &&& joined_with_separator(paths.zsh_dir@, temp_dir@, stem@)
            &&& joined_with_separator(paths.zsh_rc@, paths.zsh_dir@, ".zshrc"@)
        },
{
    let mut history_name = string_of(stem);
    history_name.append(".history.txt");
    let mut bash_name = string_of(stem);
    bash_name.append(".bashrc");
    let zsh_dir = join_path(temp_dir, stem);
    proof {
        reveal_strlit(".history.txt");
        reveal_strlit(".bashrc");
        reveal_strlit(".zshrc");
        if joinable_dir(temp_dir@) && relative_name(stem@) {
            assert(history_name@.len() > 0);
            assert(!history_name@.contains('/') && !history_name@.contains('\\')
                && !history_name@.contains(':')) by {
                assert forall|i: int| 0 <= i < history_name@.len() implies history_name@[i] != '/'
                    && history_name@[i] != '\\' && history_name@[i] != ':' by {
                    if i >= stem@.len() {
                        assert(history_name@[i] == ".history.txt"@[i - stem@.len()]);
                    } else {
                        assert(history_name@[i] == stem@[i]);
                    }
                }
            }
            assert(!bash_name@.contains('/') && !bash_name@.contains('\\')
                && !bash_name@.contains(':')) by {
                assert forall|i: int| 0 <= i < bash_name@.len() implies bash_name@[i] != '/'
                    && bash_name@[i] != '\\' && bash_name@[i] != ':' by {
                    if i >= stem@.len() {
                        assert(bash_name@[i] == ".bashrc"@[i - stem@.len()]);
                    } else {
                        assert(bash_name@[i] == stem@[i]);
                    }
                }
            }
            assert(zsh_dir@.last() == stem@.last());
            assert(zsh_dir@[0] == temp_dir@[0]);
            assert(temp_dir@.len() >= 2 ==> zsh_dir@[1] == temp_dir@[1]);
            assert(!".zshrc"@.contains('/') && !".zshrc"@.contains('\\') && !".zshrc"@.contains(
                ':',
            ));
        }
    }
    ShellPaths {
        powershell_history: join_path(temp_dir, history_name.as_str()),
        bash_rc: join_path(temp_dir, bash_name.as_str()),
        zsh_rc: join_path(zsh_dir.as_str(), ".zshrc"),
        zsh_dir,
    }
}

/// The path of Windows PowerShell under the system root:
/// `<root>\System32\WindowsPowerShell\v1.0\powershell.exe`, with the root
/// `C:\Windows` where the environment names none.
pub fn windows_powershell_path(system_root: Option<String>) -> (path: String)
    ensures
        ({
            let root = match system_root {
                Some(r) => r@,
                None => "C:\\Windows"@,
            };
            joinable_dir(root) ==> exists|a: Seq<char>, b: Seq<char>, c: Seq<char>|
                joined_with_separator(a, root, "System32"@) && joined_with_separator(
                    b,
                    a,
                    "WindowsPowerShell"@,
                ) && joined_with_separator(c, b, "v1.0"@) && joined_with_separator(
                    path@,
                    c,
                    "powershell.exe"@,
                )
        }),
{
    let root = match system_root {
        Some(r) => r,
        None => string_of("C:\\Windows"),
    };
    let a = join_path(root.as_str(), "System32");
    let b = join_path(a.as_str(), "WindowsPowerShell");
    let c = join_path(b.as_str(), "v1.0");
    let path = join_path(c.as_str(), "powershell.exe");
    proof {
        reveal_strlit("System32");
        reveal_strlit("WindowsPowerShell");
        reveal_strlit("v1.0");
        reveal_strlit("powershell.exe");
        reveal_strlit("C:\\Windows");
    }
    path
}

/// Everything needed to start a session's shell: the directory to create and
/// the file to write first, what is being prepared (for the error when that
/// fails), and the launch itself.
pub struct LaunchPlan {
    pub create_dir: Option<String>,
    pub init_file: Option<InitFile>,
    pub purpose: String,
    pub launch: ShellLaunch,
}

/// The views of a sequence of string pairs.
pub open spec fn pairs_view(s: Seq<(String, String)>) -> Seq<(Seq<char>, Seq<char>)> {
    s.map_values(|p: (String, String)| (p.0@, p.1@))
}

/// The views of an optional string.
pub open spec fn opt_string_view(s: Option<String>) -> Option<Seq<char>> {
    match s {
        Some(t) => Some(t@),
        None => None,
    }
}

/// The plan writes `contents` to `path` and nothing else.
pub open spec fn writes_only(plan: LaunchPlan, path: Seq<char>, contents: Seq<char>) -> bool {
    &&& plan.init_file matches Some(f)
    &&& f.path@ == path
    &&& f.contents@ == contents
}

/// The launch that a session's shell gets on `platform`, given the file
/// name of its executable, the history to seed it with, where its files go,
/// and the `ZDOTDIR` that was set before (empty when none was).
pub open spec fn plan_matches(
    plan: LaunchPlan,
    platform: Platform,
    shell: Seq<char>,
    executable: Seq<char>,
    history: Seq<Seq<char>>,
    paths: ShellPaths,
    user_zdotdir: Seq<char>,
) -> bool {
    &&& plan.launch.shell@ == shell
    &&& match shell_kind_spec(platform, executable) {
        ShellKind::PowerShell => {
            &&& plan.create_dir is None
            &&& writes_only(plan, paths.powershell_history@, powershell_history_text(history))
            &&& plan.purpose@ == "PowerShell history"@
            &&& strings_view(plan.launch.args@) == seq![
                "-NoLogo"@,
                "-NoExit"@,
                "-Command"@,
                powershell_command_text(paths.powershell_history@),
            ]
            &&& plan.launch.environment@.len() == 0
            &&& opt_string_view(plan.launch.init_path) == Some(paths.powershell_history@)
        },
        ShellKind::Bash => {
            &&& plan.create_dir is None
            &&& writes_only(plan, paths.bash_rc@, bash_rc_text(history))
            &&& plan.purpose@ == "Bash integration"@
            &&& strings_view(plan.launch.args@) == seq!["--rcfile"@, paths.bash_rc@, "-i"@]
            &&& plan.launch.environment@.len() == 0
            &&& opt_string_view(plan.launch.init_path) == Some(paths.bash_rc@)
        },
        ShellKind::Zsh => {
            &&& opt_string_view(plan.create_dir) == Some(paths.zsh_dir@)
            &&& writes_only(plan, paths.zsh_rc@, zsh_rc_text(history))
            &&& plan.purpose@ == "Zsh integration"@
            &&& strings_view(plan.launch.args@) == seq!["-i"@]
            &&& pairs_view(plan.launch.environment@) == seq![
                ("ZDOTDIR"@, paths.zsh_dir@),
                ("TERMDECK_ORIGINAL_ZDOTDIR"@, user_zdotdir),
            ]
            &&& opt_string_view(plan.launch.init_path) == Some(paths.zsh_dir@)
        },
        ShellKind::Other => {
            &&& plan.create_dir is None
            &&& plan.init_file is None
            &&& plan.purpose@.len() == 0
            &&& plan.launch.args@.len() == 0
            &&& plan.launch.environment@.len() == 0
            &&& plan.launch.init_path is None
        },
    }
}

/// The launch of a given shell for a session: PowerShell is pointed at a
/// history file and given a prompt that reports the working directory and
/// each command; Bash and Zsh get an rc file that seeds their history and
/// installs the same reports; any other shell is started as it is.
pub fn launch_plan(
    platform: &Platform,
    shell: String,
    executable: &str,
    history: &[String],
    paths: &ShellPaths,
    user_zdotdir: String,
) -> (plan: LaunchPlan)
    ensures
        plan_matches(
            plan,
            *platform,
            shell@,
            executable@,
            strings_view(history@),
            *paths,
            user_zdotdir@,
        ),
{
    match shell_kind(platform, executable) {
        ShellKind::PowerShell => {
            let contents = powershell_history_file(history);
            let command = powershell_command(paths.powershell_history.as_str());
            let mut args: Vec<String> = Vec::new();
            args.push(string_of("-NoLogo"));
            args.push(string_of("-NoExit"));
            args.push(string_of("-Command"));
            args.push(command);
            let plan = LaunchPlan {
                create_dir: None,
                init_file: Some(InitFile { path: paths.powershell_history.clone(), contents }),
                purpose: string_of("PowerShell history"),
                launch: ShellLaunch {
                    shell,
                    args,
                    environment: Vec::new(),
                    init_path: Some(paths.powershell_history.clone()),
                },
            };
            assert(strings_view(plan.launch.args@) =~= seq![
                "-NoLogo"@,
                "-NoExit"@,
                "-Command"@,
                powershell_command_text(paths.powershell_history@),
            ]);
            plan
        },
        ShellKind::Bash => {
            let contents = bash_rc(history);
            let mut args: Vec<String> = Vec::new();
            args.push(string_of("--rcfile"));
            args.push(paths.bash_rc.clone());
            args.push(string_of("-i"));
            let plan = LaunchPlan {
                create_dir: None,
                init_file: Some(InitFile { path: paths.bash_rc.clone(), contents }),
                purpose: string_of("Bash integration"),
                launch: ShellLaunch {
                    shell,
                    args,
                    environment: Vec::new(),
                    init_path: Some(paths.bash_rc.clone()),
                },
            };
            assert(strings_view(plan.launch.args@) =~= seq!["--rcfile"@, paths.bash_rc@, "-i"@]);
            plan
        },
        ShellKind::Zsh => {
            let contents = zsh_rc(history);
            let mut args: Vec<String> = Vec::new();
            args.push(string_of("-i"));
            let mut environment: Vec<(String, String)> = Vec::new();
            environment.push((string_of("ZDOTDIR"), paths.zsh_dir.clone()));
            environment.push((string_of("TERMDECK_ORIGINAL_ZDOTDIR"), user_zdotdir));
            let plan = LaunchPlan {
                create_dir: Some(paths.zsh_dir.clone()),
                init_file: Some(InitFile { path: paths.zsh_rc.clone(), contents }),
                purpose: string_of("Zsh integration"),
                launch: ShellLaunch {
                    shell,
                    args,
                    environment,
                    init_path: Some(paths.zsh_dir.clone()),
                },
            };
            assert(strings_view(plan.launch.args@) =~= seq!["-i"@]);
            assert(pairs_view(plan.launch.environment@) =~= seq![
                ("ZDOTDIR"@, paths.zsh_dir@),
                ("TERMDECK_ORIGINAL_ZDOTDIR"@, user_zdotdir@),
            ]);
            plan
        },
        ShellKind::Other => LaunchPlan {
            create_dir: None,
            init_file: None,
            purpose: String::new(),
            launch: ShellLaunch { shell, args: Vec::new(), environment: Vec::new(), init_path: None },
        },
    }
}

/// The variables every session's shell gets, before those of its launch.
pub open spec fn base_environment() -> Seq<(Seq<char>, Seq<char>)> {
    seq![
        ("TERM"@, "xterm-256color"@),
        ("COLORTERM"@, "truecolor"@),
        ("TERM_PROGRAM"@, "TermDeck"@),
    ]
}

/// The environment a session's shell is started with: the terminal's own
/// variables, then those of the launch, in order.
pub fn command_environment(launch: &ShellLaunch) -> (env: Vec<(String, String)>)
    ensures
        pairs_view(env@) == base_environment() + pairs_view(launch.environment@),
{
    let mut env: Vec<(String, String)> = Vec::new();
    env.push((string_of("TERM"), string_of("xterm-256color")));
    env.push((string_of("COLORTERM"), string_of("truecolor")));
    env.push((string_of("TERM_PROGRAM"), string_of("TermDeck")));
    let n = launch.environment.len();
    let mut i: usize = 0;
    while i < n
        invariant
            n == launch.environment@.len(),
            i <= n,
            pairs_view(env@) == base_environment() + pairs_view(
                launch.environment@.take(i as int),
            ),
        decreases n - i,
    {
        let (k, v) = &launch.environment[i];
        let ghost before = env@;
        env.push((k.clone(), v.clone()));
        assert(pairs_view(env@) =~= pairs_view(before).push((k@, v@)));
        assert(pairs_view(launch.environment@.take(i + 1)) =~= pairs_view(
            launch.environment@.take(i as int),
        ).push((k@, v@)));
        assert(base_environment() + pairs_view(launch.environment@.take(i + 1)) =~= (
        base_environment() + pairs_view(launch.environment@.take(i as int))).push((k@, v@)));
        i = i + 1;
    }
    assert(launch.environment@.take(n as int) =~= launch.environment@);
    env
}

/// The shell named by the override variable: its value, unless it is unset
/// or blank.
pub fn shell_override(value: Option<String>) -> (shell: Option<String>)
    ensures
        match value {
            Some(v) => if all_white_space(v@) {
                shell is None
            } else {
                shell == Some(v)
            },
            None => shell is None,
        },
{
    match value {
        Some(v) => if is_blank(v.as_str()) {
            None
        } else {
            Some(v)
        },
        None => None,
    }
}


/// What the environment says of the shell to start.
pub struct ShellChoice {
    /// The value of `TERMDECK_SHELL`, when set.
    pub override_value: Option<String>,
    /// On Windows, what `where.exe` found for an override that is not an
    /// absolute path.
    pub override_found: Option<String>,
    /// On Unix, the value of `SHELL`, when set.
    pub login_shell: Option<String>,
    /// On Windows, what `where.exe` found for `pwsh.exe`.
    pub pwsh_found: Option<String>,
    /// On Windows, the path of Windows PowerShell under `SystemRoot`.
    pub windows_powershell: String,
}

/// The shell that a session starts: a non-blank override (on Windows, the
/// executable found for it when there is one); else, on Unix, the login
/// shell or `/bin/bash`, and on Windows, PowerShell 7 when it is found or
/// Windows PowerShell.
pub open spec fn chosen_shell(platform: Platform, choice: ShellChoice) -> Seq<char> {
    let overridden = match choice.override_value {
        Some(v) => !all_white_space(v@),
        None => false,
    };
    if overridden {
        let v = choice.override_value->0@;
        match platform {
            Platform::Windows => match choice.override_found {
                Some(f) => f@,
                None => v,
            },
            Platform::Unix => v,
        }
    } else {
        match platform {
            Platform::Windows => match choice.pwsh_found {
                Some(p) => p@,
                None => choice.windows_powershell@,
            },
            Platform::Unix => match choice.login_shell {
                Some(s) => s@,
                None => "/bin/bash"@,
            },
        }
    }
}

/// The shell that a session starts, from what the environment says.
pub fn selected_shell(platform: &Platform, choice: ShellChoice) -> (shell: String)
    ensures
        shell@ == chosen_shell(*platform, choice),
{
    let ShellChoice { override_value, override_found, login_shell, pwsh_found, windows_powershell } =
        choice;
    match shell_override(override_value) {
        Some(v) => match platform {
            Platform::Windows => match override_found {
                Some(f) => f,
                None => v,
            },
            Platform::Unix => v,
        },
        None => match platform {
            Platform::Windows => match pwsh_found {
                Some(p) => p,
                None => windows_powershell,
            },
            Platform::Unix => match login_shell {
                Some(s) => s,
                None => string_of("/bin/bash"),
            },
        },
    }
}

/// Position of the last path separator in `s`, or -1: `/`, and also `\`
/// where `windows` holds.
pub open spec fn last_separator(s: Seq<char>, windows: bool) -> int
    decreases s.len(),
{
    if s.len() == 0 {
        -1
    } else if s.last() == '/' || (windows && s.last() == '\\') {
        s.len() - 1
    } else {
        last_separator(s.drop_last(), windows)
    }
}

/// The text after the last separator of a path, read with Unix separators
/// (`/` only) or with Windows separators (`/` and `\`).
pub open spec fn text_after_separator(path: Seq<char>, windows: bool) -> Seq<char> {
    path.skip(last_separator(path, windows) + 1)
}

/// A component that names a file: not empty, not `.` and not `..`.
pub open spec fn is_file_name(name: Seq<char>) -> bool {
    name.len() > 0 && name != seq!['.'] && name != seq!['.', '.']
}

/// Whether a path ends in a file name under both readings: it does not
/// start with two separators (which Windows reads as a network or device
/// prefix), the text after its last separator names a file under both
/// readings, and under the Windows reading that text holds no `:` (which
/// could belong to a drive prefix).
pub open spec fn ends_in_file_name(path: Seq<char>) -> bool {
    let unix = text_after_separator(path, false);
    let windows = text_after_separator(path, true);
    &&& !(path.len() >= 2 && (path[0] == '/' || path[0] == '\\') && (path[1] == '/' || path[1]
        == '\\'))
    &&& is_file_name(unix)
    &&& is_file_name(windows)
    &&& !windows.contains(':')
}

/// Calls `Path::file_name` on the shell's path and converts the name with
/// `OsStr::to_str` (the name cannot stand in this library as an `OsStr`).
/// Claims what holds on every host: for a path that ends in a file name
/// under both Unix and Windows separators, the name is the text after the
/// last separator under one of the two readings (the two agree where the
/// path holds no `\`). Which reading applies depends on the host, and of
/// other paths it claims nothing.
#[verifier::external_body]
fn executable_file_name(shell: &str) -> (name: Option<String>)
    ensures
        ends_in_file_name(shell@) ==> opt_string_view(name) == Some(
            text_after_separator(shell@, false),
        ) || opt_string_view(name) == Some(text_after_separator(shell@, true)),
{
    match std::path::Path::new(shell).file_name() {
        Some(name) => match name.to_str() {
            Some(text) => Some(text.to_string()),
            None => None,
        },
        None => None,
    }
}

/// A session's shell and how it is launched.
pub struct ResolvedShell {
    /// The file name of the shell's executable, empty when its path has none.
    pub executable: String,
    pub plan: LaunchPlan,
}

/// Chooses a session's shell from what the environment says, and plans its
/// launch by the file name of its executable.
pub fn resolve_shell(
    platform: &Platform,
    choice: ShellChoice,
    history: &[String],
    paths: &ShellPaths,
    user_zdotdir: String,
) -> (resolved: ResolvedShell)
    ensures
        resolved.plan.launch.shell@ == chosen_shell(*platform, choice),
        ends_in_file_name(chosen_shell(*platform, choice)) ==> resolved.executable@
            == text_after_separator(chosen_shell(*platform, choice), false)
            || resolved.executable@ == text_after_separator(chosen_shell(*platform, choice), true),
        plan_matches(
            resolved.plan,
            *platform,
            chosen_shell(*platform, choice),
            resolved.executable@,
            strings_view(history@),
            *paths,
            user_zdotdir@,
        ),
{
    let shell = selected_shell(platform, choice);
    let executable = match executable_file_name(shell.as_str()) {
        Some(name) => name,
        None => String::new(),
    };
    let plan = launch_plan(platform, shell, executable.as_str(), history, paths, user_zdotdir);
    ResolvedShell { executable, plan }
}

} // verus!
