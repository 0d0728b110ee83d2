//! Paths as text: working directories, Windows verbatim prefixes, and paths
//! dropped onto the window.
use vstd::prelude::*;
use crate::shell::Platform;
use crate::shell::strings_view;
use crate::text::{
    chars_of, char_is_whitespace, lemma_read_lines_last, lemma_read_lines_push, push_char, read_lines,
    string_of, unicode_white_space,
};

verus! {

/// The Windows verbatim UNC prefix `\\?\UNC\`.
pub open spec fn verbatim_unc_prefix() -> Seq<char> {
    seq!['\\', '\\', '?', '\\', 'U', 'N', 'C', '\\']
}

/// The Windows verbatim prefix `\\?\`.
pub open spec fn verbatim_prefix() -> Seq<char> {
    seq!['\\', '\\', '?', '\\']
}

/// A path without its verbatim prefix: `\\?\UNC\server\share` becomes
/// `\\server\share`, `\\?\C:\dir` becomes `C:\dir`, any other path stays.
pub open spec fn without_verbatim_prefix(path: Seq<char>) -> Seq<char> {
    if path.len() >= 8 && path.take(8) == verbatim_unc_prefix() {
        seq!['\\', '\\'] + path.skip(8)
    } else if path.len() >= 4 && path.take(4) == verbatim_prefix() {
        path.skip(4)
    } else {
        path
    }
}

fn starts_with_chars(cs: &Vec<char>, prefix: &Vec<char>) -> (r: bool)
    ensures
        r == (cs@.len() >= prefix@.len() && cs@.take(prefix@.len() as int) == prefix@),
{
    let n = prefix.len();
    if cs.len() < n {
        return false;
    }
    let mut i: usize = 0;
    while i < n
        invariant
            n == prefix@.len(),
            n <= cs@.len(),
            i <= n,
            forall|j: int| 0 <= j < i ==> cs@[j] == prefix@[j],
        decreases n - i,
    {
        if cs[i] != prefix[i] {
            assert(cs@.take(n as int)[i as int] != prefix@[i as int]);
            return false;
        }
        i = i + 1;
    }
    assert(cs@.take(n as int) =~= prefix@);
    true
}

fn string_from_chars(cs: &Vec<char>, from: usize) -> (r: String)
    requires
        from <= cs@.len(),
    ensures
        r@ == cs@.skip(from as int),
{
    let n = cs.len();
    let mut r = String::new();
    let mut i = from;
    while i < n
        invariant
            n == cs@.len(),
            from <= i <= n,
            r@ == cs@.subrange(from as int, i as int),
        decreases n - i,
    {
        push_char(&mut r, cs[i]);
        assert(cs@.subrange(from as int, i + 1) =~= cs@.subrange(from as int, i as int).push(
            cs@[i as int],
        ));
        i = i + 1;
    }
    r
}

/// The path without a Windows verbatim prefix, which canonicalization adds
/// and many programs do not understand.
pub fn without_windows_verbatim_prefix(path: &str) -> (r: String)
    ensures
        r@ == without_verbatim_prefix(path@),
{
    let cs = chars_of(path);
    let mut unc: Vec<char> = Vec::new();
    unc.push('\\');
    unc.push('\\');
    unc.push('?');
    unc.push('\\');
    unc.push('U');
    unc.push('N');
    unc.push('C');
    unc.push('\\');
    assert(unc@ =~= verbatim_unc_prefix());
    if starts_with_chars(&cs, &unc) {
        let mut r = String::new();
        push_char(&mut r, '\\');
        push_char(&mut r, '\\');
        let rest = string_from_chars(&cs, 8);
        r.append(rest.as_str());
        assert(r@ =~= seq!['\\', '\\'] + path@.skip(8));
        return r;
    }
    let mut verbatim: Vec<char> = Vec::new();
    verbatim.push('\\');
    verbatim.push('\\');
    verbatim.push('?');
    verbatim.push('\\');
    assert(verbatim@ =~= verbatim_prefix());
    if starts_with_chars(&cs, &verbatim) {
        string_from_chars(&cs, 4)
    } else {
        assert(cs@.skip(0) =~= cs@);
        string_from_chars(&cs, 0)
    }
}

/// The directory a session starts in: the requested one, canonical where
/// that succeeded (and without a verbatim prefix on Windows), when it is
/// given and is a directory; else the home directory, or `.` when there is
/// none.
pub open spec fn working_directory_spec(
    requested: Seq<char>,
    requested_is_dir: bool,
    canonical: Option<Seq<char>>,
    home: Option<Seq<char>>,
    platform: Platform,
) -> Seq<char> {
    if requested.len() > 0 && requested_is_dir {
        let dir = match canonical {
            Some(c) => c,
            None => requested,
        };
        match platform {
            Platform::Windows => without_verbatim_prefix(dir),
            Platform::Unix => dir,
        }
    } else {
        match home {
            Some(h) => h,
            None => seq!['.'],
        }
    }
}

/// The directory a session starts in, from what the file system said of the
/// requested one and of the home directory.
pub fn working_directory(
    requested: &str,
    requested_is_dir: bool,
    canonical: Option<String>,
    home: Option<String>,
    platform: &Platform,
) -> (dir: String)
    ensures
        dir@ == working_directory_spec(
            requested@,
            requested_is_dir,
            match canonical {
                Some(c) => Some(c@),
                None => None,
            },
            match home {
                Some(h) => Some(h@),
                None => None,
            },
            *platform,
        ),
{
    if !requested.is_empty() && requested_is_dir {
        let dir = match canonical {
            Some(c) => c,
            None => string_of(requested),
        };
        match platform {
            Platform::Windows => without_windows_verbatim_prefix(dir.as_str()),
            Platform::Unix => dir,
        }
    } else {
        match home {
            Some(h) => h,
            None => {
                let r = string_of(".");
                proof {
                    reveal_strlit(".");
                }
                r
            },
        }
    }
}

/// Chars that `str::trim` removes.
pub open spec fn white_space_char() -> spec_fn(char) -> bool {
    |c: char| unicode_white_space(c)
}

/// The quote chars that are stripped from a dropped path.
pub open spec fn quote_char() -> spec_fn(char) -> bool {
    |c: char| c == '"' || c == '\''
}

/// The string without its leading chars that satisfy `p`.
pub open spec fn drop_leading(s: Seq<char>, p: spec_fn(char) -> bool) -> Seq<char>
    decreases s.len(),
{
    if s.len() > 0 && p(s[0]) {
        drop_leading(s.drop_first(), p)
    } else {
        s
    }
}

/// The string without its trailing chars that satisfy `p`.
pub open spec fn drop_trailing(s: Seq<char>, p: spec_fn(char) -> bool) -> Seq<char>
    decreases s.len(),
{
    if s.len() > 0 && p(s.last()) {
        drop_trailing(s.drop_last(), p)
    } else {
        s
    }
}

/// The string without leading and trailing chars that satisfy `p`.
pub open spec fn trim_by(s: Seq<char>, p: spec_fn(char) -> bool) -> Seq<char> {
    drop_trailing(drop_leading(s, p), p)
}

/// A dropped path as text: whitespace trimmed, then quotes trimmed.
pub open spec fn dropped_path_text(path: Seq<char>) -> Seq<char> {
    trim_by(trim_by(path, white_space_char()), quote_char())
}

/// Bounds `[a, b)` within `[from, to)` of `cs` without the leading and
/// trailing chars that are whitespace (`quotes` false) or quotes.
fn trim_bounds(cs: &Vec<char>, from: usize, to: usize, quotes: bool) -> (r: (usize, usize))
    requires
        from <= to <= cs@.len(),
    ensures
        from <= r.0 <= r.1 <= to,
        cs@.subrange(r.0 as int, r.1 as int) == trim_by(
            cs@.subrange(from as int, to as int),
            if quotes {
                quote_char()
            } else {
                white_space_char()
            },
        ),
{
    let ghost p = if quotes {
        quote_char()
    } else {
        white_space_char()
    };
    let mut a = from;
    while a < to
        invariant
            from <= a <= to <= cs@.len(),
            p == (if quotes {
                quote_char()
            } else {
                white_space_char()
            }),
            drop_leading(cs@.subrange(from as int, to as int), p) == drop_leading(
                cs@.subrange(a as int, to as int),
                p,
            ),
        ensures
            from <= a <= to,
            drop_leading(cs@.subrange(from as int, to as int), p) == drop_leading(
                cs@.subrange(a as int, to as int),
                p,
            ),
            a < to ==> !p(cs@[a as int]),
        decreases to - a,
    {
        let c = cs[a];
        let hit = if quotes {
            c == '"' || c == '\''
        } else {
            char_is_whitespace(c)
        };
        assert(p(c) == hit) by {
            if quotes {
                assert(quote_char()(c) == (c == '"' || c == '\''));
            } else {
                assert(white_space_char()(c) == unicode_white_space(c));
            }
        }
        if !hit {
            break;
        }
        assert(cs@.subrange(a as int, to as int).drop_first() =~= cs@.subrange(a + 1, to as int));
        a = a + 1;
    }
    assert(drop_leading(cs@.subrange(from as int, to as int), p) == cs@.subrange(a as int, to as int));
    let mut b = to;
    while b > a
        invariant
            from <= a <= b <= to <= cs@.len(),
            p == (if quotes {
                quote_char()
            } else {
                white_space_char()
            }),
            drop_trailing(cs@.subrange(a as int, to as int), p) == drop_trailing(
                cs@.subrange(a as int, b as int),
                p,
            ),
        ensures
            a <= b <= to,
            drop_trailing(cs@.subrange(a as int, to as int), p) == drop_trailing(
                cs@.subrange(a as int, b as int),
                p,
            ),
            a < b ==> !p(cs@[b - 1]),
        decreases b - a,
    {
        let c = cs[b - 1];
        let hit = if quotes {
            c == '"' || c == '\''
        } else {
            char_is_whitespace(c)
        };
        assert(p(c) == hit) by {
            if quotes {
                assert(quote_char()(c) == (c == '"' || c == '\''));
            } else {
                assert(white_space_char()(c) == unicode_white_space(c));
            }
        }
        if !hit {
            break;
        }
        assert(cs@.subrange(a as int, b as int).drop_last() =~= cs@.subrange(a as int, b - 1));
        b = b - 1;
    }
    assert(drop_trailing(cs@.subrange(a as int, b as int), p) == cs@.subrange(a as int, b as int));
    (a, b)
}

/// The error for a dropped path that holds nothing.
pub open spec fn no_path_message() -> Seq<char> {
    "No path was provided"@
}

/// The path of something dropped onto the window, as text: without
/// surrounding whitespace and then without surrounding quotes. Refused when
/// nothing is left.
pub fn dropped_path(path: &str) -> (r: Result<String, String>)
    ensures
        match r {
            Ok(p) => p@ == dropped_path_text(path@) && p@.len() > 0,
            Err(e) => dropped_path_text(path@).len() == 0 && e@ == no_path_message(),
        },
{
    let cs = chars_of(path);
    let n = cs.len();
    assert(cs@.subrange(0, n as int) =~= path@);
    let (a, b) = trim_bounds(&cs, 0, n, false);
    let (c, d) = trim_bounds(&cs, a, b, true);
    if c == d {
        return Err(string_of("No path was provided"));
    }
    let mut r = String::new();
    let mut i = c;
    while i < d
        invariant
            c <= i <= d <= cs@.len(),
            r@ == cs@.subrange(c as int, i as int),
        decreases d - i,
    {
        push_char(&mut r, cs[i]);
        assert(cs@.subrange(c as int, i + 1) =~= cs@.subrange(c as int, i as int).push(
            cs@[i as int],
        ));
        i = i + 1;
    }
    Ok(r)
}

/// The name suggested for a terminal docked at a directory: the directory's
/// own name when it has a non-empty one.
pub fn dock_suggested_name(file_name: Option<String>) -> (name: String)
    ensures
        match file_name {
            Some(f) => if f@.len() > 0 {
                name@ == f@
            } else {
                name@ == "Docked terminal"@
            },
            None => name@ == "Docked terminal"@,
        },
{
    match file_name {
        Some(f) => if f.as_str().is_empty() {
            string_of("Docked terminal")
        } else {
            f
        },
        None => string_of("Docked terminal"),
    }
}

/// The error for a dropped file whose path has no parent.
pub open spec fn no_parent_message() -> Seq<char> {
    "Dropped file has no parent directory"@
}

/// The directory a terminal is docked at, from the resolved path of what was
/// dropped: the path itself when it names a directory, else its parent.
pub fn dock_directory(canonical: String, is_dir: bool, parent: Option<String>) -> (r: Result<
    String,
    String,
>)
    ensures
        is_dir ==> r == Ok::<String, String>(canonical),
        !is_dir ==> match parent {
            Some(p) => r == Ok::<String, String>(p),
            None => r matches Err(e) && e@ == no_parent_message(),
        },
{
    if is_dir {
        Ok(canonical)
    } else {
        match parent {
            Some(p) => Ok(p),
            None => Err(string_of("Dropped file has no parent directory")),
        }
    }
}

/// A line trimmed of surrounding whitespace.
pub open spec fn trimmed() -> spec_fn(Seq<char>) -> Seq<char> {
    |l: Seq<char>| trim_by(l, white_space_char())
}

/// Text that is not empty.
pub open spec fn non_empty() -> spec_fn(Seq<char>) -> bool {
    |l: Seq<char>| l.len() > 0
}

/// The lines of a program's output that can name an executable: each line
/// trimmed, empty ones left out, in order.
pub open spec fn candidate_lines(output: Seq<char>) -> Seq<Seq<char>> {
    read_lines(output).map_values(trimmed()).filter(non_empty())
}

proof fn lemma_candidates_push(lines: Seq<Seq<char>>, line: Seq<char>)
    ensures
        lines.push(line).map_values(trimmed()).filter(non_empty()) == if trim_by(
            line,
            white_space_char(),
        ).len() > 0 {
            lines.map_values(trimmed()).filter(non_empty()).push(trim_by(line, white_space_char()))
        } else {
            lines.map_values(trimmed()).filter(non_empty())
        },
{
    reveal_with_fuel(Seq::<_>::filter, 1);
    let m = lines.push(line).map_values(trimmed());
    assert(m =~= lines.map_values(trimmed()).push(trim_by(line, white_space_char())));
    assert(m.drop_last() =~= lines.map_values(trimmed()));
}

/// The lines of a program's output that can name an executable, as
/// `where.exe` prints them: trimmed, without empty ones, in order.
pub fn executable_candidates(output: &str) -> (lines: Vec<String>)
    ensures
        strings_view(lines@) == candidate_lines(output@),
{
    let cs = chars_of(output);
    let n = cs.len();
    let mut lines: Vec<String> = Vec::new();
    let mut start: usize = 0;
    let mut i: usize = 0;
    assert(cs@.take(0) =~= Seq::<char>::empty());
    while i < n
        invariant
            n == cs@.len(),
            cs@ == output@,
            start <= i <= n,
            start == 0 || cs@[start - 1] == '\n',
            forall|j: int| start <= j < i ==> cs@[j] != '\n',
            strings_view(lines@) == candidate_lines(cs@.take(start as int)),
        decreases n - i,
    {
        if cs[i] == '\n' {
            let (a, b) = trim_bounds(&cs, start, i, false);
            let ghost before = cs@.take(start as int);
            let ghost line = cs@.subrange(start as int, i as int);
            proof {
                assert(!line.contains('\n')) by {
                    if line.contains('\n') {
                        let j = choose|j: int| 0 <= j < line.len() && line[j] == '\n';
                        assert(cs@[start + j] == '\n');
                    }
                }
                assert(before.len() == 0 || before.last() == '\n');
                lemma_read_lines_push(before, line);
                assert(before + line + seq!['\n'] =~= cs@.take(i + 1));
                lemma_candidates_push(read_lines(before), line);
            }
            if a < b {
                let mut l = String::new();
                let mut k = a;
                while k < b
                    invariant
                        a <= k <= b <= cs@.len(),
                        l@ == cs@.subrange(a as int, k as int),
                    decreases b - k,
                {
                    push_char(&mut l, cs[k]);
                    assert(cs@.subrange(a as int, k + 1) =~= cs@.subrange(a as int, k as int).push(
                        cs@[k as int],
                    ));
                    k = k + 1;
                }
                let ghost old_lines = lines@;
                lines.push(l);
                assert(strings_view(lines@) =~= strings_view(old_lines).push(
                    cs@.subrange(a as int, b as int),
                ));
            }
            start = i + 1;
        }
        i = i + 1;
    }
    if start < n {
        let (a, b) = trim_bounds(&cs, start, n, false);
        let ghost before = cs@.take(start as int);
        let ghost line = cs@.subrange(start as int, n as int);
        proof {
            assert(!line.contains('\n')) by {
                if line.contains('\n') {
                    let j = choose|j: int| 0 <= j < line.len() && line[j] == '\n';
                    assert(cs@[start + j] == '\n');
                }
            }
            lemma_read_lines_last(before, line);
            assert(before + line =~= cs@);
            lemma_candidates_push(read_lines(before), line);
        }
        if a < b {
            let mut l = String::new();
            let mut k = a;
            while k < b
                invariant
                    a <= k <= b <= cs@.len(),
                    l@ == cs@.subrange(a as int, k as int),
                decreases b - k,
            {
                push_char(&mut l, cs[k]);
                assert(cs@.subrange(a as int, k + 1) =~= cs@.subrange(a as int, k as int).push(
                    cs@[k as int],
                ));
                k = k + 1;
            }
            let ghost old_lines = lines@;
            lines.push(l);
            assert(strings_view(lines@) =~= strings_view(old_lines).push(
                cs@.subrange(a as int, b as int),
            ));
        }
    } else {
        assert(cs@.take(start as int) =~= cs@);
    }
    lines
}

} // verus!
