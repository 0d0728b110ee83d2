//! Laws of the shell integrations: the quoting that seeds a shell's history
//! gives back each entry as it was.
use vstd::prelude::*;
use crate::shell::{
    powershell_entry_kept, powershell_history_text, replace_char, single_quoted, unix_history_text,
};
use crate::text::all_white_space;
use crate::text::{lemma_read_lines_push, read_lines};

verus! {

/// How a POSIX shell reads a word outside quotes: a `'` opens a quoted part,
/// a backslash takes the next char as it stands, any other char stands for
/// itself. `None` when a quoted part is never closed.
pub open spec fn read_shell_word(w: Seq<char>) -> Option<Seq<char>>
    decreases w.len(), 1int,
{
    if w.len() == 0 {
        Some(Seq::empty())
    } else if w[0] == '\'' {
        read_shell_quoted(w.drop_first())
    } else if w[0] == '\\' && w.len() >= 2 {
        match read_shell_word(w.skip(2)) {
            Some(v) => Some(seq![w[1]] + v),
            None => None,
        }
    } else {
        match read_shell_word(w.drop_first()) {
            Some(v) => Some(seq![w[0]] + v),
            None => None,
        }
    }
}

/// How a POSIX shell reads inside a single-quoted part: every char stands
/// for itself up to the closing `'`.
pub open spec fn read_shell_quoted(w: Seq<char>) -> Option<Seq<char>>
    decreases w.len(), 0int,
{
    if w.len() == 0 {
        None
    } else if w[0] == '\'' {
        read_shell_word(w.drop_first())
    } else {
        match read_shell_quoted(w.drop_first()) {
            Some(v) => Some(seq![w[0]] + v),
            None => None,
        }
    }
}

/// The escaping that single quotes use for a `'` inside them.
pub open spec fn quote_escape() -> Seq<char> {
    seq!['\'', '\\', '\'', '\'']
}

proof fn lemma_replace_char_concat(a: Seq<char>, b: Seq<char>, c: char, with: Seq<char>)
    ensures
        replace_char(a + b, c, with) == replace_char(a, c, with) + replace_char(b, c, with),
    decreases b.len(),
{
    if b.len() == 0 {
        assert(a + b =~= a);
        assert(replace_char(a, c, with) + replace_char(b, c, with) =~= replace_char(a, c, with));
    } else {
        lemma_replace_char_concat(a, b.drop_last(), c, with);
        assert((a + b).drop_last() =~= a + b.drop_last());
        assert((a + b).last() == b.last());
        if b.last() == c {
            assert(replace_char(a, c, with) + replace_char(b, c, with) =~= replace_char(a, c, with)
                + replace_char(b.drop_last(), c, with) + with);
        } else {
            assert(replace_char(a, c, with) + replace_char(b, c, with) =~= (replace_char(
                a,
                c,
                with,
            ) + replace_char(b.drop_last(), c, with)).push(b.last()));
        }
    }
}

proof fn lemma_read_escaped_quoted(e: Seq<char>, rest: Seq<char>)
    ensures
        read_shell_quoted(replace_char(e, '\'', quote_escape()) + seq!['\''] + rest) == match read_shell_word(rest) {
            Some(v) => Some(e + v),
            None => None,
        },
    decreases e.len(),
{
    let q = seq!['\''];
    if e.len() == 0 {
        assert(replace_char(e, '\'', quote_escape()) + q + rest =~= q + rest);
        assert((q + rest).drop_first() =~= rest);
        assert(e + rest =~= rest);
        match read_shell_word(rest) {
            Some(v) => assert(e + v =~= v),
            None => {},
        }
    } else {
        let t = e.drop_first();
        assert(e =~= seq![e[0]] + t);
        lemma_replace_char_concat(seq![e[0]], t, '\'', quote_escape());
        lemma_read_escaped_quoted(t, rest);
        let tail = replace_char(t, '\'', quote_escape()) + q + rest;
        let one = seq![e[0]];
        assert(one.drop_last() =~= Seq::<char>::empty());
        assert(one.last() == e[0]);
        assert(replace_char(Seq::<char>::empty(), '\'', quote_escape()) == Seq::<char>::empty());
        if e[0] == '\'' {
            assert(replace_char(one, '\'', quote_escape()) =~= Seq::<char>::empty() + quote_escape());
            let w = quote_escape() + tail;
            assert(replace_char(e, '\'', quote_escape()) + q + rest =~= w);
            assert(w.drop_first() =~= seq!['\\', '\''] + q + tail);
            let u = seq!['\\', '\''] + q + tail;
            assert(u.skip(2) =~= q + tail);
            assert((q + tail).drop_first() =~= tail);
            assert(w[0] == '\'');
            assert(u[0] == '\\' && u[1] == '\'' && u.len() >= 2);
            assert((q + tail)[0] == '\'');
            assert(read_shell_quoted(w) == read_shell_word(u));
            assert(read_shell_word(q + tail) == read_shell_quoted(tail));
            match read_shell_word(rest) {
                Some(v) => assert(seq!['\''] + (t + v) =~= e + v),
                None => {},
            }
        } else {
            assert(replace_char(one, '\'', quote_escape()) =~= Seq::<char>::empty().push(e[0]));
            let w = seq![e[0]] + tail;
            assert(replace_char(e, '\'', quote_escape()) + q + rest =~= w);
            assert(w.drop_first() =~= tail);
            assert(w[0] == e[0]);
            match read_shell_word(rest) {
                Some(v) => assert(seq![e[0]] + (t + v) =~= e + v),
                None => {},
            }
        }
    }
}

/// A history entry seeded into Bash or Zsh is read back by the shell as
/// exactly that entry: the single quoting loses and adds nothing.
pub proof fn lemma_single_quoted_reads_back(e: Seq<char>)
    ensures
        read_shell_word(single_quoted(e)) == Some(e),
{
    let empty = Seq::<char>::empty();
    lemma_read_escaped_quoted(e, empty);
    let inner = replace_char(e, '\'', quote_escape()) + seq!['\''] + empty;
    assert(single_quoted(e) =~= seq!['\''] + inner);
    assert(single_quoted(e).drop_first() =~= inner);
    assert(read_shell_word(empty) == Some(empty));
    assert(e + empty =~= e);
}

/// The history entries that the PowerShell history file keeps.
pub open spec fn powershell_kept() -> spec_fn(Seq<char>) -> bool {
    |e: Seq<char>| powershell_entry_kept(e)
}

proof fn lemma_history_text_ends_lines(history: Seq<Seq<char>>)
    ensures
        powershell_history_text(history).len() == 0 || powershell_history_text(history).last()
            == '\n',
    decreases history.len(),
{
    if history.len() > 0 {
        lemma_history_text_ends_lines(history.drop_last());
        reveal_strlit("\n");
        let before = powershell_history_text(history.drop_last());
        let t = before + history.last() + "\n"@;
        assert(t.last() == '\n');
    }
}

/// Reading the PowerShell history file line by line gives back exactly the
/// entries it keeps, in order: one command per line, none split.
pub proof fn lemma_history_file_lines(history: Seq<Seq<char>>)
    ensures
        read_lines(powershell_history_text(history)) == history.filter(powershell_kept()),
    decreases history.len(),
{
    reveal_with_fuel(Seq::<_>::filter, 1);
    if history.len() > 0 {
        let rest = history.drop_last();
        let e = history.last();
        lemma_history_file_lines(rest);
        lemma_history_text_ends_lines(rest);
        if powershell_entry_kept(e) {
            lemma_read_lines_push(powershell_history_text(rest), e);
            assert(powershell_history_text(rest) + e + "\n"@ =~= powershell_history_text(rest) + e
                + seq!['\n']) by {
                reveal_strlit("\n");
            }
        }
    }
}

/// The PowerShell history file holds, one per line and in order, exactly
/// the entries that are not all whitespace and hold no line feed, carriage
/// return or NUL; every other entry is left out.
pub proof fn lemma_history_file_keeps_every_one_line_entry(history: Seq<Seq<char>>)
    ensures
        read_lines(powershell_history_text(history)) == history.filter(
            |e: Seq<char>|
                !all_white_space(e) && !e.contains('\n') && !e.contains('\r') && !e.contains(
                    '\0',
                ),
        ),
{
    lemma_history_file_lines(history);
    let one_line = |e: Seq<char>|
        !all_white_space(e) && !e.contains('\n') && !e.contains('\r') && !e.contains('\0');
    assert(one_line =~= powershell_kept());
}

/// Seeding a Unix shell with two histories in turn gives the lines of the
/// first and then those of the second.
pub proof fn lemma_unix_history_concat(a: Seq<Seq<char>>, b: Seq<Seq<char>>, command: Seq<char>)
    ensures
        unix_history_text(a + b, command) == unix_history_text(a, command) + unix_history_text(
            b,
            command,
        ),
    decreases b.len(),
{
    if b.len() == 0 {
        assert(a + b =~= a);
    } else {
        lemma_unix_history_concat(a, b.drop_last(), command);
        assert((a + b).drop_last() =~= a + b.drop_last());
        assert((a + b).last() == b.last());
    }
}

/// A Unix shell's history is seeded with one line per entry, in order: the
/// command and the single-quoted entry for every entry that is not empty and
/// holds no NUL, and nothing for any other entry.
pub proof fn lemma_unix_history_lines(history: Seq<Seq<char>>, command: Seq<char>, e: Seq<char>)
    ensures
        unix_history_text(seq![e], command) == if e.len() > 0 && !e.contains('\0') {
            command + single_quoted(e) + "\n"@
        } else {
            Seq::empty()
        },
        unix_history_text(history.push(e), command) == unix_history_text(history, command)
            + unix_history_text(seq![e], command),
{
    let one = seq![e];
    assert(one.drop_last() =~= Seq::<Seq<char>>::empty());
    assert(one.last() == e);
    assert(unix_history_text(one.drop_last(), command) == Seq::<char>::empty());
    if e.len() > 0 && !e.contains('\0') {
        assert(Seq::<char>::empty() + command + single_quoted(e) + "\n"@ =~= command
            + single_quoted(e) + "\n"@);
    }
    lemma_unix_history_concat(history, one, command);
    assert(history + one =~= history.push(e));
}

/// The chars PowerShell takes as a single quote: the ASCII one and the
/// typographic ones.
pub open spec fn is_powershell_quote(c: char) -> bool {
    c == '\'' || c == '\u{2018}' || c == '\u{2019}' || c == '\u{201A}' || c == '\u{201B}'
}

/// How PowerShell reads the inside of a single-quoted string: two quotes in
/// a row stand for one, a lone quote ends the string. Gives the value and
/// what follows the closing quote; `None` when the string is never closed.
pub open spec fn read_powershell_quoted(w: Seq<char>) -> Option<(Seq<char>, Seq<char>)>
    decreases w.len(),
{
    if w.len() == 0 {
        None
    } else if is_powershell_quote(w[0]) {
        if w.len() >= 2 && is_powershell_quote(w[1]) {
            match read_powershell_quoted(w.skip(2)) {
                Some((v, rest)) => Some((seq![w[1]] + v, rest)),
                None => None,
            }
        } else {
            Some((Seq::empty(), w.drop_first()))
        }
    } else {
        match read_powershell_quoted(w.drop_first()) {
            Some((v, rest)) => Some((seq![w[0]] + v, rest)),
            None => None,
        }
    }
}

/// A path put into the PowerShell startup script with its quotes doubled is
/// read back by PowerShell as exactly that path, with what follows the
/// closing quote left as it was. It holds for paths without typographic
/// quotes, which PowerShell also takes as quotes but which are not doubled.
pub proof fn lemma_powershell_quoted_reads_back(path: Seq<char>, rest: Seq<char>)
    requires
        forall|i: int| 0 <= i < path.len() ==> (is_powershell_quote(#[trigger] path[i]) ==> path[i]
            == '\''),
        rest.len() == 0 || !is_powershell_quote(rest[0]),
    ensures
        read_powershell_quoted(replace_char(path, '\'', "''"@) + seq!['\''] + rest) == Some(
            (path, rest),
        ),
    decreases path.len(),
{
    reveal_strlit("''");
    let dq = "''"@;
    assert(dq =~= seq!['\'', '\'']);
    let q = seq!['\''];
    if path.len() == 0 {
        assert(replace_char(path, '\'', dq) + q + rest =~= q + rest);
        assert((q + rest).drop_first() =~= rest);
        if rest.len() > 0 {
            assert((q + rest)[1] == rest[0]);
        }
    } else {
        let t = path.drop_first();
        assert(path =~= seq![path[0]] + t);
        lemma_replace_char_concat(seq![path[0]], t, '\'', dq);
        assert forall|i: int| 0 <= i < t.len() && is_powershell_quote(#[trigger] t[i]) implies t[i]
            == '\'' by {
            assert(t[i] == path[i + 1]);
        }
        lemma_powershell_quoted_reads_back(t, rest);
        let tail = replace_char(t, '\'', dq) + q + rest;
        let one = seq![path[0]];
        assert(one.drop_last() =~= Seq::<char>::empty());
        assert(one.last() == path[0]);
        assert(replace_char(Seq::<char>::empty(), '\'', dq) == Seq::<char>::empty());
        if path[0] == '\'' {
            assert(replace_char(one, '\'', dq) =~= Seq::<char>::empty() + dq);
            let w = dq + tail;
            assert(replace_char(path, '\'', dq) + q + rest =~= w);
            assert(w.skip(2) =~= tail);
            assert(w[0] == '\'' && w[1] == '\'');
            assert(seq!['\''] + t =~= path);
        } else {
            assert(replace_char(one, '\'', dq) =~= Seq::<char>::empty().push(path[0]));
            let w = one + tail;
            assert(replace_char(path, '\'', dq) + q + rest =~= w);
            assert(w.drop_first() =~= tail);
            assert(w[0] == path[0]);
            assert(!is_powershell_quote(path[0]));
            assert(one + t =~= path);
        }
    }
}

} // verus!
