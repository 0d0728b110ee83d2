//! Building strings char by char, reading text as lines, and the few facts
//! about chars and numbers that the rest of the library needs.
use vstd::prelude::*;

verus! {

/// Whether the char has the Unicode `White_Space` property: tab, line feed,
/// vertical tab, form feed, carriage return, space, next line, no-break
/// space, ogham space mark, the spaces U+2000 to U+200A, line separator,
/// paragraph separator, narrow no-break space, medium mathematical space
/// and ideographic space.
pub open spec fn unicode_white_space(c: char) -> bool {
    let v = c as u32;
    ||| 0x09 <= v <= 0x0d
    ||| v == 0x20
    ||| v == 0x85
    ||| v == 0xa0
    ||| v == 0x1680
    ||| 0x2000 <= v <= 0x200a
    ||| v == 0x2028
    ||| v == 0x2029
    ||| v == 0x202f
    ||| v == 0x205f
    ||| v == 0x3000
}

/// Whether the char is whitespace, as `char::is_whitespace` and `str::trim`
/// count it.
pub fn char_is_whitespace(c: char) -> (r: bool)
    ensures
        r == unicode_white_space(c),
{
    let v = c as u32;
    (0x09 <= v && v <= 0x0d) || v == 0x20 || v == 0x85 || v == 0xa0 || v == 0x1680 || (0x2000 <= v
        && v <= 0x200a) || v == 0x2028 || v == 0x2029 || v == 0x202f || v == 0x205f || v == 0x3000
}

/// Calls `String::push`, which appends one char.
#[verifier::external_body]
pub(crate) fn push_char(s: &mut String, c: char)
    ensures
        final(s)@ == old(s)@.push(c),
{
    s.push(c);
}

/// A string holding the chars of a literal or of another string.
pub(crate) fn string_of(s: &str) -> (r: String)
    ensures
        r@ == s@,
{
    let mut r = String::new();
    r.append(s);
    r
}

/// The decimal digits of `n`, most significant first, without leading zeros.
pub open spec fn decimal(n: nat) -> Seq<char>
    decreases n,
{
    if n < 10 {
        seq![digit_char(n)]
    } else {
        decimal(n / 10).push(digit_char(n % 10))
    }
}

/// The char of a decimal digit.
pub open spec fn digit_char(d: nat) -> char {
    if d == 0 {
        '0'
    } else if d == 1 {
        '1'
    } else if d == 2 {
        '2'
    } else if d == 3 {
        '3'
    } else if d == 4 {
        '4'
    } else if d == 5 {
        '5'
    } else if d == 6 {
        '6'
    } else if d == 7 {
        '7'
    } else if d == 8 {
        '8'
    } else {
        '9'
    }
}

fn digit_char_exec(d: u64) -> (c: char)
    requires
        d < 10,
    ensures
        c == digit_char(d as nat),
{
    if d == 0 {
        '0'
    } else if d == 1 {
        '1'
    } else if d == 2 {
        '2'
    } else if d == 3 {
        '3'
    } else if d == 4 {
        '4'
    } else if d == 5 {
        '5'
    } else if d == 6 {
        '6'
    } else if d == 7 {
        '7'
    } else if d == 8 {
        '8'
    } else {
        '9'
    }
}

/// Appends the decimal digits of `n`, as `{}` formats a `u64`.
pub fn push_decimal(s: &mut String, n: u64)
    ensures
        final(s)@ == old(s)@ + decimal(n as nat),
    decreases n,
{
    if n >= 10 {
        push_decimal(s, n / 10);
    }
    push_char(s, digit_char_exec(n % 10));
    assert(n >= 10 ==> decimal(n as nat) == decimal((n / 10) as nat).push(digit_char((n % 10) as nat)));
}

/// The chars of a string, in order.
pub fn chars_of(s: &str) -> (r: Vec<char>)
    ensures
        r@ == s@,
{
    let mut r: Vec<char> = Vec::new();
    for c in it: s.chars()
        invariant
            it.seq() == s@,
            r@ == s@.take(it.index() as int),
    {
        r.push(c);
    }
    r
}

/// Every char of the string is Unicode whitespace: what `str::trim` leaves of
/// it is empty.
pub open spec fn all_white_space(s: Seq<char>) -> bool {
    forall|i: int| 0 <= i < s.len() ==> #[trigger] unicode_white_space(s[i])
}

/// Whether nothing but whitespace is in the string.
pub fn is_blank(s: &str) -> (r: bool)
    ensures
        r == all_white_space(s@),
{
    let cs = chars_of(s);
    let n = cs.len();
    let mut i: usize = 0;
    while i < n
        invariant
            n == cs@.len(),
            cs@ == s@,
            i <= n,
            forall|j: int| 0 <= j < i ==> #[trigger] unicode_white_space(s@[j]),
        decreases n - i,
    {
        if !char_is_whitespace(cs[i]) {
            return false;
        }
        i = i + 1;
    }
    true
}

/// Whether the chars hold `c`.
pub fn contains_char(cs: &Vec<char>, c: char) -> (r: bool)
    ensures
        r == cs@.contains(c),
{
    let n = cs.len();
    let mut i: usize = 0;
    while i < n
        invariant
            n == cs@.len(),
            i <= n,
            forall|j: int| 0 <= j < i ==> cs@[j] != c,
        decreases n - i,
    {
        if cs[i] == c {
            assert(cs@[i as int] == c);
            return true;
        }
        i = i + 1;
    }
    false
}

/// Position of the last line feed in `s`, or -1.
pub open spec fn last_newline(s: Seq<char>) -> int
    decreases s.len(),
{
    if s.len() == 0 {
        -1
    } else if s.last() == '\n' {
        s.len() - 1
    } else {
        last_newline(s.drop_last())
    }
}

/// The last line feed lies within the text, and none follows it.
pub proof fn lemma_last_newline_bounds(s: Seq<char>)
    ensures
        -1 <= last_newline(s) < s.len(),
        last_newline(s) >= 0 ==> s[last_newline(s)] == '\n',
        forall|j: int| last_newline(s) < j < s.len() ==> s[j] != '\n',
    decreases s.len(),
{
    if s.len() > 0 && s.last() != '\n' {
        lemma_last_newline_bounds(s.drop_last());
        assert forall|j: int| last_newline(s) < j < s.len() implies s[j] != '\n' by {
            if j < s.len() - 1 {
                assert(s.drop_last()[j] == s[j]);
            }
        }
    }
}

/// The lines of a text as a line-by-line reader sees them: each ends at a
/// line feed or at the end of the text, and a final line feed does not
/// start another line.
pub open spec fn read_lines(t: Seq<char>) -> Seq<Seq<char>>
    decreases t.len(),
{
    if t.len() == 0 {
        Seq::empty()
    } else {
        let body = if t.last() == '\n' {
            t.drop_last()
        } else {
            t
        };
        let k = last_newline(body);
        proof {
            lemma_last_newline_bounds(body);
        }
        read_lines(t.take(k + 1)).push(body.skip(k + 1))
    }
}

/// Text without a line feed does not move the last line feed.
pub proof fn lemma_last_newline_skips_line(before: Seq<char>, e: Seq<char>)
    requires
        !e.contains('\n'),
    ensures
        last_newline(before + e) == last_newline(before),
    decreases e.len(),
{
    if e.len() > 0 {
        assert(e.last() == e[e.len() - 1]);
        assert((before + e).last() == e.last());
        assert((before + e).drop_last() =~= before + e.drop_last());
        assert(!e.drop_last().contains('\n')) by {
            if e.drop_last().contains('\n') {
                let i = choose|i: int| 0 <= i < e.drop_last().len() && e.drop_last()[i] == '\n';
                assert(e[i] == '\n');
            }
        }
        lemma_last_newline_skips_line(before, e.drop_last());
    } else {
        assert(before + e =~= before);
    }
}

/// A line ended by a line feed, after whole lines, is read as one more line.
pub proof fn lemma_read_lines_push(before: Seq<char>, e: Seq<char>)
    requires
        before.len() == 0 || before.last() == '\n',
        !e.contains('\n'),
    ensures
        read_lines(before + e + seq!['\n']) == read_lines(before).push(e),
{
    let t = before + e + seq!['\n'];
    assert(t.last() == '\n');
    assert(t.drop_last() =~= before + e);
    lemma_last_newline_skips_line(before, e);
    let k = last_newline(before);
    assert(k == before.len() - 1) by {
        if before.len() > 0 {
            assert(before.drop_last().len() < before.len());
        } else {
            assert(last_newline(before) == -1);
        }
    }
    assert(t.take(k + 1) =~= before);
    assert((before + e).skip(k + 1) =~= e);
}

/// A last line without a line feed is read as a line of its own.
pub proof fn lemma_read_lines_last(before: Seq<char>, e: Seq<char>)
    requires
        before.len() == 0 || before.last() == '\n',
        e.len() > 0,
        !e.contains('\n'),
    ensures
        read_lines(before + e) == read_lines(before).push(e),
{
    let t = before + e;
    assert(t.last() == e[e.len() - 1]);
    assert(e.contains(e[e.len() - 1]));
    lemma_last_newline_skips_line(before, e);
    let k = last_newline(before);
    assert(k == before.len() - 1) by {
        if before.len() == 0 {
            assert(last_newline(before) == -1);
        }
    }
    assert(t.take(k + 1) =~= before);
    assert(t.skip(k + 1) =~= e);
}

} // verus!
