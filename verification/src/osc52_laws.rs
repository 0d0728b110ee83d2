//! Laws of the OSC 52 scan: how output split over several reads relates to
//! the same output read at once, what is kept between reads, and what one
//! complete request yields.
use vstd::prelude::*;
use vstd::utf8::{encode_utf8, encode_utf8_decode_utf8, encode_utf8_valid_utf8};
use crate::osc52::{
    base64_standard_decode, byte_is, clipboard_text, encoded_clipboard_data, find_byte,
    find_introducer, find_terminator, is_ascii_whitespace_byte, kept_byte, lemma_find_introducer,
    lemma_find_terminator, partial_prefix_at, prefix_at, retained_len, scan, terminator_len, texts_of,
    Osc52Scan, MAX_OSC52_ENCODED_BYTES, OSC52_PREFIX,
};

verus! {

/// The first introducer is the only position that is an introducer and has
/// none before it.
proof fn lemma_first_introducer_unique(p: Seq<u8>, s: int)
    requires
        0 <= s,
        prefix_at(p, s),
        forall|j: int| 0 <= j < s ==> !#[trigger] prefix_at(p, j),
    ensures
        find_introducer(p, 0) == Some(s),
{
    lemma_find_introducer(p, 0);
    match find_introducer(p, 0) {
        Some(t) => {
            if t < s {
                assert(prefix_at(p, t));
            } else if t > s {
                assert(!prefix_at(p, s));
            }
        },
        None => {
            assert(!prefix_at(p, s));
        },
    }
}

/// Dropping a start of the buffer at which no request can begin does not
/// change the scan.
proof fn lemma_scan_skip_dead_start(y: Seq<u8>, k: int)
    requires
        0 <= k <= y.len(),
        forall|i: int| 0 <= i < k ==> !#[trigger] partial_prefix_at(y, i),
    ensures
        scan(y) == scan(y.skip(k)),
{
    let z = y.skip(k);
    assert forall|j: int| 0 <= j < z.len() implies #[trigger] partial_prefix_at(z, j)
        == partial_prefix_at(y, j + k) by {
        assert(byte_is(z, j, 0x1b) == byte_is(y, j + k, 0x1b));
        assert(byte_is(z, j + 1, 0x5d) == byte_is(y, j + k + 1, 0x5d));
        assert(byte_is(z, j + 2, 0x35) == byte_is(y, j + k + 2, 0x35));
        assert(byte_is(z, j + 3, 0x32) == byte_is(y, j + k + 3, 0x32));
        assert(byte_is(z, j + 4, 0x3b) == byte_is(y, j + k + 4, 0x3b));
    }
    assert forall|j: int| 0 <= j implies #[trigger] prefix_at(z, j) == prefix_at(y, j + k) by {
        if j < z.len() {
            assert(partial_prefix_at(z, j) == partial_prefix_at(y, j + k));
        }
    }
    lemma_find_introducer(y, 0);
    lemma_find_introducer(z, 0);
    match find_introducer(y, 0) {
        Some(s) => {
            assert(s >= k) by {
                if s < k {
                    assert(!partial_prefix_at(y, s));
                }
            }
            assert forall|j: int| 0 <= j < s - k implies !#[trigger] prefix_at(z, j) by {
                assert(!prefix_at(y, j + k));
            }
            assert(prefix_at(z, s - k));
            lemma_first_introducer_unique(z, s - k);
            assert(z.skip(s - k) =~= y.skip(s));
        },
        None => {
            assert(find_introducer(z, 0) is None) by {
                if let Some(t) = find_introducer(z, 0) {
                    assert(prefix_at(y, t + k));
                }
            }
            let n = y.len();
            assert forall|l: int| 1 <= l <= 4 && l <= z.len() implies #[trigger] partial_prefix_at(
                z,
                z.len() - l,
            ) == partial_prefix_at(y, n - l) by {
                assert(partial_prefix_at(z, z.len() - l) == partial_prefix_at(y, z.len() - l + k));
            }
            assert forall|l: int| 1 <= l <= 4 && l <= n && l > z.len() implies !#[trigger] partial_prefix_at(
                y,
                n - l,
            ) by {
                assert(n - l < k);
            }
            assert(retained_len(z) == retained_len(y));
            assert(z.skip(z.len() - retained_len(z)) =~= y.skip(n - retained_len(y)));
        },
    }
}

/// Appending output keeps the first introducer that stands in full.
proof fn lemma_introducer_extend(x: Seq<u8>, b: Seq<u8>, s: int)
    requires
        find_introducer(x, 0) == Some(s),
    ensures
        find_introducer(x + b, 0) == Some(s),
{
    lemma_find_introducer(x, 0);
    let y = x + b;
    assert forall|j: int| 0 <= j && j + 5 <= x.len() implies #[trigger] prefix_at(y, j)
        == prefix_at(x, j) by {
        assert(y[j] == x[j]);
        assert(y[j + 1] == x[j + 1]);
        assert(y[j + 2] == x[j + 2]);
        assert(y[j + 3] == x[j + 3]);
        assert(y[j + 4] == x[j + 4]);
    }
    assert(prefix_at(y, s));
    assert forall|j: int| 0 <= j < s implies !#[trigger] prefix_at(y, j) by {
        assert(!prefix_at(x, j));
    }
    lemma_first_introducer_unique(y, s);
}

/// Appending output keeps the first terminator and its length.
proof fn lemma_terminator_extend(q: Seq<u8>, b: Seq<u8>, e: int)
    requires
        find_terminator(q, 5) == Some(e),
    ensures
        find_terminator(q + b, 5) == Some(e),
        terminator_len(q + b, e) == terminator_len(q, e),
{
    lemma_find_terminator(q, 5);
    let y = q + b;
    assert forall|j: int| 5 <= j < e implies #[trigger] terminator_len(y, j) == 0 by {
        assert(terminator_len(q, j) == 0);
        assert(y[j] == q[j]);
        assert(y[j + 1] == q[j + 1]);
    }
    assert(y[e] == q[e]);
    if e + 1 < q.len() {
        assert(y[e + 1] == q[e + 1]);
    }
    assert(terminator_len(y, e) == terminator_len(q, e));
    lemma_find_terminator(y, 5);
    match find_terminator(y, 5) {
        Some(f) => {
            if f < e {
                assert(terminator_len(y, f) == 0);
            } else if f > e {
                assert(terminator_len(y, e) == 0);
            }
        },
        None => {
            assert(terminator_len(y, e) == 0);
        },
    }
}

/// Output read in two pieces yields the same clipboard texts, in the same
/// order, and leaves the same bytes buffered, as the same output read at
/// once, unless the first read threw away an oversized unfinished request.
pub proof fn lemma_scan_split(x: Seq<u8>, b: Seq<u8>)
    requires
        !scan(x).dropped_oversized,
    ensures
        scan(x).texts + scan(scan(x).rest + b).texts == scan(x + b).texts,
        scan(scan(x).rest + b).rest == scan(x + b).rest,
        scan(scan(x).rest + b).dropped_oversized == scan(x + b).dropped_oversized,
    decreases x.len(),
{
    lemma_find_introducer(x, 0);
    let y = x + b;
    match find_introducer(x, 0) {
        None => {
            let r = retained_len(x);
            let k = x.len() - r;
            assert forall|i: int| 0 <= i < k implies !#[trigger] partial_prefix_at(y, i) by {
                if i + 5 <= x.len() {
                    if partial_prefix_at(y, i) {
                        assert(y[i] == x[i] && y[i + 1] == x[i + 1] && y[i + 2] == x[i + 2] && y[i
                            + 3] == x[i + 3] && y[i + 4] == x[i + 4]);
                        assert(prefix_at(x, i));
                    }
                } else {
                    if partial_prefix_at(y, i) {
                        let m = x.len() - i;
                        assert(byte_is(x, i, 0x1b) && byte_is(x, i + 1, 0x5d) && byte_is(
                            x,
                            i + 2,
                            0x35,
                        ) && byte_is(x, i + 3, 0x32) && byte_is(x, i + 4, 0x3b)) by {
                            assert(y[i] == x[i]);
                            if i + 1 < x.len() {
                                assert(y[i + 1] == x[i + 1]);
                            }
                            if i + 2 < x.len() {
                                assert(y[i + 2] == x[i + 2]);
                            }
                            if i + 3 < x.len() {
                                assert(y[i + 3] == x[i + 3]);
                            }
                        }
                        assert(partial_prefix_at(x, x.len() - m));
                        assert(1 <= m <= 4);
                        assert(m > r);
                    }
                }
            }
            lemma_scan_skip_dead_start(y, k);
            assert(y.skip(k) =~= x.skip(k) + b);
        },
        Some(s) => {
            let q = x.skip(s);
            lemma_introducer_extend(x, b, s);
            assert(y.skip(s) =~= q + b);
            lemma_find_terminator(q, 5);
            match find_terminator(q, 5) {
                None => {
                    assert forall|i: int| 0 <= i < s implies !#[trigger] partial_prefix_at(y, i) by {
                        if partial_prefix_at(y, i) {
                            assert(y[i] == x[i] && y[i + 1] == x[i + 1] && y[i + 2] == x[i + 2]
                                && y[i + 3] == x[i + 3] && y[i + 4] == x[i + 4]);
                            assert(prefix_at(x, i));
                        }
                    }
                    lemma_scan_skip_dead_start(y, s);
                    assert(scan(x).texts =~= Seq::<Seq<char>>::empty());
                },
                Some(e) => {
                    let tl = terminator_len(q, e);
                    lemma_terminator_extend(q, b, e);
                    assert((q + b).subrange(5, e) =~= q.subrange(5, e));
                    let x2 = q.skip(e + tl);
                    assert((q + b).skip(e + tl) =~= x2 + b);
                    lemma_scan_split(x2, b);
                    let t = texts_of(clipboard_text(q.subrange(5, e)));
                    assert(scan(x).texts == t + scan(x2).texts);
                    assert(scan(y).texts == t + scan(x2 + b).texts);
                    assert(t + scan(x2).texts + scan(scan(x2).rest + b).texts =~= t + (scan(
                        x2,
                    ).texts + scan(scan(x2).rest + b).texts));
                },
            }
        },
    }
}

/// For a parser holding `pending`: consuming `a` and then `b` returns the
/// same texts, in order, and leaves the same bytes pending, as consuming the
/// concatenation of `a` and `b` at once, unless the first call threw away an
/// oversized unfinished request.
pub proof fn lemma_consume_in_two_reads(pending: Seq<u8>, a: Seq<u8>, b: Seq<u8>)
    requires
        !scan(pending + a).dropped_oversized,
    ensures
        scan(pending + a).texts + scan(scan(pending + a).rest + b).texts == scan(
            pending + (a + b),
        ).texts,
        scan(scan(pending + a).rest + b).rest == scan(pending + (a + b)).rest,
{
    lemma_scan_split(pending + a, b);
    assert(pending + a + b =~= pending + (a + b));
}

/// What the parser keeps between reads has one of three shapes: nothing; a
/// proper beginning of the introducer (one to four of its bytes) that ended
/// the output; or one unfinished request, which starts with the introducer,
/// has no terminator after it, and is no longer than the introducer and a
/// full payload.
pub proof fn lemma_kept_bytes_shape(p: Seq<u8>)
    ensures
        ({
            let rest = scan(p).rest;
            ||| rest.len() == 0
            ||| 1 <= rest.len() <= 4 && rest =~= OSC52_PREFIX@.take(rest.len() as int)
            ||| {
                &&& rest.len() <= 5 + MAX_OSC52_ENCODED_BYTES
                &&& rest.take(5) =~= OSC52_PREFIX@
                &&& forall|j: int| 5 <= j < rest.len() ==> #[trigger] terminator_len(rest, j) == 0
            }
        }),
    decreases p.len(),
{
    lemma_find_introducer(p, 0);
    match find_introducer(p, 0) {
        None => {
            let r = retained_len(p);
            let rest = p.skip(p.len() - r);
            if r > 0 {
                assert(partial_prefix_at(p, p.len() - r));
                assert forall|t: int| 0 <= t < r implies rest[t] == OSC52_PREFIX@[t] by {
                    assert(rest[t] == p[p.len() - r + t]);
                    assert(byte_is(p, p.len() - r + t, OSC52_PREFIX@[t])) by {
                        if t == 0 {
                        } else if t == 1 {
                        } else if t == 2 {
                        } else {
                        }
                    }
                }
            }
        },
        Some(s) => {
            let q = p.skip(s);
            lemma_find_terminator(q, 5);
            match find_terminator(q, 5) {
                None => {
                    if q.len() <= 5 + MAX_OSC52_ENCODED_BYTES {
                        assert(prefix_at(p, s));
                        assert forall|t: int| 0 <= t < 5 implies q[t] == OSC52_PREFIX@[t] by {
                            assert(q[t] == p[s + t]);
                        }
                    }
                },
                Some(e) => {
                    lemma_kept_bytes_shape(q.skip(e + terminator_len(q, e)));
                },
            }
        },
    }
}

/// An ASCII letter or digit.
pub open spec fn is_ascii_alphanumeric_byte(b: u8) -> bool {
    (0x30 <= b <= 0x39) || (0x41 <= b <= 0x5a) || (0x61 <= b <= 0x7a)
}

/// A byte of the standard base64 alphabet, padding included.
pub open spec fn is_base64_byte(b: u8) -> bool {
    is_ascii_alphanumeric_byte(b) || b == 0x2b || b == 0x2f || b == 0x3d
}

proof fn lemma_find_byte(s: Seq<u8>, b: u8, from: int)
    requires
        0 <= from,
    ensures
        match find_byte(s, b, from) {
            Some(i) => from <= i < s.len() && s[i] == b && forall|j: int|
                from <= j < i ==> #[trigger] s[j] != b,
            None => forall|j: int| from <= j < s.len() ==> #[trigger] s[j] != b,
        },
    decreases s.len() - from,
{
    if from < s.len() && s[from] != b {
        lemma_find_byte(s, b, from + 1);
    }
}

proof fn lemma_filter_keeps_all(s: Seq<u8>)
    requires
        forall|i: int| 0 <= i < s.len() ==> !is_ascii_whitespace_byte(#[trigger] s[i]),
    ensures
        s.filter(kept_byte()) == s,
    decreases s.len(),
{
    reveal_with_fuel(Seq::<_>::filter, 1);
    if s.len() > 0 {
        assert forall|i: int| 0 <= i < s.drop_last().len() implies !is_ascii_whitespace_byte(
            #[trigger] s.drop_last()[i],
        ) by {
            assert(s.drop_last()[i] == s[i]);
        }
        lemma_filter_keeps_all(s.drop_last());
        assert(kept_byte()(s.last()));
        assert(s.drop_last().push(s.last()) =~= s);
    }
}

/// One complete request, with a selection of ASCII letters and digits and
/// base64 data that decodes to the UTF-8 bytes of `text`, ended by BEL or by
/// `ESC \`, yields exactly `text` and leaves nothing kept.
pub proof fn lemma_single_request(sel: Seq<u8>, enc: Seq<u8>, term: Seq<u8>, text: Seq<char>)
    requires
        forall|i: int| 0 <= i < sel.len() ==> is_ascii_alphanumeric_byte(#[trigger] sel[i]),
        enc.len() > 0,
        forall|i: int| 0 <= i < enc.len() ==> is_base64_byte(#[trigger] enc[i]),
        sel.len() + 1 + enc.len() <= MAX_OSC52_ENCODED_BYTES,
        term == seq![0x07u8] || term == seq![0x1bu8, 0x5cu8],
        base64_standard_decode(enc) == Some(encode_utf8(text)),
    ensures
        scan(OSC52_PREFIX@ + sel + seq![0x3bu8] + enc + term) == (Osc52Scan {
            rest: Seq::empty(),
            texts: seq![text],
            dropped_oversized: false,
        }),
{
    let payload = sel + seq![0x3bu8] + enc;
    let p = OSC52_PREFIX@ + payload + term;
    assert(p =~= OSC52_PREFIX@ + sel + seq![0x3bu8] + enc + term);
    let e: int = 5 + payload.len() as int;
    assert(p[0] == 0x1b && p[1] == 0x5d && p[2] == 0x35 && p[3] == 0x32 && p[4] == 0x3b);
    assert(prefix_at(p, 0));
    assert(find_introducer(p, 0) == Some(0int));
    assert(p.skip(0) =~= p);
    // The first terminator is the one that ends the request.
    assert forall|j: int| 5 <= j < e implies #[trigger] terminator_len(p, j) == 0 by {
        let k = j - 5;
        assert(p[j] == payload[k]);
        if k < sel.len() {
            assert(payload[k] == sel[k]);
        } else if k > sel.len() {
            assert(payload[k] == enc[k - sel.len() - 1]);
        }
    }
    assert(p[e] == term[0]);
    if term.len() == 2 {
        assert(p[e + 1] == term[1]);
    }
    assert(terminator_len(p, e) == term.len());
    lemma_find_terminator(p, 5);
    match find_terminator(p, 5) {
        Some(f) => {
            if f < e {
                assert(terminator_len(p, f) == 0);
            } else if f > e {
                assert(terminator_len(p, e) == 0);
            }
        },
        None => {
            assert(terminator_len(p, e) == 0);
        },
    }
    assert(p.subrange(5, e) =~= payload);
    assert(p.skip(e + term.len()) =~= Seq::<u8>::empty());
    // The payload carries `enc` after the separator.
    lemma_find_byte(payload, 0x3b, 0);
    assert(payload[sel.len() as int] == 0x3b);
    assert forall|j: int| 0 <= j < sel.len() implies #[trigger] payload[j] != 0x3b by {
        assert(payload[j] == sel[j]);
    }
    match find_byte(payload, 0x3b, 0) {
        Some(i) => {
            if i > sel.len() {
                assert(payload[sel.len() as int] != 0x3b);
            }
        },
        None => {
            assert(payload[sel.len() as int] != 0x3b);
        },
    }
    assert(payload.skip(sel.len() as int + 1) =~= enc);
    lemma_filter_keeps_all(enc);
    assert(!(enc =~= seq![0x3fu8])) by {
        if enc =~= seq![0x3fu8] {
            assert(is_base64_byte(enc[0]));
        }
    }
    assert(encoded_clipboard_data(payload) == Some(enc));
    encode_utf8_valid_utf8(text);
    encode_utf8_decode_utf8(text);
    assert(clipboard_text(payload) == Some(text));
    let empty = Seq::<u8>::empty();
    assert(find_introducer(empty, 0) is None);
    assert(empty.skip(0) =~= empty);
    assert(scan(empty).rest =~= empty);
    assert(scan(empty).texts =~= Seq::<Seq<char>>::empty());
    assert(texts_of(Some(text)) + Seq::<Seq<char>>::empty() =~= seq![text]);
}


/// A scan throws away an unfinished request only when it is longer than the
/// introducer and a full payload: the output then holds an introducer with
/// more than `5 + MAX_OSC52_ENCODED_BYTES` bytes from its start to the end.
pub proof fn lemma_drop_only_oversized(p: Seq<u8>)
    ensures
        scan(p).dropped_oversized ==> exists|s: int|
            0 <= s && #[trigger] prefix_at(p, s) && p.len() - s > 5 + MAX_OSC52_ENCODED_BYTES,
    decreases p.len(),
{
    lemma_find_introducer(p, 0);
    match find_introducer(p, 0) {
        None => {},
        Some(s) => {
            let q = p.skip(s);
            lemma_find_terminator(q, 5);
            match find_terminator(q, 5) {
                None => {
                    if scan(p).dropped_oversized {
                        assert(prefix_at(p, s));
                    }
                },
                Some(e) => {
                    let k = s + e + terminator_len(q, e);
                    let r = q.skip(e + terminator_len(q, e));
                    assert(r =~= p.skip(k));
                    lemma_drop_only_oversized(r);
                    if scan(p).dropped_oversized {
                        assert(scan(r).dropped_oversized);
                        let t = choose|t: int|
                            0 <= t && #[trigger] prefix_at(r, t) && r.len() - t > 5
                                + MAX_OSC52_ENCODED_BYTES;
                        assert(r[t] == p[k + t] && r[t + 1] == p[k + t + 1] && r[t + 2] == p[k + t
                            + 2] && r[t + 3] == p[k + t + 3] && r[t + 4] == p[k + t + 4]);
                        assert(prefix_at(p, k + t));
                    }
                },
            }
        },
    }
}

/// A complete request whose payload fits the limit yields its text and
/// leaves nothing kept when it arrives in two reads, split at any point
/// within its first `5 + MAX_OSC52_ENCODED_BYTES` bytes.
pub proof fn lemma_split_request(
    sel: Seq<u8>,
    enc: Seq<u8>,
    term: Seq<u8>,
    text: Seq<char>,
    k: int,
)
    requires
        forall|i: int| 0 <= i < sel.len() ==> is_ascii_alphanumeric_byte(#[trigger] sel[i]),
        enc.len() > 0,
        forall|i: int| 0 <= i < enc.len() ==> is_base64_byte(#[trigger] enc[i]),
        sel.len() + 1 + enc.len() <= MAX_OSC52_ENCODED_BYTES,
        term == seq![0x07u8] || term == seq![0x1bu8, 0x5cu8],
        base64_standard_decode(enc) == Some(encode_utf8(text)),
        0 <= k <= 5 + sel.len() + 1 + enc.len() + term.len(),
        k <= 5 + MAX_OSC52_ENCODED_BYTES,
    ensures
        ({
            let x = OSC52_PREFIX@ + sel + seq![0x3bu8] + enc + term;
            let first = scan(x.take(k));
            let second = scan(first.rest + x.skip(k));
            &&& first.texts + second.texts == seq![text]
            &&& second.rest.len() == 0
        }),
{
    let x = OSC52_PREFIX@ + sel + seq![0x3bu8] + enc + term;
    lemma_single_request(sel, enc, term, text);
    lemma_drop_only_oversized(x.take(k));
    assert(!scan(x.take(k)).dropped_oversized);
    lemma_scan_split(x.take(k), x.skip(k));
    assert(x.take(k) + x.skip(k) =~= x);
}

/// Whether a byte is ASCII whitespace: space, tab, line feed, form feed or
/// carriage return.
pub open spec fn is_space_tab_lf_ff_cr(b: u8) -> bool {
    b == 0x20 || b == 0x09 || b == 0x0a || b == 0x0c || b == 0x0d
}

/// The base64 data taken from a request holds no ASCII whitespace.
pub proof fn lemma_data_has_no_whitespace(payload: Seq<u8>)
    ensures
        encoded_clipboard_data(payload) matches Some(data) ==> forall|i: int|
            0 <= i < data.len() ==> !is_space_tab_lf_ff_cr(#[trigger] data[i]),
{
    if let Some(data) = encoded_clipboard_data(payload) {
        lemma_find_byte(payload, 0x3b, 0);
        let sep = find_byte(payload, 0x3b, 0).unwrap();
        let d = payload.skip(sep + 1);
        assert forall|i: int| 0 <= i < data.len() implies !is_space_tab_lf_ff_cr(
            #[trigger] data[i],
        ) by {
            d.lemma_filter_pred(kept_byte(), i);
        }
    }
}

/// ASCII whitespace after the separator is ignored: inserting a space, tab,
/// line feed, form feed or carriage return anywhere after the first `;` of a
/// payload within the limit changes neither the data decoded nor the text.
pub proof fn lemma_whitespace_in_data_ignored(a: Seq<u8>, w: u8, b: Seq<u8>)
    requires
        find_byte(a, 0x3b, 0) is Some,
        is_space_tab_lf_ff_cr(w),
        a.len() + 1 + b.len() <= MAX_OSC52_ENCODED_BYTES,
    ensures
        encoded_clipboard_data(a + seq![w] + b) == encoded_clipboard_data(a + b),
        clipboard_text(a + seq![w] + b) == clipboard_text(a + b),
{
    let with = a + seq![w] + b;
    let without = a + b;
    lemma_find_byte(a, 0x3b, 0);
    let sep = find_byte(a, 0x3b, 0).unwrap();
    lemma_find_byte(with, 0x3b, 0);
    lemma_find_byte(without, 0x3b, 0);
    assert(with[sep] == a[sep] && without[sep] == a[sep]);
    assert forall|j: int| 0 <= j < sep implies with[j] == a[j] && without[j] == a[j] by {}
    match find_byte(with, 0x3b, 0) {
        Some(i) => {
            if i < sep {
                assert(with[i] == a[i]);
            }
        },
        None => {},
    }
    match find_byte(without, 0x3b, 0) {
        Some(i) => {
            if i < sep {
                assert(without[i] == a[i]);
            }
        },
        None => {},
    }
    let head = a.skip(sep + 1);
    assert(with.skip(sep + 1) =~= head + (seq![w] + b));
    assert(without.skip(sep + 1) =~= head + b);
    Seq::filter_distributes_over_add(head, seq![w] + b, kept_byte());
    Seq::filter_distributes_over_add(seq![w], b, kept_byte());
    Seq::filter_distributes_over_add(head, b, kept_byte());
    reveal_with_fuel(Seq::<_>::filter, 2);
    assert(seq![w].drop_last() =~= Seq::<u8>::empty());
    assert(seq![w].filter(kept_byte()) =~= Seq::<u8>::empty());
    assert(head.filter(kept_byte()) + (Seq::<u8>::empty() + b.filter(kept_byte())) =~= head.filter(
        kept_byte(),
    ) + b.filter(kept_byte()));
}


/// What a request's payload yields as data, for a selection without `;`:
/// nothing when the payload is over the limit; otherwise the bytes after the
/// `;` without ASCII whitespace, unless they are empty or the query `?`.
pub proof fn lemma_encoded_data_of_payload(sel: Seq<u8>, data: Seq<u8>)
    requires
        forall|i: int| 0 <= i < sel.len() ==> #[trigger] sel[i] != 0x3b,
    ensures
        ({
            let payload = sel + seq![0x3bu8] + data;
            let kept = data.filter(|b: u8| !is_space_tab_lf_ff_cr(b));
            encoded_clipboard_data(payload) == if payload.len() > MAX_OSC52_ENCODED_BYTES {
                None
            } else if kept.len() == 0 || kept == seq![0x3fu8] {
                None
            } else {
                Some(kept)
            }
        }),
{
    let payload = sel + seq![0x3bu8] + data;
    lemma_find_byte(payload, 0x3b, 0);
    assert(payload[sel.len() as int] == 0x3b);
    assert forall|j: int| 0 <= j < sel.len() implies #[trigger] payload[j] != 0x3b by {
        assert(payload[j] == sel[j]);
    }
    match find_byte(payload, 0x3b, 0) {
        Some(i) => {
            if i > sel.len() {
                assert(payload[sel.len() as int] != 0x3b);
            }
        },
        None => {
            assert(payload[sel.len() as int] != 0x3b);
        },
    }
    assert(payload.skip(sel.len() as int + 1) =~= data);
    let not_space = |b: u8| !is_space_tab_lf_ff_cr(b);
    assert(not_space =~= kept_byte());
}

} // verus!
