//! Extraction of OSC 52 clipboard requests from a terminal's output stream.
//!
//! A program running in the terminal asks for text to be copied by writing
//! `ESC ] 52 ; <selection> ; <base64 data>` followed by BEL or by `ESC \`.
//! The parser keeps the bytes that may still belong to an unfinished request
//! between reads, so a request split over several reads is still found.
use vstd::prelude::*;
use vstd::utf8::*;
use base64::Engine;

verus! {

/// The OSC 52 introducer `ESC ] 5 2 ;`.
pub const OSC52_PREFIX: [u8; 5] = [0x1b, 0x5d, 0x35, 0x32, 0x3b];

/// Largest payload (selection, separator and encoded data) that is decoded.
pub const MAX_OSC52_ENCODED_BYTES: usize = 4 * 1024 * 1024;

/// Position `k` holds `b`, or lies past the end of `p`.
pub open spec fn byte_is(p: Seq<u8>, k: int, b: u8) -> bool {
    k >= p.len() || p[k] == b
}

/// The bytes of `p` from `i` on (at least one) agree with the introducer for
/// as long as both last: a request may start at `i`.
pub open spec fn partial_prefix_at(p: Seq<u8>, i: int) -> bool {
    &&& 0 <= i < p.len()
    &&& byte_is(p, i, 0x1b)
    &&& byte_is(p, i + 1, 0x5d)
    &&& byte_is(p, i + 2, 0x35)
    &&& byte_is(p, i + 3, 0x32)
    &&& byte_is(p, i + 4, 0x3b)
}

/// The whole introducer stands in `p` at `i`.
pub open spec fn prefix_at(p: Seq<u8>, i: int) -> bool {
    i + 5 <= p.len() && partial_prefix_at(p, i)
}

/// The first position at or after `from` where the introducer stands.
pub open spec fn find_introducer(p: Seq<u8>, from: int) -> Option<int>
    decreases p.len() - from,
{
    if from < 0 || from + 5 > p.len() {
        None
    } else if prefix_at(p, from) {
        Some(from)
    } else {
        find_introducer(p, from + 1)
    }
}

/// Length of the longest proper beginning of the introducer (one to four
/// bytes) that `p` ends with, or 0.
pub open spec fn retained_len(p: Seq<u8>) -> int {
    if p.len() >= 4 && partial_prefix_at(p, p.len() - 4) {
        4
    } else if p.len() >= 3 && partial_prefix_at(p, p.len() - 3) {
        3
    } else if p.len() >= 2 && partial_prefix_at(p, p.len() - 2) {
        2
    } else if p.len() >= 1 && partial_prefix_at(p, p.len() - 1) {
        1
    } else {
        0
    }
}

/// Length of the string terminator at `j`: 1 for BEL, 2 for `ESC \`, 0 when
/// none stands there.
pub open spec fn terminator_len(q: Seq<u8>, j: int) -> int {
    if 0 <= j < q.len() && q[j] == 0x07 {
        1
    } else if 0 <= j && j + 1 < q.len() && q[j] == 0x1b && q[j + 1] == 0x5c {
        2
    } else {
        0
    }
}

/// The first position at or after `from` where a terminator stands.
pub open spec fn find_terminator(q: Seq<u8>, from: int) -> Option<int>
    decreases q.len() - from,
{
    if from < 0 || from >= q.len() {
        None
    } else if terminator_len(q, from) > 0 {
        Some(from)
    } else {
        find_terminator(q, from + 1)
    }
}

/// The first position at or after `from` that holds `b`.
pub open spec fn find_byte(s: Seq<u8>, b: u8, from: int) -> Option<int>
    decreases s.len() - from,
{
    if from < 0 || from >= s.len() {
        None
    } else if s[from] == b {
        Some(from)
    } else {
        find_byte(s, b, from + 1)
    }
}

/// ASCII whitespace as `u8::is_ascii_whitespace` defines it: space, tab,
/// line feed, form feed and carriage return.
pub open spec fn is_ascii_whitespace_byte(b: u8) -> bool {
    b == 0x20 || b == 0x09 || b == 0x0a || b == 0x0c || b == 0x0d
}

/// The bytes kept of the encoded data: all but ASCII whitespace.
pub open spec fn kept_byte() -> spec_fn(u8) -> bool {
    |b: u8| !is_ascii_whitespace_byte(b)
}

/// The base64 data of a request's payload, to be decoded: what follows the
/// first `;`, without ASCII whitespace. There is none when the payload is
/// too large, has no `;`, or the data is empty or the query `?`.
pub open spec fn encoded_clipboard_data(payload: Seq<u8>) -> Option<Seq<u8>> {
    if payload.len() > MAX_OSC52_ENCODED_BYTES {
        None
    } else {
        match find_byte(payload, 0x3b, 0) {
            None => None,
            Some(sep) => {
                let encoded = payload.skip(sep + 1).filter(kept_byte());
                if encoded.len() == 0 || encoded =~= seq![0x3fu8] {
                    None
                } else {
                    Some(encoded)
                }
            },
        }
    }
}

/// The text of decoded clipboard bytes: present when they are UTF-8.
pub open spec fn text_of_decoded(decoded: Option<Seq<u8>>) -> Option<Seq<char>> {
    match decoded {
        Some(d) => if valid_utf8(d) {
            Some(decode_utf8(d))
        } else {
            None
        },
        None => None,
    }
}

/// What `base64::engine::general_purpose::STANDARD.decode` gives for the
/// input: the decoded bytes, or `None` where it returns an error.
pub uninterp spec fn base64_standard_decode(input: Seq<u8>) -> Option<Seq<u8>>;

/// What `base64::engine::general_purpose::STANDARD.encode` gives for the
/// input: its padded standard-alphabet encoding.
pub uninterp spec fn base64_standard_encode(input: Seq<u8>) -> Seq<char>;

/// The clipboard text that a request's payload carries, if any.
pub open spec fn clipboard_text(payload: Seq<u8>) -> Option<Seq<char>> {
    match encoded_clipboard_data(payload) {
        Some(encoded) => text_of_decoded(base64_standard_decode(encoded)),
        None => None,
    }
}

/// The bytes held by an optional vector.
pub open spec fn opt_bytes(v: Option<Vec<u8>>) -> Option<Seq<u8>> {
    match v {
        Some(b) => Some(b@),
        None => None,
    }
}

/// Zero or one text, as a sequence.
pub open spec fn texts_of(text: Option<Seq<char>>) -> Seq<Seq<char>> {
    match text {
        Some(t) => seq![t],
        None => Seq::empty(),
    }
}

/// The outcome of scanning buffered output: the bytes kept for the next
/// read, the texts found in order, and whether an unfinished request was
/// thrown away for being too large.
pub struct Osc52Scan {
    pub rest: Seq<u8>,
    pub texts: Seq<Seq<char>>,
    pub dropped_oversized: bool,
}

/// The search for an introducer finds the first one at or after `from`.
pub proof fn lemma_find_introducer(p: Seq<u8>, from: int)
    requires
        0 <= from,
    ensures
        match find_introducer(p, from) {
            Some(s) => from <= s && prefix_at(p, s) && forall|j: int|
                from <= j < s ==> !#[trigger] prefix_at(p, j),
            None => forall|j: int| from <= j ==> !#[trigger] prefix_at(p, j),
        },
    decreases p.len() - from,
{
    if from + 5 <= p.len() && !prefix_at(p, from) {
        lemma_find_introducer(p, from + 1);
    }
}

/// The search for a terminator finds the first one at or after `from`, and
/// it ends within the buffer.
pub proof fn lemma_find_terminator(q: Seq<u8>, from: int)
    requires
        0 <= from,
    ensures
        match find_terminator(q, from) {
            Some(e) => from <= e < q.len() && 0 < terminator_len(q, e) && e + terminator_len(q, e)
                <= q.len() && forall|j: int| from <= j < e ==> #[trigger] terminator_len(q, j) == 0,
            None => forall|j: int| from <= j ==> #[trigger] terminator_len(q, j) == 0,
        },
    decreases q.len() - from,
{
    if from < q.len() && terminator_len(q, from) == 0 {
        lemma_find_terminator(q, from + 1);
    }
}

/// Scans buffered output from its start: skips to the first introducer,
/// decodes the request that a terminator closes, and goes on after it. What
/// is kept is the unfinished request, or the end of the buffer that may begin
/// an introducer.
pub open spec fn scan(p: Seq<u8>) -> Osc52Scan
    decreases p.len(),
{
    match find_introducer(p, 0) {
        None => Osc52Scan {
            rest: p.skip(p.len() - retained_len(p)),
            texts: Seq::empty(),
            dropped_oversized: false,
        },
        Some(s) => {
            let q = p.skip(s);
            match find_terminator(q, 5) {
                None => if q.len() > 5 + MAX_OSC52_ENCODED_BYTES {
                    Osc52Scan { rest: Seq::empty(), texts: Seq::empty(), dropped_oversized: true }
                } else {
                    Osc52Scan { rest: q, texts: Seq::empty(), dropped_oversized: false }
                },
                Some(e) => {
                    proof {
                        lemma_find_introducer(p, 0);
                        lemma_find_terminator(q, 5);
                    }
                    let next = scan(q.skip(e + terminator_len(q, e)));
                    Osc52Scan {
                        rest: next.rest,
                        texts: texts_of(clipboard_text(q.subrange(5, e))) + next.texts,
                        dropped_oversized: next.dropped_oversized,
                    }
                },
            }
        },
    }
}


/// Calls `base64::engine::general_purpose::STANDARD.decode` on the bytes.
/// Claims only that the result is the named decoding of the input, with an
/// error turned into `None`.
#[verifier::external_body]
fn decode_base64_standard(input: &[u8]) -> (decoded: Option<Vec<u8>>)
    ensures
        opt_bytes(decoded) == base64_standard_decode(input@),
{
    base64::engine::general_purpose::STANDARD.decode(input).ok()
}

/// Calls `base64::engine::general_purpose::STANDARD.encode` on the bytes.
/// Claims that the result is the named encoding of the input, and that the
/// same engine's `decode` gives the input back from the encoding's bytes
/// (the round trip that the crate documents and tests). The call panics
/// where the encoded length overflows `usize`, which `requires` leaves out.
#[verifier::external_body]
fn encode_base64_standard(input: &[u8]) -> (encoded: String)
    requires
        input@.len() / 3 * 4 + 4 <= usize::MAX,
    ensures
        encoded@ == base64_standard_encode(input@),
        base64_standard_decode(encode_utf8(encoded@)) == Some(input@),
{
    base64::engine::general_purpose::STANDARD.encode(input)
}

/// Calls `String::from_utf8`. Claims what its documentation says: it
/// succeeds exactly on valid UTF-8, and the string holds the decoded chars.
#[verifier::external_body]
fn string_from_utf8(bytes: Vec<u8>) -> (text: Option<String>)
    ensures
        text is Some <==> valid_utf8(bytes@),
        text matches Some(t) ==> t@ == decode_utf8(bytes@),
{
    String::from_utf8(bytes).ok()
}

/// The base64 data of a request's payload, or `None` when the request is to
/// be ignored.
pub fn osc52_encoded_data(payload: &[u8]) -> (encoded: Option<Vec<u8>>)
    ensures
        opt_bytes(encoded) == encoded_clipboard_data(payload@),
{
    let n = payload.len();
    if n > MAX_OSC52_ENCODED_BYTES {
        return None;
    }
    let mut sep: usize = 0;
    while sep < n
        invariant
            sep <= n,
            n == payload@.len(),
            find_byte(payload@, 0x3b, 0) == find_byte(payload@, 0x3b, sep as int),
        ensures
            sep <= n,
            find_byte(payload@, 0x3b, 0) == find_byte(payload@, 0x3b, sep as int),
            sep < n ==> payload@[sep as int] == 0x3b,
        decreases n - sep,
    {
        if payload[sep] == 0x3b {
            break;
        }
        sep = sep + 1;
    }
    if sep == n {
        return None;
    }
    let ghost data = payload@.skip(sep + 1);
    let mut encoded: Vec<u8> = Vec::new();
    let mut i: usize = sep + 1;
    while i < n
        invariant
            sep < n,
            sep + 1 <= i <= n,
            n == payload@.len(),
            data == payload@.skip(sep + 1),
            encoded@ == data.take(i - sep - 1).filter(kept_byte()),
        decreases n - i,
    {
        let b = payload[i];
        proof {
            reveal_with_fuel(Seq::<_>::filter, 1);
            assert(data.take(i - sep) .drop_last() =~= data.take(i - sep - 1));
            assert(data.take(i - sep).last() == b);
        }
        if !(b == 0x20 || b == 0x09 || b == 0x0a || b == 0x0c || b == 0x0d) {
            encoded.push(b);
        }
        i = i + 1;
    }
    assert(data.take(n - sep - 1) =~= data);
    if encoded.len() == 0 || (encoded.len() == 1 && encoded[0] == 0x3f) {
        assert(encoded.len() == 1 ==> encoded@ =~= seq![0x3fu8]);
        None
    } else {
        assert(encoded.len() != 1 ==> encoded@.len() != seq![0x3fu8].len());
        Some(encoded)
    }
}

/// The clipboard text of decoded bytes: `Some` exactly when they are UTF-8.
pub fn clipboard_text_from_decoded(decoded: Option<Vec<u8>>) -> (text: Option<String>)
    ensures
        text.deep_view() == text_of_decoded(opt_bytes(decoded)),
{
    match decoded {
        Some(bytes) => string_from_utf8(bytes),
        None => None,
    }
}

/// The clipboard text that a request's payload carries, if any.
pub fn osc52_clipboard_text(payload: &[u8]) -> (text: Option<String>)
    ensures
        text.deep_view() == clipboard_text(payload@),
{
    match osc52_encoded_data(payload) {
        Some(encoded) => clipboard_text_from_decoded(decode_base64_standard(encoded.as_slice())),
        None => None,
    }
}


/// An optional index, as an integer.
pub open spec fn opt_int(i: Option<usize>) -> Option<int> {
    match i {
        Some(k) => Some(k as int),
        None => None,
    }
}

fn introducer_at(p: &Vec<u8>, i: usize) -> (r: bool)
    requires
        i + 5 <= p@.len(),
    ensures
        r == prefix_at(p@, i as int),
{
    let n = p.len();
    p[i] == 0x1b && p[i + 1] == 0x5d && p[i + 2] == 0x35 && p[i + 3] == 0x32 && p[i + 4] == 0x3b
}

fn find_introducer_exec(p: &Vec<u8>) -> (r: Option<usize>)
    ensures
        opt_int(r) == find_introducer(p@, 0),
{
    let n = p.len();
    if n < 5 {
        return None;
    }
    let mut i: usize = 0;
    while i <= n - 5
        invariant
            n == p@.len(),
            n >= 5,
            i <= n - 4,
            find_introducer(p@, 0) == find_introducer(p@, i as int),
        decreases n - i,
    {
        if introducer_at(p, i) {
            return Some(i);
        }
        i = i + 1;
    }
    None
}

fn partial_introducer_at(p: &Vec<u8>, i: usize) -> (r: bool)
    requires
        i < p@.len(),
    ensures
        r == partial_prefix_at(p@, i as int),
{
    let n = p.len();
    let left = n - i;
    p[i] == 0x1b && (left <= 1 || p[i + 1] == 0x5d) && (left <= 2 || p[i + 2] == 0x35) && (left
        <= 3 || p[i + 3] == 0x32) && (left <= 4 || p[i + 4] == 0x3b)
}

fn retained_len_exec(p: &Vec<u8>) -> (r: usize)
    ensures
        r as int == retained_len(p@),
{
    let n = p.len();
    if n >= 4 && partial_introducer_at(p, n - 4) {
        4
    } else if n >= 3 && partial_introducer_at(p, n - 3) {
        3
    } else if n >= 2 && partial_introducer_at(p, n - 2) {
        2
    } else if n >= 1 && partial_introducer_at(p, n - 1) {
        1
    } else {
        0
    }
}

fn terminator_len_exec(q: &Vec<u8>, j: usize) -> (r: usize)
    requires
        j < q@.len(),
    ensures
        r as int == terminator_len(q@, j as int),
{
    let n = q.len();
    if q[j] == 0x07 {
        1
    } else if j + 1 < n && q[j] == 0x1b && q[j + 1] == 0x5c {
        2
    } else {
        0
    }
}

fn find_terminator_exec(q: &Vec<u8>, from: usize) -> (r: Option<usize>)
    ensures
        opt_int(r) == find_terminator(q@, from as int),
{
    let n = q.len();
    let mut j = from;
    while j < n
        invariant
            n == q@.len(),
            from <= j,
            find_terminator(q@, from as int) == find_terminator(q@, j as int),
        decreases n - j,
    {
        if terminator_len_exec(q, j) > 0 {
            return Some(j);
        }
        j = j + 1;
    }
    None
}

fn copy_range(p: &Vec<u8>, from: usize, to: usize) -> (r: Vec<u8>)
    requires
        from <= to <= p@.len(),
    ensures
        r@ == p@.subrange(from as int, to as int),
{
    let mut r: Vec<u8> = Vec::new();
    let mut i = from;
    while i < to
        invariant
            from <= i <= to <= p@.len(),
            r@ == p@.subrange(from as int, i as int),
        decreases to - i,
    {
        r.push(p[i]);
        i = i + 1;
    }
    r
}

/// Collects clipboard requests from terminal output that arrives in pieces.
pub struct Osc52ClipboardParser {
    /// Output kept from earlier reads that may begin, or is, an unfinished
    /// request.
    pub pending: Vec<u8>,
}

impl Default for Osc52ClipboardParser {
    fn default() -> (parser: Self)
        ensures
            parser.pending@ == Seq::<u8>::empty(),
    {
        Osc52ClipboardParser { pending: Vec::new() }
    }
}

impl Osc52ClipboardParser {
    /// A parser with nothing buffered.
    pub fn new() -> (parser: Self)
        ensures
            parser.pending@ == Seq::<u8>::empty(),
    {
        Osc52ClipboardParser { pending: Vec::new() }
    }

    /// Takes the next piece of terminal output and returns the clipboard
    /// texts of the requests it completes, in order. Keeps what may still
    /// belong to an unfinished request; an unfinished request that has grown
    /// past the payload limit is thrown away.
    pub fn consume(&mut self, bytes: &[u8]) -> (texts: Vec<String>)
        requires
            old(self).pending@.len() + bytes@.len() <= usize::MAX,
        ensures
            final(self).pending@ == scan(old(self).pending@ + bytes@).rest,
            texts.deep_view() == scan(old(self).pending@ + bytes@).texts,
            final(self).pending@.len() <= 5 + MAX_OSC52_ENCODED_BYTES,
    {
        let ghost total = self.pending@ + bytes@;
        let mut k: usize = 0;
        while k < bytes.len()
            invariant
                k <= bytes@.len(),
                self.pending@ == old(self).pending@ + bytes@.subrange(0, k as int),
                total == old(self).pending@ + bytes@,
                old(self).pending@.len() + bytes@.len() <= usize::MAX,
            decreases bytes@.len() - k,
        {
            self.pending.push(bytes[k]);
            k = k + 1;
        }
        assert(bytes@.subrange(0, bytes@.len() as int) =~= bytes@);
        let mut texts: Vec<String> = Vec::new();
        loop
            invariant_except_break
                scan(total).texts =~= texts.deep_view() + scan(self.pending@).texts,
                scan(total).rest == scan(self.pending@).rest,
            ensures
                self.pending@ == scan(total).rest,
                texts.deep_view() =~= scan(total).texts,
            decreases self.pending@.len(),
        {
            let ghost p = self.pending@;
            proof {
                lemma_find_introducer(p, 0);
            }
            match find_introducer_exec(&self.pending) {
                None => {
                    let keep = retained_len_exec(&self.pending);
                    let at = self.pending.len() - keep;
                    self.pending = self.pending.split_off(at);
                    assert(self.pending@ =~= p.skip(p.len() - retained_len(p)));
                    break;
                },
                Some(s) => {
                    self.pending = self.pending.split_off(s);
                    let ghost q = self.pending@;
                    assert(q =~= p.skip(s as int));
                    proof {
                        lemma_find_terminator(q, 5);
                    }
                    match find_terminator_exec(&self.pending, 5) {
                        None => {
                            if self.pending.len() > 5 + MAX_OSC52_ENCODED_BYTES {
                                self.pending = Vec::new();
                            }
                            break;
                        },
                        Some(e) => {
                            let n = self.pending.len();
                            let tl = terminator_len_exec(&self.pending, e);
                            let payload = copy_range(&self.pending, 5, e);
                            let text = osc52_clipboard_text(payload.as_slice());
                            let ghost before = texts.deep_view();
                            match text {
                                Some(t) => {
                                    texts.push(t);
                                    assert(texts.deep_view() =~= before.push(t@));
                                },
                                None => {},
                            }
                            self.pending = self.pending.split_off(e + tl);
                            assert(self.pending@ =~= q.skip(e + tl));
                        },
                    }
                },
            }
        }
        proof {
            lemma_scan_rest_bounded(total);
        }
        texts
    }
}

/// Handles one read of terminal output: hands it to the parser, which gives
/// the clipboard texts it completes, and encodes the bytes read for the
/// front end, which decodes exactly those bytes from it.
pub fn process_output(parser: &mut Osc52ClipboardParser, bytes: &[u8]) -> (r: (Vec<String>, String))
    requires
        old(parser).pending@.len() + bytes@.len() <= usize::MAX,
        bytes@.len() / 3 * 4 + 4 <= usize::MAX,
    ensures
        final(parser).pending@ == scan(old(parser).pending@ + bytes@).rest,
        r.0.deep_view() == scan(old(parser).pending@ + bytes@).texts,
        r.1@ == base64_standard_encode(bytes@),
        base64_standard_decode(encode_utf8(r.1@)) == Some(bytes@),
{
    let texts = parser.consume(bytes);
    let encoded = encode_base64_standard(bytes);
    (texts, encoded)
}

/// What a scan keeps never exceeds the introducer and a full payload.
pub proof fn lemma_scan_rest_bounded(p: Seq<u8>)
    ensures
        scan(p).rest.len() <= 5 + MAX_OSC52_ENCODED_BYTES,
    decreases p.len(),
{
    lemma_find_introducer(p, 0);
    match find_introducer(p, 0) {
        None => {},
        Some(s) => {
            let q = p.skip(s);
            lemma_find_terminator(q, 5);
            match find_terminator(q, 5) {
                None => {},
                Some(e) => {
                    lemma_scan_rest_bounded(q.skip(e + terminator_len(q, e)));
                },
            }
        },
    }
}

} // verus!
