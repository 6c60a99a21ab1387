//! `Content-Length` framing of the language server's JSON-RPC messages, on
//! bytes: writing a frame around a body, and finding the next frame's body
//! in what was received. Header lines are read the way `read_line` reads
//! them: up to and including a newline, decoded as UTF-8.
use vstd::prelude::*;
use crate::lsp::{
    classify_header_line, frame_body_length, frame_header, frame_header_text, header_line_kind,
    lemma_frame_header_read_back, HeaderLine, MAX_FRAME_BYTES,
};
use crate::text::{chars_of, index_of_from, string_push};

verus! {

/// Every byte is ASCII.
pub open spec fn is_ascii_bytes(b: Seq<u8>) -> bool {
    forall|i: int| 0 <= i < b.len() ==> #[trigger] b[i] < 128
}

/// ASCII bytes read as the characters they encode.
pub open spec fn ascii_text(b: Seq<u8>) -> Seq<char> {
    b.map_values(|x: u8| x as char)
}

/// What `std::str::from_utf8` makes of bytes that are not all ASCII.
pub uninterp spec fn spec_utf8_text(b: Seq<u8>) -> Option<Seq<char>>;

/// `std::str::from_utf8`: the text the bytes encode, or `None` when they
/// are not valid UTF-8; the result depends on the bytes alone.
#[verifier::external_body]
fn utf8_text(b: &[u8]) -> (r: Option<String>)
    ensures
        match r {
            Some(t) => spec_utf8_text(b@) == Some(t@),
            None => spec_utf8_text(b@) is None,
        },
{
    std::str::from_utf8(b).ok().map(|t| t.to_string())
}

/// The text of one received line: ASCII bytes are their own characters,
/// other bytes are decoded as UTF-8.
pub open spec fn line_text(b: Seq<u8>) -> Option<Seq<char>> {
    if is_ascii_bytes(b) {
        Some(ascii_text(b))
    } else {
        spec_utf8_text(b)
    }
}

fn decode_line(b: &Vec<u8>) -> (r: Option<String>)
    ensures
        match line_text(b@) {
            Some(t) => r matches Some(x) && x@ == t,
            None => r is None,
        },
{
    let mut i: usize = 0;
    let mut ascii = true;
    let mut text = String::new();
    assert(ascii_text(b@.take(0)) =~= Seq::<char>::empty());
    while i < b.len()
        invariant
            i <= b@.len(),
            ascii ==> is_ascii_bytes(b@.take(i as int)) && text@ == ascii_text(b@.take(i as int)),
            !ascii ==> !is_ascii_bytes(b@),
        decreases b@.len() - i,
    {
        if ascii {
            if b[i] < 128 {
                string_push(&mut text, b[i] as char);
                assert(b@.take(i + 1) =~= b@.take(i as int).push(b@[i as int]));
                assert(ascii_text(b@.take(i + 1)) =~= ascii_text(b@.take(i as int)).push(b@[i as int] as char));
            } else {
                ascii = false;
            }
        }
        i = i + 1;
    }
    if ascii {
        assert(b@.take(b@.len() as int) =~= b@);
        Some(text)
    } else {
        utf8_text(b.as_slice())
    }
}

/// Where the line starting at `pos` ends: just after its newline, or at
/// the end of `s`.
pub open spec fn line_end(s: Seq<u8>, pos: int) -> int
    decreases s.len() - pos,
{
    if pos < 0 || pos >= s.len() {
        s.len() as int
    } else if s[pos] == 10u8 {
        pos + 1
    } else {
        line_end(s, pos + 1)
    }
}

/// A line that starts inside `s` ends after its start and within `s`.
pub proof fn lemma_line_end_bounds(s: Seq<u8>, pos: int)
    requires
        0 <= pos < s.len(),
    ensures
        pos < line_end(s, pos) <= s.len(),
    decreases s.len() - pos,
{
    if s[pos] != 10u8 {
        if pos + 1 < s.len() {
            lemma_line_end_bounds(s, pos + 1);
        } else {
            assert(line_end(s, pos + 1) == s.len());
        }
    }
}

/// Reads header lines from `pos` on with the length `cl` seen so far: where
/// the blank line that ends the block leaves off, and the length of the
/// last `Content-Length` header; `None` when the bytes run out first or a
/// line is not text.
pub open spec fn headers_end(s: Seq<u8>, pos: int, cl: Option<usize>) -> Option<(int, Option<usize>)>
    decreases s.len() - pos,
{
    if pos < 0 || pos >= s.len() {
        None
    } else {
        let e = line_end(s, pos);
        proof {
            lemma_line_end_bounds(s, pos);
        }
        match line_text(s.subrange(pos, e)) {
            None => None,
            Some(line) => match header_line_kind(line) {
                HeaderLine::End => Some((e, cl)),
                HeaderLine::ContentLength(v) => headers_end(s, e, v),
                HeaderLine::Other => headers_end(s, e, cl),
            },
        }
    }
}

/// The body of the frame that starts at `pos`, as the range of `s` it
/// occupies: none when the header block is incomplete, names no readable
/// length, names more than `MAX_FRAME_BYTES`, or the body is cut short.
pub open spec fn frame_at(s: Seq<u8>, pos: int) -> Option<(int, int)> {
    match headers_end(s, pos, None) {
        None => None,
        Some((p, cl)) => match cl {
            None => None,
            Some(n) => if n > MAX_FRAME_BYTES || p + n > s.len() {
                None
            } else {
                Some((p, p + n))
            },
        },
    }
}

fn find_line_end(s: &[u8], pos: usize) -> (e: usize)
    requires
        pos < s@.len(),
    ensures
        e == line_end(s@, pos as int),
        pos < e <= s@.len(),
{
    proof {
        lemma_line_end_bounds(s@, pos as int);
    }
    let mut k = pos;
    while k < s.len() && s[k] != 10u8
        invariant
            pos <= k <= s@.len(),
            line_end(s@, k as int) == line_end(s@, pos as int),
        decreases s@.len() - k,
    {
        k = k + 1;
    }
    if k < s.len() {
        k + 1
    } else {
        k
    }
}

fn copy_range(s: &[u8], from: usize, to: usize) -> (r: Vec<u8>)
    requires
        from <= to <= s@.len(),
    ensures
        r@ == s@.subrange(from as int, to as int),
{
    let mut r: Vec<u8> = Vec::new();
    let mut k = from;
    while k < to
        invariant
            from <= k <= to <= s@.len(),
            r@ == s@.subrange(from as int, k as int),
        decreases to - k,
    {
        r.push(s[k]);
        assert(r@ =~= s@.subrange(from as int, k + 1));
        k = k + 1;
    }
    r
}

/// Finds the body of the frame that starts at `pos` in the received bytes
/// `s`: see `frame_at`.
pub fn next_frame(s: &[u8], pos: usize) -> (r: Option<(usize, usize)>)
    ensures
        match frame_at(s@, pos as int) {
            Some((a, b)) => r matches Some((x, y)) && x == a && y == b,
            None => r is None,
        },
{
    let n = s.len();
    if pos >= n {
        return None;
    }
    let mut p = pos;
    let mut cl: Option<usize> = None;
    loop
        invariant
            n == s@.len(),
            pos <= p <= n,
            headers_end(s@, p as int, cl) == headers_end(s@, pos as int, None),
        decreases n - p,
    {
        if p >= n {
            return None;
        }
        let e = find_line_end(s, p);
        let line = copy_range(s, p, e);
        match decode_line(&line) {
            None => {
                return None;
            },
            Some(t) => match classify_header_line(t.as_str()) {
                HeaderLine::End => {
                    return match frame_body_length(cl) {
                        None => None,
                        Some(len) => if len <= n - e {
                            Some((e, e + len))
                        } else {
                            None
                        },
                    };
                },
                HeaderLine::ContentLength(v) => {
                    cl = v;
                    p = e;
                },
                HeaderLine::Other => {
                    p = e;
                },
            },
        }
    }
}

/// The bytes of the header block written before a body of `len` bytes.
pub open spec fn header_bytes(len: usize) -> Seq<u8> {
    frame_header_text(len).map_values(|c: char| c as u8)
}

/// A whole frame: its header block, then the body.
pub open spec fn frame_bytes(body: Seq<u8>) -> Seq<u8> {
    header_bytes(body.len() as usize) + body
}

/// Frames `body` for sending.
pub fn frame_message(body: &[u8]) -> (r: Vec<u8>)
    requires
        body@.len() <= usize::MAX,
    ensures
        r@ == frame_bytes(body@),
{
    let header = frame_header(body.len());
    let cs = chars_of(header.as_str());
    let mut r: Vec<u8> = Vec::new();
    let mut i: usize = 0;
    while i < cs.len()
        invariant
            i <= cs@.len(),
            cs@ == frame_header_text(body@.len() as usize),
            r@ == cs@.take(i as int).map_values(|c: char| c as u8),
        decreases cs@.len() - i,
    {
        r.push(cs[i] as u8);
        assert(cs@.take(i + 1) =~= cs@.take(i as int).push(cs@[i as int]));
        assert(r@ =~= cs@.take(i + 1).map_values(|c: char| c as u8));
        i = i + 1;
    }
    assert(cs@.take(cs@.len() as int) =~= cs@);
    let mut k: usize = 0;
    let ghost hb = r@;
    while k < body.len()
        invariant
            k <= body@.len(),
            hb == header_bytes(body@.len() as usize),
            r@ == hb + body@.take(k as int),
        decreases body@.len() - k,
    {
        r.push(body[k]);
        assert(r@ =~= hb + body@.take(k + 1));
        k = k + 1;
    }
    assert(body@.take(body@.len() as int) =~= body@);
    r
}

proof fn lemma_ascii_char_round_trip(c: char)
    requires
        (c as u32) < 128,
    ensures
        ((c as u8) as char) == c,
{
}

proof fn lemma_line_end_at(s: Seq<u8>, pos: int, q: int)
    requires
        0 <= pos <= q < s.len(),
        s[q] == 10u8,
        forall|j: int| pos <= j < q ==> #[trigger] s[j] != 10u8,
    ensures
        line_end(s, pos) == q + 1,
    decreases q - pos,
{
    if pos < q {
        lemma_line_end_at(s, pos + 1, q);
    }
}

/// A frame written for `body` and placed at `pos` in a stream `s` (with
/// anything before or after it) reads back as exactly that body, ending
/// where the frame ends.
pub proof fn lemma_frame_read_back(pre: Seq<u8>, body: Seq<u8>, rest: Seq<u8>)
    requires
        body.len() <= MAX_FRAME_BYTES,
    ensures
        ({
            let s = pre + frame_bytes(body) + rest;
            let start = (pre.len() + header_bytes(body.len() as usize).len()) as int;
            &&& frame_at(s, pre.len() as int) == Some((start, start + body.len()))
            &&& s.subrange(start, start + body.len()) == body
        }),
{
    let len = body.len() as usize;
    lemma_frame_header_read_back(len);
    let h = frame_header_text(len);
    let hb = header_bytes(len);
    let i = index_of_from(h, '\n', 0);
    let s = pre + frame_bytes(body) + rest;
    let pos = pre.len() as int;
    assert(s =~= pre + hb + body + rest);
    assert forall|j: int| 0 <= j < hb.len() implies #[trigger] s[pos + j] == hb[j] by {
        let t = pre + hb;
        assert(t[pos + j] == hb[j]);
        assert(s[pos + j] == t[pos + j]);
    }
    assert(hb.len() == h.len());
    assert(i < h.len());
    assert forall|j: int| 0 <= j < hb.len() implies (#[trigger] hb[j] as char) == h[j] by {
        assert(hb[j] == h[j] as u8);
        lemma_ascii_char_round_trip(h[j]);
    }
    // The first line: up to the newline after the length.
    assert forall|j: int| pos <= j < pos + i implies #[trigger] s[j] != 10u8 by {
        assert(s[j] == hb[j - pos]);
        assert(h[j - pos] != '\n');
    }
    assert(s.len() == pre.len() + hb.len() + body.len() + rest.len());
    assert(s[pos + i] == hb[i]);
    lemma_line_end_at(s, pos, pos + i);
    let l1 = s.subrange(pos, pos + i + 1);
    assert(l1 =~= hb.take(i + 1));
    assert(is_ascii_bytes(l1));
    assert(ascii_text(l1) =~= h.take(i + 1));
    // The second line: the blank one.
    let e1 = pos + i + 1;
    assert(h.len() == i + 3);
    assert(s[e1] == hb[i + 1]);
    assert(s[e1] != 10u8) by {
        assert(h[i + 1] == h.skip(i + 1)[0]);
    }
    assert(s[e1 + 1] == hb[i + 2]);
    assert(h[i + 2] == h.skip(i + 1)[1]);
    lemma_line_end_at(s, e1, e1 + 1);
    let l2 = s.subrange(e1, e1 + 2);
    assert(l2 =~= hb.skip(i + 1));
    assert(is_ascii_bytes(l2));
    assert(ascii_text(l2) =~= h.skip(i + 1));
    let end = pos + hb.len();
    assert(headers_end(s, e1, Some(len)) == Some((end, Some(len))));
    assert(headers_end(s, pos, None) == headers_end(s, e1, Some(len)));
    assert(s.subrange(end, end + body.len()) =~= body);
}

/// Two frames written one after the other read back as their two bodies in
/// turn, each read ending where its frame ends, and then nothing is left
/// to read.
pub proof fn lemma_two_frames_read_back(b1: Seq<u8>, b2: Seq<u8>)
    requires
        b1.len() <= MAX_FRAME_BYTES,
        b2.len() <= MAX_FRAME_BYTES,
    ensures
        ({
            let s = frame_bytes(b1) + frame_bytes(b2);
            let f1 = frame_bytes(b1).len() as int;
            &&& frame_at(s, 0) matches Some((a, b)) && b == f1 && s.subrange(a, b) == b1
            &&& frame_at(s, f1) matches Some((a, b)) && b == s.len() && s.subrange(a, b) == b2
            &&& frame_at(s, s.len() as int) is None
        }),
{
    let s = frame_bytes(b1) + frame_bytes(b2);
    lemma_frame_read_back(Seq::empty(), b1, frame_bytes(b2));
    assert(Seq::<u8>::empty() + frame_bytes(b1) + frame_bytes(b2) =~= s);
    lemma_frame_read_back(frame_bytes(b1), b2, Seq::empty());
    assert(frame_bytes(b1) + frame_bytes(b2) + Seq::<u8>::empty() =~= s);
}

} // verus!
