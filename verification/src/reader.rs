//! Reading one message from a sequential byte source: scanning to a CRLF or
//! CRLF CRLF terminator, and framing a full packet whose body length a
//! Content-Length header announces.

use crate::text::{copy_range, find_char, find_char_vec, lemma_dv_index, lemma_find_char,
    lines_vec, parse_usize_chars, parse_usize_ok, parse_usize_val, spec_lines, str_to_chars,
    trim, trim_vec};
use vstd::prelude::*;
use vstd::utf8::{decode_utf8, valid_utf8};

verus! {

/// A sequential source of bytes: they come one at a time, in order, until
/// the source is exhausted. No buffering, seeking or total length is
/// assumed.
pub trait ByteSource {
    /// The bytes still to come.
    spec fn remaining(&self) -> Seq<u8>;

    /// Read one byte; `None` means the source is exhausted.
    fn read_byte(&mut self) -> (r: Option<u8>)
        ensures
            (if old(self).remaining().len() > 0 {
                r == Some(old(self).remaining()[0]) && final(self).remaining() == old(self).remaining().drop_first()
            } else {
                (r is None) && final(self).remaining() == old(self).remaining()
            }),
    ;
}

/// A byte source backed by a buffer held in memory.
pub struct MemSource {
    data: Vec<u8>,
    pos: usize,
}

impl MemSource {
    /// A source that yields exactly the bytes of `data`.
    pub fn new(data: Vec<u8>) -> (r: MemSource)
        ensures
            r.remaining() == data@,
    {
        let ghost d = data@;
        let r = MemSource { data, pos: 0 };
        proof {
            assert(r.remaining() =~= d);
        }
        r
    }
}

impl ByteSource for MemSource {
    closed spec fn remaining(&self) -> Seq<u8> {
        if self.pos <= self.data@.len() {
            self.data@.skip(self.pos as int)
        } else {
            Seq::<u8>::empty()
        }
    }

    fn read_byte(&mut self) -> (r: Option<u8>) {
        if self.pos < self.data.len() {
            let b = self.data[self.pos];
            self.pos = self.pos + 1;
            proof {
                assert(old(self).remaining()[0] == b);
                assert(old(self).remaining().drop_first() =~= self.remaining());
            }
            Some(b)
        } else {
            proof {
                assert(old(self).remaining().len() == 0);
            }
            None
        }
    }
}

// ===== terminator scanning =====

/// A CRLF byte pair starts at position `i` of `s`.
pub open spec fn crlf_bytes_at(s: Seq<u8>, i: int) -> bool {
    0 <= i && i + 2 <= s.len() && s[i] == 13 && s[i + 1] == 10
}

/// The index of the first CRLF byte pair in `s`, or -1.
pub open spec fn find_crlf_bytes(s: Seq<u8>) -> int
    decreases s.len(),
{
    if s.len() < 2 {
        -1
    } else if s[0] == 13 && s[1] == 10 {
        0
    } else {
        let r = find_crlf_bytes(s.drop_first());
        if r < 0 {
            -1
        } else {
            r + 1
        }
    }
}

pub proof fn lemma_find_crlf_bytes(s: Seq<u8>)
    ensures
        -1 <= find_crlf_bytes(s),
        find_crlf_bytes(s) == -1 ==> forall|i: int| !crlf_bytes_at(s, i),
        find_crlf_bytes(s) >= 0 ==> crlf_bytes_at(s, find_crlf_bytes(s)),
        find_crlf_bytes(s) >= 0 ==> forall|j: int|
            0 <= j < find_crlf_bytes(s) ==> !crlf_bytes_at(s, j),
    decreases s.len(),
{
    if s.len() < 2 {
    } else if s[0] == 13 && s[1] == 10 {
    } else {
        lemma_find_crlf_bytes(s.drop_first());
        let r = find_crlf_bytes(s.drop_first());
        if r == -1 {
            assert forall|i: int| !crlf_bytes_at(s, i) by {
                if crlf_bytes_at(s, i) {
                    assert(i >= 1);
                    assert(crlf_bytes_at(s.drop_first(), i - 1));
                }
            }
        } else {
            assert(crlf_bytes_at(s.drop_first(), r));
            assert(crlf_bytes_at(s, r + 1));
            assert forall|j: int| 0 <= j < r + 1 implies !crlf_bytes_at(s, j) by {
                if j >= 1 && crlf_bytes_at(s, j) {
                    assert(crlf_bytes_at(s.drop_first(), j - 1));
                }
            }
        }
    }
}

/// A CRLF CRLF terminator starts at position `i` of `s`.
pub open spec fn double_crlf_at(s: Seq<u8>, i: int) -> bool {
    0 <= i && i + 4 <= s.len() && s[i] == 13 && s[i + 1] == 10 && s[i + 2] == 13 && s[i + 3]
        == 10
}

/// The index of the first CRLF CRLF terminator in `s`, or -1.
pub open spec fn find_double_crlf(s: Seq<u8>) -> int
    decreases s.len(),
{
    if s.len() < 4 {
        -1
    } else if s[0] == 13 && s[1] == 10 && s[2] == 13 && s[3] == 10 {
        0
    } else {
        let r = find_double_crlf(s.drop_first());
        if r < 0 {
            -1
        } else {
            r + 1
        }
    }
}

pub proof fn lemma_find_double_crlf(s: Seq<u8>)
    ensures
        -1 <= find_double_crlf(s),
        find_double_crlf(s) == -1 ==> forall|i: int| !double_crlf_at(s, i),
        find_double_crlf(s) >= 0 ==> double_crlf_at(s, find_double_crlf(s)),
        find_double_crlf(s) >= 0 ==> forall|j: int|
            0 <= j < find_double_crlf(s) ==> !double_crlf_at(s, j),
    decreases s.len(),
{
    if s.len() < 4 {
    } else if s[0] == 13 && s[1] == 10 && s[2] == 13 && s[3] == 10 {
    } else {
        lemma_find_double_crlf(s.drop_first());
        let r = find_double_crlf(s.drop_first());
        if r == -1 {
            assert forall|i: int| !double_crlf_at(s, i) by {
                if double_crlf_at(s, i) {
                    assert(i >= 1);
                    assert(double_crlf_at(s.drop_first(), i - 1));
                }
            }
        } else {
            assert(double_crlf_at(s.drop_first(), r));
            assert(double_crlf_at(s, r + 1));
            assert forall|j: int| 0 <= j < r + 1 implies !double_crlf_at(s, j) by {
                if j >= 1 && double_crlf_at(s, j) {
                    assert(double_crlf_at(s.drop_first(), j - 1));
                }
            }
        }
    }
}

/// Read until the two most recent bytes are CRLF; the terminator is
/// included in the result. If the source is exhausted first, everything
/// read so far is returned — that is not an error.
pub fn read_until_crlf<R: ByteSource>(reader: &mut R) -> (r: Vec<u8>)
    ensures
        ({
            let rem = old(reader).remaining();
            let f = find_crlf_bytes(rem);
            &&& (f >= 0 ==> r@ == rem.take(f + 2) && final(reader).remaining() == rem.skip(
                f + 2,
            ))
            &&& (f < 0 ==> r@ == rem && final(reader).remaining().len() == 0)
        }),
{
    let ghost rem = reader.remaining();
    let mut buf: Vec<u8> = Vec::new();
    let mut done = false;
    let mut found = false;
    proof {
        assert(rem.take(0) =~= Seq::<u8>::empty());
        assert(rem.skip(0) =~= rem);
    }
    while !done
        invariant
            rem == old(reader).remaining(),
            buf@.len() <= rem.len(),
            buf@ == rem.take(buf@.len() as int),
            reader.remaining() == rem.skip(buf@.len() as int),
            forall|j: int|
                0 <= j && j + 2 <= buf@.len() && j != buf@.len() - 2 ==> !crlf_bytes_at(rem, j),
            !done ==> !found,
            !done ==> (buf@.len() < 2 || !crlf_bytes_at(rem, buf@.len() - 2)),
            done ==> (found <==> (buf@.len() >= 2 && crlf_bytes_at(rem, buf@.len() - 2))),
            (done && !found) ==> buf@.len() == rem.len(),
        decreases rem.len() - buf@.len(), (if done {
            0int
        } else {
            1int
        }),
    {
        match reader.read_byte() {
            None => {
                proof {
                    assert(rem.skip(buf@.len() as int).len() == 0);
                }
                done = true;
            },
            Some(b) => {
                proof {
                    assert(rem.skip(buf@.len() as int)[0] == rem[buf@.len() as int]);
                    assert(rem.skip(buf@.len() as int).drop_first() =~= rem.skip(
                        buf@.len() as int + 1,
                    ));
                }
                let ghost oldlen = buf@.len() as int;
                buf.push(b);
                proof {
                    assert(buf@ =~= rem.take(oldlen + 1));
                }
                let n = buf.len();
                if n >= 2 && buf[n - 2] == 13 && buf[n - 1] == 10 {
                    proof {
                        assert(crlf_bytes_at(rem, n - 2));
                    }
                    found = true;
                    done = true;
                }
            },
        }
    }
    proof {
        lemma_find_crlf_bytes(rem);
        let f = find_crlf_bytes(rem);
        if found {
            let p = buf@.len() - 2;
            if f == -1 {
                assert(!crlf_bytes_at(rem, p));
            } else if f < p {
                assert(!crlf_bytes_at(rem, f));
            } else if f > p {
                assert(!crlf_bytes_at(rem, p));
            }
            assert(f == p);
        } else {
            if f >= 0 {
                assert(crlf_bytes_at(rem, f));
                if f == buf@.len() - 2 {
                } else {
                    assert(!crlf_bytes_at(rem, f));
                }
            }
            assert(f < 0);
            assert(buf@ =~= rem);
        }
    }
    buf
}

/// Read until the four most recent bytes are CRLF CRLF; the terminator is
/// included in the result. If the source is exhausted first, everything
/// read so far is returned — that is not an error.
pub fn read_until_double_crlf<R: ByteSource>(reader: &mut R) -> (r: Vec<u8>)
    ensures
        ({
            let rem = old(reader).remaining();
            let f = find_double_crlf(rem);
            &&& (f >= 0 ==> r@ == rem.take(f + 4) && final(reader).remaining() == rem.skip(
                f + 4,
            ))
            &&& (f < 0 ==> r@ == rem && final(reader).remaining().len() == 0)
        }),
{
    let ghost rem = reader.remaining();
    let mut buf: Vec<u8> = Vec::new();
    let mut done = false;
    let mut found = false;
    proof {
        assert(rem.take(0) =~= Seq::<u8>::empty());
        assert(rem.skip(0) =~= rem);
    }
    while !done
        invariant
            rem == old(reader).remaining(),
            buf@.len() <= rem.len(),
            buf@ == rem.take(buf@.len() as int),
            reader.remaining() == rem.skip(buf@.len() as int),
            forall|j: int|
                0 <= j && j + 4 <= buf@.len() && j != buf@.len() - 4 ==> !double_crlf_at(
                    rem,
                    j,
                ),
            !done ==> !found,
            !done ==> (buf@.len() < 4 || !double_crlf_at(rem, buf@.len() - 4)),
            done ==> (found <==> (buf@.len() >= 4 && double_crlf_at(rem, buf@.len() - 4))),
            (done && !found) ==> buf@.len() == rem.len(),
        decreases rem.len() - buf@.len(), (if done {
            0int
        } else {
            1int
        }),
    {
        match reader.read_byte() {
            None => {
                proof {
                    assert(rem.skip(buf@.len() as int).len() == 0);
                }
                done = true;
            },
            Some(b) => {
                proof {
                    assert(rem.skip(buf@.len() as int)[0] == rem[buf@.len() as int]);
                    assert(rem.skip(buf@.len() as int).drop_first() =~= rem.skip(
                        buf@.len() as int + 1,
                    ));
                }
                let ghost oldlen = buf@.len() as int;
                buf.push(b);
                proof {
                    assert(buf@ =~= rem.take(oldlen + 1));
                }
                let n = buf.len();
                if n >= 4 && buf[n - 4] == 13 && buf[n - 3] == 10 && buf[n - 2] == 13 && buf[n
                    - 1] == 10 {
                    proof {
                        assert(double_crlf_at(rem, n - 4));
                    }
                    found = true;
                    done = true;
                }
            },
        }
    }
    proof {
        lemma_find_double_crlf(rem);
        let f = find_double_crlf(rem);
        if found {
            let p = buf@.len() - 4;
            if f == -1 {
                assert(!double_crlf_at(rem, p));
            } else if f < p {
                assert(!double_crlf_at(rem, f));
            } else if f > p {
                assert(!double_crlf_at(rem, p));
            }
            assert(f == p);
        } else {
            if f >= 0 {
                assert(double_crlf_at(rem, f));
                if f == buf@.len() - 4 {
                } else {
                    assert(!double_crlf_at(rem, f));
                }
            }
            assert(f < 0);
            assert(buf@ =~= rem);
        }
    }
    buf
}


// ===== full packets =====

/// The class of a reader error: the stream ended too early, or the data
/// itself is malformed.
#[derive(Clone, Copy, Debug, PartialEq, Eq, Structural)]
pub enum ReadErrKind {
    UnexpectedEof,
    InvalidData,
}

/// An error of the stream reader. Its taxonomy is distinct from the packet
/// engine's errors: a caller combining both translates explicitly.
#[derive(Clone, Copy, Debug, PartialEq, Eq, Structural)]
pub enum ReadErr {
    /// The source ran out before the CRLF CRLF header terminator was found.
    EofInHeaders,
    /// The source ran out before the announced body length was reached.
    EofInBody { expected: usize, received: usize },
    /// The header or body bytes do not decode as text.
    NotText,
    /// The Content-Length value is not a non-negative integer.
    BadContentLength,
}

/// The class an error falls under.
pub open spec fn spec_read_err_kind(e: ReadErr) -> ReadErrKind {
    match e {
        ReadErr::EofInHeaders => ReadErrKind::UnexpectedEof,
        ReadErr::EofInBody { .. } => ReadErrKind::UnexpectedEof,
        ReadErr::NotText => ReadErrKind::InvalidData,
        ReadErr::BadContentLength => ReadErrKind::InvalidData,
    }
}

impl ReadErr {
    /// The class of this error: end of stream, or malformed data.
    pub fn kind(&self) -> (r: ReadErrKind)
        ensures
            r == spec_read_err_kind(*self),
    {
        match self {
            ReadErr::EofInHeaders => ReadErrKind::UnexpectedEof,
            ReadErr::EofInBody { .. } => ReadErrKind::UnexpectedEof,
            ReadErr::NotText => ReadErrKind::InvalidData,
            ReadErr::BadContentLength => ReadErrKind::InvalidData,
        }
    }
}

/// Relies on `String::from_utf8`: it succeeds exactly on valid UTF-8 input
/// and yields the string of those bytes.
#[verifier::external_body]
fn bytes_to_string(v: Vec<u8>) -> (r: Option<String>)
    ensures
        match r {
            Some(s) => valid_utf8(v@) && s@ == decode_utf8(v@),
            None => !valid_utf8(v@),
        },
{
    match String::from_utf8(v) {
        Ok(s) => Some(s),
        Err(_) => None,
    }
}

/// A line that names the Content-Length header: the name matched without
/// regard to ASCII case, then a colon.
pub open spec fn is_cl_line(l: Seq<char>) -> bool {
    &&& l.len() >= 15
    &&& (l[0] == 'c' || l[0] == 'C')
    &&& (l[1] == 'o' || l[1] == 'O')
    &&& (l[2] == 'n' || l[2] == 'N')
    &&& (l[3] == 't' || l[3] == 'T')
    &&& (l[4] == 'e' || l[4] == 'E')
    &&& (l[5] == 'n' || l[5] == 'N')
    &&& (l[6] == 't' || l[6] == 'T')
    &&& l[7] == '-'
    &&& (l[8] == 'l' || l[8] == 'L')
    &&& (l[9] == 'e' || l[9] == 'E')
    &&& (l[10] == 'n' || l[10] == 'N')
    &&& (l[11] == 'g' || l[11] == 'G')
    &&& (l[12] == 't' || l[12] == 'T')
    &&& (l[13] == 'h' || l[13] == 'H')
    &&& l[14] == ':'
}

/// Whether the line names the Content-Length header.
fn is_cl_line_vec(l: &Vec<char>) -> (r: bool)
    ensures
        r == is_cl_line(l@),
{
    if l.len() < 15 {
        return false;
    }
    (l[0] == 'c' || l[0] == 'C') && (l[1] == 'o' || l[1] == 'O') && (l[2] == 'n' || l[2]
        == 'N') && (l[3] == 't' || l[3] == 'T') && (l[4] == 'e' || l[4] == 'E') && (l[5] == 'n'
        || l[5] == 'N') && (l[6] == 't' || l[6] == 'T') && l[7] == '-' && (l[8] == 'l' || l[8]
        == 'L') && (l[9] == 'e' || l[9] == 'E') && (l[10] == 'n' || l[10] == 'N') && (l[11]
        == 'g' || l[11] == 'G') && (l[12] == 't' || l[12] == 'T') && (l[13] == 'h' || l[13]
        == 'H') && l[14] == ':'
}

/// The index of the first Content-Length line at or after `k`, or -1.
pub open spec fn find_cl_line(ls: Seq<Seq<char>>, k: int) -> int
    decreases ls.len() - k,
{
    if k < 0 || k >= ls.len() {
        -1
    } else if is_cl_line(ls[k]) {
        k
    } else {
        find_cl_line(ls, k + 1)
    }
}

pub proof fn lemma_find_cl_line(ls: Seq<Seq<char>>, k: int)
    requires
        0 <= k,
    ensures
        -1 <= find_cl_line(ls, k),
        find_cl_line(ls, k) == -1 ==> forall|i: int|
            k <= i < ls.len() ==> !is_cl_line(#[trigger] ls[i]),
        find_cl_line(ls, k) >= 0 ==> k <= find_cl_line(ls, k) < ls.len() && is_cl_line(
            ls[find_cl_line(ls, k)],
        ),
        find_cl_line(ls, k) >= 0 ==> forall|j: int|
            k <= j < find_cl_line(ls, k) ==> !is_cl_line(#[trigger] ls[j]),
    decreases ls.len() - k,
{
    if k >= ls.len() {
    } else if is_cl_line(ls[k]) {
    } else {
        lemma_find_cl_line(ls, k + 1);
    }
}

/// Find the first Content-Length line, as [`find_cl_line`] describes.
fn find_cl_line_vec(ls: &Vec<Vec<char>>, k: usize) -> (r: Option<usize>)
    ensures
        match r {
            Some(i) => find_cl_line(ls.deep_view(), k as int) == i as int,
            None => find_cl_line(ls.deep_view(), k as int) == -1,
        },
{
    let mut i: usize = k;
    while i < ls.len()
        invariant
            k <= i,
            i <= ls@.len() || i == k,
            forall|j: int|
                k <= j < i ==> !is_cl_line(#[trigger] ls.deep_view()[j]),
        decreases ls@.len() - i,
    {
        proof {
            lemma_dv_index(ls, i as int);
        }
        if is_cl_line_vec(&ls[i]) {
            proof {
                let dv = ls.deep_view();
                lemma_find_cl_line(dv, k as int);
                let f = find_cl_line(dv, k as int);
                if f == -1 {
                    assert(!is_cl_line(dv[i as int]));
                } else if f < i as int {
                    assert(!is_cl_line(dv[f]));
                } else if f > i as int {
                    assert(!is_cl_line(dv[i as int]));
                }
            }
            return Some(i);
        }
        proof {
            assert(!is_cl_line(ls.deep_view()[i as int]));
        }
        i = i + 1;
    }
    proof {
        let dv = ls.deep_view();
        lemma_find_cl_line(dv, k as int);
        if find_cl_line(dv, k as int) >= 0 {
            assert(!is_cl_line(dv[find_cl_line(dv, k as int)]));
        }
    }
    None
}

/// The Content-Length text of a decoded header block: `None` when no line
/// names one, otherwise the text after the line's first colon, trimmed.
pub open spec fn spec_cl_text(h: Seq<char>) -> Option<Seq<char>> {
    let ls = spec_lines(h);
    let f = find_cl_line(ls, 0);
    if f < 0 {
        None
    } else {
        Some(trim(ls[f].skip(find_char(ls[f], ':') + 1)))
    }
}

/// Read one full message: the header block up to its CRLF CRLF terminator,
/// and, when the first Content-Length header announces one, a body of
/// exactly that many bytes.
///
/// Valid for both request and response packets, but not for HTTP/0.9,
/// whose responses have no CRLF framing. Reaching the end of the stream
/// before the terminator, or before the announced body length, is an
/// error: a truncated body is never returned silently.
pub fn read_full_packet<R: ByteSource>(reader: &mut R) -> (r: Result<
    (String, Option<String>),
    ReadErr,
>)
    ensures
        ({
            let rem = old(reader).remaining();
            let f = find_double_crlf(rem);
            if f < 0 {
                r == Err::<(String, Option<String>), ReadErr>(ReadErr::EofInHeaders) && final(reader).remaining().len() == 0
            } else {
                let hbytes = rem.take(f + 4);
                let rest = rem.skip(f + 4);
                if !valid_utf8(hbytes) {
                    r == Err::<(String, Option<String>), ReadErr>(ReadErr::NotText) && final(reader).remaining() == rest
                } else {
                    let h = decode_utf8(hbytes);
                    match spec_cl_text(h) {
                        None => (match r {
                            Ok(p) => p.0@ == h && (p.1 is None) && final(reader).remaining()
                                == rest,
                            Err(_) => false,
                        }),
                        Some(t) => {
                            if !parse_usize_ok(t) {
                                r == Err::<(String, Option<String>), ReadErr>(
                                    ReadErr::BadContentLength,
                                ) && final(reader).remaining() == rest
                            } else {
                                let n = parse_usize_val(t);
                                if rest.len() < n {
                                    r == Err::<(String, Option<String>), ReadErr>(
                                        ReadErr::EofInBody {
                                            expected: n as usize,
                                            received: rest.len() as usize,
                                        },
                                    ) && final(reader).remaining().len() == 0
                                } else {
                                    let bbytes = rest.take(n);
                                    if !valid_utf8(bbytes) {
                                        r == Err::<(String, Option<String>), ReadErr>(
                                            ReadErr::NotText,
                                        ) && final(reader).remaining() == rest.skip(n)
                                    } else {
                                        match r {
                                            Ok(p) => p.0@ == h && (p.1 matches Some(bs)
                                                && bs@ == decode_utf8(bbytes)) && final(reader).remaining() == rest.skip(n),
                                            Err(_) => false,
                                        }
                                    }
                                }
                            }
                        },
                    }
                }
            }
        }),
{
    let ghost rem = reader.remaining();
    let hdr = read_until_double_crlf(reader);
    let ghost f = find_double_crlf(rem);
    proof {
        lemma_find_double_crlf(rem);
    }
    let hl = hdr.len();
    let terminated = hl >= 4 && hdr[hl - 4] == 13 && hdr[hl - 3] == 10 && hdr[hl - 2] == 13
        && hdr[hl - 1] == 10;
    if !terminated {
        proof {
            if f >= 0 {
                assert(double_crlf_at(rem, f));
                assert(hdr@.len() == f + 4);
                assert(hdr@[f] == 13 && hdr@[f + 1] == 10 && hdr@[f + 2] == 13 && hdr@[f + 3]
                    == 10);
            }
        }
        return Err(ReadErr::EofInHeaders);
    }
    proof {
        if f < 0 {
            assert(hdr@ == rem);
            assert(double_crlf_at(rem, hl - 4));
        }
        assert(f >= 0);
        assert(hdr@ == rem.take(f + 4));
    }
    let ghost rest = rem.skip(f + 4);
    let hs = match bytes_to_string(hdr) {
        None => {
            return Err(ReadErr::NotText);
        },
        Some(x) => x,
    };
    let hchars = str_to_chars(hs.as_str());
    let ls = lines_vec(&hchars);
    proof {
        assert(ls.deep_view() == spec_lines(hs@));
    }
    match find_cl_line_vec(&ls, 0) {
        None => {
            proof {
                assert(spec_cl_text(hs@) is None);
            }
            Ok((hs, None))
        },
        Some(ci) => {
            proof {
                lemma_find_cl_line(ls.deep_view(), 0);
                lemma_dv_index(&ls, ci as int);
            }
            let line = &ls[ci];
            let colon = match find_char_vec(line, ':') {
                Some(c) => c,
                None => {
                    proof {
                        lemma_find_char(line@, ':');
                        assert(line@[14] == ':');
                        assert(false);
                    }
                    unreached()
                },
            };
            proof {
                lemma_find_char(line@, ':');
                assert((colon as int) < line@.len());
            }
            let vtxt = copy_range(line, colon + 1, line.len());
            proof {
                assert(line@.subrange(colon as int + 1, line@.len() as int) =~= line@.skip(
                    colon as int + 1,
                ));
            }
            let vtrim = trim_vec(&vtxt);
            let ghost t = trim(line@.skip(find_char(line@, ':') + 1));
            proof {
                assert(spec_cl_text(hs@) == Some(t));
                assert(vtrim@ == t);
            }
            let n = match parse_usize_chars(&vtrim) {
                None => {
                    return Err(ReadErr::BadContentLength);
                },
                Some(x) => x,
            };
            let mut body_buf: Vec<u8> = Vec::new();
            proof {
                assert(rest.take(0) =~= Seq::<u8>::empty());
            }
            while body_buf.len() < n
                invariant
                    rem == old(reader).remaining(),
                    f == find_double_crlf(rem),
                    f >= 0,
                    f + 4 <= rem.len(),
                    rest == rem.skip(f + 4),
                    valid_utf8(rem.take(f + 4)),
                    hs@ == decode_utf8(rem.take(f + 4)),
                    (spec_cl_text(hs@) matches Some(tt) && parse_usize_ok(tt)
                        && parse_usize_val(tt) == n as int),
                    body_buf@.len() <= n,
                    body_buf@.len() <= rest.len(),
                    body_buf@ == rest.take(body_buf@.len() as int),
                    reader.remaining() == rest.skip(body_buf@.len() as int),
                decreases n - body_buf@.len(),
            {
                match reader.read_byte() {
                    None => {
                        proof {
                            assert(rest.skip(body_buf@.len() as int).len() == 0);
                            assert(rest.len() == body_buf@.len());
                        }
                        return Err(
                            ReadErr::EofInBody { expected: n, received: body_buf.len() },
                        );
                    },
                    Some(b) => {
                        proof {
                            assert(rest.skip(body_buf@.len() as int)[0] == rest[body_buf@.len()
                                as int]);
                            assert(rest.skip(body_buf@.len() as int).drop_first() =~= rest.skip(
                                body_buf@.len() as int + 1,
                            ));
                        }
                        let ghost oldlen = body_buf@.len() as int;
                        body_buf.push(b);
                        proof {
                            assert(body_buf@ =~= rest.take(oldlen + 1));
                        }
                    },
                }
            }
            proof {
                assert(body_buf@.len() == n as int);
            }
            let bs = match bytes_to_string(body_buf) {
                None => {
                    return Err(ReadErr::NotText);
                },
                Some(x) => x,
            };
            Ok((hs, Some(bs)))
        },
    }
}

} // verus!
