use crate::packet::PacketErr;
use crate::text::{chars_to_string, copy_range, crlf_at, crlf_free, find_char, find_char_vec,
    lemma_find_char, str_to_chars};
use vstd::prelude::*;

verus! {

/// An HTTP header: an ordered key/value pair.
///
/// Multi-line (wrapped) headers are rejected: a header is always one line.
#[derive(Clone, Debug, Eq, PartialEq)]
pub struct Header {
    pub key: String,
    pub value: String,
}

/// The mathematical content of a header.
pub struct HeaderView {
    pub key: Seq<char>,
    pub value: Seq<char>,
}

impl View for Header {
    type V = HeaderView;

    open spec fn view(&self) -> HeaderView {
        HeaderView { key: self.key@, value: self.value@ }
    }
}

impl DeepView for Header {
    type V = HeaderView;

    open spec fn deep_view(&self) -> HeaderView {
        self@
    }
}

/// Split a raw line at its first colon: everything before is the key,
/// everything after — untrimmed, so a separator space stays in the value —
/// is the value. A line without a colon is no header.
pub open spec fn spec_header_from_line(line: Seq<char>) -> Option<HeaderView> {
    let i = find_char(line, ':');
    if i < 0 {
        None
    } else {
        Some(HeaderView { key: line.take(i), value: line.skip(i + 1) })
    }
}

/// The wire line of a header: `key`, a colon and a space, then `value`.
pub open spec fn spec_header_line(h: HeaderView) -> Seq<char> {
    h.key + seq![':', ' '] + h.value
}

impl Header {
    /// Parse a `Key: Value` line, splitting at the first colon.
    ///
    /// The text after the colon is kept verbatim, leading whitespace
    /// included.
    pub fn try_from(s: &str) -> (r: Result<Header, PacketErr>)
        ensures
            match spec_header_from_line(s@) {
                Some(h) => r matches Ok(hh) && hh@ == h,
                None => r matches Err(e) && e matches PacketErr::MalformedHeader(l) && l@ == s@,
            },
    {
        let chars = str_to_chars(s);
        match find_char_vec(&chars, ':') {
            Some(i) => {
                proof {
                    lemma_find_char(chars@, ':');
                    assert((i as int) < chars@.len());
                }
                let key = copy_range(&chars, 0, i);
                let value = copy_range(&chars, i + 1, chars.len());
                proof {
                    assert(chars@.subrange(0, i as int) =~= chars@.take(i as int));
                    assert(chars@.subrange(i + 1, chars@.len() as int) =~= chars@.skip(i + 1));
                }
                Ok(Header { key: chars_to_string(&key), value: chars_to_string(&value) })
            },
            None => Err(PacketErr::MalformedHeader(String::from_str(s))),
        }
    }

    /// The wire line, e.g. `Key: SomeValue`.
    pub fn to_string(&self) -> (r: String)
        ensures
            r@ == spec_header_line(self@),
    {
        let mut v = str_to_chars(self.key.as_str());
        v.push(':');
        v.push(' ');
        let tail = str_to_chars(self.value.as_str());
        crate::text::append_chars(&mut v, &tail);
        proof {
            assert(v@ =~= spec_header_line(self@));
        }
        chars_to_string(&v)
    }
}


/// Parsing a rendered header line gives back the key, and the value with
/// the separator space folded in front of it.
pub proof fn lemma_header_line_parse(h: HeaderView)
    requires
        find_char(h.key, ':') == -1,
    ensures
        spec_header_from_line(spec_header_line(h)) == Some(
            HeaderView { key: h.key, value: seq![' '] + h.value },
        ),
{
    let line = spec_header_line(h);
    let kl = h.key.len() as int;
    lemma_find_char(h.key, ':');
    lemma_find_char(line, ':');
    assert(line[kl] == ':');
    let f = find_char(line, ':');
    if f == -1 {
        assert(line[kl] != ':');
    } else if f < kl {
        assert(line[f] == h.key[f]);
        assert(h.key[f] != ':');
    } else if f > kl {
        assert(line[kl] != ':');
    }
    assert(f == kl);
    assert(line.take(kl) =~= h.key);
    assert(line.skip(kl + 1) =~= seq![' '] + h.value);
}

/// A header line of CRLF-free key and value is itself CRLF-free.
pub proof fn lemma_header_line_crlf_free(h: HeaderView)
    requires
        crlf_free(h.key),
        crlf_free(h.value),
    ensures
        crlf_free(spec_header_line(h)),
{
    let line = spec_header_line(h);
    let kl = h.key.len() as int;
    assert forall|i: int| !crlf_at(line, i) by {
        if crlf_at(line, i) {
            if i + 1 < kl {
                assert(line[i] == h.key[i] && line[i + 1] == h.key[i + 1]);
                assert(crlf_at(h.key, i));
            } else if i + 1 == kl {
                assert(line[i + 1] == h.key[i + 1]);
            } else if i == kl {
                assert(line[i] == ':');
            } else if i == kl + 1 {
                assert(line[i] == ' ');
            } else {
                assert(line[i] == h.value[i - kl - 2] && line[i + 1] == h.value[i - kl - 1]);
                assert(crlf_at(h.value, i - kl - 2));
            }
        }
    }
}

} // verus!
