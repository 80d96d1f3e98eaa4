use crate::packet::PacketErr;
use crate::text::{chars_eq_str, split_ws, split_ws_vec, str_to_chars, ws_free};
use vstd::prelude::*;

verus! {

/// Supported HTTP versions.
#[derive(Clone, Copy, Debug, PartialEq, Eq, Structural)]
pub enum Version {
    /// Unlike HTTP versions 1.0 and 1.1, version 0.9 is not mentioned in the
    /// first line of the packet.
    ///
    /// For example, `GET /api` would be interpreted as HTTP/0.9. The only
    /// indication of the version considered here is the first line of the
    /// packet.
    V0_9,
    /// HTTP/1.0
    V1_0,
    /// HTTP/1.1
    V1_1,
}

/// The wire representation of a version: V0_9 is never written explicitly.
pub open spec fn spec_version_str(v: Version) -> Seq<char> {
    match v {
        Version::V0_9 => Seq::<char>::empty(),
        Version::V1_0 => "HTTP/1.0"@,
        Version::V1_1 => "HTTP/1.1"@,
    }
}

/// The version a request start line names: two tokens mean HTTP/0.9, three
/// tokens mean the third must be a version literal, and any other token
/// count is rejected.
pub open spec fn spec_version_from_req_line(line: Seq<char>) -> Result<Version, PacketErr> {
    let toks = split_ws(line);
    if toks.len() == 2 {
        Ok(Version::V0_9)
    } else if toks.len() != 3 {
        Err(PacketErr::FirstLineWordCountMismatch)
    } else if toks[2] == "HTTP/1.1"@ {
        Ok(Version::V1_1)
    } else if toks[2] == "HTTP/1.0"@ {
        Ok(Version::V1_0)
    } else {
        Err(PacketErr::InvalidHttpVersion)
    }
}

/// The version a response status line names: its first token must be a
/// version literal. HTTP/0.9 responses have no status line at all.
pub open spec fn spec_version_from_res_line(line: Seq<char>) -> Result<Version, PacketErr> {
    let toks = split_ws(line);
    if toks.len() == 0 {
        Err(PacketErr::InvalidHttpVersion)
    } else if toks[0] == "HTTP/1.1"@ {
        Ok(Version::V1_1)
    } else if toks[0] == "HTTP/1.0"@ {
        Ok(Version::V1_0)
    } else {
        Err(PacketErr::InvalidHttpVersion)
    }
}

impl Version {
    /// The wire representation: `""`, `"HTTP/1.0"` or `"HTTP/1.1"`.
    pub fn to_string(&self) -> (r: String)
        ensures
            r@ == spec_version_str(*self),
    {
        match self {
            Version::V0_9 => String::new(),
            Version::V1_0 => String::from_str("HTTP/1.0"),
            Version::V1_1 => String::from_str("HTTP/1.1"),
        }
    }

    /// Take the first line of the header and determine the HTTP version.
    /// Version 0.9 does not specify a version (e.g. `GET /some/path`).
    pub fn try_from_first_line(first_line: &str) -> (r: Result<Version, PacketErr>)
        ensures
            r == spec_version_from_req_line(first_line@),
    {
        let chars = str_to_chars(first_line);
        let toks = split_ws_vec(&chars);
        proof {
            assert(toks.deep_view().len() == toks@.len());
        }
        if toks.len() == 2 {
            Ok(Version::V0_9)
        } else if toks.len() != 3 {
            Err(PacketErr::FirstLineWordCountMismatch)
        } else {
            proof {
                crate::text::lemma_dv_index(&toks, 2);
            }
            if chars_eq_str(&toks[2], "HTTP/1.1") {
                Ok(Version::V1_1)
            } else if chars_eq_str(&toks[2], "HTTP/1.0") {
                Ok(Version::V1_0)
            } else {
                Err(PacketErr::InvalidHttpVersion)
            }
        }
    }

    /// Take the status line of a response and determine the HTTP version
    /// from its first token.
    pub fn try_from_first_res_line(first_line: &str) -> (r: Result<Version, PacketErr>)
        ensures
            r == spec_version_from_res_line(first_line@),
    {
        let chars = str_to_chars(first_line);
        let toks = split_ws_vec(&chars);
        proof {
            assert(toks.deep_view().len() == toks@.len());
        }
        if toks.len() == 0 {
            Err(PacketErr::InvalidHttpVersion)
        } else {
            proof {
                crate::text::lemma_dv_index(&toks, 0);
            }
            if chars_eq_str(&toks[0], "HTTP/1.1") {
                Ok(Version::V1_1)
            } else if chars_eq_str(&toks[0], "HTTP/1.0") {
                Ok(Version::V1_0)
            } else {
                Err(PacketErr::InvalidHttpVersion)
            }
        }
    }
}


/// The version literals are whitespace-free words; only V0_9 renders empty.
pub proof fn lemma_version_token(v: Version)
    ensures
        ws_free(spec_version_str(v)),
        (v is V0_9) ==> spec_version_str(v).len() == 0,
        (v is V1_0 || v is V1_1) ==> spec_version_str(v).len() >= 1,
{
    reveal_strlit("HTTP/1.0");
    reveal_strlit("HTTP/1.1");
    assert(ws_free(spec_version_str(v)));
}

/// A start line whose tokens are a method word, a url and this version's
/// literal names exactly this version.
pub proof fn lemma_version_from_tokens(v: Version, toks: Seq<Seq<char>>, line: Seq<char>)
    requires
        split_ws(line) == toks,
        (v is V0_9) ==> toks.len() == 2,
        (v is V1_0 || v is V1_1) ==> toks.len() == 3 && toks[2] == spec_version_str(v),
    ensures
        spec_version_from_req_line(line) == Ok::<Version, PacketErr>(v),
{
    reveal_strlit("HTTP/1.0");
    reveal_strlit("HTTP/1.1");
    if v is V1_0 {
        assert("HTTP/1.0"@[7] == '0' && "HTTP/1.1"@[7] == '1');
        assert(toks[2] != "HTTP/1.1"@);
    }
}

} // verus!
