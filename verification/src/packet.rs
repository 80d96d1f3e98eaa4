//! Request and response packets: parsing a CRLF-delimited message into a
//! validated packet, and serializing a packet back into wire text.

use crate::obj::body::Body;
use crate::obj::header::{lemma_header_line_crlf_free, lemma_header_line_parse,
    spec_header_from_line, spec_header_line, Header, HeaderView};
use crate::obj::method::{lemma_method_token, spec_method_from_token, spec_method_str, Method};
use crate::obj::status::{spec_status_code_desc, spec_status_from_res_line, StatusCode};
use crate::obj::version::{lemma_version_from_tokens, lemma_version_token,
    spec_version_from_req_line, spec_version_from_res_line, spec_version_str, Version};
use crate::text::{append_chars, chars_to_string, crlf, crlf_at, crlf_free, find_char,
    find_empty_from, find_empty_from_vec, is_ws, join_crlf, lemma_dv_index,
    lemma_find_empty_from, lemma_split_crlf_line, lemma_split_ws_token, lemma_split_ws_whole,
    split_crlf, split_crlf_vec, split_ws, split_ws_vec, str_to_chars, trim, ws_free};
use vstd::prelude::*;

verus! {

/// An error that occurs when building or parsing packets.
#[derive(Clone, Debug, PartialEq, Eq)]
pub enum PacketErr {
    /// HTTP version not specified (in response packets), so the required
    /// fields cannot be validated.
    NoVersionFound,
    /// No status code provided for response packets in HTTP versions that
    /// require it.
    NoStatusCode,
    /// An HTTP/0.9 response packet consists of the body alone, so a missing
    /// body would make the packet empty.
    NoBody,
    /// Not enough lines to parse the packet.
    InvalidLines,
    /// Too few or too many words in the first line.
    FirstLineWordCountMismatch,
    /// The HTTP method is not supported or invalid.
    InvalidMethod,
    /// The HTTP method is missing.
    MissingMethod,
    /// The URL is missing.
    MissingURL,
    /// The version is missing.
    MissingVersion,
    /// The header line cannot be parsed; holds the malformed line.
    MalformedHeader(String),
    /// No CRLF CRLF sequence found in the packet. One is expected even when
    /// there are no headers.
    NoHeaderEndFound,
    /// The HTTP version indicated in the packet is not supported or invalid.
    InvalidHttpVersion,
    /// The first line of a response packet (the status line) is malformed.
    InvalidStatusLine,
}

/// The mathematical content of a packet error: the malformed header line is
/// carried as a character sequence.
pub enum PacketErrView {
    NoVersionFound,
    NoStatusCode,
    NoBody,
    InvalidLines,
    FirstLineWordCountMismatch,
    InvalidMethod,
    MissingMethod,
    MissingURL,
    MissingVersion,
    MalformedHeader(Seq<char>),
    NoHeaderEndFound,
    InvalidHttpVersion,
    InvalidStatusLine,
}

impl View for PacketErr {
    type V = PacketErrView;

    open spec fn view(&self) -> PacketErrView {
        match self {
            PacketErr::NoVersionFound => PacketErrView::NoVersionFound,
            PacketErr::NoStatusCode => PacketErrView::NoStatusCode,
            PacketErr::NoBody => PacketErrView::NoBody,
            PacketErr::InvalidLines => PacketErrView::InvalidLines,
            PacketErr::FirstLineWordCountMismatch => PacketErrView::FirstLineWordCountMismatch,
            PacketErr::InvalidMethod => PacketErrView::InvalidMethod,
            PacketErr::MissingMethod => PacketErrView::MissingMethod,
            PacketErr::MissingURL => PacketErrView::MissingURL,
            PacketErr::MissingVersion => PacketErrView::MissingVersion,
            PacketErr::MalformedHeader(l) => PacketErrView::MalformedHeader(l@),
            PacketErr::NoHeaderEndFound => PacketErrView::NoHeaderEndFound,
            PacketErr::InvalidHttpVersion => PacketErrView::InvalidHttpVersion,
            PacketErr::InvalidStatusLine => PacketErrView::InvalidStatusLine,
        }
    }
}

// ===== request packets =====

/// The mathematical content of a request packet.
pub struct ReqView {
    pub method: Method,
    pub url: Seq<char>,
    pub version: Version,
    pub headers: Seq<HeaderView>,
    pub body: Option<Seq<char>>,
}

/// An HTTP request packet.
///
/// Example:
///
/// ```text
/// GET /index.html HTTP/1.1
/// Host: www.example.com
/// Connection: keep-alive
/// ```
#[derive(Clone, Debug, Eq, PartialEq)]
pub struct RequestPacket {
    pub method: Method,
    /// Aka the resource.
    pub url: String,
    pub version: Version,
    pub headers: Vec<Header>,
    pub body: Option<Body>,
}

impl View for RequestPacket {
    type V = ReqView;

    open spec fn view(&self) -> ReqView {
        ReqView {
            method: self.method,
            url: self.url@,
            version: self.version,
            headers: self.headers.deep_view(),
            body: match self.body {
                Some(b) => Some(b@),
                None => None,
            },
        }
    }
}

/// The header block on the wire: each header line followed by CRLF.
pub open spec fn spec_render_headers(hs: Seq<HeaderView>) -> Seq<char>
    decreases hs.len(),
{
    if hs.len() == 0 {
        Seq::<char>::empty()
    } else {
        spec_header_line(hs[0]) + crlf() + spec_render_headers(hs.drop_first())
    }
}

/// Rendering one more header appends its line and a separator.
pub proof fn lemma_render_headers_push(hs: Seq<HeaderView>, h: HeaderView)
    ensures
        spec_render_headers(hs.push(h)) == spec_render_headers(hs) + spec_header_line(h)
            + crlf(),
    decreases hs.len(),
{
    let q = hs.push(h);
    if hs.len() == 0 {
        assert(q.drop_first() =~= Seq::<HeaderView>::empty());
        assert(q[0] == h);
        assert(spec_render_headers(Seq::<HeaderView>::empty()) == Seq::<char>::empty());
        assert(spec_render_headers(q) == spec_header_line(h) + crlf() + Seq::<char>::empty());
        assert(spec_header_line(h) + crlf() + Seq::<char>::empty() =~= Seq::<char>::empty()
            + spec_header_line(h) + crlf());
    } else {
        lemma_render_headers_push(hs.drop_first(), h);
        assert(q.drop_first() =~= hs.drop_first().push(h));
        assert(q[0] == hs[0]);
        assert(spec_render_headers(q) == spec_header_line(hs[0]) + crlf() + spec_render_headers(
            hs.drop_first().push(h),
        ));
        assert(spec_header_line(hs[0]) + crlf() + (spec_render_headers(hs.drop_first())
            + spec_header_line(h) + crlf()) =~= (spec_header_line(hs[0]) + crlf()
            + spec_render_headers(hs.drop_first())) + spec_header_line(h) + crlf());
    }
}

/// The start line of a request: method, url and version, space-separated.
/// Under HTTP/0.9 the version renders as the empty string, leaving a
/// trailing space before the CRLF.
pub open spec fn spec_req_start_line(m: Method, url: Seq<char>, v: Version) -> Seq<char> {
    spec_method_str(m) + seq![' '] + url + seq![' '] + spec_version_str(v)
}

/// The wire text of a request: start line, header block, one blank line,
/// then the body verbatim with no trailing terminator.
pub open spec fn spec_render_request(r: ReqView) -> Seq<char> {
    spec_req_start_line(r.method, r.url, r.version) + crlf() + spec_render_headers(r.headers)
        + crlf() + (match r.body {
        Some(b) => b,
        None => Seq::<char>::empty(),
    })
}

/// Indexing the element views of a header vector.
pub proof fn lemma_headers_dv_index(v: &Vec<Header>, i: int)
    requires
        0 <= i < v@.len(),
    ensures
        v.deep_view().len() == v@.len(),
        v.deep_view()[i] == v@[i]@,
{
    assert(v.deep_view()[i] == v@[i].deep_view());
}

impl RequestPacket {
    /// Serialize the packet to its wire text. Total and infallible.
    pub fn to_string(&self) -> (r: String)
        ensures
            r@ == spec_render_request(self@),
    {
        let mut acc: Vec<char> = Vec::new();
        let m = self.method.to_string();
        let mtail = str_to_chars(m.as_str());
        append_chars(&mut acc, &mtail);
        acc.push(' ');
        let utail = str_to_chars(self.url.as_str());
        append_chars(&mut acc, &utail);
        acc.push(' ');
        let v = self.version.to_string();
        let vtail = str_to_chars(v.as_str());
        append_chars(&mut acc, &vtail);
        acc.push('\r');
        acc.push('\n');
        proof {
            assert(acc@ =~= spec_req_start_line(self.method, self.url@, self.version)
                + crlf());
        }
        let ghost start = acc@;
        let mut i: usize = 0;
        proof {
            assert(self.headers.deep_view().take(0) =~= Seq::<HeaderView>::empty());
        }
        while i < self.headers.len()
            invariant
                i <= self.headers@.len(),
                acc@ == start + spec_render_headers(self.headers.deep_view().take(i as int)),
            decreases self.headers@.len() - i,
        {
            let ktail = str_to_chars(self.headers[i].key.as_str());
            append_chars(&mut acc, &ktail);
            acc.push(':');
            acc.push(' ');
            let vtail2 = str_to_chars(self.headers[i].value.as_str());
            append_chars(&mut acc, &vtail2);
            acc.push('\r');
            acc.push('\n');
            proof {
                let dv = self.headers.deep_view();
                lemma_headers_dv_index(&self.headers, i as int);
                lemma_render_headers_push(dv.take(i as int), dv[i as int]);
                assert(dv.take(i as int).push(dv[i as int]) =~= dv.take(i + 1));
                assert(acc@ =~= start + (spec_render_headers(dv.take(i as int))
                    + spec_header_line(dv[i as int]) + crlf()));
            }
            i = i + 1;
        }
        proof {
            let dv = self.headers.deep_view();
            assert(dv.take(dv.len() as int) =~= dv);
        }
        acc.push('\r');
        acc.push('\n');
        match &self.body {
            Some(b) => {
                let btail = str_to_chars(b.0.as_str());
                append_chars(&mut acc, &btail);
            },
            None => {},
        }
        proof {
            assert(acc@ =~= spec_render_request(self@));
        }
        chars_to_string(&acc)
    }
}

// ===== request builder =====

/// The mathematical content of a request builder: every field optional.
pub struct ReqBuilderView {
    pub method: Option<Method>,
    pub url: Option<Seq<char>>,
    pub version: Option<Version>,
    pub headers: Option<Seq<HeaderView>>,
    pub body: Option<Seq<char>>,
}

/// Transient accumulator for building request packets; consumed to yield a
/// [`RequestPacket`].
#[derive(Clone, Debug, Eq, PartialEq)]
pub struct RequestPacketBuilder {
    pub method: Option<Method>,
    pub url: Option<String>,
    pub version: Option<Version>,
    pub headers: Option<Vec<Header>>,
    pub body: Option<Body>,
}

impl View for RequestPacketBuilder {
    type V = ReqBuilderView;

    open spec fn view(&self) -> ReqBuilderView {
        ReqBuilderView {
            method: self.method,
            url: match self.url {
                Some(u) => Some(u@),
                None => None,
            },
            version: self.version,
            headers: match self.headers {
                Some(h) => Some(h.deep_view()),
                None => None,
            },
            body: match self.body {
                Some(b) => Some(b@),
                None => None,
            },
        }
    }
}

/// Freezing a builder: the method, url and version are required, a missing
/// header sequence defaults to empty, and the body is kept as it is.
pub open spec fn spec_build_request(b: ReqBuilderView) -> Result<ReqView, PacketErr> {
    match b.method {
        None => Err(PacketErr::MissingMethod),
        Some(m) => match b.url {
            None => Err(PacketErr::MissingURL),
            Some(u) => match b.version {
                None => Err(PacketErr::MissingVersion),
                Some(v) => Ok(
                    ReqView {
                        method: m,
                        url: u,
                        version: v,
                        headers: match b.headers {
                            Some(h) => h,
                            None => Seq::<HeaderView>::empty(),
                        },
                        body: b.body,
                    },
                ),
            },
        },
    }
}

/// Move every header of `src` onto the end of `dst`, keeping the order.
fn append_headers(dst: &mut Vec<Header>, src: Vec<Header>)
    ensures
        final(dst)@ == old(dst)@ + src@,
{
    let ghost src0 = src@;
    let mut rev: Vec<Header> = Vec::new();
    let mut src = src;
    while src.len() > 0
        invariant
            src0 == src@ + rev@.reverse(),
        decreases src@.len(),
    {
        let h = src.pop().unwrap();
        rev.push(h);
        proof {
            assert(src0 =~= src@ + rev@.reverse());
        }
    }
    proof {
        assert(src0 =~= rev@.reverse());
    }
    while rev.len() > 0
        invariant
            old(dst)@ + src0 == dst@ + rev@.reverse(),
        decreases rev@.len(),
    {
        let h = rev.pop().unwrap();
        dst.push(h);
        proof {
            assert(old(dst)@ + src0 =~= dst@ + rev@.reverse());
        }
    }
    proof {
        assert(rev@.reverse() =~= Seq::<Header>::empty());
        assert(final(dst)@ =~= old(dst)@ + src0);
    }
}

impl RequestPacketBuilder {
    /// A builder with no field set.
    pub fn new() -> (r: Self)
        ensures
            (r@.method is None),
            (r@.url is None),
            (r@.version is None),
            (r@.headers is None),
            (r@.body is None),
    {
        RequestPacketBuilder { method: None, url: None, version: None, headers: None, body: None }
    }

    /// URL setter.
    pub fn url(self, url: &str) -> (r: Self)
        ensures
            r@ == (ReqBuilderView { url: Some(url@), ..self@ }),
    {
        RequestPacketBuilder { url: Some(String::from_str(url)), ..self }
    }

    /// Method setter.
    pub fn method(self, method: Method) -> (r: Self)
        ensures
            r@ == (ReqBuilderView { method: Some(method), ..self@ }),
    {
        RequestPacketBuilder { method: Some(method), ..self }
    }

    /// Header setter: instantiates the header list or extends it.
    pub fn headers(self, headers: Vec<Header>) -> (r: Self)
        ensures
            r@ == (ReqBuilderView {
                headers: Some(
                    match self@.headers {
                        Some(h) => h + headers.deep_view(),
                        None => headers.deep_view(),
                    },
                ),
                ..self@
            }),
    {
        let mut me = self;
        match me.headers {
            Some(mut h) => {
                let ghost h0 = h.deep_view();
                let ghost add = headers.deep_view();
                append_headers(&mut h, headers);
                proof {
                    assert(h.deep_view() =~= h0 + add) by {
                        assert(forall|k: int|
                            0 <= k < h@.len() ==> h.deep_view()[k] == h@[k]@);
                    }
                }
                me.headers = Some(h);
            },
            None => {
                me.headers = Some(headers);
            },
        }
        me
    }

    /// Header setter: instantiates the list or adds one more header to it.
    pub fn header(self, header_pair: (&str, &str)) -> (r: Self)
        ensures
            r@ == (ReqBuilderView {
                headers: Some(
                    match self@.headers {
                        Some(h) => h.push(
                            HeaderView { key: header_pair.0@, value: header_pair.1@ },
                        ),
                        None => seq![
                            HeaderView { key: header_pair.0@, value: header_pair.1@ },
                        ],
                    },
                ),
                ..self@
            }),
    {
        let h = Header {
            key: String::from_str(header_pair.0),
            value: String::from_str(header_pair.1),
        };
        let mut me = self;
        match me.headers {
            Some(mut hdrs) => {
                let ghost h0 = hdrs.deep_view();
                hdrs.push(h);
                proof {
                    assert(hdrs.deep_view() =~= h0.push(
                        HeaderView { key: header_pair.0@, value: header_pair.1@ },
                    )) by {
                        assert(forall|k: int|
                            0 <= k < hdrs@.len() ==> hdrs.deep_view()[k] == hdrs@[k]@);
                    }
                }
                me.headers = Some(hdrs);
            },
            None => {
                let v: Vec<Header> = vec![h];
                proof {
                    assert(v.deep_view() =~= seq![
                        HeaderView { key: header_pair.0@, value: header_pair.1@ },
                    ]) by {
                        assert(v.deep_view()[0] == v@[0]@);
                    }
                }
                me.headers = Some(v);
            },
        }
        me
    }

    /// Version setter.
    pub fn version(self, version: Version) -> (r: Self)
        ensures
            r@ == (ReqBuilderView { version: Some(version), ..self@ }),
    {
        RequestPacketBuilder { version: Some(version), ..self }
    }

    /// Body setter.
    pub fn body(self, body: &str) -> (r: Self)
        ensures
            r@ == (ReqBuilderView { body: Some(body@), ..self@ }),
    {
        RequestPacketBuilder { body: Some(Body(String::from_str(body))), ..self }
    }

    /// Try to convert the builder into a request packet. Fails if the
    /// method, URL or version is missing.
    pub fn try_build(self) -> (r: Result<RequestPacket, PacketErr>)
        ensures
            match r {
                Ok(p) => spec_build_request(self@) == Ok::<ReqView, PacketErr>(p@),
                Err(e) => spec_build_request(self@) == Err::<ReqView, PacketErr>(e),
            },
    {
        let me = self;
        match me.method {
            None => Err(PacketErr::MissingMethod),
            Some(method) => match me.url {
                None => Err(PacketErr::MissingURL),
                Some(url) => match me.version {
                    None => Err(PacketErr::MissingVersion),
                    Some(version) => {
                        let headers = match me.headers {
                            Some(h) => h,
                            None => Vec::new(),
                        };
                        proof {
                            if me.headers is None {
                                assert(headers.deep_view() =~= Seq::<HeaderView>::empty());
                            }
                        }
                        Ok(RequestPacket { method, url, version, headers, body: me.body })
                    },
                },
            },
        }
    }
}


// ===== request parsing =====

/// Parse the header region: every segment must split at a colon, and the
/// first segment that does not is returned as the error.
pub open spec fn spec_parse_headers(region: Seq<Seq<char>>) -> Result<Seq<HeaderView>, Seq<char>>
    decreases region.len(),
{
    if region.len() == 0 {
        Ok(Seq::<HeaderView>::empty())
    } else {
        match spec_parse_headers(region.drop_last()) {
            Err(e) => Err(e),
            Ok(hs) => match spec_header_from_line(region.last()) {
                None => Err(region.last()),
                Some(h) => Ok(hs.push(h)),
            },
        }
    }
}

/// An error in a prefix of the region is the error of the whole region.
pub proof fn lemma_parse_headers_err(region: Seq<Seq<char>>, j: int)
    requires
        0 <= j <= region.len(),
        spec_parse_headers(region.take(j)) is Err,
    ensures
        spec_parse_headers(region) == spec_parse_headers(region.take(j)),
    decreases region.len() - j,
{
    if j == region.len() {
        assert(region.take(j) =~= region);
    } else {
        assert(region.take(j + 1).drop_last() =~= region.take(j));
        lemma_parse_headers_err(region, j + 1);
    }
}

/// The header region of a segment list: from segment 1 up to the first
/// empty segment at or after 1, or to the end if there is none.
pub open spec fn spec_header_region(lines: Seq<Seq<char>>) -> Seq<Seq<char>>
    recommends
        lines.len() >= 1,
{
    let e = find_empty_from(lines, 1);
    if e >= 0 {
        lines.subrange(1, e)
    } else {
        lines.skip(1)
    }
}

/// The outcome of parsing a request message from its wire text.
///
/// The text is split at every CRLF; the first segment carries the version,
/// the method and the url; an empty segment must mark the end of the
/// headers; the segments after it, rejoined with CRLF, form the body.
pub open spec fn spec_parse_request(s: Seq<char>) -> Result<ReqBuilderView, PacketErrView> {
    let lines = split_crlf(s);
    if lines.len() == 0 {
        Err(PacketErrView::InvalidLines)
    } else {
        let first = lines[0];
        match spec_version_from_req_line(first) {
            Err(e) => Err(e@),
            Ok(version) => {
                let toks = split_ws(first);
                if toks.len() < 2 || toks.len() > 3 {
                    Err(PacketErrView::FirstLineWordCountMismatch)
                } else {
                    match spec_method_from_token(toks[0]) {
                        None => Err(PacketErrView::InvalidMethod),
                        Some(method) => {
                            if find_empty_from(lines, 0) < 0 {
                                Err(PacketErrView::NoHeaderEndFound)
                            } else {
                                match spec_parse_headers(spec_header_region(lines)) {
                                    Err(line) => Err(PacketErrView::MalformedHeader(line)),
                                    Ok(hs) => {
                                        let body = join_crlf(
                                            lines.skip(find_empty_from(lines, 0) + 1),
                                        );
                                        Ok(
                                            ReqBuilderView {
                                                method: Some(method),
                                                url: Some(toks[1]),
                                                version: Some(version),
                                                headers: Some(hs),
                                                body: if body.len() == 0 {
                                                    None
                                                } else {
                                                    Some(body)
                                                },
                                            },
                                        )
                                    },
                                }
                            }
                        },
                    }
                }
            },
        }
    }
}

impl RequestPacketBuilder {
    /// Try to parse a packet builder from wire text, as
    /// [`spec_parse_request`] describes.
    pub fn try_from_str(s: &str) -> (r: Result<RequestPacketBuilder, PacketErr>)
        ensures
            match r {
                Ok(b) => spec_parse_request(s@) == Ok::<ReqBuilderView, PacketErrView>(b@),
                Err(e) => spec_parse_request(s@) == Err::<ReqBuilderView, PacketErrView>(e@),
            },
    {
        let chars = str_to_chars(s);
        let lines = split_crlf_vec(&chars);
        let ghost ldv = split_crlf(s@);
        if lines.len() == 0 {
            return Err(PacketErr::InvalidLines);
        }
        proof {
            lemma_dv_index(&lines, 0);
        }
        let first_s = chars_to_string(&lines[0]);
        let version = match Version::try_from_first_line(first_s.as_str()) {
            Err(e) => {
                proof {
                    assert(spec_parse_request(s@) == Err::<ReqBuilderView, PacketErrView>(e@));
                }
                return Err(e);
            },
            Ok(v) => v,
        };
        let toks = split_ws_vec(&lines[0]);
        proof {
            assert(toks.deep_view().len() == toks@.len());
        }
        if toks.len() < 2 || toks.len() > 3 {
            return Err(PacketErr::FirstLineWordCountMismatch);
        }
        proof {
            lemma_dv_index(&toks, 0);
            lemma_dv_index(&toks, 1);
        }
        let m_s = chars_to_string(&toks[0]);
        let method = match Method::try_from(m_s.as_str()) {
            None => {
                return Err(PacketErr::InvalidMethod);
            },
            Some(m) => m,
        };
        let url_s = chars_to_string(&toks[1]);
        let e0: usize = match find_empty_from_vec(&lines, 0) {
            None => {
                return Err(PacketErr::NoHeaderEndFound);
            },
            Some(x) => x,
        };
        proof {
            lemma_find_empty_from(ldv, 0);
        }
        let end: usize = match find_empty_from_vec(&lines, 1) {
            Some(x) => x,
            None => lines.len(),
        };
        let ghost region = spec_header_region(ldv);
        proof {
            lemma_find_empty_from(ldv, 1);
            if find_empty_from(ldv, 1) >= 0 {
                assert(region =~= ldv.subrange(1, end as int));
            } else {
                assert(ldv.skip(1) =~= ldv.subrange(1, ldv.len() as int));
                assert(region =~= ldv.subrange(1, end as int));
            }
            assert(region.take(0) =~= Seq::<Seq<char>>::empty());
        }
        let mut headers: Vec<Header> = Vec::new();
        proof {
            assert(headers.deep_view() =~= Seq::<HeaderView>::empty());
            assert(spec_parse_headers(region.take(0)) == Ok::<Seq<HeaderView>, Seq<char>>(
                Seq::<HeaderView>::empty(),
            ));
        }
        let mut k: usize = 1;
        while k < end
            invariant
                1 <= k <= end,
                end as int <= ldv.len(),
                ldv == lines.deep_view(),
                ldv == split_crlf(s@),
                ldv.len() >= 1,
                spec_version_from_req_line(ldv[0]) == Ok::<Version, PacketErr>(version),
                2 <= split_ws(ldv[0]).len() <= 3,
                spec_method_from_token(split_ws(ldv[0])[0]) == Some(method),
                find_empty_from(ldv, 0) >= 0,
                region == spec_header_region(ldv),
                region == ldv.subrange(1, end as int),
                spec_parse_headers(region.take(k as int - 1)) == Ok::<
                    Seq<HeaderView>,
                    Seq<char>,
                >(headers.deep_view()),
            decreases end - k,
        {
            proof {
                lemma_dv_index(&lines, k as int);
            }
            let line_s = chars_to_string(&lines[k]);
            match Header::try_from(line_s.as_str()) {
                Err(e) => {
                    proof {
                        assert(region.take(k as int).drop_last() =~= region.take(k as int - 1));
                        assert(region.take(k as int).last() == ldv[k as int]);
                        assert(spec_parse_headers(region.take(k as int)) == Err::<
                            Seq<HeaderView>,
                            Seq<char>,
                        >(ldv[k as int]));
                        lemma_parse_headers_err(region, k as int);
                        assert(spec_parse_request(s@) == Err::<ReqBuilderView, PacketErrView>(
                            e@,
                        ));
                    }
                    return Err(e);
                },
                Ok(h) => {
                    let ghost h0 = headers.deep_view();
                    headers.push(h);
                    proof {
                        assert(headers.deep_view() =~= h0.push(h@)) by {
                            assert(forall|j: int|
                                0 <= j < headers@.len() ==> headers.deep_view()[j]
                                    == headers@[j]@);
                        }
                        assert(region.take(k as int).drop_last() =~= region.take(k as int - 1));
                        assert(region.take(k as int).last() == ldv[k as int]);
                    }
                },
            }
            k = k + 1;
        }
        proof {
            assert(region.take(region.len() as int) =~= region);
            assert(region.len() == end as int - 1);
            assert(spec_parse_headers(region) == Ok::<Seq<HeaderView>, Seq<char>>(
                headers.deep_view(),
            ));
        }
        let body_chars = crate::text::join_crlf_from(&lines, e0 + 1);
        let body = if body_chars.len() == 0 {
            None
        } else {
            Some(Body(chars_to_string(&body_chars)))
        };
        let b = RequestPacketBuilder {
            method: Some(method),
            url: Some(url_s),
            version: Some(version),
            headers: Some(headers),
            body,
        };
        proof {
            assert(spec_parse_request(s@) == Ok::<ReqBuilderView, PacketErrView>(b@));
        }
        Ok(b)
    }
}


// ===== the request round trip =====

/// A header that survives the wire: CRLF-free on both sides, and no colon
/// in the key, since parsing splits at the first colon.
pub open spec fn header_wire_ok(h: HeaderView) -> bool {
    &&& crlf_free(h.key)
    &&& crlf_free(h.value)
    &&& find_char(h.key, ':') == -1
}

/// A request whose rendering parses back: the url is a nonempty word
/// without whitespace, every header survives the wire, and the body, when
/// present, is nonempty (an empty body renders as no body at all).
pub open spec fn spec_req_wire_ok(r: ReqView) -> bool {
    &&& r.url.len() >= 1
    &&& ws_free(r.url)
    &&& (forall|i: int| 0 <= i < r.headers.len() ==> header_wire_ok(#[trigger] r.headers[i]))
    &&& (match r.body {
        Some(b) => b.len() >= 1,
        None => true,
    })
}

/// The header lines of a header sequence, in order.
pub open spec fn spec_header_lines(hs: Seq<HeaderView>) -> Seq<Seq<char>> {
    Seq::new(hs.len(), |i: int| spec_header_line(hs[i]))
}

/// What the parser reads back from rendered headers: the same keys, and
/// each value with the separator space folded in front of it.
pub open spec fn spec_reparsed_headers(hs: Seq<HeaderView>) -> Seq<HeaderView> {
    Seq::new(hs.len(), |i: int| HeaderView { key: hs[i].key, value: seq![' '] + hs[i].value })
}

/// The tokens of a rendered start line: the method word, the url, and the
/// version literal unless the version is V0_9.
pub proof fn lemma_start_line_tokens(m: Method, url: Seq<char>, v: Version)
    requires
        url.len() >= 1,
        ws_free(url),
    ensures
        split_ws(spec_req_start_line(m, url, v)) == seq![spec_method_str(m), url] + (
        if v is V0_9 {
            Seq::<Seq<char>>::empty()
        } else {
            seq![spec_version_str(v)]
        }),
{
    let ms = spec_method_str(m);
    let vs = spec_version_str(v);
    let start = spec_req_start_line(m, url, v);
    lemma_method_token(m);
    lemma_version_token(v);
    let rest2 = seq![' '] + vs;
    let rest1 = seq![' '] + url + rest2;
    assert(start =~= ms + rest1);
    assert(rest1[0] == ' ');
    lemma_split_ws_token(ms, rest1);
    assert(rest1.drop_first() =~= url + rest2);
    assert(rest2[0] == ' ');
    lemma_split_ws_token(url, rest2);
    assert(rest2.drop_first() =~= vs);
    if v is V0_9 {
        assert(vs.len() == 0);
        assert(split_ws(vs).len() == 0);
        assert(split_ws(start) =~= seq![ms, url]);
        assert(seq![ms, url] =~= seq![ms, url] + Seq::<Seq<char>>::empty());
    } else {
        lemma_split_ws_whole(vs);
        assert(split_ws(start) =~= seq![ms, url] + seq![vs]);
    }
}

/// Splitting a rendered header block followed by `t` yields the header
/// lines and then the segments of `t`.
pub proof fn lemma_render_headers_split(hs: Seq<HeaderView>, t: Seq<char>)
    requires
        forall|i: int| 0 <= i < hs.len() ==> header_wire_ok(#[trigger] hs[i]),
    ensures
        split_crlf(spec_render_headers(hs) + t) == spec_header_lines(hs) + split_crlf(t),
    decreases hs.len(),
{
    if hs.len() == 0 {
        assert(spec_render_headers(hs) + t =~= t);
        assert(spec_header_lines(hs) + split_crlf(t) =~= split_crlf(t));
    } else {
        let line0 = spec_header_line(hs[0]);
        lemma_header_line_crlf_free(hs[0]);
        let tail = spec_render_headers(hs.drop_first()) + t;
        assert(spec_render_headers(hs) + t =~= line0 + crlf() + tail);
        lemma_split_crlf_line(line0, tail);
        assert(forall|i: int|
            0 <= i < hs.drop_first().len() ==> hs.drop_first()[i] == hs[i + 1]);
        lemma_render_headers_split(hs.drop_first(), t);
        assert(spec_header_lines(hs) =~= seq![line0] + spec_header_lines(hs.drop_first()));
        assert(seq![line0] + (spec_header_lines(hs.drop_first()) + split_crlf(t))
            =~= spec_header_lines(hs) + split_crlf(t));
    }
}

/// Parsing the rendered header lines succeeds and yields the reparsed
/// headers.
pub proof fn lemma_parse_rendered_headers(hs: Seq<HeaderView>)
    requires
        forall|i: int| 0 <= i < hs.len() ==> header_wire_ok(#[trigger] hs[i]),
    ensures
        spec_parse_headers(spec_header_lines(hs)) == Ok::<Seq<HeaderView>, Seq<char>>(
            spec_reparsed_headers(hs),
        ),
    decreases hs.len(),
{
    if hs.len() == 0 {
        assert(spec_header_lines(hs) =~= Seq::<Seq<char>>::empty());
        assert(spec_reparsed_headers(hs) =~= Seq::<HeaderView>::empty());
    } else {
        assert(forall|i: int|
            0 <= i < hs.drop_last().len() ==> hs.drop_last()[i] == hs[i]);
        lemma_parse_rendered_headers(hs.drop_last());
        let hl = spec_header_lines(hs);
        assert(hl.drop_last() =~= spec_header_lines(hs.drop_last()));
        assert(hl.last() == spec_header_line(hs.last()));
        lemma_header_line_parse(hs.last());
        assert(spec_reparsed_headers(hs.drop_last()).push(
            HeaderView { key: hs.last().key, value: seq![' '] + hs.last().value },
        ) =~= spec_reparsed_headers(hs));
    }
}

/// The round trip of a request: parsing a rendered request succeeds and
/// reproduces the method, url, version and body exactly. The keys of the
/// headers come back exactly too; each header value comes back with one
/// space in front of it, the separator that rendering wrote after the
/// colon and that parsing keeps as part of the value.
#[verifier::rlimit(100)]
#[verifier::spinoff_prover]
pub proof fn lemma_request_round_trip(r: ReqView)
    requires
        spec_req_wire_ok(r),
    ensures
        ({
            let p = spec_parse_request(spec_render_request(r));
            match p {
                Ok(b) => {
                    &&& b.method == Some(r.method)
                    &&& b.url == Some(r.url)
                    &&& b.version == Some(r.version)
                    &&& b.headers == Some(spec_reparsed_headers(r.headers))
                    &&& b.body == r.body
                },
                Err(_) => false,
            }
        }),
{
    let wire = spec_render_request(r);
    let ms = spec_method_str(r.method);
    let vs = spec_version_str(r.version);
    let start = spec_req_start_line(r.method, r.url, r.version);
    let bodytext = match r.body {
        Some(b) => b,
        None => Seq::<char>::empty(),
    };
    let hs = r.headers;
    let nh = hs.len() as int;
    let hls = spec_header_lines(hs);
    let bsplit = split_crlf(bodytext);
    lemma_method_token(r.method);
    lemma_version_token(r.version);
    crate::text::lemma_split_crlf_len(bodytext);
    let ml = ms.len() as int;
    let ul = r.url.len() as int;

    // the start line holds no carriage return, so it is CRLF-free
    assert(crlf_free(start)) by {
        assert forall|i: int| !crlf_at(start, i) by {
            if crlf_at(start, i) {
                if i < ml {
                    assert(start[i] == ms[i]);
                    assert(!is_ws(ms[i]));
                } else if i == ml {
                    assert(start[i] == ' ');
                } else if i < ml + 1 + ul {
                    assert(start[i] == r.url[i - ml - 1]);
                    assert(!is_ws(r.url[i - ml - 1]));
                } else if i == ml + 1 + ul {
                    assert(start[i] == ' ');
                } else {
                    assert(start[i] == vs[i - ml - 2 - ul]);
                    assert(!is_ws(vs[i - ml - 2 - ul]));
                }
                assert(is_ws('\r'));
            }
        }
    }

    // the wire splits into the start line, the header lines, one empty
    // segment, and the segments of the body
    let x1 = spec_render_headers(hs) + (crlf() + bodytext);
    assert(wire =~= start + crlf() + x1);
    lemma_split_crlf_line(start, x1);
    lemma_render_headers_split(hs, crlf() + bodytext);
    assert(crlf_free(Seq::<char>::empty()));
    lemma_split_crlf_line(Seq::<char>::empty(), bodytext);
    assert(Seq::<char>::empty() + crlf() + bodytext =~= crlf() + bodytext);
    let lines = seq![start] + hls + seq![Seq::<char>::empty()] + bsplit;
    assert(split_crlf(wire) =~= lines);
    assert(lines.len() == 2 + nh + bsplit.len());
    assert(lines[0] == start);
    assert(start.len() >= 3);
    assert(lines[1 + nh].len() == 0);

    // the start line carries version, method and url
    lemma_start_line_tokens(r.method, r.url, r.version);
    let toks = split_ws(start);
    lemma_version_from_tokens(r.version, toks, start);
    assert(toks[0] == ms);
    assert(toks[1] == r.url);
    assert(2 <= toks.len() <= 3);
    assert(spec_method_from_token(toks[0]) == Some(r.method));

    // the first empty segment stands right after the headers
    assert forall|i: int| 0 <= i < 1 + nh implies (#[trigger] lines[i]).len() != 0 by {
        if i == 0 {
        } else {
            assert(lines[i] == hls[i - 1]);
            assert(hls[i - 1] == spec_header_line(hs[i - 1]));
            assert(hls[i - 1].len() == hs[i - 1].key.len() + 2 + hs[i - 1].value.len());
        }
    }
    crate::text::lemma_find_empty_at(lines, 0, 1 + nh);
    crate::text::lemma_find_empty_at(lines, 1, 1 + nh);

    // the header region is exactly the header lines
    assert(spec_header_region(lines) =~= hls) by {
        assert(forall|i: int|
            0 <= i < nh ==> #[trigger] lines.subrange(1, 1 + nh)[i] == lines[1 + i]);
        assert(forall|i: int| 0 <= i < nh ==> #[trigger] lines[1 + i] == hls[i]);
    }
    lemma_parse_rendered_headers(hs);

    // the segments after the empty one rejoin to the body
    assert(lines.skip(2 + nh) =~= bsplit);
    crate::text::lemma_join_split_crlf(bodytext);

    match r.body {
        Some(b) => {
            assert(bodytext.len() >= 1);
        },
        None => {
            assert(bodytext.len() == 0);
        },
    }
}


/// For a request without headers, parsing its rendering reproduces every
/// field exactly.
pub proof fn lemma_request_round_trip_exact(r: ReqView)
    requires
        spec_req_wire_ok(r),
        r.headers.len() == 0,
    ensures
        ({
            let p = spec_parse_request(spec_render_request(r));
            match p {
                Ok(b) => {
                    &&& b.method == Some(r.method)
                    &&& b.url == Some(r.url)
                    &&& b.version == Some(r.version)
                    &&& b.headers == Some(r.headers)
                    &&& b.body == r.body
                },
                Err(_) => false,
            }
        }),
{
    lemma_request_round_trip(r);
    assert(spec_reparsed_headers(r.headers) =~= r.headers);
}

// ===== response packets =====

/// The mathematical content of a response packet.
pub struct RespView {
    pub version: Version,
    pub status: Option<StatusCode>,
    pub headers: Option<Seq<HeaderView>>,
    pub body: Option<Seq<char>>,
}

/// An HTTP response packet.
///
/// An HTTP/0.9 response has no status line and no headers: it is the body
/// alone. This is why `status`, `headers` and `body` are optional; which of
/// them a valid message needs depends on the version, and is checked when
/// the packet is rendered.
#[derive(Clone, Debug, Eq, PartialEq)]
pub struct ResponsePacket {
    pub version: Version,
    pub status: Option<StatusCode>,
    pub headers: Option<Vec<Header>>,
    pub body: Option<Body>,
}

impl View for ResponsePacket {
    type V = RespView;

    open spec fn view(&self) -> RespView {
        RespView {
            version: self.version,
            status: self.status,
            headers: match self.headers {
                Some(h) => Some(h.deep_view()),
                None => None,
            },
            body: match self.body {
                Some(b) => Some(b@),
                None => None,
            },
        }
    }
}

/// The wire text of a response.
///
/// Under V0_9 the body alone is the message, and a missing body is an
/// error. Under V1_0 and V1_1 a status is required; the status line comes
/// first, then — only if a header sequence is present, even an empty one —
/// the header lines and a blank-line separator, then the body.
pub open spec fn spec_render_response(r: RespView) -> Result<Seq<char>, PacketErr> {
    match r.version {
        Version::V0_9 => match r.body {
            None => Err(PacketErr::NoBody),
            Some(b) => Ok(b),
        },
        _ => match r.status {
            None => Err(PacketErr::NoStatusCode),
            Some(c) => Ok(
                spec_version_str(r.version) + seq![' '] + spec_status_code_desc(c) + crlf() + (
                match r.headers {
                    Some(hs) => spec_render_headers(hs) + crlf(),
                    None => Seq::<char>::empty(),
                }) + (match r.body {
                    Some(b) => b,
                    None => Seq::<char>::empty(),
                }),
            ),
        },
    }
}

/// Write the header block: each header line followed by CRLF.
fn push_header_block(acc: &mut Vec<char>, hs: &Vec<Header>)
    ensures
        final(acc)@ == old(acc)@ + spec_render_headers(hs.deep_view()),
{
    let ghost acc0 = old(acc)@;
    let mut i: usize = 0;
    proof {
        assert(hs.deep_view().take(0) =~= Seq::<HeaderView>::empty());
        assert(acc@ =~= acc0 + spec_render_headers(hs.deep_view().take(0)));
    }
    while i < hs.len()
        invariant
            i <= hs@.len(),
            acc@ == acc0 + spec_render_headers(hs.deep_view().take(i as int)),
        decreases hs@.len() - i,
    {
        let ktail = str_to_chars(hs[i].key.as_str());
        append_chars(acc, &ktail);
        acc.push(':');
        acc.push(' ');
        let vtail = str_to_chars(hs[i].value.as_str());
        append_chars(acc, &vtail);
        acc.push('\r');
        acc.push('\n');
        proof {
            let dv = hs.deep_view();
            lemma_headers_dv_index(hs, i as int);
            lemma_render_headers_push(dv.take(i as int), dv[i as int]);
            assert(dv.take(i as int).push(dv[i as int]) =~= dv.take(i + 1));
            assert(acc@ =~= acc0 + (spec_render_headers(dv.take(i as int)) + spec_header_line(
                dv[i as int],
            ) + crlf()));
        }
        i = i + 1;
    }
    proof {
        let dv = hs.deep_view();
        assert(dv.take(dv.len() as int) =~= dv);
    }
}

impl ResponsePacket {
    /// Try to serialize the packet to its wire text. Fallible because the
    /// required fields vary with the HTTP version.
    pub fn try_to_string(&self) -> (r: Result<String, PacketErr>)
        ensures
            match r {
                Ok(s) => spec_render_response(self@) matches Ok(t) && s@ == t,
                Err(e) => spec_render_response(self@) == Err::<Seq<char>, PacketErr>(e),
            },
    {
        match self.version {
            Version::V0_9 => match &self.body {
                None => Err(PacketErr::NoBody),
                Some(b) => Ok(chars_to_string(&str_to_chars(b.0.as_str()))),
            },
            _ => match &self.status {
                None => Err(PacketErr::NoStatusCode),
                Some(c) => {
                    let mut acc: Vec<char> = Vec::new();
                    let v = self.version.to_string();
                    let vtail = str_to_chars(v.as_str());
                    append_chars(&mut acc, &vtail);
                    acc.push(' ');
                    let cd = c.code_and_description();
                    let ctail = str_to_chars(cd.as_str());
                    append_chars(&mut acc, &ctail);
                    acc.push('\r');
                    acc.push('\n');
                    match &self.headers {
                        Some(hs) => {
                            push_header_block(&mut acc, hs);
                            acc.push('\r');
                            acc.push('\n');
                        },
                        None => {},
                    }
                    match &self.body {
                        Some(b) => {
                            let btail = str_to_chars(b.0.as_str());
                            append_chars(&mut acc, &btail);
                        },
                        None => {},
                    }
                    proof {
                        assert(spec_render_response(self@) matches Ok(t) && acc@ =~= t);
                    }
                    Ok(chars_to_string(&acc))
                },
            },
        }
    }
}

// ===== response builder =====

/// The mathematical content of a response builder.
pub struct RespBuilderView {
    pub version: Option<Version>,
    pub status: Option<StatusCode>,
    pub headers: Option<Seq<HeaderView>>,
    pub body: Option<Seq<char>>,
}

/// Transient accumulator for building response packets; consumed to yield
/// a [`ResponsePacket`].
#[derive(Clone, Debug, Eq, PartialEq)]
pub struct ResponsePacketBuilder {
    pub version: Option<Version>,
    pub status: Option<StatusCode>,
    pub headers: Option<Vec<Header>>,
    pub body: Option<Body>,
}

impl View for ResponsePacketBuilder {
    type V = RespBuilderView;

    open spec fn view(&self) -> RespBuilderView {
        RespBuilderView {
            version: self.version,
            status: self.status,
            headers: match self.headers {
                Some(h) => Some(h.deep_view()),
                None => None,
            },
            body: match self.body {
                Some(b) => Some(b@),
                None => None,
            },
        }
    }
}

/// Freezing a response builder: the version is required; under V1_0 and
/// V1_1 a status is required too; V0_9 imposes nothing more at build time.
pub open spec fn spec_build_response(b: RespBuilderView) -> Result<RespView, PacketErr> {
    match b.version {
        None => Err(PacketErr::NoVersionFound),
        Some(v) => match v {
            Version::V0_9 => Ok(
                RespView { version: v, status: b.status, headers: b.headers, body: b.body },
            ),
            _ => match b.status {
                None => Err(PacketErr::NoStatusCode),
                Some(c) => Ok(
                    RespView { version: v, status: Some(c), headers: b.headers, body: b.body },
                ),
            },
        },
    }
}

/// The outcome of parsing a response message from its wire text.
///
/// Not valid for HTTP/0.9, whose response is the body alone and cannot be
/// told apart from arbitrary text. Blank input and fewer than three
/// CRLF-separated segments are rejected; the first segment must carry a
/// version literal and a valid status line; an empty segment must mark the
/// end of the headers; an empty header sequence is normalized to none.
pub open spec fn spec_parse_response(s: Seq<char>) -> Result<RespBuilderView, PacketErrView> {
    if trim(s).len() == 0 {
        Err(PacketErrView::InvalidLines)
    } else {
        let lines = split_crlf(s);
        if lines.len() == 1 || lines.len() == 2 {
            Err(PacketErrView::InvalidLines)
        } else {
            let first = lines[0];
            match spec_version_from_res_line(first) {
                Err(e) => Err(e@),
                Ok(version) => match spec_status_from_res_line(first) {
                    Err(e) => Err(e@),
                    Ok(code) => {
                        if find_empty_from(lines, 0) < 0 {
                            Err(PacketErrView::NoHeaderEndFound)
                        } else {
                            match spec_parse_headers(spec_header_region(lines)) {
                                Err(line) => Err(PacketErrView::MalformedHeader(line)),
                                Ok(hs) => {
                                    let body = join_crlf(
                                        lines.skip(find_empty_from(lines, 0) + 1),
                                    );
                                    Ok(
                                        RespBuilderView {
                                            version: Some(version),
                                            status: Some(code),
                                            headers: if hs.len() == 0 {
                                                None
                                            } else {
                                                Some(hs)
                                            },
                                            body: if body.len() == 0 {
                                                None
                                            } else {
                                                Some(body)
                                            },
                                        },
                                    )
                                },
                            }
                        }
                    },
                },
            }
        }
    }
}

impl ResponsePacketBuilder {
    /// A builder with no field set.
    pub fn new() -> (r: Self)
        ensures
            (r@.version is None),
            (r@.status is None),
            (r@.headers is None),
            (r@.body is None),
    {
        ResponsePacketBuilder { version: None, status: None, headers: None, body: None }
    }

    /// Status setter.
    pub fn status(self, status: StatusCode) -> (r: Self)
        ensures
            r@ == (RespBuilderView { status: Some(status), ..self@ }),
    {
        ResponsePacketBuilder { status: Some(status), ..self }
    }

    /// Header setter: instantiates the header list or extends it.
    pub fn headers(self, headers: Vec<Header>) -> (r: Self)
        ensures
            r@ == (RespBuilderView {
                headers: Some(
                    match self@.headers {
                        Some(h) => h + headers.deep_view(),
                        None => headers.deep_view(),
                    },
                ),
                ..self@
            }),
    {
        let mut me = self;
        match me.headers {
            Some(mut h) => {
                let ghost h0 = h.deep_view();
                let ghost add = headers.deep_view();
                append_headers(&mut h, headers);
                proof {
                    assert(h.deep_view() =~= h0 + add) by {
                        assert(forall|k: int|
                            0 <= k < h@.len() ==> h.deep_view()[k] == h@[k]@);
                    }
                }
                me.headers = Some(h);
            },
            None => {
                me.headers = Some(headers);
            },
        }
        me
    }

    /// Header setter: instantiates the list or adds one more header to it.
    pub fn header(self, header_pair: (&str, &str)) -> (r: Self)
        ensures
            r@ == (RespBuilderView {
                headers: Some(
                    match self@.headers {
                        Some(h) => h.push(
                            HeaderView { key: header_pair.0@, value: header_pair.1@ },
                        ),
                        None => seq![
                            HeaderView { key: header_pair.0@, value: header_pair.1@ },
                        ],
                    },
                ),
                ..self@
            }),
    {
        let h = Header {
            key: String::from_str(header_pair.0),
            value: String::from_str(header_pair.1),
        };
        let mut me = self;
        match me.headers {
            Some(mut hdrs) => {
                let ghost h0 = hdrs.deep_view();
                hdrs.push(h);
                proof {
                    assert(hdrs.deep_view() =~= h0.push(
                        HeaderView { key: header_pair.0@, value: header_pair.1@ },
                    )) by {
                        assert(forall|k: int|
                            0 <= k < hdrs@.len() ==> hdrs.deep_view()[k] == hdrs@[k]@);
                    }
                }
                me.headers = Some(hdrs);
            },
            None => {
                let v: Vec<Header> = vec![h];
                proof {
                    assert(v.deep_view() =~= seq![
                        HeaderView { key: header_pair.0@, value: header_pair.1@ },
                    ]) by {
                        assert(v.deep_view()[0] == v@[0]@);
                    }
                }
                me.headers = Some(v);
            },
        }
        me
    }

    /// Version setter.
    pub fn version(self, version: Version) -> (r: Self)
        ensures
            r@ == (RespBuilderView { version: Some(version), ..self@ }),
    {
        ResponsePacketBuilder { version: Some(version), ..self }
    }

    /// Body setter.
    pub fn body(self, body: &str) -> (r: Self)
        ensures
            r@ == (RespBuilderView { body: Some(body@), ..self@ }),
    {
        ResponsePacketBuilder { body: Some(Body(String::from_str(body))), ..self }
    }

    /// Try to convert the builder into a response packet, as
    /// [`spec_build_response`] describes.
    pub fn try_build(self) -> (r: Result<ResponsePacket, PacketErr>)
        ensures
            match r {
                Ok(p) => spec_build_response(self@) == Ok::<RespView, PacketErr>(p@),
                Err(e) => spec_build_response(self@) == Err::<RespView, PacketErr>(e),
            },
    {
        let me = self;
        match me.version {
            None => Err(PacketErr::NoVersionFound),
            Some(version) => match version {
                Version::V0_9 => Ok(
                    ResponsePacket {
                        version,
                        status: me.status,
                        headers: me.headers,
                        body: me.body,
                    },
                ),
                _ => match me.status {
                    None => Err(PacketErr::NoStatusCode),
                    Some(status) => Ok(
                        ResponsePacket {
                            version,
                            status: Some(status),
                            headers: me.headers,
                            body: me.body,
                        },
                    ),
                },
            },
        }
    }

    /// Try to parse an HTTP response packet from wire text, as
    /// [`spec_parse_response`] describes.
    ///
    /// HTTP/0.9 packets consist of the body alone, so any text is a valid
    /// HTTP/0.9 packet: this does **not** parse HTTP/0.9 packets.
    pub fn try_from_str(s: &str) -> (r: Result<ResponsePacketBuilder, PacketErr>)
        ensures
            match r {
                Ok(b) => spec_parse_response(s@) == Ok::<RespBuilderView, PacketErrView>(b@),
                Err(e) => spec_parse_response(s@) == Err::<RespBuilderView, PacketErrView>(e@),
            },
    {
        let chars = str_to_chars(s);
        let trimmed = crate::text::trim_vec(&chars);
        if trimmed.len() == 0 {
            return Err(PacketErr::InvalidLines);
        }
        let lines = split_crlf_vec(&chars);
        let ghost ldv = split_crlf(s@);
        if lines.len() == 1 || lines.len() == 2 {
            return Err(PacketErr::InvalidLines);
        }
        proof {
            crate::text::lemma_split_crlf_len(s@);
            lemma_dv_index(&lines, 0);
        }
        let first_s = chars_to_string(&lines[0]);
        let version = match Version::try_from_first_res_line(first_s.as_str()) {
            Err(e) => {
                return Err(e);
            },
            Ok(v) => v,
        };
        let code = match StatusCode::try_from_first_res_line(first_s.as_str()) {
            Err(e) => {
                return Err(e);
            },
            Ok(c) => c,
        };
        let e0: usize = match find_empty_from_vec(&lines, 0) {
            None => {
                return Err(PacketErr::NoHeaderEndFound);
            },
            Some(x) => x,
        };
        proof {
            lemma_find_empty_from(ldv, 0);
        }
        let end: usize = match find_empty_from_vec(&lines, 1) {
            Some(x) => x,
            None => lines.len(),
        };
        let ghost region = spec_header_region(ldv);
        proof {
            lemma_find_empty_from(ldv, 1);
            if find_empty_from(ldv, 1) >= 0 {
                assert(region =~= ldv.subrange(1, end as int));
            } else {
                assert(ldv.skip(1) =~= ldv.subrange(1, ldv.len() as int));
                assert(region =~= ldv.subrange(1, end as int));
            }
            assert(region.take(0) =~= Seq::<Seq<char>>::empty());
        }
        let mut headers: Vec<Header> = Vec::new();
        proof {
            assert(headers.deep_view() =~= Seq::<HeaderView>::empty());
            assert(spec_parse_headers(region.take(0)) == Ok::<Seq<HeaderView>, Seq<char>>(
                Seq::<HeaderView>::empty(),
            ));
        }
        let mut k: usize = 1;
        while k < end
            invariant
                1 <= k <= end,
                end as int <= ldv.len(),
                ldv == lines.deep_view(),
                ldv == split_crlf(s@),
                ldv.len() >= 3,
                trim(s@).len() != 0,
                spec_version_from_res_line(ldv[0]) == Ok::<Version, PacketErr>(version),
                spec_status_from_res_line(ldv[0]) == Ok::<StatusCode, PacketErr>(code),
                find_empty_from(ldv, 0) >= 0,
                region == spec_header_region(ldv),
                region == ldv.subrange(1, end as int),
                spec_parse_headers(region.take(k as int - 1)) == Ok::<
                    Seq<HeaderView>,
                    Seq<char>,
                >(headers.deep_view()),
            decreases end - k,
        {
            proof {
                lemma_dv_index(&lines, k as int);
            }
            let line_s = chars_to_string(&lines[k]);
            match Header::try_from(line_s.as_str()) {
                Err(e) => {
                    proof {
                        assert(region.take(k as int).drop_last() =~= region.take(k as int - 1));
                        assert(region.take(k as int).last() == ldv[k as int]);
                        assert(spec_parse_headers(region.take(k as int)) == Err::<
                            Seq<HeaderView>,
                            Seq<char>,
                        >(ldv[k as int]));
                        lemma_parse_headers_err(region, k as int);
                        assert(spec_parse_response(s@) == Err::<RespBuilderView, PacketErrView>(
                            e@,
                        ));
                    }
                    return Err(e);
                },
                Ok(h) => {
                    let ghost h0 = headers.deep_view();
                    headers.push(h);
                    proof {
                        assert(headers.deep_view() =~= h0.push(h@)) by {
                            assert(forall|j: int|
                                0 <= j < headers@.len() ==> headers.deep_view()[j]
                                    == headers@[j]@);
                        }
                        assert(region.take(k as int).drop_last() =~= region.take(k as int - 1));
                        assert(region.take(k as int).last() == ldv[k as int]);
                    }
                },
            }
            k = k + 1;
        }
        proof {
            assert(region.take(region.len() as int) =~= region);
            assert(region.len() == end as int - 1);
            assert(spec_parse_headers(region) == Ok::<Seq<HeaderView>, Seq<char>>(
                headers.deep_view(),
            ));
        }
        let body_chars = crate::text::join_crlf_from(&lines, e0 + 1);
        let body = if body_chars.len() == 0 {
            None
        } else {
            Some(Body(chars_to_string(&body_chars)))
        };
        let collected_headers = if headers.len() == 0 {
            proof {
                assert(headers.deep_view().len() == 0);
            }
            None
        } else {
            proof {
                assert(headers.deep_view().len() != 0);
            }
            Some(headers)
        };
        let b = ResponsePacketBuilder {
            version: Some(version),
            status: Some(code),
            headers: collected_headers,
            body,
        };
        proof {
            assert(spec_parse_response(s@) == Ok::<RespBuilderView, PacketErrView>(b@));
        }
        Ok(b)
    }
}

} // verus!
