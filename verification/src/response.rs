//! RTSP response construction and serialization (RFC 2326).
//!
//! A response carries a status code, status text, ordered headers, and an
//! optional body. Serialization appends a `Content-Length` header exactly
//! when a body is present.

use crate::error::{ParseErrorKind, RtspError};
use crate::num::{parse_u16, spec_dec_digits, spec_parse_u16, u64_to_dec};
use crate::text::{
    find_char, find_char_from, is_ws, lemma_find_char, lemma_find_char_concat, spec_trim,
    strip_cr, trim_end, trim_start, trim_str,
};
use vstd::prelude::*;

verus! {

/// The abstract value of a response.
pub struct RespView {
    pub status_code: u16,
    pub status_text: Seq<char>,
    pub headers: Seq<(Seq<char>, Seq<char>)>,
    pub body: Option<Seq<char>>,
}

/// The serialized form of a header list: one `Name: value` line per entry.
pub open spec fn spec_serialize_headers(hs: Seq<(Seq<char>, Seq<char>)>) -> Seq<char>
    decreases hs.len(),
{
    if hs.len() == 0 {
        Seq::<char>::empty()
    } else {
        hs[0].0 + ": "@ + hs[0].1 + "\r\n"@ + spec_serialize_headers(hs.skip(1))
    }
}

/// The status line and headers of `r`, without the terminating blank line.
pub open spec fn spec_serialize_head(r: RespView) -> Seq<char> {
    "RTSP/1.0 "@ + spec_dec_digits(r.status_code as int) + " "@ + r.status_text + "\r\n"@
        + spec_serialize_headers(r.headers)
}

/// The number of UTF-8 bytes of `b`, as `str::len` reports it.
pub open spec fn byte_len(b: Seq<char>) -> int {
    vstd::utf8::encode_utf8(b).len() as usize as int
}

/// The full serialized form of `r`: status line, headers, and either a bare
/// blank line or a `Content-Length` header (counting the body's UTF-8
/// bytes), a blank line, and the body.
pub open spec fn spec_serialize(r: RespView) -> Seq<char> {
    match r.body {
        None => spec_serialize_head(r) + "\r\n"@,
        Some(b) => spec_serialize_head(r) + "Content-Length: "@ + spec_dec_digits(byte_len(b))
            + "\r\n"@ + "\r\n"@ + b,
    }
}

proof fn lemma_serialize_headers_snoc(hs: Seq<(Seq<char>, Seq<char>)>, p: (Seq<char>, Seq<char>))
    ensures
        spec_serialize_headers(hs.push(p)) == spec_serialize_headers(hs) + p.0 + ": "@ + p.1
            + "\r\n"@,
    decreases hs.len(),
{
    if hs.len() == 0 {
        assert(hs.push(p)[0] == p);
        assert(hs.push(p).skip(1) =~= Seq::<(Seq<char>, Seq<char>)>::empty());
        assert(spec_serialize_headers(Seq::<(Seq<char>, Seq<char>)>::empty())
            == Seq::<char>::empty());
        assert(spec_serialize_headers(hs.push(p)) =~= Seq::<char>::empty() + p.0 + ": "@ + p.1
            + "\r\n"@);
    } else {
        assert(hs.push(p).skip(1) =~= hs.skip(1).push(p));
        lemma_serialize_headers_snoc(hs.skip(1), p);
        assert(spec_serialize_headers(hs.push(p)) =~= spec_serialize_headers(hs) + p.0 + ": "@
            + p.1 + "\r\n"@);
    }
}

/// An RTSP response under construction: status line, headers in insertion
/// order, optional body.
#[must_use]
pub struct RtspResponse {
    pub status_code: u16,
    pub status_text: String,
    pub headers: Vec<(String, String)>,
    pub body: Option<String>,
}

impl View for RtspResponse {
    type V = RespView;

    open spec fn view(&self) -> RespView {
        RespView {
            status_code: self.status_code,
            status_text: self.status_text@,
            headers: self.headers@.map_values(|p: (String, String)| (p.0@, p.1@)),
            body: match self.body {
                Some(b) => Some(b@),
                None => None,
            },
        }
    }
}

impl RtspResponse {
    pub fn new(status_code: u16, status_text: &str) -> (r: Self)
        ensures
            r@.status_code == status_code,
            r@.status_text == status_text@,
            r@.headers =~= Seq::<(Seq<char>, Seq<char>)>::empty(),
            r@.body is None,
    {
        let r = RtspResponse {
            status_code,
            status_text: String::from_str(status_text),
            headers: Vec::new(),
            body: None,
        };
        proof {
            assert(r@.headers =~= Seq::<(Seq<char>, Seq<char>)>::empty());
        }
        r
    }

    pub fn ok() -> (r: Self)
        ensures
            r@.status_code == 200,
            r@.status_text == "OK"@,
            r@.headers =~= Seq::<(Seq<char>, Seq<char>)>::empty(),
            r@.body is None,
    {
        Self::new(200, "OK")
    }

    pub fn not_found() -> (r: Self)
        ensures
            r@.status_code == 404,
            r@.status_text == "Not Found"@,
            r@.headers =~= Seq::<(Seq<char>, Seq<char>)>::empty(),
            r@.body is None,
    {
        Self::new(404, "Not Found")
    }

    pub fn bad_request() -> (r: Self)
        ensures
            r@.status_code == 400,
            r@.status_text == "Bad Request"@,
            r@.headers =~= Seq::<(Seq<char>, Seq<char>)>::empty(),
            r@.body is None,
    {
        Self::new(400, "Bad Request")
    }

    /// Appends one header.
    pub fn add_header(self, name: &str, value: &str) -> (r: Self)
        ensures
            r@.status_code == self@.status_code,
            r@.status_text == self@.status_text,
            r@.headers =~= self@.headers.push((name@, value@)),
            r@.body == self@.body,
    {
        let mut r = self;
        r.headers.push((String::from_str(name), String::from_str(value)));
        proof {
            assert(r@.headers =~= self@.headers.push((name@, value@)));
        }
        r
    }

    /// Sets the body.
    pub fn with_body(self, body: String) -> (r: Self)
        ensures
            r@.status_code == self@.status_code,
            r@.status_text == self@.status_text,
            r@.headers == self@.headers,
            r@.body == Some(body@),
    {
        let mut r = self;
        r.body = Some(body);
        r
    }

    /// Serializes the response, as [`spec_serialize`] describes.
    pub fn serialize(&self) -> (r: String)
        ensures
            r@ == spec_serialize(self@),
    {
        let mut out = String::from_str("RTSP/1.0 ");
        out.append(u64_to_dec(self.status_code as u64).as_str());
        out.append(" ");
        out.append(self.status_text.as_str());
        out.append("\r\n");
        let ghost hs = self@.headers;
        let mut i: usize = 0;
        proof {
            assert(out@ =~= "RTSP/1.0 "@ + spec_dec_digits(self@.status_code as int) + " "@
                + self@.status_text + "\r\n"@);
            assert(hs.take(0) =~= Seq::<(Seq<char>, Seq<char>)>::empty());
            assert(out@ + spec_serialize_headers(hs.take(0)) =~= out@);
        }
        let ghost head0 = out@;
        while i < self.headers.len()
            invariant
                i <= self.headers@.len(),
                hs == self@.headers,
                hs.len() == self.headers@.len(),
                out@ == head0 + spec_serialize_headers(hs.take(i as int)),
            decreases self.headers@.len() - i,
        {
            let ghost before = out@;
            out.append(self.headers[i].0.as_str());
            out.append(": ");
            out.append(self.headers[i].1.as_str());
            out.append("\r\n");
            proof {
                lemma_serialize_headers_snoc(hs.take(i as int), hs[i as int]);
                assert(hs.take(i + 1) =~= hs.take(i as int).push(hs[i as int]));
                assert(out@ =~= head0 + spec_serialize_headers(hs.take(i + 1)));
            }
            i += 1;
        }
        proof {
            assert(hs.take(hs.len() as int) =~= hs);
            assert(out@ =~= spec_serialize_head(self@));
        }
        match &self.body {
            None => {
                out.append("\r\n");
                proof {
                    assert(out@ =~= spec_serialize(self@));
                }
            },
            Some(body) => {
                out.append("Content-Length: ");
                out.append(u64_to_dec(body.as_str().len() as u64).as_str());
                out.append("\r\n");
                out.append("\r\n");
                out.append(body.as_str());
                proof {
                    assert(out@ =~= spec_serialize(self@));
                }
            },
        }
        out
    }
}


/// What parsing a status line yields: the text up to the first space is the
/// version (accepted as it stands), then the decimal status code, then the
/// status text (the rest of the line, spaces included).
pub open spec fn spec_parse_status_line(sl: Seq<char>) -> Result<(u16, Seq<char>), ParseErrorKind> {
    let sp1 = find_char(sl, ' ');
    if sp1 == sl.len() {
        Err(ParseErrorKind::InvalidRequestLine)
    } else {
        let rest = sl.skip(sp1 + 1);
        let sp2 = find_char(rest, ' ');
        if sp2 == rest.len() {
            Err(ParseErrorKind::InvalidRequestLine)
        } else {
            match spec_parse_u16(rest.take(sp2)) {
                Some(code) => Ok((code, rest.skip(sp2 + 1))),
                None => Err(ParseErrorKind::InvalidRequestLine),
            }
        }
    }
}

/// The headers of a serialized response read from position `p` up to the
/// first empty line: ordinary headers are collected; a header named exactly
/// `Content-Length` (the one the serializer appends) is consumed and only
/// noted. Yields the headers, whether a `Content-Length` was seen, and the
/// position where the body starts.
pub open spec fn spec_parse_resp_headers(s: Seq<char>, p: int) -> Result<
    (Seq<(Seq<char>, Seq<char>)>, bool, int),
    ParseErrorKind,
>
    decreases s.len() - p,
    via spec_parse_resp_headers_decreases
{
    if p < 0 || p >= s.len() {
        Ok((seq![], false, s.len() as int))
    } else {
        let e = p + find_char(s.skip(p), '\n');
        let l = strip_cr(s.subrange(p, e));
        let next = if e == s.len() {
            s.len() as int
        } else {
            e + 1
        };
        if l.len() == 0 {
            Ok((seq![], false, next))
        } else {
            let j = find_char(l, ':');
            if j == l.len() {
                Err(ParseErrorKind::InvalidHeader)
            } else {
                let name = spec_trim(l.take(j));
                let value = spec_trim(l.skip(j + 1));
                match spec_parse_resp_headers(s, next) {
                    Ok((rest, cl, bs)) => if name == "Content-Length"@ {
                        Ok((rest, true, bs))
                    } else {
                        Ok((seq![(name, value)] + rest, cl, bs))
                    },
                    Err(k) => Err(k),
                }
            }
        }
    }
}

#[via_fn]
proof fn spec_parse_resp_headers_decreases(s: Seq<char>, p: int) {
    if 0 <= p < s.len() {
        lemma_find_char(s.skip(p), '\n');
    }
}

/// What parsing a serialized response yields: the status line up to the
/// first line ending, headers up to the first empty line, and, when a
/// `Content-Length` header was present, everything after the empty line as
/// the body.
pub open spec fn spec_parse_response(s: Seq<char>) -> Result<RespView, ParseErrorKind> {
    if s.len() == 0 {
        Err(ParseErrorKind::EmptyRequest)
    } else {
        let e1 = find_char(s, '\n');
        let sl = strip_cr(s.take(e1));
        match spec_parse_status_line(sl) {
            Err(k) => Err(k),
            Ok((code, text)) => {
                let hstart = if e1 == s.len() {
                    s.len() as int
                } else {
                    e1 + 1
                };
                match spec_parse_resp_headers(s, hstart) {
                    Err(k) => Err(k),
                    Ok((hs, has_cl, bs)) => Ok(
                        RespView {
                            status_code: code,
                            status_text: text,
                            headers: hs,
                            body: if has_cl {
                                Some(s.skip(bs))
                            } else {
                                None
                            },
                        },
                    ),
                }
            },
        }
    }
}

fn parse_resp_headers_exec(s: &str, p: usize) -> (r: Result<
    (Vec<(String, String)>, bool, usize),
    ParseErrorKind,
>)
    requires
        p <= s@.len(),
    ensures
        (match spec_parse_resp_headers(s@, p as int) {
            Ok((hs, cl, bs)) => r matches Ok(t) && t.0@.map_values(
                |q: (String, String)| (q.0@, q.1@),
            ) == hs && t.1 == cl && t.2 == bs,
            Err(k) => r matches Err(e) && e == k,
        }),
        r matches Ok(t) ==> t.2 <= s@.len(),
    decreases s@.len() - p,
{
    let n = s.unicode_len();
    if p >= n {
        let v: Vec<(String, String)> = Vec::new();
        proof {
            assert(v@.map_values(|q: (String, String)| (q.0@, q.1@)) =~= Seq::<
                (Seq<char>, Seq<char>),
            >::empty());
        }
        return Ok((v, false, n));
    }
    let e = find_char_from(s, p, '\n');
    let line_raw = s.substring_char(p, e);
    let m = line_raw.unicode_len();
    let line = if m > 0 && line_raw.get_char(m - 1) == '\r' {
        line_raw.substring_char(0, m - 1)
    } else {
        line_raw
    };
    proof {
        assert(s@.skip(p as int).take(e - p) =~= s@.subrange(p as int, e as int));
        assert(line_raw@ == s@.subrange(p as int, e as int));
        if m > 0 && line_raw@[m - 1] == '\r' {
            assert(line_raw@.subrange(0, m - 1) =~= strip_cr(line_raw@));
        } else {
            assert(line_raw@ =~= strip_cr(line_raw@));
        }
    }
    let next = if e == n {
        n
    } else {
        e + 1
    };
    let ln = line.unicode_len();
    if ln == 0 {
        let v: Vec<(String, String)> = Vec::new();
        proof {
            assert(v@.map_values(|q: (String, String)| (q.0@, q.1@)) =~= Seq::<
                (Seq<char>, Seq<char>),
            >::empty());
        }
        return Ok((v, false, next));
    }
    let j = find_char_from(line, 0, ':');
    proof {
        assert(line@.skip(0) =~= line@);
    }
    if j == ln {
        return Err(ParseErrorKind::InvalidHeader);
    }
    let name = String::from_str(trim_str(line.substring_char(0, j)));
    let value = String::from_str(trim_str(line.substring_char(j + 1, ln)));
    proof {
        assert(line@.subrange(0, j as int) =~= line@.take(j as int));
        assert(line@.subrange(j + 1, ln as int) =~= line@.skip(j + 1));
    }
    match parse_resp_headers_exec(s, next) {
        Err(k) => Err(k),
        Ok((mut rest, cl, bs)) => {
            if crate::text::str_eq(name.as_str(), "Content-Length") {
                Ok((rest, true, bs))
            } else {
                let ghost old_rest = rest@;
                rest.insert(0, (name, value));
                proof {
                    assert(rest@ =~= seq![(name, value)] + old_rest);
                    let hs = spec_parse_resp_headers(s@, p as int)->Ok_0.0;
                    assert(rest@.map_values(|q: (String, String)| (q.0@, q.1@)) =~= seq![
                        (name@, value@),
                    ] + old_rest.map_values(|q: (String, String)| (q.0@, q.1@)));
                    assert(rest@.map_values(|q: (String, String)| (q.0@, q.1@)) =~= hs);
                }
                Ok((rest, cl, bs))
            }
        },
    }
}

impl RtspResponse {
    /// Parses a serialized response back into its parts, as
    /// [`spec_parse_response`] describes. The counterpart of
    /// [`RtspResponse::serialize`].
    pub fn parse(raw: &str) -> (r: Result<Self, RtspError>)
        ensures
            (match spec_parse_response(raw@) {
                Ok(m) => r matches Ok(resp) && resp@ == m,
                Err(k) => r matches Err(e) && (e matches RtspError::Parse { kind } && kind == k),
            }),
    {
        let n = raw.unicode_len();
        if n == 0 {
            return Err(RtspError::Parse { kind: ParseErrorKind::EmptyRequest });
        }
        let e1 = find_char_from(raw, 0, '\n');
        proof {
            assert(raw@.skip(0) =~= raw@);
        }
        let sl_raw = raw.substring_char(0, e1);
        let m = sl_raw.unicode_len();
        let sl = if m > 0 && sl_raw.get_char(m - 1) == '\r' {
            sl_raw.substring_char(0, m - 1)
        } else {
            sl_raw
        };
        proof {
            assert(raw@.subrange(0, e1 as int) =~= raw@.take(e1 as int));
            if m > 0 && sl_raw@[m - 1] == '\r' {
                assert(sl_raw@.subrange(0, m - 1) =~= strip_cr(sl_raw@));
            } else {
                assert(sl_raw@ =~= strip_cr(sl_raw@));
            }
        }
        let sn = sl.unicode_len();
        let sp1 = find_char_from(sl, 0, ' ');
        proof {
            assert(sl@.skip(0) =~= sl@);
        }
        if sp1 == sn {
            return Err(RtspError::Parse { kind: ParseErrorKind::InvalidRequestLine });
        }
        let rest = sl.substring_char(sp1 + 1, sn);
        proof {
            assert(sl@.subrange(sp1 + 1, sn as int) =~= sl@.skip(sp1 + 1));
        }
        let rn = rest.unicode_len();
        let sp2 = find_char_from(rest, 0, ' ');
        proof {
            assert(rest@.skip(0) =~= rest@);
        }
        if sp2 == rn {
            return Err(RtspError::Parse { kind: ParseErrorKind::InvalidRequestLine });
        }
        let code_str = rest.substring_char(0, sp2);
        proof {
            assert(rest@.subrange(0, sp2 as int) =~= rest@.take(sp2 as int));
        }
        let code = match parse_u16(code_str) {
            Some(c) => c,
            None => {
                return Err(RtspError::Parse { kind: ParseErrorKind::InvalidRequestLine });
            },
        };
        let text = String::from_str(rest.substring_char(sp2 + 1, rn));
        proof {
            assert(rest@.subrange(sp2 + 1, rn as int) =~= rest@.skip(sp2 + 1));
        }
        let hstart = if e1 == n {
            n
        } else {
            e1 + 1
        };
        match parse_resp_headers_exec(raw, hstart) {
            Err(k) => Err(RtspError::Parse { kind: k }),
            Ok((headers, has_cl, bs)) => {
                let body = if has_cl {
                    Some(String::from_str(raw.substring_char(bs, n)))
                } else {
                    None
                };
                proof {
                    assert(raw@.subrange(bs as int, n as int) =~= raw@.skip(bs as int));
                }
                Ok(RtspResponse { status_code: code, status_text: text, headers, body })
            },
        }
    }
}


/// A header pair as the builders produce it: the name free of line breaks,
/// colons and surrounding whitespace and not the serializer's own
/// `Content-Length`; the value free of line breaks and surrounding
/// whitespace.
pub open spec fn header_wf(h: (Seq<char>, Seq<char>)) -> bool {
    &&& forall|k: int|
        0 <= k < h.0.len() ==> #[trigger] h.0[k] != '\n' && h.0[k] != '\r' && h.0[k] != ':'
    &&& h.0.len() > 0 ==> !is_ws(h.0[0]) && !is_ws(h.0[h.0.len() - 1])
    &&& h.0 != "Content-Length"@
    &&& forall|k: int| 0 <= k < h.1.len() ==> #[trigger] h.1[k] != '\n' && h.1[k] != '\r'
    &&& h.1.len() > 0 ==> !is_ws(h.1[0]) && !is_ws(h.1[h.1.len() - 1])
}

/// A response as the builders produce it; within this shape, serialization
/// loses nothing.
pub open spec fn resp_wf(r: RespView) -> bool {
    &&& forall|k: int|
        0 <= k < r.status_text.len() ==> #[trigger] r.status_text[k] != '\n' && r.status_text[k]
            != '\r'
    &&& forall|i: int| 0 <= i < r.headers.len() ==> header_wf(#[trigger] r.headers[i])
}

proof fn lemma_trim_id(v: Seq<char>)
    requires
        v.len() > 0 ==> !is_ws(v[0]) && !is_ws(v[v.len() - 1]),
    ensures
        spec_trim(v) == v,
{
    assert(trim_start(v) == v);
    assert(trim_end(v) == v);
}

proof fn lemma_trim_space_prefix(v: Seq<char>)
    requires
        v.len() > 0 ==> !is_ws(v[0]) && !is_ws(v[v.len() - 1]),
    ensures
        spec_trim(seq![' '] + v) == v,
{
    let w = seq![' '] + v;
    assert(is_ws(w[0]));
    assert(w.skip(1) =~= v);
    assert(trim_start(w) == trim_start(v));
    assert(trim_start(v) == v);
    assert(trim_end(v) == v);
}

proof fn lemma_find_char_is_at(s: Seq<char>, c: char, m: int)
    requires
        0 <= m <= s.len(),
        m < s.len() ==> s[m] == c,
        forall|k: int| 0 <= k < m ==> s[k] != c,
    ensures
        m < s.len() ==> find_char(s, c) == m,
        m == s.len() ==> find_char(s, c) == s.len(),
    decreases m,
{
    lemma_find_char(s, c);
    let f = find_char(s, c);
    if m < s.len() {
        if f < m {
            assert(s[f] == c);
        }
        if f > m {
            assert(s[m] != c);
        }
    } else {
        if f < s.len() {
            assert(s[f] == c);
        }
    }
}

/// A blank `"\r\n"` line ends the header section right here.
proof fn lemma_resp_blank_line(s: Seq<char>, p: int)
    requires
        0 <= p,
        p + 2 <= s.len(),
        s[p] == '\r',
        s[p + 1] == '\n',
    ensures
        spec_parse_resp_headers(s, p) == Ok::<_, ParseErrorKind>((
            Seq::<(Seq<char>, Seq<char>)>::empty(),
            false,
            p + 2,
        )),
{
    let t = s.skip(p);
    assert(t[0] == '\r' && t[1] == '\n');
    lemma_find_char_is_at(t, '\n', 1);
    let e = p + 1;
    assert(s.subrange(p, e) =~= seq!['\r']);
    assert(strip_cr(seq!['\r']) =~= Seq::<char>::empty());
    assert(e < s.len());
}

/// Parsing a run of serialized headers prepends them to whatever parsing
/// the rest yields.
proof fn lemma_resp_headers_parse(s: Seq<char>, p: int, hs: Seq<(Seq<char>, Seq<char>)>)
    requires
        0 <= p <= s.len(),
        p + spec_serialize_headers(hs).len() <= s.len(),
        forall|i: int| 0 <= i < hs.len() ==> header_wf(#[trigger] hs[i]),
        forall|k: int|
            0 <= k < spec_serialize_headers(hs).len() ==> s[p + k]
                == spec_serialize_headers(hs)[k],
    ensures
        (match (spec_parse_resp_headers(s, p), spec_parse_resp_headers(
            s,
            p + spec_serialize_headers(hs).len(),
        )) {
            (Ok(a), Ok(b)) => a.0 == hs + b.0 && a.1 == b.1 && a.2 == b.2,
            (Err(k1), Err(k2)) => k1 == k2,
            _ => false,
        }),
    decreases hs.len(),
{
    reveal_strlit(": ");
    reveal_strlit("\r\n");
    if hs.len() == 0 {
        assert(spec_serialize_headers(hs).len() == 0);
        match spec_parse_resp_headers(s, p) {
            Ok(a) => {
                assert(hs + a.0 =~= a.0);
            },
            Err(_) => {},
        }
    } else {
        let h0 = hs[0];
        let rest = hs.skip(1);
        let line_body = h0.0 + ": "@ + h0.1;
        let ser = spec_serialize_headers(hs);
        let ser_rest = spec_serialize_headers(rest);
        assert(ser == h0.0 + ": "@ + h0.1 + "\r\n"@ + ser_rest);
        let a1 = line_body + seq!['\r'];
        assert(ser =~= a1 + (seq!['\n'] + ser_rest));
        let t = s.skip(p);
        assert forall|k: int| 0 <= k < ser.len() implies t[k] == ser[k] by {
            assert(t[k] == s[p + k]);
        }
        // the first '\n' sits right after the line's carriage return
        assert forall|k: int| 0 <= k < a1.len() implies t[k] != '\n' by {
            assert(t[k] == ser[k]);
            if k < h0.0.len() {
                assert(a1[k] == h0.0[k]);
            } else if k < h0.0.len() + 2 {
                assert(a1[k] == ": "@[k - h0.0.len()]);
            } else if k < h0.0.len() + 2 + h0.1.len() {
                assert(a1[k] == h0.1[k - h0.0.len() - 2]);
            } else {
                assert(a1[k] == '\r');
            }
            assert(ser[k] == a1[k]);
        }
        assert(t[a1.len() as int] == ser[a1.len() as int]);
        assert(ser[a1.len() as int] == (seq!['\n'] + ser_rest)[0]);
        lemma_find_char_is_at(t, '\n', a1.len() as int);
        let e = p + a1.len();
        assert(e < s.len());
        assert(s.subrange(p, e) =~= a1);
        assert(a1[a1.len() - 1] == '\r');
        assert(strip_cr(a1) =~= line_body);
        let l = line_body;
        assert(l.len() > 0);
        // the first colon ends the name
        assert forall|k: int| 0 <= k < h0.0.len() implies l[k] != ':' by {
            assert(l[k] == h0.0[k]);
        }
        assert(l[h0.0.len() as int] == ": "@[0]);
        lemma_find_char_is_at(l, ':', h0.0.len() as int);
        let j = h0.0.len() as int;
        assert(j < l.len());
        assert(l.take(j) =~= h0.0);
        lemma_trim_id(h0.0);
        assert(l.skip(j + 1) =~= seq![' '] + h0.1);
        lemma_trim_space_prefix(h0.1);
        assert(spec_trim(l.take(j)) == h0.0);
        assert(spec_trim(l.skip(j + 1)) == h0.1);
        let next = e + 1;
        assert(next == p + h0.0.len() + 2 + h0.1.len() + 2);
        assert forall|i: int| 0 <= i < rest.len() implies header_wf(#[trigger] rest[i]) by {
            assert(rest[i] == hs[i + 1]);
        }
        assert forall|k: int| 0 <= k < ser_rest.len() implies s[next + k] == ser_rest[k] by {
            assert(s[next + k] == t[a1.len() + 1 + k]);
            assert(t[a1.len() + 1 + k] == ser[a1.len() + 1 + k]);
            assert(ser[a1.len() + 1 + k] == (seq!['\n'] + ser_rest)[1 + k]);
        }
        lemma_resp_headers_parse(s, next, rest);
        assert(next + ser_rest.len() == p + ser.len());
        match (spec_parse_resp_headers(s, next), spec_parse_resp_headers(s, p + ser.len())) {
            (Ok(b1), Ok(b2)) => {
                assert(spec_parse_resp_headers(s, p) matches Ok(a) && a.0 == seq![(h0.0, h0.1)]
                    + b1.0 && a.1 == b1.1 && a.2 == b1.2);
                assert(b1.0 == rest + b2.0);
                assert(seq![(h0.0, h0.1)] + (rest + b2.0) =~= hs + b2.0);
            },
            (Err(_), Err(_)) => {},
            _ => {
                assert(false);
            },
        }
    }
}

/// The status line a serialized response begins with parses back to its
/// status code and status text.
proof fn lemma_status_line_parse(code: u16, text: Seq<char>)
    requires
        forall|k: int| 0 <= k < text.len() ==> #[trigger] text[k] != '\n' && text[k] != '\r',
    ensures
        spec_parse_status_line("RTSP/1.0 "@ + spec_dec_digits(code as int) + " "@ + text)
            == Ok::<_, ParseErrorKind>((code, text)),
{
    reveal_strlit("RTSP/1.0 ");
    reveal_strlit(" ");
    let d = spec_dec_digits(code as int);
    crate::num::lemma_dec_digits_val(code as int);
    let sl = "RTSP/1.0 "@ + d + " "@ + text;
    assert forall|k: int| 0 <= k < 8 implies sl[k] != ' ' by {
        assert(sl[k] == "RTSP/1.0 "@[k]);
    }
    assert(sl[8] == "RTSP/1.0 "@[8]);
    lemma_find_char_is_at(sl, ' ', 8);
    let rest = sl.skip(9);
    assert(rest =~= d + (" "@ + text));
    assert forall|k: int| 0 <= k < d.len() implies rest[k] != ' ' by {
        assert(rest[k] == d[k]);
        assert(crate::num::spec_is_digit(d[k]));
    }
    assert(rest[d.len() as int] == (" "@ + text)[0]);
    assert(rest[d.len() as int] == ' ');
    lemma_find_char_is_at(rest, ' ', d.len() as int);
    let sp2 = d.len() as int;
    assert(sp2 < rest.len());
    assert(rest.take(sp2) =~= d);
    assert(spec_parse_u16(d) == Some(code));
    assert(rest.skip(sp2 + 1) =~= text);
}

/// The serializer's body tail - `Content-Length`, a blank line, the body -
/// parses back to "no further headers, a body follows here".
proof fn lemma_resp_tail_body(s: Seq<char>, p: int, b: Seq<char>)
    requires
        0 <= p <= s.len(),
        s.skip(p) == "Content-Length: "@ + spec_dec_digits(byte_len(b)) + "\r\n"@ + "\r\n"@ + b,
    ensures
        spec_parse_resp_headers(s, p) == Ok::<_, ParseErrorKind>((
            Seq::<(Seq<char>, Seq<char>)>::empty(),
            true,
            s.len() - b.len(),
        )),
{
    reveal_strlit("Content-Length: ");
    reveal_strlit("Content-Length");
    reveal_strlit("\r\n");
    let d2 = spec_dec_digits(byte_len(b));
    crate::num::lemma_dec_digits_val(byte_len(b));
    let cl_line = "Content-Length: "@ + d2 + seq!['\r'];
    let t2 = s.skip(p);
    assert(t2 =~= cl_line + (seq!['\n'] + ("\r\n"@ + b)));
    assert forall|k: int| 0 <= k < cl_line.len() implies t2[k] != '\n' by {
        if k < "Content-Length: "@.len() {
            assert(cl_line[k] == "Content-Length: "@[k]);
        } else if k < "Content-Length: "@.len() + d2.len() {
            assert(cl_line[k] == d2[k - "Content-Length: "@.len()]);
            assert(crate::num::spec_is_digit(d2[k - "Content-Length: "@.len()]));
        } else {
            assert(cl_line[k] == '\r');
        }
        assert(t2[k] == cl_line[k]);
    }
    assert(t2[cl_line.len() as int] == (seq!['\n'] + ("\r\n"@ + b))[0]);
    lemma_find_char_is_at(t2, '\n', cl_line.len() as int);
    let e2 = p + cl_line.len();
    assert(e2 < s.len());
    assert(s.subrange(p, e2) =~= cl_line);
    assert(cl_line[cl_line.len() - 1] == '\r');
    assert(strip_cr(cl_line) =~= "Content-Length: "@ + d2);
    let l2 = "Content-Length: "@ + d2;
    assert forall|k: int| 0 <= k < 14 implies l2[k] != ':' by {
        assert(l2[k] == "Content-Length: "@[k]);
    }
    assert(l2[14] == "Content-Length: "@[14]);
    lemma_find_char_is_at(l2, ':', 14);
    assert(l2.take(14) =~= "Content-Length"@);
    assert("Content-Length"@[0] == 'C' && "Content-Length"@[13] == 'h');
    assert(!is_ws('C') && !is_ws('h'));
    lemma_trim_id("Content-Length"@);
    assert(spec_trim(l2.take(14)) == "Content-Length"@);
    let next2 = e2 + 1;
    assert(s.skip(next2) =~= t2.skip(cl_line.len() as int + 1));
    assert(t2.skip(cl_line.len() as int + 1) =~= "\r\n"@ + b);
    assert(s[next2] == (("\r\n"@ + b))[0]);
    assert(s[next2 + 1] == (("\r\n"@ + b))[1]);
    lemma_resp_blank_line(s, next2);
    assert(next2 + 2 == s.len() - b.len());
}

/// Serialization loses nothing: parsing a serialized well-formed response
/// restores its status code, status text, headers, and body.
#[verifier::rlimit(60)]
pub proof fn lemma_parse_serialize_roundtrip(r: RespView)
    requires
        resp_wf(r),
    ensures
        spec_parse_response(spec_serialize(r)) == Ok::<RespView, ParseErrorKind>(r),
{
    reveal_strlit("RTSP/1.0 ");
    reveal_strlit(" ");
    reveal_strlit("\r\n");
    let s = spec_serialize(r);
    let d = spec_dec_digits(r.status_code as int);
    crate::num::lemma_dec_digits_val(r.status_code as int);
    let sl_body = "RTSP/1.0 "@ + d + " "@ + r.status_text;
    let a1 = sl_body + seq!['\r'];
    let hser = spec_serialize_headers(r.headers);
    let tail = match r.body {
        None => "\r\n"@,
        Some(b) => "Content-Length: "@ + spec_dec_digits(byte_len(b)) + "\r\n"@ + "\r\n"@ + b,
    };
    assert(s =~= a1 + (seq!['\n'] + (hser + tail)));
    assert(s.len() > 0);
    assert forall|k: int| 0 <= k < a1.len() implies a1[k] != '\n' by {
        if k < "RTSP/1.0 "@.len() {
            assert(a1[k] == "RTSP/1.0 "@[k]);
        } else if k < "RTSP/1.0 "@.len() + d.len() {
            assert(a1[k] == d[k - "RTSP/1.0 "@.len()]);
            assert(crate::num::spec_is_digit(d[k - "RTSP/1.0 "@.len()]));
        } else if k < "RTSP/1.0 "@.len() + d.len() + 1 {
            assert(a1[k] == " "@[0]);
        } else if k < sl_body.len() {
            assert(a1[k] == r.status_text[k - "RTSP/1.0 "@.len() - d.len() - 1]);
        } else {
            assert(a1[k] == '\r');
        }
    }
    lemma_find_char_concat(a1, seq!['\n'] + (hser + tail), '\n');
    assert((seq!['\n'] + (hser + tail))[0] == '\n');
    lemma_find_char_is_at(seq!['\n'] + (hser + tail), '\n', 0);
    let e1 = find_char(s, '\n');
    assert(e1 == a1.len());
    assert(e1 < s.len());
    assert(s.take(e1) =~= a1);
    assert(a1[a1.len() - 1] == '\r');
    assert(strip_cr(a1) =~= sl_body);
    lemma_status_line_parse(r.status_code, r.status_text);
    // headers
    let hstart = e1 + 1;
    assert forall|k: int| 0 <= k < hser.len() implies s[hstart + k] == hser[k] by {
        assert(s[hstart + k] == (seq!['\n'] + (hser + tail))[1 + k]);
        assert((hser + tail)[k] == hser[k]);
    }
    lemma_resp_headers_parse(s, hstart, r.headers);
    let p2 = hstart + hser.len();
    assert(s.skip(p2) =~= tail);
    match r.body {
        None => {
            assert(s[p2] == tail[0]);
            assert(s[p2 + 1] == tail[1]);
            assert(tail[0] == '\r' && tail[1] == '\n');
            lemma_resp_blank_line(s, p2);
            match spec_parse_resp_headers(s, hstart) {
                Ok(a) => {
                    assert(a.0 =~= r.headers);
                    assert(!a.1);
                },
                Err(_) => {
                    assert(false);
                },
            }
            assert(spec_parse_response(s) == Ok::<RespView, ParseErrorKind>(
                RespView {
                    status_code: r.status_code,
                    status_text: r.status_text,
                    headers: r.headers,
                    body: None,
                },
            ));
            assert(r == RespView {
                status_code: r.status_code,
                status_text: r.status_text,
                headers: r.headers,
                body: None,
            });
        },
        Some(b) => {
            lemma_resp_tail_body(s, p2, b);
            match spec_parse_resp_headers(s, hstart) {
                Ok(a) => {
                    assert(a.0 =~= r.headers);
                    assert(a.1);
                    assert(a.2 == s.len() - b.len());
                },
                Err(_) => {
                    assert(false);
                },
            }
            assert(s.skip(s.len() - b.len()) =~= b);
            assert(spec_parse_response(s) == Ok::<RespView, ParseErrorKind>(
                RespView {
                    status_code: r.status_code,
                    status_text: r.status_text,
                    headers: r.headers,
                    body: Some(b),
                },
            ));
            assert(r == RespView {
                status_code: r.status_code,
                status_text: r.status_text,
                headers: r.headers,
                body: Some(b),
            });
        },
    }
}

} // verus!
