//! RTSP request parsing (RFC 2326).
//!
//! A request is line-oriented text: a request line of exactly three
//! whitespace-separated tokens, then `Name: value` headers up to the first
//! empty line. Both `"\r\n"` and `"\n"` line endings are accepted.

use crate::error::{ParseErrorKind, RtspError};
use crate::text::{
    ci_eq, find_char, join_term, lemma_find_char, lemma_line_endings_equivalent, spec_lines,
    spec_tokens, spec_trim, split_lines, str_eq_ci, tokens_of, trim_str,
};
use vstd::prelude::*;

verus! {

/// The abstract value of a parsed request.
pub struct ReqView {
    pub method: Seq<char>,
    pub uri: Seq<char>,
    pub version: Seq<char>,
    pub headers: Seq<(Seq<char>, Seq<char>)>,
}

/// The abstract value of a header list.
pub open spec fn pairs_view(hs: Seq<(String, String)>) -> Seq<(Seq<char>, Seq<char>)> {
    hs.map_values(|p: (String, String)| (p.0@, p.1@))
}

/// Index of the first non-empty line, or `ls.len()` when all are empty.
pub open spec fn find_nonempty(ls: Seq<Seq<char>>) -> int
    decreases ls.len(),
{
    if ls.len() == 0 {
        0
    } else if ls[0].len() > 0 {
        0
    } else {
        1 + find_nonempty(ls.skip(1))
    }
}

pub proof fn lemma_find_nonempty(ls: Seq<Seq<char>>)
    ensures
        0 <= find_nonempty(ls) <= ls.len(),
        find_nonempty(ls) < ls.len() ==> ls[find_nonempty(ls)].len() > 0,
        forall|k: int| 0 <= k < find_nonempty(ls) ==> ls[k].len() == 0,
    decreases ls.len(),
{
    if ls.len() == 0 {
    } else if ls[0].len() > 0 {
    } else {
        lemma_find_nonempty(ls.skip(1));
        assert forall|k: int| 0 <= k < find_nonempty(ls) implies ls[k].len() == 0 by {
            if k > 0 {
                assert(ls.skip(1)[k - 1] == ls[k]);
            }
        }
    }
}

/// The headers read from `ls[i]`, `ls[i+1]`, ... up to the first empty line:
/// each line must contain a colon; name and value are the trimmed parts
/// around the first colon.
pub open spec fn spec_parse_headers(ls: Seq<Seq<char>>, i: int) -> Result<
    Seq<(Seq<char>, Seq<char>)>,
    ParseErrorKind,
>
    decreases ls.len() - i,
{
    if i < 0 || i >= ls.len() || ls[i].len() == 0 {
        Ok(seq![])
    } else {
        let l = ls[i];
        let j = find_char(l, ':');
        if j == l.len() {
            Err(ParseErrorKind::InvalidHeader)
        } else {
            match spec_parse_headers(ls, i + 1) {
                Ok(rest) => Ok(
                    seq![(spec_trim(l.take(j)), spec_trim(l.skip(j + 1)))] + rest,
                ),
                Err(k) => Err(k),
            }
        }
    }
}

/// What parsing a request yields: the request line is the first non-empty
/// line and must have exactly three tokens; headers follow it up to the
/// first empty line.
pub open spec fn spec_parse_request(s: Seq<char>) -> Result<ReqView, ParseErrorKind> {
    let ls = spec_lines(s);
    let f = find_nonempty(ls);
    if f == ls.len() {
        Err(ParseErrorKind::EmptyRequest)
    } else {
        let toks = spec_tokens(ls[f]);
        if toks.len() != 3 {
            Err(ParseErrorKind::InvalidRequestLine)
        } else {
            match spec_parse_headers(ls, f + 1) {
                Ok(hs) => Ok(
                    ReqView { method: toks[0], uri: toks[1], version: toks[2], headers: hs },
                ),
                Err(k) => Err(k),
            }
        }
    }
}

/// First header whose name equals `name` up to ASCII case.
pub open spec fn spec_get_header(hs: Seq<(Seq<char>, Seq<char>)>, name: Seq<char>) -> Option<
    Seq<char>,
>
    decreases hs.len(),
{
    if hs.len() == 0 {
        None
    } else if ci_eq(hs[0].0, name) {
        Some(hs[0].1)
    } else {
        spec_get_header(hs.skip(1), name)
    }
}

/// A parsed RTSP request: request line fields and the headers in order of
/// appearance, duplicates preserved.
pub struct RtspRequest {
    pub method: String,
    pub uri: String,
    pub version: String,
    pub headers: Vec<(String, String)>,
}

impl View for RtspRequest {
    type V = ReqView;

    open spec fn view(&self) -> ReqView {
        ReqView {
            method: self.method@,
            uri: self.uri@,
            version: self.version@,
            headers: pairs_view(self.headers@),
        }
    }
}

fn parse_headers_from(lines: &Vec<String>, i: usize) -> (r: Result<
    Vec<(String, String)>,
    ParseErrorKind,
>)
    requires
        i <= lines@.len(),
    ensures
        (match spec_parse_headers(lines@.map_values(|l: String| l@), i as int) {
            Ok(hs) => r matches Ok(v) && pairs_view(v@) == hs,
            Err(k) => r matches Err(e) && e == k,
        }),
    decreases lines@.len() - i,
{
    let ghost ls = lines@.map_values(|l: String| l@);
    if i >= lines.len() {
        let v: Vec<(String, String)> = Vec::new();
        proof {
            assert(pairs_view(v@) =~= Seq::<(Seq<char>, Seq<char>)>::empty());
            assert(spec_parse_headers(ls, i as int) == Ok::<_, ParseErrorKind>(
                Seq::<(Seq<char>, Seq<char>)>::empty(),
            ));
        }
        return Ok(v);
    }
    let line = &lines[i];
    let n = line.as_str().unicode_len();
    if n == 0 {
        let v: Vec<(String, String)> = Vec::new();
        proof {
            assert(ls[i as int].len() == 0);
            assert(pairs_view(v@) =~= Seq::<(Seq<char>, Seq<char>)>::empty());
        }
        return Ok(v);
    }
    let mut j: usize = 0;
    while j < n && line.as_str().get_char(j) != ':'
        invariant
            j <= n,
            n == line@.len(),
            forall|k: int| 0 <= k < j ==> line@[k] != ':',
        decreases n - j,
    {
        j += 1;
    }
    proof {
        lemma_find_char(line@, ':');
        if j < n {
            assert(line@[j as int] == ':');
        }
        assert(find_char(line@, ':') == j);
        assert(ls[i as int] == line@);
    }
    if j == n {
        return Err(ParseErrorKind::InvalidHeader);
    }
    let name = String::from_str(trim_str(line.as_str().substring_char(0, j)));
    let value = String::from_str(trim_str(line.as_str().substring_char(j + 1, n)));
    proof {
        assert(line@.subrange(0, j as int) =~= line@.take(j as int));
        assert(line@.subrange(j + 1, n as int) =~= line@.skip(j + 1));
    }
    match parse_headers_from(lines, i + 1) {
        Ok(mut rest) => {
            let ghost old_rest = rest@;
            rest.insert(0, (name, value));
            proof {
                let hs = spec_parse_headers(ls, i as int)->Ok_0;
                assert(rest@ =~= seq![(name, value)] + old_rest);
                assert(pairs_view(rest@) =~= seq![(name@, value@)] + pairs_view(old_rest));
                assert(pairs_view(rest@) =~= hs);
            }
            Ok(rest)
        },
        Err(k) => Err(k),
    }
}

impl RtspRequest {
    /// Parses the text of one RTSP request, as [`spec_parse_request`]
    /// describes: `Ok` exactly when the first non-empty line has three
    /// whitespace-separated tokens and every header line up to the first
    /// empty line contains a colon.
    pub fn parse(raw: &str) -> (r: Result<Self, RtspError>)
        ensures
            (match spec_parse_request(raw@) {
                Ok(m) => r matches Ok(req) && req@ == m,
                Err(k) => r matches Err(e) && (e matches RtspError::Parse { kind } && kind == k),
            }),
    {
        let lines = split_lines(raw);
        let ghost ls = lines@.map_values(|l: String| l@);
        let mut f: usize = 0;
        while f < lines.len() && lines[f].as_str().is_empty()
            invariant
                f <= lines@.len(),
                ls == lines@.map_values(|l: String| l@),
                forall|k: int| 0 <= k < f ==> ls[k].len() == 0,
            decreases lines@.len() - f,
        {
            f += 1;
        }
        proof {
            lemma_find_nonempty(ls);
            if f < lines@.len() {
                assert(ls[f as int].len() > 0);
            }
            assert(find_nonempty(ls) == f);
        }
        if f == lines.len() {
            return Err(RtspError::Parse { kind: ParseErrorKind::EmptyRequest });
        }
        let toks = tokens_of(lines[f].as_str());
        proof {
            assert(ls[f as int] == lines@[f as int]@);
        }
        if toks.len() != 3 {
            return Err(RtspError::Parse { kind: ParseErrorKind::InvalidRequestLine });
        }
        let mut toks = toks;
        let version = toks.pop().unwrap();
        let uri = toks.pop().unwrap();
        let method = toks.pop().unwrap();
        proof {
            let tv = spec_tokens(ls[f as int]);
            assert(method@ == tv[0] && uri@ == tv[1] && version@ == tv[2]);
        }
        match parse_headers_from(&lines, f + 1) {
            Ok(headers) => Ok(RtspRequest { method, uri, version, headers }),
            Err(k) => Err(RtspError::Parse { kind: k }),
        }
    }

    /// First header matching `name` case-insensitively, as
    /// [`spec_get_header`] describes.
    pub fn get_header(&self, name: &str) -> (r: Option<&str>)
        ensures
            (match r {
                Some(v) => spec_get_header(self@.headers, name@) == Some(v@),
                None => spec_get_header(self@.headers, name@) is None,
            }),
    {
        let ghost hs = self@.headers;
        let mut i: usize = 0;
        proof {
            assert(hs.skip(0) =~= hs);
        }
        while i < self.headers.len()
            invariant
                i <= self.headers@.len(),
                hs == self@.headers,
                hs.len() == self.headers@.len(),
                spec_get_header(hs, name@) == spec_get_header(hs.skip(i as int), name@),
            decreases self.headers@.len() - i,
        {
            proof {
                assert(hs.skip(i as int)[0] == hs[i as int]);
            }
            if str_eq_ci(self.headers[i].0.as_str(), name) {
                return Some(self.headers[i].1.as_str());
            }
            proof {
                assert(hs.skip(i as int).skip(1) =~= hs.skip(i + 1));
            }
            i += 1;
        }
        proof {
            assert(hs.skip(i as int) =~= Seq::<(Seq<char>, Seq<char>)>::empty());
        }
        None
    }

    /// The `CSeq` header that pairs a response with this request
    /// (RFC 2326 section 12.17).
    pub fn cseq(&self) -> (r: Option<&str>)
        ensures
            (match r {
                Some(v) => spec_get_header(self@.headers, "CSeq"@) == Some(v@),
                None => spec_get_header(self@.headers, "CSeq"@) is None,
            }),
    {
        self.get_header("CSeq")
    }
}


/// A request written with bare `"\n"` line endings parses identically to
/// the same request written with `"\r\n"` endings.
pub proof fn lemma_parse_line_endings(ls: Seq<Seq<char>>)
    requires
        forall|i: int|
            0 <= i < ls.len() ==> forall|k: int|
                0 <= k < (#[trigger] ls[i]).len() ==> ls[i][k] != '\n' && ls[i][k] != '\r',
    ensures
        spec_parse_request(join_term(ls, "\r\n"@)) == spec_parse_request(join_term(ls, "\n"@)),
{
    lemma_line_endings_equivalent(ls);
}

} // verus!
