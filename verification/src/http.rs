//! HTTP responses: their parts, and how they are read from text.

use crate::decimal::parse_u32;
use crate::error::{Error, ErrorView};
use crate::grammar::{
    lemma_network_error_iff_no_line_feed, lemma_no_line_feed_is_network_error,
    spec_header_of_line, spec_headers_of_lines, spec_parse, spec_preprocess, spec_status_line,
    StatusLineView,
};
use crate::line_breaks::{drop_cr_after_lf, find_blank_line};
use crate::split::{find_char, spec_split, split, texts};
use crate::text::{from_chars, push_chars, to_chars};
use crate::whitespace::{trim, trim_start};
use vstd::prelude::*;
use vstd::slice::slice_subrange;

verus! {

/// One header of a response: a name and a value. The parser makes headers
/// whose name and value have no whitespace at either end.
#[derive(Debug, PartialEq, Eq)]
pub struct Header {
    name: String,
    value: String,
}

/// The mathematical value of a [`Header`].
pub struct HeaderView {
    pub name: Seq<char>,
    pub value: Seq<char>,
}

impl View for Header {
    type V = HeaderView;

    closed spec fn view(&self) -> HeaderView {
        HeaderView { name: self.name@, value: self.value@ }
    }
}

impl Clone for Header {
    fn clone(&self) -> (copy: Self)
        ensures
            copy == *self,
    {
        Header { name: self.name.clone(), value: self.value.clone() }
    }
}

impl Header {
    /// A header with the given name and value, both taken as they are.
    pub fn new(name: String, value: String) -> (header: Self)
        ensures
            header@ == (HeaderView { name: name@, value: value@ }),
    {
        Self { name, value }
    }

    /// A copy of the header's name.
    pub fn name(&self) -> (name: String)
        ensures
            name@ == self@.name,
    {
        self.name.clone()
    }

    /// A copy of the header's value.
    pub fn value(&self) -> (value: String)
        ensures
            value@ == self@.value,
    {
        self.value.clone()
    }
}

/// The mathematical value of an [`HttpResponse`].
pub struct HttpResponseView {
    pub version: Seq<char>,
    pub status_code: u32,
    pub reason: Seq<char>,
    pub headers: Seq<HeaderView>,
    pub body: Seq<char>,
}

/// The values of the headers in `headers`.
pub open spec fn header_views(headers: Seq<Header>) -> Seq<HeaderView> {
    headers.map_values(|header: Header| header@)
}

/// An HTTP response: protocol version, status code, reason phrase, headers in
/// the order in which they arrived, and body.
#[derive(Debug, PartialEq, Eq)]
pub struct HttpResponse {
    version: String,
    status_code: u32,
    reason: String,
    headers: Vec<Header>,
    body: String,
}

impl View for HttpResponse {
    type V = HttpResponseView;

    closed spec fn view(&self) -> HttpResponseView {
        HttpResponseView {
            version: self.version@,
            status_code: self.status_code,
            reason: self.reason@,
            headers: header_views(self.headers@),
            body: self.body@,
        }
    }
}

/// The mathematical value of what parsing returns.
pub open spec fn result_view(r: Result<HttpResponse, Error>) -> Result<
    HttpResponseView,
    ErrorView,
> {
    match r {
        Ok(response) => Ok(response@),
        Err(e) => Err(e@),
    }
}

/// Whether the header at position `i` of `headers` is the first one whose name
/// is exactly `name`.
pub open spec fn is_first_named(headers: Seq<HeaderView>, name: Seq<char>, i: int) -> bool {
    &&& 0 <= i < headers.len()
    &&& headers[i].name == name
    &&& forall|j: int| 0 <= j < i ==> (#[trigger] headers[j]).name != name
}

/// Whether some header of `headers` has exactly the name `name`.
pub open spec fn has_header_named(headers: Seq<HeaderView>, name: Seq<char>) -> bool {
    exists|i: int| 0 <= i < headers.len() && (#[trigger] headers[i]).name == name
}

/// The message for a name that no header has.
pub open spec fn header_not_found(name: Seq<char>) -> Seq<char> {
    "failed to find "@ + name + " in headers"@
}

/// Where no two headers share a name, each header is the first of its name, so
/// that looking its name up finds its own value.
pub proof fn lemma_distinct_names_are_all_found(headers: Seq<HeaderView>, i: int)
    requires
        0 <= i < headers.len(),
        forall|j: int, k: int|
            0 <= j < k < headers.len() ==> (#[trigger] headers[j]).name != (
            #[trigger] headers[k]).name,
    ensures
        is_first_named(headers, headers[i].name, i),
{
}

/// Parsing is a function of the text alone: whatever two runs on one text
/// return has the same value, be it a response or an error.
pub proof fn lemma_parse_twice(
    raw: Seq<char>,
    first: Result<HttpResponse, Error>,
    second: Result<HttpResponse, Error>,
)
    requires
        result_view(first) == spec_parse(raw),
        result_view(second) == spec_parse(raw),
    ensures
        match (first, second) {
            (Ok(a), Ok(b)) => a@ == b@,
            (Err(e), Err(f)) => e@ == f@,
            _ => false,
        },
{
}

/// An error among the first lines is the error of all the lines.
proof fn lemma_headers_of_lines_error(lines: Seq<Seq<char>>, n: int)
    requires
        0 <= n <= lines.len(),
        spec_headers_of_lines(lines.take(n)) is Err,
    ensures
        spec_headers_of_lines(lines) == spec_headers_of_lines(lines.take(n)),
    decreases lines.len() - n,
{
    if n < lines.len() {
        assert(lines.take(n + 1).drop_last() =~= lines.take(n));
        lemma_headers_of_lines_error(lines, n + 1);
    } else {
        assert(lines.take(n) =~= lines);
    }
}

/// A message made of `prefix` and the text `tail`.
fn message(prefix: &str, tail: &[char]) -> (m: String)
    ensures
        m@ == prefix@ + tail@,
{
    let mut m = prefix.to_owned();
    push_chars(&mut m, tail);
    m
}

/// Reads one header line.
fn parse_header_line(line: &[char]) -> (r: Option<Header>)
    ensures
        match r {
            Some(header) => spec_header_of_line(line@) == Some(header@),
            None => spec_header_of_line(line@) is None,
        },
{
    match find_char(line, ':') {
        None => None,
        Some(i) => {
            let n = line.len();
            let name = from_chars(trim(slice_subrange(line, 0, i)));
            let value = from_chars(trim(slice_subrange(line, i + 1, n)));
            Some(Header::new(name, value))
        },
    }
}

/// Reads the lines of a header block.
fn parse_headers(block: &[char]) -> (r: Result<Vec<Header>, Error>)
    ensures
        match r {
            Ok(headers) => spec_headers_of_lines(spec_split(block@, '\n')) == Ok::<
                Seq<HeaderView>,
                ErrorView,
            >(header_views(headers@)),
            Err(e) => spec_headers_of_lines(spec_split(block@, '\n')) == Err::<
                Seq<HeaderView>,
                ErrorView,
            >(e@),
        },
{
    let lines = split(block, '\n');
    let mut headers: Vec<Header> = Vec::new();
    let mut i: usize = 0;
    assert(header_views(headers@) =~= Seq::empty());
    while i < lines.len()
        invariant
            i <= lines@.len(),
            texts(lines@) == spec_split(block@, '\n'),
            spec_headers_of_lines(texts(lines@).take(i as int)) == Ok::<
                Seq<HeaderView>,
                ErrorView,
            >(header_views(headers@)),
        decreases lines@.len() - i,
    {
        let line = lines[i];
        let ghost before = header_views(headers@);
        assert(texts(lines@).take(i + 1).drop_last() =~= texts(lines@).take(i as int));
        assert(texts(lines@).take(i + 1).last() == line@);
        if line.len() > 0 {
            match parse_header_line(line) {
                None => {
                    proof {
                        lemma_headers_of_lines_error(texts(lines@), i + 1);
                    }
                    return Err(Error::MalformedResponse(message("invalid header line: ", line)));
                },
                Some(header) => {
                    headers.push(header);
                    assert(header_views(headers@) =~= before.push(header@));
                },
            }
        }
        i += 1;
    }
    assert(texts(lines@).take(lines@.len() as int) =~= texts(lines@));
    Ok(headers)
}

/// The parts of a status line, as the parser hands them on.
struct StatusLine {
    version: String,
    status_code: u32,
    reason: String,
}

impl View for StatusLine {
    type V = StatusLineView;

    closed spec fn view(&self) -> StatusLineView {
        StatusLineView {
            version: self.version@,
            status_code: self.status_code,
            reason: self.reason@,
        }
    }
}

/// Reads a status line.
fn parse_status_line(line: &[char]) -> (r: Result<StatusLine, Error>)
    ensures
        match r {
            Ok(status) => spec_status_line(line@) == Ok::<StatusLineView, ErrorView>(status@),
            Err(e) => spec_status_line(line@) == Err::<StatusLineView, ErrorView>(e@),
        },
{
    let parts = split(line, ' ');
    if parts.len() != 3 {
        return Err(Error::MalformedResponse(message("invalid status line: ", line)));
    }
    assert(texts(parts@)[0] == parts@[0]@);
    assert(texts(parts@)[1] == parts@[1]@);
    assert(texts(parts@)[2] == parts@[2]@);
    match parse_u32(parts[1]) {
        None => Err(Error::MalformedResponse(message("invalid status code: ", parts[1]))),
        Some(status_code) => Ok(
            StatusLine {
                version: from_chars(parts[0]),
                status_code,
                reason: from_chars(parts[2]),
            },
        ),
    }
}

impl HttpResponse {
    /// Parses a whole response, given as one text.
    ///
    /// Leading whitespace is dropped, and each `'\r'` that directly follows a
    /// `'\n'`. The first line is the status line: version, status code and
    /// reason, with single spaces between them. The lines up to the first blank
    /// line are headers, each cut at its first colon into a name and a value,
    /// both trimmed; what follows the blank line is the body. Without a blank
    /// line there are no headers, and all that follows the status line is the
    /// body.
    ///
    /// A text without any line feed gives [`Error::Network`]. A header line
    /// without a colon, a status line that does not have exactly three parts, or
    /// a status code that is no decimal `u32` gives
    /// [`Error::MalformedResponse`].
    pub fn new(raw_response: String) -> (r: Result<Self, Error>)
        ensures
            result_view(r) == spec_parse(raw_response@),
            r matches Err(Error::Network(_)) <==> !spec_preprocess(raw_response@).contains('\n'),
            !raw_response@.contains('\n') ==> r matches Err(Error::Network(_)),
    {
        proof {
            lemma_network_error_iff_no_line_feed(raw_response@);
            if !raw_response@.contains('\n') {
                lemma_no_line_feed_is_network_error(raw_response@);
            }
        }
        let raw = to_chars(raw_response.as_str());
        let text = drop_cr_after_lf(trim_start(raw.as_slice()));
        let text = text.as_slice();
        let (status_line, rest) = match find_char(text, '\n') {
            None => {
                return Err(Error::Network(message("invalid http response: ", text)));
            },
            Some(i) => {
                let n = text.len();
                (slice_subrange(text, 0, i), slice_subrange(text, i + 1, n))
            },
        };
        let (headers, body) = match find_blank_line(rest) {
            None => {
                let headers: Vec<Header> = Vec::new();
                assert(header_views(headers@) =~= Seq::empty());
                (headers, rest)
            },
            Some(i) => {
                let n = rest.len();
                let headers = match parse_headers(slice_subrange(rest, 0, i)) {
                    Ok(headers) => headers,
                    Err(e) => {
                        return Err(e);
                    },
                };
                (headers, slice_subrange(rest, i + 2, n))
            },
        };
        match parse_status_line(status_line) {
            Err(e) => Err(e),
            Ok(status) => Ok(
                Self {
                    version: status.version,
                    status_code: status.status_code,
                    reason: status.reason,
                    headers,
                    body: from_chars(body),
                },
            ),
        }
    }

    /// A copy of the protocol version, such as `HTTP/1.1`.
    pub fn version(&self) -> (version: String)
        ensures
            version@ == self@.version,
    {
        self.version.clone()
    }

    /// The status code.
    pub fn status_code(&self) -> (status_code: u32)
        ensures
            status_code == self@.status_code,
    {
        self.status_code
    }

    /// A copy of the reason phrase.
    pub fn reason(&self) -> (reason: String)
        ensures
            reason@ == self@.reason,
    {
        self.reason.clone()
    }

    /// A copy of all headers, in the order in which they arrived.
    pub fn headers(&self) -> (headers: Vec<Header>)
        ensures
            header_views(headers@) == self@.headers,
    {
        let headers = self.headers.clone();
        assert(headers@ =~= self.headers@);
        headers
    }

    /// A copy of the body.
    pub fn body(&self) -> (body: String)
        ensures
            body@ == self@.body,
    {
        self.body.clone()
    }

    /// Looks a header up by its exact name, letter case included, and returns a
    /// copy of the value of the first header that has it. Where several headers
    /// share the name, the later ones are not looked at.
    pub fn header_value(&self, name: &str) -> (r: Result<String, String>)
        ensures
            match r {
                Ok(value) => exists|i: int|
                    is_first_named(self@.headers, name@, i) && value@ == self@.headers[i].value,
                Err(message) => !has_header_named(self@.headers, name@) && message@
                    == header_not_found(name@),
            },
    {
        let wanted = name.to_owned();
        let mut i: usize = 0;
        while i < self.headers.len()
            invariant
                i <= self.headers@.len(),
                wanted@ == name@,
                forall|j: int| 0 <= j < i ==> (#[trigger] self@.headers[j]).name != name@,
            decreases self.headers@.len() - i,
        {
            if self.headers[i].name == wanted {
                assert(is_first_named(self@.headers, name@, i as int));
                return Ok(self.headers[i].value.clone());
            }
            i += 1;
        }
        let mut message = "failed to find ".to_owned();
        message.append(name);
        message.append(" in headers");
        Err(message)
    }
}

impl Clone for HttpResponse {
    fn clone(&self) -> (copy: Self)
        ensures
            copy@ == self@,
    {
        let headers = self.headers.clone();
        assert(headers@ =~= self.headers@);
        Self {
            version: self.version.clone(),
            status_code: self.status_code,
            reason: self.reason.clone(),
            headers,
            body: self.body.clone(),
        }
    }
}

} // verus!
