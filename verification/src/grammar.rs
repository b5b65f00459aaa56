//! What a text denotes as a response.
//!
//! A response is a status line, header lines, a blank line and a body. The
//! functions here say, for every text, which response it denotes or why it
//! denotes none. The parser is proved to return exactly that.

use crate::decimal::spec_parse_u32;
use crate::error::ErrorView;
use crate::http::{HeaderView, HttpResponseView};
use crate::line_breaks::{
    lemma_drop_cr_after_lf_contains, spec_drop_cr_after_lf, spec_find_blank_line,
};
use crate::split::spec_split;
use crate::whitespace::{
    is_trimmed, lemma_trim_is_trimmed, lemma_trim_start_shape, spec_trim, spec_trim_start,
};
use vstd::prelude::*;

verus! {

/// The error for a text without any line break.
pub open spec fn no_line_break(text: Seq<char>) -> ErrorView {
    ErrorView::Network("invalid http response: "@ + text)
}

/// The error for a header line without a colon.
pub open spec fn bad_header_line(line: Seq<char>) -> ErrorView {
    ErrorView::MalformedResponse("invalid header line: "@ + line)
}

/// The error for a status line that does not have three parts.
pub open spec fn bad_status_line(line: Seq<char>) -> ErrorView {
    ErrorView::MalformedResponse("invalid status line: "@ + line)
}

/// The error for a status code that is no number.
pub open spec fn bad_status_code(token: Seq<char>) -> ErrorView {
    ErrorView::MalformedResponse("invalid status code: "@ + token)
}

/// The header that a line denotes: the name before its first colon and the value
/// after it, each without surrounding whitespace. A line without a colon
/// denotes none.
pub open spec fn spec_header_of_line(line: Seq<char>) -> Option<HeaderView> {
    match line.index_of_first(':') {
        None => None,
        Some(i) => Some(
            HeaderView { name: spec_trim(line.take(i)), value: spec_trim(line.skip(i + 1)) },
        ),
    }
}

/// The headers that `lines` denote, in the order of the lines. Empty lines are
/// passed over. The first line that is not empty and has no colon makes the
/// whole an error.
pub open spec fn spec_headers_of_lines(lines: Seq<Seq<char>>) -> Result<Seq<HeaderView>, ErrorView>
    decreases lines.len(),
{
    if lines.len() == 0 {
        Ok(Seq::empty())
    } else {
        match spec_headers_of_lines(lines.drop_last()) {
            Err(e) => Err(e),
            Ok(headers) => if lines.last().len() == 0 {
                Ok(headers)
            } else {
                match spec_header_of_line(lines.last()) {
                    None => Err(bad_header_line(lines.last())),
                    Some(header) => Ok(headers.push(header)),
                }
            },
        }
    }
}

/// Lines give headers exactly when each of them that is not empty has a colon.
pub proof fn lemma_headers_need_colons(lines: Seq<Seq<char>>)
    ensures
        spec_headers_of_lines(lines) is Ok <==> forall|i: int|
            0 <= i < lines.len() && (#[trigger] lines[i]).len() > 0 ==> lines[i].contains(':'),
    decreases lines.len(),
{
    if lines.len() > 0 {
        let front = lines.drop_last();
        lemma_headers_need_colons(front);
        lines.last().index_of_first_ensures(':');
        if spec_headers_of_lines(lines) is Ok {
            assert forall|i: int| 0 <= i < lines.len() && (#[trigger] lines[i]).len() > 0 implies
                lines[i].contains(':') by {
                if i < front.len() {
                    assert(lines[i] == front[i]);
                }
            }
        } else if spec_headers_of_lines(front) is Ok {
            assert(lines[lines.len() - 1].len() > 0 && !lines[lines.len() - 1].contains(':'));
        } else {
            let i = choose|i: int|
                0 <= i < front.len() && (#[trigger] front[i]).len() > 0 && !front[i].contains(':');
            assert(lines[i] == front[i]);
        }
    }
}

/// The lines of `lines` that are not empty, in order.
pub open spec fn nonempty_lines(lines: Seq<Seq<char>>) -> Seq<Seq<char>> {
    lines.filter(|line: Seq<char>| line.len() > 0)
}

/// Headers keep the order of their lines: where the lines give headers at all,
/// there is one header for each line that is not empty, at the same place in
/// the order, and it is the header which that line denotes.
pub proof fn lemma_headers_keep_line_order(lines: Seq<Seq<char>>)
    requires
        spec_headers_of_lines(lines) is Ok,
    ensures
        spec_headers_of_lines(lines)->Ok_0.len() == nonempty_lines(lines).len(),
        forall|i: int|
            0 <= i < nonempty_lines(lines).len() ==> spec_header_of_line(
                #[trigger] nonempty_lines(lines)[i],
            ) == Some(spec_headers_of_lines(lines)->Ok_0[i]),
    decreases lines.len(),
{
    let nonempty = |line: Seq<char>| line.len() > 0;
    if lines.len() == 0 {
        lines.lemma_filter_len(nonempty);
    } else {
        let front = lines.drop_last();
        lemma_headers_keep_line_order(front);
        front.lemma_filter_push(lines.last(), nonempty);
        assert(front.push(lines.last()) =~= lines);
    }
}

/// The three parts of a status line.
pub struct StatusLineView {
    pub version: Seq<char>,
    pub status_code: u32,
    pub reason: Seq<char>,
}

/// What a status line denotes. Cut at each single space it must give exactly
/// three parts: the version, the status code as a decimal number that fits a
/// `u32`, and the reason.
pub open spec fn spec_status_line(line: Seq<char>) -> Result<StatusLineView, ErrorView> {
    let parts = spec_split(line, ' ');
    if parts.len() != 3 {
        Err(bad_status_line(line))
    } else {
        match spec_parse_u32(parts[1]) {
            None => Err(bad_status_code(parts[1])),
            Some(status_code) => Ok(
                StatusLineView { version: parts[0], status_code, reason: parts[2] },
            ),
        }
    }
}

/// The header lines of a response, given what follows its status line: the
/// lines before the first blank line. Without a blank line there are none.
pub open spec fn spec_header_lines(rest: Seq<char>) -> Seq<Seq<char>> {
    match spec_find_blank_line(rest) {
        None => Seq::empty(),
        Some(i) => spec_split(rest.take(i), '\n'),
    }
}

/// The body of a response, given what follows its status line: what stands
/// after the first blank line, or everything where there is no blank line.
pub open spec fn spec_body(rest: Seq<char>) -> Seq<char> {
    match spec_find_blank_line(rest) {
        None => rest,
        Some(i) => rest.skip(i + 2),
    }
}

/// The text that is parsed: `raw` without its leading whitespace, and then
/// without each `'\r'` that directly follows a `'\n'`.
pub open spec fn spec_preprocess(raw: Seq<char>) -> Seq<char> {
    spec_drop_cr_after_lf(spec_trim_start(raw))
}

/// What follows the status line in `text`: all that stands after the first
/// line feed.
pub open spec fn spec_after_status_line(text: Seq<char>) -> Seq<char> {
    match text.index_of_first('\n') {
        None => Seq::empty(),
        Some(i) => text.skip(i + 1),
    }
}

/// What a preprocessed text denotes: a response, or the reason why it is none.
///
/// The text is cut at its first line feed into the status line and the rest.
/// The rest gives headers and body. A malformed header line is reported before
/// a malformed status line.
pub open spec fn spec_parse_text(text: Seq<char>) -> Result<HttpResponseView, ErrorView> {
    match text.index_of_first('\n') {
        None => Err(no_line_break(text)),
        Some(i) => {
            let rest = spec_after_status_line(text);
            match spec_headers_of_lines(spec_header_lines(rest)) {
                Err(e) => Err(e),
                Ok(headers) => match spec_status_line(text.take(i)) {
                    Err(e) => Err(e),
                    Ok(status) => Ok(
                        HttpResponseView {
                            version: status.version,
                            status_code: status.status_code,
                            reason: status.reason,
                            headers,
                            body: spec_body(rest),
                        },
                    ),
                },
            }
        },
    }
}

/// What a raw text denotes: what it denotes once it is preprocessed.
pub open spec fn spec_parse(raw: Seq<char>) -> Result<HttpResponseView, ErrorView> {
    spec_parse_text(spec_preprocess(raw))
}

/// A text without any line feed is no response: parsing it gives the network
/// error, with the preprocessed text in its message.
pub proof fn lemma_no_line_feed_is_network_error(raw: Seq<char>)
    requires
        !raw.contains('\n'),
    ensures
        spec_parse(raw) == Err::<HttpResponseView, ErrorView>(no_line_break(spec_preprocess(raw))),
{
    let front = spec_trim_start(raw);
    let text = spec_preprocess(raw);
    if text.contains('\n') {
        lemma_drop_cr_after_lf_contains(front, '\n');
        lemma_trim_start_shape(raw);
        let i = choose|i: int| 0 <= i < front.len() && front[i] == '\n';
        assert(raw[raw.len() - front.len() + i] == '\n');
    }
    text.index_of_first_ensures('\n');
}

/// Header lines are never the cause of a network error.
proof fn lemma_headers_error_is_malformed(lines: Seq<Seq<char>>)
    ensures
        !(spec_headers_of_lines(lines) matches Err(ErrorView::Network(_))),
    decreases lines.len(),
{
    if lines.len() > 0 {
        lemma_headers_error_is_malformed(lines.drop_last());
    }
}

/// The network error is kept for texts that, once preprocessed, have no line
/// feed: every other text is a response or malformed.
pub proof fn lemma_network_error_iff_no_line_feed(raw: Seq<char>)
    ensures
        spec_parse(raw) matches Err(ErrorView::Network(_)) <==> !spec_preprocess(raw).contains(
            '\n',
        ),
{
    let text = spec_preprocess(raw);
    text.index_of_first_ensures('\n');
    lemma_headers_error_is_malformed(spec_header_lines(spec_after_status_line(text)));
}

/// A parsed response has its headers in the order of the input: one header for
/// each line of the header block that is not empty, at the same place in the
/// order, and it is the header which that line denotes. This holds whether or
/// not two headers share a name.
pub proof fn lemma_parse_keeps_header_order(raw: Seq<char>)
    requires
        spec_parse(raw) is Ok,
    ensures
        ({
            let lines = nonempty_lines(
                spec_header_lines(spec_after_status_line(spec_preprocess(raw))),
            );
            let headers = spec_parse(raw)->Ok_0.headers;
            &&& headers.len() == lines.len()
            &&& forall|i: int|
                0 <= i < lines.len() ==> spec_header_of_line(#[trigger] lines[i]) == Some(
                    headers[i],
                )
        }),
{
    lemma_headers_keep_line_order(spec_header_lines(spec_after_status_line(spec_preprocess(raw))));
}

/// The headers of a parsed response have names and values that neither begin
/// nor end with whitespace.
pub proof fn lemma_parsed_headers_are_trimmed(raw: Seq<char>, i: int)
    requires
        spec_parse(raw) is Ok,
        0 <= i < spec_parse(raw)->Ok_0.headers.len(),
    ensures
        is_trimmed(spec_parse(raw)->Ok_0.headers[i].name),
        is_trimmed(spec_parse(raw)->Ok_0.headers[i].value),
{
    lemma_parse_keeps_header_order(raw);
    let lines = nonempty_lines(spec_header_lines(spec_after_status_line(spec_preprocess(raw))));
    let line = lines[i];
    let colon = line.index_of_first(':')->Some_0;
    lemma_trim_is_trimmed(line.take(colon));
    lemma_trim_is_trimmed(line.skip(colon + 1));
}

} // verus!
