//! How a response is written as text, and the proof that reading undoes
//! writing.

use crate::decimal::{lemma_number_is_sign_and_digits, spec_parse_u32};
use crate::error::ErrorView;
use crate::grammar::{
    spec_header_of_line, spec_headers_of_lines, spec_parse, spec_parse_text, spec_preprocess,
    spec_status_line, StatusLineView,
};
use crate::http::{HeaderView, HttpResponseView};
use crate::line_breaks::{
    blank_line_at, first_blank_line_at, lemma_drop_cr_after_lf_identity, lemma_find_blank_line_is,
    no_cr_after_lf,
};
use crate::split::{
    lemma_index_of_first_is, lemma_split_at_first_separator, lemma_split_of_join,
    lemma_split_without_separator, spec_join,
};
use crate::whitespace::{
    is_trimmed, is_whitespace, lemma_trim_of_trimmed, lemma_trim_start_after_whitespace,
};
use vstd::prelude::*;

verus! {

/// The line that writes a header: its name, a colon, a space, its value.
pub open spec fn spec_write_header(header: HeaderView) -> Seq<char> {
    header.name + seq![':', ' '] + header.value
}

/// The lines that write `headers`, in order.
pub open spec fn spec_write_headers(headers: Seq<HeaderView>) -> Seq<Seq<char>> {
    headers.map_values(|header: HeaderView| spec_write_header(header))
}

/// The status line made of a version, a status code written as text, and a
/// reason.
pub open spec fn spec_write_status_line(
    version: Seq<char>,
    code: Seq<char>,
    reason: Seq<char>,
) -> Seq<char> {
    version + seq![' '] + code + seq![' '] + reason
}

/// The text of a response: status line, one line for each header, a blank line,
/// and the body.
pub open spec fn spec_write(status_line: Seq<char>, headers: Seq<HeaderView>, body: Seq<char>) -> Seq<
    char,
> {
    status_line + seq!['\n'] + spec_join(spec_write_headers(headers), '\n') + seq!['\n', '\n']
        + body
}

/// Whether a header can be written on one line and read back: its name and its
/// value have no whitespace at either end and no line feed, and its name has no
/// colon.
pub open spec fn is_writable_header(header: HeaderView) -> bool {
    &&& is_trimmed(header.name)
    &&& is_trimmed(header.value)
    &&& !header.name.contains(':')
    &&& !header.name.contains('\n')
    &&& !header.value.contains('\n')
}

/// The line of a writable header denotes that header. It is not empty and holds
/// no line feed.
pub proof fn lemma_header_of_written(header: HeaderView)
    requires
        is_writable_header(header),
    ensures
        spec_header_of_line(spec_write_header(header)) == Some(header),
        spec_write_header(header).len() > 0,
        !spec_write_header(header).contains('\n'),
        !is_whitespace(spec_write_header(header).first()),
{
    let line = spec_write_header(header);
    let n = header.name.len() as int;
    assert forall|j: int| 0 <= j < n implies line[j] != ':' by {
        assert(line[j] == header.name[j]);
        assert(header.name.contains(header.name[j]));
    }
    lemma_index_of_first_is(line, ':', n);
    assert(line.first() == if n > 0 {
        header.name.first()
    } else {
        ':'
    });
    assert(line.take(n) =~= header.name);
    assert(line.skip(n + 1) =~= seq![' '] + header.value);
    lemma_trim_of_trimmed(header.name);
    lemma_trim_start_after_whitespace(' ', header.value);
    lemma_trim_of_trimmed(header.value);
    if line.contains('\n') {
        let j = choose|j: int| 0 <= j < line.len() && line[j] == '\n';
        if j < n {
            assert(header.name[j] == '\n');
        } else if j >= n + 2 {
            assert(header.value[j - n - 2] == '\n');
        }
    }
}

/// The lines of writable headers denote those headers, in the same order.
pub proof fn lemma_headers_of_written(headers: Seq<HeaderView>)
    requires
        forall|i: int| 0 <= i < headers.len() ==> is_writable_header(#[trigger] headers[i]),
    ensures
        spec_headers_of_lines(spec_write_headers(headers)) == Ok::<Seq<HeaderView>, ErrorView>(
            headers,
        ),
    decreases headers.len(),
{
    let lines = spec_write_headers(headers);
    if headers.len() == 0 {
        assert(headers =~= Seq::empty());
    } else {
        let front = headers.drop_last();
        lemma_headers_of_written(front);
        lemma_header_of_written(headers.last());
        assert(lines.drop_last() =~= spec_write_headers(front));
        assert(front.push(headers.last()) =~= headers);
    }
}

/// A status line written from a version and a reason without spaces, and from
/// a code that denotes a number, denotes that version, number and reason.
pub proof fn lemma_status_line_of_written(version: Seq<char>, code: Seq<char>, reason: Seq<char>)
    requires
        !version.contains(' '),
        !reason.contains(' '),
        spec_parse_u32(code) is Some,
    ensures
        spec_status_line(spec_write_status_line(version, code, reason)) == Ok::<
            StatusLineView,
            ErrorView,
        >(StatusLineView { version, status_code: spec_parse_u32(code)->Some_0, reason }),
{
    if code.contains(' ') {
        let j = choose|j: int| 0 <= j < code.len() && code[j] == ' ';
        lemma_number_is_sign_and_digits(code, j);
    }
    lemma_split_without_separator(reason, ' ');
    lemma_split_at_first_separator(code, ' ', reason);
    lemma_split_at_first_separator(version, ' ', code + seq![' '] + reason);
    assert(version + seq![' '] + (code + seq![' '] + reason) =~= spec_write_status_line(
        version,
        code,
        reason,
    ));
    assert(seq![version] + (seq![code] + seq![reason]) =~= seq![version, code, reason]);
}

/// Whether a line feed in `s` is always followed by a character, and by one
/// that is no whitespace.
pub open spec fn line_feeds_lead_on(s: Seq<char>) -> bool {
    forall|j: int|
        0 <= j < s.len() && #[trigger] s[j] == '\n' ==> j + 1 < s.len() && !is_whitespace(s[j + 1])
}

/// Lines that are not empty, hold no line feed and do not begin with whitespace
/// give, joined by line feeds, a text that does not begin with whitespace and
/// in which each line feed is followed by the first character of a line.
proof fn lemma_line_feeds_in_joined_lines(lines: Seq<Seq<char>>)
    requires
        lines.len() > 0,
        forall|i: int|
            0 <= i < lines.len() ==> (#[trigger] lines[i]).len() > 0 && !lines[i].contains('\n')
                && !is_whitespace(lines[i].first()),
    ensures
        spec_join(lines, '\n').len() > 0,
        !is_whitespace(spec_join(lines, '\n').first()),
        line_feeds_lead_on(spec_join(lines, '\n')),
    decreases lines.len(),
{
    let joined = spec_join(lines, '\n');
    let first = lines.first();
    assert forall|k: int| 0 <= k < first.len() implies first[k] != '\n' by {
        assert(first.contains(first[k]));
    }
    if lines.len() > 1 {
        let rest = lines.drop_first();
        assert forall|i: int| 0 <= i < rest.len() implies (#[trigger] rest[i]).len() > 0
            && !rest[i].contains('\n') && !is_whitespace(rest[i].first()) by {
            assert(rest[i] == lines[i + 1]);
        }
        lemma_line_feeds_in_joined_lines(rest);
        let tail = spec_join(rest, '\n');
        let n = first.len() as int;
        assert forall|j: int| 0 <= j < joined.len() && #[trigger] joined[j] == '\n' implies j + 1
            < joined.len() && !is_whitespace(joined[j + 1]) by {
            if j < n {
                assert(joined[j] == first[j]);
            } else if j == n {
                assert(joined[j + 1] == tail[0]);
            } else {
                assert(joined[j] == tail[j - n - 1]);
                assert(joined[j + 1] == tail[j - n]);
            }
        }
    }
}

/// Reading undoes writing, for a text that needs no preprocessing. Written from
/// a version and a reason without spaces or line feeds, a code that denotes a
/// number, at least one header, all of them writable, and any body, the text
/// denotes the response with exactly these parts, the headers in their order.
pub proof fn lemma_parse_text_of_written(
    version: Seq<char>,
    code: Seq<char>,
    reason: Seq<char>,
    headers: Seq<HeaderView>,
    body: Seq<char>,
)
    requires
        !version.contains(' '),
        !version.contains('\n'),
        !reason.contains(' '),
        !reason.contains('\n'),
        spec_parse_u32(code) is Some,
        headers.len() > 0,
        forall|i: int| 0 <= i < headers.len() ==> is_writable_header(#[trigger] headers[i]),
    ensures
        spec_parse_text(spec_write(spec_write_status_line(version, code, reason), headers, body))
            == Ok::<HttpResponseView, ErrorView>(
            HttpResponseView {
                version,
                status_code: spec_parse_u32(code)->Some_0,
                reason,
                headers,
                body,
            },
        ),
{
    let status_line = spec_write_status_line(version, code, reason);
    let lines = spec_write_headers(headers);
    let block = spec_join(lines, '\n');
    let rest = block + seq!['\n', '\n'] + body;
    let text = spec_write(status_line, headers, body);
    let n = status_line.len() as int;
    let m = block.len() as int;

    // The status line ends at the first line feed.
    assert forall|j: int| 0 <= j < n implies text[j] != '\n' by {
        assert(text[j] == status_line[j]);
        if j < version.len() {
            assert(version.contains(version[j]));
        } else if version.len() < j <= version.len() + code.len() {
            lemma_number_is_sign_and_digits(code, j - version.len() - 1);
        } else if j > version.len() + code.len() + 1 {
            let k = j - version.len() - code.len() - 2;
            assert(reason.contains(reason[k]));
        }
    }
    lemma_index_of_first_is(text, '\n', n);
    assert(text.take(n) =~= status_line);
    assert(text.skip(n + 1) =~= rest);
    lemma_status_line_of_written(version, code, reason);

    // The header block ends at the first blank line.
    assert forall|i: int| 0 <= i < lines.len() implies (#[trigger] lines[i]).len() > 0
        && !lines[i].contains('\n') && !is_whitespace(lines[i].first()) by {
        lemma_header_of_written(headers[i]);
    }
    lemma_line_feeds_in_joined_lines(lines);
    assert forall|j: int| 0 <= j < m implies !blank_line_at(rest, j) by {
        assert(rest[j] == block[j]);
        if block[j] == '\n' {
            assert(rest[j + 1] == block[j + 1]);
        }
    }
    assert(first_blank_line_at(rest, m));
    lemma_find_blank_line_is(rest, m);
    assert(rest.take(m) =~= block);
    assert(rest.skip(m + 2) =~= body);
    lemma_split_of_join(lines, '\n');
    lemma_headers_of_written(headers);
}

/// A text that does not begin with whitespace, and in which no `'\r'` directly
/// follows a `'\n'`, is left as it is by preprocessing.
pub proof fn lemma_preprocess_of_clean(text: Seq<char>)
    requires
        text.len() > 0 ==> !is_whitespace(text.first()),
        no_cr_after_lf(text),
    ensures
        spec_preprocess(text) == text,
{
    lemma_drop_cr_after_lf_identity(text);
}

/// Reading undoes writing. Written from a version without spaces or line feeds
/// that begins with a character other than whitespace, a code that denotes a
/// number, a reason without spaces or line feeds, at least one header, all of
/// them writable, and a body that does not begin with `'\r'` and in which no
/// `'\r'` directly follows a `'\n'`, the text denotes the response with exactly
/// these parts, the headers in their order.
pub proof fn lemma_parse_of_written(
    version: Seq<char>,
    code: Seq<char>,
    reason: Seq<char>,
    headers: Seq<HeaderView>,
    body: Seq<char>,
)
    requires
        version.len() > 0,
        !is_whitespace(version.first()),
        !version.contains(' '),
        !version.contains('\n'),
        !reason.contains(' '),
        !reason.contains('\n'),
        spec_parse_u32(code) is Some,
        headers.len() > 0,
        forall|i: int| 0 <= i < headers.len() ==> is_writable_header(#[trigger] headers[i]),
        body.len() > 0 ==> body.first() != '\r',
        no_cr_after_lf(body),
    ensures
        spec_parse(spec_write(spec_write_status_line(version, code, reason), headers, body))
            == Ok::<HttpResponseView, ErrorView>(
            HttpResponseView {
                version,
                status_code: spec_parse_u32(code)->Some_0,
                reason,
                headers,
                body,
            },
        ),
{
    let status_line = spec_write_status_line(version, code, reason);
    let lines = spec_write_headers(headers);
    let block = spec_join(lines, '\n');
    let text = spec_write(status_line, headers, body);
    let n = status_line.len() as int;
    let m = block.len() as int;
    assert forall|i: int| 0 <= i < lines.len() implies (#[trigger] lines[i]).len() > 0
        && !lines[i].contains('\n') && !is_whitespace(lines[i].first()) by {
        lemma_header_of_written(headers[i]);
    }
    lemma_line_feeds_in_joined_lines(lines);
    assert forall|i: int| 0 < i < text.len() && text[i - 1] == '\n' implies #[trigger] text[i]
        != '\r' by {
        let j = i - 1;
        if j < n {
            assert(text[j] == status_line[j]);
            if j < version.len() {
                assert(version.contains(version[j]));
            } else if version.len() < j <= version.len() + code.len() {
                lemma_number_is_sign_and_digits(code, j - version.len() - 1);
            } else if j > version.len() + code.len() + 1 {
                let k = j - version.len() - code.len() - 2;
                assert(reason.contains(reason[k]));
            }
        } else if j == n {
            assert(text[i] == block[0]);
        } else if j < n + 1 + m {
            assert(text[j] == block[j - n - 1]);
            assert(text[i] == block[j - n]);
        } else if j == n + 1 + m {
            assert(text[i] == '\n');
        } else if j == n + 2 + m {
            assert(text[i] == body[0]);
        } else {
            assert(text[j] == body[j - n - m - 3]);
            assert(text[i] == body[i - n - m - 3]);
        }
    }
    assert(text.first() == version.first());
    lemma_preprocess_of_clean(text);
    lemma_parse_text_of_written(version, code, reason, headers, body);
}

} // verus!
