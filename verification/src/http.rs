//! The file server: what a request asks for and what it is answered.

use vstd::prelude::*;
use vstd::slice::slice_subrange;

use crate::mime;
use crate::mime::mime_for;
use crate::number;
use crate::number::{parse_unsigned, push_decimal};
use crate::percent;
use crate::percent::{percent_decodable, percent_decode};
use crate::text;
use crate::text::{
    begins_with,
    chars_of,
    contains,
    find,
    leading_word,
    skip_space,
    string_of,
    to_ascii_lowercase,
    trim,
};

verus! {

broadcast use vstd::string::group_string_axioms;

/// The first word of `s`, if there is one.
pub open spec fn first_word(s: Seq<char>) -> Option<Seq<char>> {
    let t = text::trim_start(s);
    if t.len() == 0 {
        None
    } else {
        Some(t.take(text::word_len(t) as int))
    }
}

/// What follows the first word of `s`.
pub open spec fn after_first_word(s: Seq<char>) -> Seq<char> {
    let t = text::trim_start(s);
    t.skip(text::word_len(t) as int)
}

/// The target that a request line names: its second word.
pub open spec fn request_target(line: Seq<char>) -> Option<Seq<char>> {
    first_word(after_first_word(text::trimmed(line)))
}

/// What a header line means.
pub enum HeaderView {
    /// The empty line that ends the headers.
    End,
    /// A header that gives a range.
    Range(Seq<char>),
    /// Any other header.
    Other,
}

/// What the header line `line` means.
pub open spec fn header_line(line: Seq<char>) -> HeaderView {
    let t = text::trimmed(line);
    if t.len() == 0 {
        HeaderView::End
    } else if "range:"@.is_prefix_of(text::ascii_lowercase(t)) {
        HeaderView::Range(text::trimmed(t.skip("range:"@.len() as int)))
    } else {
        HeaderView::Other
    }
}

/// The path that a target names. On Windows the slash in front of a drive letter goes.
pub open spec fn target_path(target: Seq<char>, windows: bool) -> Seq<char> {
    let decoded = percent::percent_decoded(target);
    let bytes = vstd::utf8::encode_utf8(decoded);
    if windows && decoded.len() > 0 && decoded[0] == '/' && bytes.len() > 3 && bytes[2] == ':' as u8 {
        decoded.drop_first()
    } else {
        decoded
    }
}

/// The position of the last byte of a file; zero for an empty file.
pub open spec fn last_byte(file_size: u64) -> u64 {
    if file_size == 0 {
        0
    } else {
        (file_size - 1) as u64
    }
}

/// `s` up to the first dash, or all of it where there is none.
pub open spec fn before_dash(s: Seq<char>) -> Seq<char> {
    match text::index_of(s, seq!['-']) {
        Some(i) => s.take(i),
        None => s,
    }
}

/// The number that stands behind the first dash of `s`, if one does.
pub open spec fn number_after_dash(s: Seq<char>) -> Option<u64> {
    match text::index_of(s, seq!['-']) {
        Some(i) => number::unsigned_value(text::trimmed(s.skip(i + 1))),
        None => None,
    }
}

/// The first and the last byte that a range asks for in a file of `file_size` bytes. A bound that
/// is missing or no number is that of the whole file, and the last byte is one of the file.
pub open spec fn range_bounds(range: Seq<char>, file_size: u64) -> Option<(u64, u64)> {
    if !"bytes="@.is_prefix_of(range) {
        None
    } else {
        let value = range.skip("bytes="@.len() as int);
        let start = match number::unsigned_value(text::trimmed(before_dash(value))) {
            Some(n) => n,
            None => 0,
        };
        let asked = match number_after_dash(value) {
            Some(n) => n,
            None => last_byte(file_size),
        };
        let end = if asked <= last_byte(file_size) {
            asked
        } else {
            last_byte(file_size)
        };
        Some((start, end))
    }
}

/// The answer to a request that names no target.
pub open spec fn bad_request() -> Seq<char> {
    "HTTP/1.1 400 Bad Request\r\nContent-Length: 0\r\n\r\n"@
}

/// The answer to a request for a path that leads upwards.
pub open spec fn forbidden() -> Seq<char> {
    "HTTP/1.1 403 Forbidden\r\nContent-Length: 0\r\n\r\n"@
}

/// The answer to a request for a file that cannot be opened.
pub open spec fn not_found() -> Seq<char> {
    "HTTP/1.1 404 Not Found\r\nContent-Length: 0\r\n\r\n"@
}

/// The headers that every answer with a file ends with.
pub open spec fn common_headers() -> Seq<char> {
    "\r\nAccept-Ranges: bytes\r\nAccess-Control-Allow-Origin: *\r\nConnection: close\r\n\r\n"@
}

/// The head of an answer with a whole file.
pub open spec fn whole_head(content_type: Seq<char>, file_size: u64) -> Seq<char> {
    "HTTP/1.1 200 OK\r\nContent-Type: "@ + content_type + "\r\nContent-Length: "@
        + number::decimal(file_size as nat) + common_headers()
}

/// The head of an answer with the bytes from `start` through `end` of a file.
pub open spec fn partial_head(
    content_type: Seq<char>,
    start: u64,
    end: u64,
    file_size: u64,
) -> Seq<char> {
    "HTTP/1.1 206 Partial Content\r\nContent-Type: "@ + content_type
        + "\r\nContent-Range: bytes "@ + number::decimal(start as nat) + "-"@ + number::decimal(
        end as nat,
    ) + "/"@ + number::decimal(file_size as nat) + "\r\nContent-Length: "@ + number::decimal(
        (end - start + 1) as nat,
    ) + common_headers()
}

fn words_second<'a>(s: &'a [char]) -> (r: Option<&'a [char]>)
    ensures
        r is Some <==> first_word(after_first_word(s@)) is Some,
        r matches Some(w) ==> first_word(after_first_word(s@)) == Some(w@),
{
    let rest = skip_space(s);
    let n = leading_word(rest);
    let rest = slice_subrange(rest, n, rest.len());
    assert(rest@ == after_first_word(s@));
    let rest = skip_space(rest);
    if rest.len() == 0 {
        return None;
    }
    let n = leading_word(rest);
    let word = slice_subrange(rest, 0, n);
    assert(word@ == rest@.take(n as int));
    Some(word)
}

/// The target that a request line names: its second word.
pub fn parse_request_line(line: &str) -> (r: Option<String>)
    ensures
        r is Some <==> request_target(line@) is Some,
        r matches Some(target) ==> request_target(line@) == Some(target@),
{
    let cs = chars_of(line);
    match words_second(trim(cs.as_slice())) {
        Some(word) => Some(string_of(word)),
        None => None,
    }
}

/// What a header line means.
#[derive(PartialEq, Eq, Debug)]
pub enum Header {
    /// The empty line that ends the headers.
    End,
    /// A header that gives a range.
    Range(String),
    /// Any other header.
    Other,
}

impl View for Header {
    type V = HeaderView;

    open spec fn view(&self) -> HeaderView {
        match self {
            Header::End => HeaderView::End,
            Header::Range(range) => HeaderView::Range(range@),
            Header::Other => HeaderView::Other,
        }
    }
}

/// What the header line `line` means.
pub fn parse_header_line(line: &str) -> (r: Header)
    ensures
        r@ == header_line(line@),
{
    let cs = chars_of(line);
    let t = trim(cs.as_slice());
    if t.len() == 0 {
        return Header::End;
    }
    if begins_with(to_ascii_lowercase(t).as_slice(), "range:") {
        proof {
            reveal_strlit("range:");
        }
        let value = slice_subrange(t, 6, t.len());
        assert(value@ == t@.skip("range:"@.len() as int));
        return Header::Range(string_of(trim(value)));
    }
    Header::Other
}

/// The path that a target names. On Windows the slash in front of a drive letter goes.
pub fn resolve_target(target: &str, windows: bool) -> (r: String)
    requires
        percent::escapes_are_whole(vstd::utf8::encode_utf8(target@)),
    ensures
        r@ == target_path(target@, windows),
{
    let decoded = percent_decode(target);
    if !windows {
        return decoded;
    }
    let cs = chars_of(decoded.as_str());
    let bytes = decoded.as_str().as_bytes();
    if cs.len() > 0 && cs[0] == '/' && bytes.len() > 3 && bytes[2] == ':' as u8 {
        let rest = slice_subrange(cs.as_slice(), 1, cs.len());
        assert(rest@ == cs@.drop_first());
        string_of(rest)
    } else {
        decoded
    }
}

/// The first and the last byte that a range asks for in a file of `file_size` bytes, if it asks
/// for bytes.
pub fn parse_range(range: &str, file_size: u64) -> (r: Option<(u64, u64)>)
    ensures
        r == range_bounds(range@, file_size),
{
    let cs = chars_of(range);
    let cs = cs.as_slice();
    if !begins_with(cs, "bytes=") {
        return None;
    }
    proof {
        reveal_strlit("bytes=");
    }
    let value = slice_subrange(cs, 6, cs.len());
    assert(value@ == cs@.skip("bytes="@.len() as int));
    let last = file_size.saturating_sub(1);
    let dash: Vec<char> = vec!['-'];
    assert(dash@ == seq!['-']);
    let (first, second): (Option<u64>, Option<u64>) = match find(value, dash.as_slice()) {
        Some(at) => {
            let before = slice_subrange(value, 0, at);
            let after = slice_subrange(value, at + 1, value.len());
            assert(before@ == value@.take(at as int));
            assert(after@ == value@.skip(at + 1));
            (parse_unsigned(trim(before)), parse_unsigned(trim(after)))
        },
        None => (parse_unsigned(trim(value)), None),
    };
    let start = match first {
        Some(n) => n,
        None => 0,
    };
    let asked = match second {
        Some(n) => n,
        None => last,
    };
    let end = if asked <= last {
        asked
    } else {
        last
    };
    Some((start, end))
}

/// The head of an answer with a whole file.
pub fn write_whole_head(content_type: &str, file_size: u64) -> (r: String)
    ensures
        r@ == whole_head(content_type@, file_size),
{
    let mut out = "HTTP/1.1 200 OK\r\nContent-Type: ".to_owned();
    out.append(content_type);
    out.append("\r\nContent-Length: ");
    push_decimal(&mut out, file_size);
    out.append(
        "\r\nAccept-Ranges: bytes\r\nAccess-Control-Allow-Origin: *\r\nConnection: close\r\n\r\n",
    );
    out
}

/// The head of an answer with the bytes from `start` through `end` of a file.
pub fn write_partial_head(content_type: &str, start: u64, end: u64, file_size: u64) -> (r: String)
    requires
        start <= end < u64::MAX,
    ensures
        r@ == partial_head(content_type@, start, end, file_size),
{
    let mut out = "HTTP/1.1 206 Partial Content\r\nContent-Type: ".to_owned();
    out.append(content_type);
    out.append("\r\nContent-Range: bytes ");
    push_decimal(&mut out, start);
    out.append("-");
    push_decimal(&mut out, end);
    out.append("/");
    push_decimal(&mut out, file_size);
    out.append("\r\nContent-Length: ");
    push_decimal(&mut out, end - start + 1);
    out.append(
        "\r\nAccept-Ranges: bytes\r\nAccess-Control-Allow-Origin: *\r\nConnection: close\r\n\r\n",
    );
    out
}

/// How far the handling of a request has come.
#[derive(PartialEq, Eq, Debug)]
pub enum ServeState {
    /// The request line is to come.
    RequestLine,
    /// The request line named a target; headers are to come. `range` is the last range given.
    Headers { target: String, range: Option<String> },
    /// The file at `path` is to be opened.
    Opening { path: String, range: Option<String> },
    /// The answer has been given.
    Done,
}

/// What happened.
#[derive(PartialEq, Eq, Debug)]
pub enum ServeEvent<'a> {
    /// This line was read; it is empty at the end of the stream.
    Line(&'a str),
    /// The file was opened and has this many bytes.
    Opened(u64),
    /// The file could not be opened.
    OpenFailed,
}

/// What to do.
#[derive(PartialEq, Eq, Debug)]
pub enum ServeAction {
    /// Read the next line.
    ReadLine,
    /// Open the file at this path.
    Open(String),
    /// Send this answer and close the connection.
    Send(String),
    /// Go to byte `seek` of the file where it is given, send `head`, then `length` bytes of the
    /// file, and close the connection.
    SendFile { seek: Option<u64>, head: String, length: u64 },
}

/// `ServeState` with its texts in characters.
pub enum ServeStateView {
    RequestLine,
    Headers { target: Seq<char>, range: Option<Seq<char>> },
    Opening { path: Seq<char>, range: Option<Seq<char>> },
    Done,
}

impl View for ServeState {
    type V = ServeStateView;

    open spec fn view(&self) -> ServeStateView {
        match self {
            ServeState::RequestLine => ServeStateView::RequestLine,
            ServeState::Headers { target, range } => ServeStateView::Headers {
                target: target@,
                range: text::option_view(*range),
            },
            ServeState::Opening { path, range } => ServeStateView::Opening {
                path: path@,
                range: text::option_view(*range),
            },
            ServeState::Done => ServeStateView::Done,
        }
    }
}

/// `ServeEvent` with its text in characters.
pub enum ServeEventView {
    Line(Seq<char>),
    Opened(u64),
    OpenFailed,
}

impl<'a> View for ServeEvent<'a> {
    type V = ServeEventView;

    open spec fn view(&self) -> ServeEventView {
        match self {
            ServeEvent::Line(line) => ServeEventView::Line(line@),
            ServeEvent::Opened(size) => ServeEventView::Opened(*size),
            ServeEvent::OpenFailed => ServeEventView::OpenFailed,
        }
    }
}

/// `ServeAction` with its texts in characters.
pub enum ServeActionView {
    ReadLine,
    Open(Seq<char>),
    Send(Seq<char>),
    SendFile { seek: Option<u64>, head: Seq<char>, length: u64 },
}

impl View for ServeAction {
    type V = ServeActionView;

    open spec fn view(&self) -> ServeActionView {
        match self {
            ServeAction::ReadLine => ServeActionView::ReadLine,
            ServeAction::Open(path) => ServeActionView::Open(path@),
            ServeAction::Send(answer) => ServeActionView::Send(answer@),
            ServeAction::SendFile { seek, head, length } => ServeActionView::SendFile {
                seek: *seek,
                head: head@,
                length: *length,
            },
        }
    }
}

/// A range that may be missing, as bounds in a file of `file_size` bytes.
pub open spec fn bounds_of(range: Option<Seq<char>>, file_size: u64) -> Option<(u64, u64)> {
    match range {
        Some(range) => range_bounds(range, file_size),
        None => None,
    }
}

/// What follows the headers: a path that leads upwards is refused, any other is opened.
pub open spec fn after_headers(
    target: Seq<char>,
    range: Option<Seq<char>>,
    windows: bool,
) -> (ServeStateView, ServeActionView) {
    let path = target_path(target, windows);
    if text::occurs(path, ".."@) {
        (ServeStateView::Done, ServeActionView::Send(forbidden()))
    } else {
        (ServeStateView::Opening { path, range }, ServeActionView::Open(path))
    }
}

/// The answer with the file at `path`: the bytes that the range asks for, or the whole file.
pub open spec fn file_answer(
    path: Seq<char>,
    range: Option<Seq<char>>,
    file_size: u64,
) -> ServeActionView {
    match bounds_of(range, file_size) {
        Some((start, end)) => ServeActionView::SendFile {
            seek: Some(start),
            head: partial_head(mime::mime_type(path), start, end, file_size),
            length: (end - start + 1) as u64,
        },
        None => ServeActionView::SendFile {
            seek: None,
            head: whole_head(mime::mime_type(path), file_size),
            length: file_size,
        },
    }
}

/// The state and the action that follow when `event` happens in `state`.
pub open spec fn serve_step(state: ServeStateView, event: ServeEventView, windows: bool) -> (
    ServeStateView,
    ServeActionView,
) {
    match (state, event) {
        (ServeStateView::RequestLine, ServeEventView::Line(line)) => match request_target(line) {
            Some(target) => (
                ServeStateView::Headers { target, range: None },
                ServeActionView::ReadLine,
            ),
            None => (ServeStateView::Done, ServeActionView::Send(bad_request())),
        },
        (ServeStateView::Headers { target, range }, ServeEventView::Line(line)) => match header_line(
            line,
        ) {
            HeaderView::End => after_headers(target, range, windows),
            HeaderView::Range(given) => (
                ServeStateView::Headers { target, range: Some(given) },
                ServeActionView::ReadLine,
            ),
            HeaderView::Other => (
                ServeStateView::Headers { target, range },
                ServeActionView::ReadLine,
            ),
        },
        (ServeStateView::Opening { path, range }, ServeEventView::Opened(file_size)) => (
            ServeStateView::Done,
            file_answer(path, range, file_size),
        ),
        (ServeStateView::Opening { path, range }, ServeEventView::OpenFailed) => (
            ServeStateView::Done,
            ServeActionView::Send(not_found()),
        ),
        _ => (ServeStateView::Done, ServeActionView::ReadLine),
    }
}

/// `event` can happen in `state`, and there is an answer to it: a target can be decoded, and a
/// range does not end before it begins.
pub open spec fn serve_ready(state: ServeStateView, event: ServeEventView) -> bool {
    match (state, event) {
        (ServeStateView::RequestLine, ServeEventView::Line(_)) => true,
        (
            ServeStateView::Headers { target, range },
            ServeEventView::Line(line),
        ) => header_line(line) is End ==> percent::escapes_are_whole(
            vstd::utf8::encode_utf8(target),
        ),
        (
            ServeStateView::Opening { path, range },
            ServeEventView::Opened(file_size),
        ) => bounds_of(range, file_size) matches Some((start, end)) ==> start <= end,
        (ServeStateView::Opening { path, range }, ServeEventView::OpenFailed) => true,
        _ => false,
    }
}

/// Whether `serve_http` can take this step.
pub fn can_serve(state: &ServeState, event: &ServeEvent) -> (r: bool)
    ensures
        r == serve_ready(state@, event@),
{
    match (state, event) {
        (ServeState::RequestLine, ServeEvent::Line(_)) => true,
        (ServeState::Headers { target, range: _ }, ServeEvent::Line(line)) => {
            match parse_header_line(line) {
                Header::End => percent_decodable(target.as_str()),
                _ => true,
            }
        },
        (ServeState::Opening { path: _, range }, ServeEvent::Opened(file_size)) => match range {
            None => true,
            Some(range) => match parse_range(range.as_str(), *file_size) {
                None => true,
                Some((start, end)) => start <= end,
            },
        },
        (ServeState::Opening { path: _, range: _ }, ServeEvent::OpenFailed) => true,
        _ => false,
    }
}

fn answer_with_file(path: &str, range: &Option<String>, file_size: u64) -> (r: ServeAction)
    requires
        bounds_of(text::option_view(*range), file_size) matches Some((start, end)) ==> start <= end,
    ensures
        r@ == file_answer(path@, text::option_view(*range), file_size),
{
    let content_type = mime_for(path);
    let bounds = match range {
        Some(range) => parse_range(range.as_str(), file_size),
        None => None,
    };
    match bounds {
        Some((start, end)) => ServeAction::SendFile {
            seek: Some(start),
            head: write_partial_head(content_type, start, end, file_size),
            length: end - start + 1,
        },
        None => ServeAction::SendFile {
            seek: None,
            head: write_whole_head(content_type, file_size),
            length: file_size,
        },
    }
}

/// One step in the handling of a request: what to do when `event` happens in `state`.
pub fn serve_http(state: ServeState, event: ServeEvent, windows: bool) -> (r: (
    ServeState,
    ServeAction,
))
    requires
        serve_ready(state@, event@),
    ensures
        (r.0@, r.1@) == serve_step(state@, event@, windows),
{
    match (state, event) {
        (ServeState::RequestLine, ServeEvent::Line(line)) => match parse_request_line(line) {
            Some(target) => (ServeState::Headers { target, range: None }, ServeAction::ReadLine),
            None => (
                ServeState::Done,
                ServeAction::Send(
                    "HTTP/1.1 400 Bad Request\r\nContent-Length: 0\r\n\r\n".to_owned(),
                ),
            ),
        },
        (ServeState::Headers { target, range }, ServeEvent::Line(line)) => {
            match parse_header_line(line) {
                Header::End => {
                    let path = resolve_target(target.as_str(), windows);
                    if contains(chars_of(path.as_str()).as_slice(), "..") {
                        (
                            ServeState::Done,
                            ServeAction::Send(
                                "HTTP/1.1 403 Forbidden\r\nContent-Length: 0\r\n\r\n".to_owned(),
                            ),
                        )
                    } else {
                        let open = ServeAction::Open(path.clone());
                        (ServeState::Opening { path, range }, open)
                    }
                },
                Header::Range(given) => (
                    ServeState::Headers { target, range: Some(given) },
                    ServeAction::ReadLine,
                ),
                Header::Other => (ServeState::Headers { target, range }, ServeAction::ReadLine),
            }
        },
        (ServeState::Opening { path, range }, ServeEvent::Opened(file_size)) => (
            ServeState::Done,
            answer_with_file(path.as_str(), &range, file_size),
        ),
        _ => (
            ServeState::Done,
            ServeAction::Send("HTTP/1.1 404 Not Found\r\nContent-Length: 0\r\n\r\n".to_owned()),
        ),
    }
}

/// A path that leads upwards is answered with the refusal, and no such path is ever opened.
pub proof fn law_upward_paths_are_refused(
    state: ServeStateView,
    event: ServeEventView,
    windows: bool,
)
    requires
        serve_ready(state, event),
    ensures
        serve_step(state, event, windows).1 matches ServeActionView::Open(path) ==> !text::occurs(
            path,
            ".."@,
        ),
        (state, event) matches (
            ServeStateView::Headers { target, range },
            ServeEventView::Line(line),
        ) ==> header_line(line) is End ==> (text::occurs(target_path(target, windows), ".."@)
            <==> serve_step(state, event, windows) == (
            ServeStateView::Done,
            ServeActionView::Send(forbidden()),
        )),
{
}

/// The range that the last of the header lines that give one gives.
pub open spec fn last_range(headers: Seq<Seq<char>>) -> Option<Seq<char>>
    decreases headers.len(),
{
    if headers.len() == 0 {
        None
    } else {
        match header_line(headers.last()) {
            HeaderView::Range(range) => Some(range),
            _ => last_range(headers.drop_last()),
        }
    }
}

/// The state after reading `lines` one after the other.
pub open spec fn state_after(state: ServeStateView, lines: Seq<Seq<char>>, windows: bool) -> (
    ServeStateView,
    ServeActionView,
)
    decreases lines.len(),
{
    if lines.len() == 0 {
        (state, ServeActionView::ReadLine)
    } else {
        serve_step(
            state_after(state, lines.drop_last(), windows).0,
            ServeEventView::Line(lines.last()),
            windows,
        )
    }
}

proof fn lemma_headers_read(target: Seq<char>, headers: Seq<Seq<char>>, windows: bool)
    requires
        forall|i: int| 0 <= i < headers.len() ==> !(header_line(#[trigger] headers[i]) is End),
    ensures
        state_after(
            ServeStateView::Headers { target, range: None },
            headers,
            windows,
        ) == (
            ServeStateView::Headers { target, range: last_range(headers) },
            ServeActionView::ReadLine,
        ),
    decreases headers.len(),
{
    if headers.len() > 0 {
        assert(!(header_line(headers.last()) is End));
        lemma_headers_read(target, headers.drop_last(), windows);
    }
}

/// After a request line, header lines and an empty line, the file that the target names is opened
/// or refused, with the last range that the headers give.
pub proof fn law_request_is_read(
    line: Seq<char>,
    headers: Seq<Seq<char>>,
    end: Seq<char>,
    windows: bool,
)
    requires
        request_target(line) is Some,
        forall|i: int| 0 <= i < headers.len() ==> !(header_line(#[trigger] headers[i]) is End),
        header_line(end) is End,
    ensures
        state_after(
            serve_step(ServeStateView::RequestLine, ServeEventView::Line(line), windows).0,
            headers.push(end),
            windows,
        ) == after_headers(request_target(line)->0, last_range(headers), windows),
{
    let target = request_target(line)->0;
    lemma_headers_read(target, headers, windows);
    assert(headers.push(end).drop_last() == headers);
}

/// What a request is answered, from its request line, its header lines and what opening the file
/// gave: the size of the file, or a failure.
pub open spec fn answer(
    line: Seq<char>,
    headers: Seq<Seq<char>>,
    opened: Option<u64>,
    windows: bool,
) -> ServeActionView {
    match request_target(line) {
        None => ServeActionView::Send(bad_request()),
        Some(target) => {
            let path = target_path(target, windows);
            if text::occurs(path, ".."@) {
                ServeActionView::Send(forbidden())
            } else {
                match opened {
                    None => ServeActionView::Send(not_found()),
                    Some(file_size) => file_answer(path, last_range(headers), file_size),
                }
            }
        },
    }
}

/// The action that follows when opening a file gave this.
pub open spec fn after_opening(state: ServeStateView, opened: Option<u64>, windows: bool) -> (
    ServeStateView,
    ServeActionView,
) {
    serve_step(
        state,
        match opened {
            Some(file_size) => ServeEventView::Opened(file_size),
            None => ServeEventView::OpenFailed,
        },
        windows,
    )
}

/// Every request gets exactly one answer: the refusal of what names no target, leads upwards or
/// cannot be opened, or else the file or the part of it that was asked for.
pub proof fn law_request_is_answered(
    line: Seq<char>,
    headers: Seq<Seq<char>>,
    end: Seq<char>,
    opened: Option<u64>,
    windows: bool,
)
    requires
        forall|i: int| 0 <= i < headers.len() ==> !(header_line(#[trigger] headers[i]) is End),
        header_line(end) is End,
    ensures
        ({
            let first = serve_step(ServeStateView::RequestLine, ServeEventView::Line(line), windows);
            let read = state_after(first.0, headers.push(end), windows);
            let reply = answer(line, headers, opened, windows);
            if request_target(line) is None {
                first == (ServeStateView::Done, reply)
            } else if read.1 is Open {
                after_opening(read.0, opened, windows) == (ServeStateView::Done, reply)
            } else {
                read == (ServeStateView::Done, reply)
            }
        }),
{
    if request_target(line) is Some {
        law_request_is_read(line, headers, end, windows);
    }
}

/// The last byte of an answer is one of the file, and an answer with a range that begins in the
/// file does not announce more bytes than the file has from there on.
pub proof fn law_range_in_file(range: Seq<char>, file_size: u64)
    ensures
        range_bounds(range, file_size) matches Some((start, end)) ==> {
            &&& file_size > 0 ==> end < file_size
            &&& file_size > 0 && start <= end ==> start + (end - start + 1) <= file_size
        },
{
}

/// The head of an answer announces exactly as many bytes as are sent behind it.
pub proof fn law_head_announces_what_is_sent(
    path: Seq<char>,
    range: Option<Seq<char>>,
    file_size: u64,
)
    requires
        bounds_of(range, file_size) matches Some((start, end)) ==> start <= end,
    ensures
        file_answer(path, range, file_size) matches ServeActionView::SendFile { seek, head, length }
            && exists|first: Seq<char>|
            head == #[trigger] (first + "\r\nContent-Length: "@) + number::decimal(length as nat)
                + common_headers(),
{
    let content_type = mime::mime_type(path);
    let first = match bounds_of(range, file_size) {
        Some((start, end)) => "HTTP/1.1 206 Partial Content\r\nContent-Type: "@ + content_type
            + "\r\nContent-Range: bytes "@ + number::decimal(start as nat) + "-"@
            + number::decimal(end as nat) + "/"@ + number::decimal(file_size as nat),
        None => "HTTP/1.1 200 OK\r\nContent-Type: "@ + content_type,
    };
    let length = file_answer(path, range, file_size)->length;
    assert(file_answer(path, range, file_size)->head == (first + "\r\nContent-Length: "@)
        + number::decimal(length as nat) + common_headers());
}

/// A range written as two numbers asks for the bytes between them, as far as the file has them.
pub proof fn law_range_reads_back(start: u64, end: u64, file_size: u64)
    ensures
        range_bounds(
            "bytes="@ + number::decimal(start as nat) + "-"@ + number::decimal(end as nat),
            file_size,
        ) == Some(
            (
                start,
                if end <= last_byte(file_size) {
                    end
                } else {
                    last_byte(file_size)
                },
            ),
        ),
{
    reveal_strlit("-");
    assert("-"@ == seq!['-']);
    let a = number::decimal(start as nat);
    let b = number::decimal(end as nat);
    let range = "bytes="@ + a + "-"@ + b;
    let value = range.skip("bytes="@.len() as int);
    assert(range.subrange(0, "bytes="@.len() as int) == "bytes="@);
    assert(value == a + seq!['-'] + b);
    number::lemma_decimal_digits(start as nat);
    number::lemma_decimal_digits(end as nat);
    assert(value.subrange(a.len() as int, a.len() as int + 1) == seq!['-']);
    assert forall|j: int| 0 <= j < a.len() implies !text::occurs_at(value, seq!['-'], j) by {
        assert(number::digit(a[j]));
        assert(value.subrange(j, j + 1)[0] == a[j]);
    }
    text::lemma_first_at(value, seq!['-'], a.len() as int);
    assert(value.take(a.len() as int) == a);
    assert(value.skip(a.len() as int + 1) == b);
    assert(number::digit(a[0]) && number::digit(a.last()));
    assert(number::digit(b[0]) && number::digit(b.last()));
    assert(text::trimmed(a) == a);
    assert(text::trimmed(b) == b);
    number::law_decimal_reads_back(start);
    number::law_decimal_reads_back(end);
}

/// Where a request gives no range of bytes, all bytes of the file are sent, from the first on, and
/// the head announces as many, with the type that goes with the path. This is so for every size.
pub proof fn law_whole_file_is_sent(path: Seq<char>, range: Option<Seq<char>>, file_size: u64)
    requires
        range matches Some(range) ==> !"bytes="@.is_prefix_of(range),
    ensures
        file_answer(path, range, file_size) == (ServeActionView::SendFile {
            seek: None,
            head: "HTTP/1.1 200 OK\r\nContent-Type: "@ + mime::mime_type(path)
                + "\r\nContent-Length: "@ + number::decimal(file_size as nat)
                + "\r\nAccept-Ranges: bytes\r\nAccess-Control-Allow-Origin: *\r\nConnection: close\r\n\r\n"@,
            length: file_size,
        }),
{
}

/// Where a request asks for the bytes from `start` on, what is sent begins at that byte, ends with
/// the last byte that was asked for and the file has, and the head names both and the whole.
pub proof fn law_part_of_file_is_sent(
    path: Seq<char>,
    first: Seq<char>,
    second: Seq<char>,
    start: u64,
    end: u64,
    file_size: u64,
)
    requires
        !first.contains('-'),
        number::unsigned_value(text::trimmed(first)) == Some(start),
        number::unsigned_value(text::trimmed(second)) == Some(end),
        start <= end < file_size,
    ensures
        file_answer(path, Some("bytes="@ + first + "-"@ + second), file_size) == (
        ServeActionView::SendFile {
            seek: Some(start),
            head: "HTTP/1.1 206 Partial Content\r\nContent-Type: "@ + mime::mime_type(path)
                + "\r\nContent-Range: bytes "@ + number::decimal(start as nat) + "-"@
                + number::decimal(end as nat) + "/"@ + number::decimal(file_size as nat)
                + "\r\nContent-Length: "@ + number::decimal((end - start + 1) as nat)
                + "\r\nAccept-Ranges: bytes\r\nAccess-Control-Allow-Origin: *\r\nConnection: close\r\n\r\n"@,
            length: (end - start + 1) as u64,
        }),
{
    law_range_is_read(first, second, file_size);
}

proof fn lemma_bytes_prefix(value: Seq<char>)
    ensures
        "bytes="@.is_prefix_of("bytes="@ + value),
        ("bytes="@ + value).skip("bytes="@.len() as int) == value,
{
    let range = "bytes="@ + value;
    assert(range.subrange(0, "bytes="@.len() as int) =~= "bytes="@);
    assert(range.skip("bytes="@.len() as int) =~= value);
}

/// A range is two numbers with a dash between them. The first that is missing or no number is zero;
/// the second that is missing or no number, or lies behind the last byte, is the last byte of the
/// file. What does not begin with `bytes=` is no range of bytes.
pub proof fn law_range_is_read(first: Seq<char>, second: Seq<char>, file_size: u64)
    requires
        !first.contains('-'),
    ensures
        ({
            let last = if file_size == 0 {
                0
            } else {
                file_size - 1
            };
            let from = number::unsigned_value(text::trimmed(first));
            let to = number::unsigned_value(text::trimmed(second));
            let start = if from is Some {
                from->0 as int
            } else {
                0
            };
            let both = range_bounds("bytes="@ + first + "-"@ + second, file_size);
            let open = range_bounds("bytes="@ + first, file_size);
            &&& both == Some(
                (
                    start as u64,
                    (if to is Some && to->0 <= last {
                        to->0 as int
                    } else {
                        last
                    }) as u64,
                ),
            )
            &&& open == Some((start as u64, last as u64))
            &&& !"bytes="@.is_prefix_of(first) ==> range_bounds(first, file_size) is None
        }),
{
    reveal_strlit("-");
    assert("-"@ =~= seq!['-']);
    let value = first + "-"@ + second;
    let n = first.len() as int;
    lemma_bytes_prefix(value);
    assert("bytes="@ + first + "-"@ + second =~= "bytes="@ + value);
    assert(value.subrange(n, n + 1) =~= seq!['-']);
    assert forall|j: int| 0 <= j < n implies !text::occurs_at(value, seq!['-'], j) && !text::occurs_at(
        first,
        seq!['-'],
        j,
    ) by {
        assert(first.contains(first[j]));
        assert(value.subrange(j, j + 1)[0] == first[j]);
        assert(first.subrange(j, j + 1)[0] == first[j]);
    }
    text::lemma_first_at(value, seq!['-'], n);
    assert(value.take(n) =~= first);
    assert(value.skip(n + 1) =~= second);
    lemma_bytes_prefix(first);
    text::lemma_no_occurrence(first, seq!['-']);
}

proof fn lemma_word(word: Seq<char>, rest: Seq<char>)
    requires
        forall|i: int| 0 <= i < word.len() ==> !text::white_space(#[trigger] word[i]),
        rest.len() > 0 ==> text::white_space(rest[0]),
    ensures
        text::word_len(word + rest) == word.len(),
{
    let s = word + rest;
    let n = text::word_len(s) as int;
    text::law_word_ends_at_white_space(s);
    if n < word.len() {
        assert(s[n] == word[n]);
    }
    if n > word.len() {
        assert(s[word.len() as int] == rest[0]);
    }
}

proof fn lemma_trim_end_behind(a: Seq<char>, b: Seq<char>)
    requires
        a.len() > 0,
        !text::white_space(a.last()),
    ensures
        text::trim_end(a + b) == a + text::trim_end(b),
        text::trim_end(b).len() > 0 ==> b.len() > 0 && text::trim_end(b)[0] == b[0],
    decreases b.len(),
{
    if b.len() > 0 {
        assert((a + b).last() == b.last());
        if text::white_space(b.last()) {
            assert((a + b).drop_last() =~= a + b.drop_last());
            lemma_trim_end_behind(a, b.drop_last());
        }
    } else {
        assert(a + b =~= a);
    }
}

/// The target of a request is the second word of its first line, whatever white space stands around
/// the words and whatever follows them.
pub proof fn law_second_word_is_the_target(
    lead: Seq<char>,
    method: Seq<char>,
    gap: Seq<char>,
    target: Seq<char>,
    rest: Seq<char>,
)
    requires
        forall|i: int| 0 <= i < lead.len() ==> text::white_space(#[trigger] lead[i]),
        forall|i: int| 0 <= i < method.len() ==> !text::white_space(#[trigger] method[i]),
        forall|i: int| 0 <= i < gap.len() ==> text::white_space(#[trigger] gap[i]),
        forall|i: int| 0 <= i < target.len() ==> !text::white_space(#[trigger] target[i]),
        method.len() > 0,
        gap.len() > 0,
        target.len() > 0,
        rest.len() > 0 ==> text::white_space(rest[0]),
    ensures
        request_target(lead + method + gap + target + rest) == Some(target),
{
    let words = method + gap + target;
    let line = lead + method + gap + target + rest;
    assert(!text::white_space(method[0]));
    assert(!text::white_space(target[0]) && !text::white_space(target.last()));
    assert(line =~= lead + (words + rest));
    assert((words + rest)[0] == method[0]);
    text::lemma_start_trimmed(lead, words + rest);
    assert(words.last() == target.last());
    lemma_trim_end_behind(words, rest);
    let end = text::trim_end(rest);
    let trimmed = words + end;
    assert(text::trimmed(line) == trimmed);
    let after = gap + (target + end);
    assert(trimmed =~= method + after);
    assert(trimmed[0] == method[0]);
    assert(after[0] == gap[0]);
    assert(text::trim_start(trimmed) == trimmed);
    lemma_word(method, after);
    assert(trimmed.skip(method.len() as int) =~= after);
    assert(after_first_word(trimmed) == after);
    assert((target + end)[0] == target[0]);
    text::lemma_start_trimmed(gap, target + end);
    lemma_word(target, end);
    assert((target + end).take(target.len() as int) =~= target);
}

/// A line with one word or none names no target.
pub proof fn law_one_word_is_no_target(lead: Seq<char>, word: Seq<char>, rest: Seq<char>)
    requires
        forall|i: int| 0 <= i < lead.len() ==> text::white_space(#[trigger] lead[i]),
        forall|i: int| 0 <= i < word.len() ==> !text::white_space(#[trigger] word[i]),
        forall|i: int| 0 <= i < rest.len() ==> text::white_space(#[trigger] rest[i]),
    ensures
        request_target(lead + word + rest) is None,
{
    if word.len() > 0 {
        assert(!text::white_space(word[0]) && !text::white_space(word.last()));
    }
    text::law_trimming_leaves_the_middle(lead, word, rest);
    let none = Seq::<char>::empty();
    assert(word + none =~= word);
    lemma_word(word, none);
    assert(text::trim_start(word) == word);
    assert(word.skip(word.len() as int) =~= none);
    assert(after_first_word(word) == none);
}

/// A header line of white space ends the headers. One that begins with `range:`, in any letter case,
/// gives what follows as the range; any other gives none.
pub proof fn law_header_lines(lead: Seq<char>, line: Seq<char>, rest: Seq<char>)
    requires
        forall|i: int| 0 <= i < lead.len() ==> text::white_space(#[trigger] lead[i]),
        forall|i: int| 0 <= i < rest.len() ==> text::white_space(#[trigger] rest[i]),
        line.len() > 0 ==> !text::white_space(line[0]) && !text::white_space(line.last()),
    ensures
        ({
            let ranged = {
                &&& line.len() >= 6
                &&& line[0] == 'r' || line[0] == 'R'
                &&& line[1] == 'a' || line[1] == 'A'
                &&& line[2] == 'n' || line[2] == 'N'
                &&& line[3] == 'g' || line[3] == 'G'
                &&& line[4] == 'e' || line[4] == 'E'
                &&& line[5] == ':'
            };
            header_line(lead + line + rest) == (if line.len() == 0 {
                HeaderView::End
            } else if ranged {
                HeaderView::Range(text::trimmed(line.skip(6)))
            } else {
                HeaderView::Other
            })
        }),
{
    text::law_trimming_leaves_the_middle(lead, line, rest);
    reveal_strlit("range:");
    let name = "range:"@;
    let small = text::ascii_lowercase(line);
    if line.len() >= 6 {
        let front = small.subrange(0, 6);
        assert(front[0] == small[0] && front[1] == small[1] && front[2] == small[2] && front[3]
            == small[3] && front[4] == small[4] && front[5] == small[5]);
        if name.is_prefix_of(small) {
            assert(front =~= name);
        } else {
            assert(front != name);
            if front[0] == 'r' && front[1] == 'a' && front[2] == 'n' && front[3] == 'g' && front[4]
                == 'e' && front[5] == ':' {
                assert(front =~= name);
            }
        }
    }
}

proof fn lemma_bytes_of_character(c: char)
    ensures
        ({
            let bytes = vstd::utf8::encode_scalar(c as u32);
            if (c as int) < 128 {
                bytes.len() == 1 && bytes[0] as int == c as int
            } else {
                bytes.len() >= 2 && bytes[0] >= 128 && bytes[1] >= 128
            }
        }),
{
    let s = c as u32;
    assert(s < 128 ==> (s & 0x7F) as u8 == s) by (bit_vector);
    assert(0xC0u8 | ((s >> 6) & 0x1F) as u8 >= 128) by (bit_vector);
    assert(0xE0u8 | ((s >> 12) & 0x0F) as u8 >= 128) by (bit_vector);
    assert(0xF0u8 | ((s >> 18) & 0x7) as u8 >= 128) by (bit_vector);
    assert(0x80u8 | (s & 0x3F) as u8 >= 128) by (bit_vector);
    assert(0x80u8 | ((s >> 6) & 0x3F) as u8 >= 128) by (bit_vector);
    assert(0x80u8 | ((s >> 12) & 0x3F) as u8 >= 128) by (bit_vector);
}

/// The path is the decoded target. On Windows the slash goes that stands in front of an ASCII
/// character, a colon and at least one more character, and no other; elsewhere no slash goes.
pub proof fn law_drive_letters_lose_their_slash(target: Seq<char>)
    ensures
        ({
            let decoded = percent::percent_decoded(target);
            let drive = decoded.len() >= 4 && decoded[0] == '/' && (decoded[1] as int) < 128
                && decoded[2] == ':';
            &&& target_path(target, false) == decoded
            &&& target_path(target, true) == (if drive {
                decoded.skip(1)
            } else {
                decoded
            })
        }),
{
    let decoded = percent::percent_decoded(target);
    let bytes = vstd::utf8::encode_utf8(decoded);
    if decoded.len() > 0 && decoded[0] == '/' {
        assert(decoded.skip(1) =~= decoded.drop_first());
        lemma_bytes_of_character(decoded[0]);
        let second = decoded.drop_first();
        assert(bytes =~= vstd::utf8::encode_scalar(decoded[0] as u32) + vstd::utf8::encode_utf8(
            second,
        ));
        if decoded.len() > 1 {
            assert(second[0] == decoded[1]);
            lemma_bytes_of_character(decoded[1]);
            let third = second.drop_first();
            let after = vstd::utf8::encode_utf8(second);
            assert(after =~= vstd::utf8::encode_scalar(decoded[1] as u32) + vstd::utf8::encode_utf8(
                third,
            ));
            if decoded.len() > 2 {
                assert(third[0] == decoded[2]);
                lemma_bytes_of_character(decoded[2]);
                let fourth = third.drop_first();
                if decoded.len() > 3 {
                    lemma_bytes_of_character(decoded[3]);
                    assert(fourth[0] == decoded[3]);
                    assert(vstd::utf8::encode_utf8(fourth).len() > 0);
                } else {
                    assert(vstd::utf8::encode_utf8(fourth).len() == 0);
                }
            }
        }
    }
}

/// A request without a target is bad; one for a path with two dots in a row is refused without
/// opening anything; any other has its path opened, and where that fails it is not found.
pub proof fn law_refusals(
    line: Seq<char>,
    end: Seq<char>,
    target: Seq<char>,
    range: Option<Seq<char>>,
    windows: bool,
)
    requires
        header_line(end) is End,
    ensures
        ({
            let path = target_path(target, windows);
            let read = serve_step(
                ServeStateView::Headers { target, range },
                ServeEventView::Line(end),
                windows,
            );
            &&& request_target(line) is None ==> serve_step(
                ServeStateView::RequestLine,
                ServeEventView::Line(line),
                windows,
            ) == (
                ServeStateView::Done,
                ServeActionView::Send("HTTP/1.1 400 Bad Request\r\nContent-Length: 0\r\n\r\n"@),
            )
            &&& text::occurs(path, ".."@) ==> read == (
                ServeStateView::Done,
                ServeActionView::Send("HTTP/1.1 403 Forbidden\r\nContent-Length: 0\r\n\r\n"@),
            )
            &&& !text::occurs(path, ".."@) ==> read == (
                ServeStateView::Opening { path, range },
                ServeActionView::Open(path),
            ) && serve_step(read.0, ServeEventView::OpenFailed, windows) == (
                ServeStateView::Done,
                ServeActionView::Send("HTTP/1.1 404 Not Found\r\nContent-Length: 0\r\n\r\n"@),
            )
        }),
{
}

/// Reading goes on after a request line with a target and after every header; the target stays, and
/// the range is that of the last header that gave one.
pub proof fn law_headers_are_read_on(
    line: Seq<char>,
    target: Seq<char>,
    range: Option<Seq<char>>,
    windows: bool,
)
    ensures
        request_target(line) matches Some(named) ==> serve_step(
            ServeStateView::RequestLine,
            ServeEventView::Line(line),
            windows,
        ) == (
            ServeStateView::Headers { target: named, range: None },
            ServeActionView::ReadLine,
        ),
        !(header_line(line) is End) ==> serve_step(
            ServeStateView::Headers { target, range },
            ServeEventView::Line(line),
            windows,
        ) == (
            ServeStateView::Headers {
                target,
                range: if header_line(line) is Range {
                    Some(header_line(line)->Range_0)
                } else {
                    range
                },
            },
            ServeActionView::ReadLine,
        ),
{
}

/// A range that asks for bytes, however it is written, is answered with those bytes: what is sent
/// begins with the first and ends with the last of them, and the head names both and the whole.
pub proof fn law_range_is_answered(
    path: Seq<char>,
    range: Seq<char>,
    start: u64,
    end: u64,
    file_size: u64,
)
    requires
        range_bounds(range, file_size) == Some((start, end)),
        start <= end,
    ensures
        file_answer(path, Some(range), file_size) matches ServeActionView::SendFile {
            seek,
            head,
            length,
        } && {
            &&& seek == Some(start)
            &&& start + length == end + 1
            &&& head == "HTTP/1.1 206 Partial Content\r\nContent-Type: "@ + mime::mime_type(path)
                + "\r\nContent-Range: bytes "@ + number::decimal(start as nat) + "-"@
                + number::decimal(end as nat) + "/"@ + number::decimal(file_size as nat)
                + "\r\nContent-Length: "@ + number::decimal(length as nat)
                + "\r\nAccept-Ranges: bytes\r\nAccess-Control-Allow-Origin: *\r\nConnection: close\r\n\r\n"@
        },
{
}

/// An opened file is answered with the path and the range of the request, and the connection is then
/// done with.
pub proof fn law_opened_file_is_answered(
    path: Seq<char>,
    range: Option<Seq<char>>,
    file_size: u64,
    windows: bool,
)
    ensures
        serve_step(
            ServeStateView::Opening { path, range },
            ServeEventView::Opened(file_size),
            windows,
        ) == (ServeStateView::Done, file_answer(path, range, file_size)),
{
}

/// Lines are taken while the request is read, and the outcome of opening a file while it is opened.
/// Of these only the end of the headers of a target that cannot be decoded, and a range that ends
/// before it begins, have no answer.
pub proof fn law_what_has_an_answer(
    line: Seq<char>,
    target: Seq<char>,
    path: Seq<char>,
    range: Option<Seq<char>>,
    file_size: u64,
)
    ensures
        ({
            let headers = ServeStateView::Headers { target, range };
            let opening = ServeStateView::Opening { path, range };
            let bounds = if range is Some {
                range_bounds(range->0, file_size)
            } else {
                None
            };
            let (start, end) = bounds->0;
            &&& serve_ready(ServeStateView::RequestLine, ServeEventView::Line(line))
            &&& serve_ready(headers, ServeEventView::Line(line)) <==> !(header_line(line) is End)
                || percent::escapes_are_whole(vstd::utf8::encode_utf8(target))
            &&& serve_ready(opening, ServeEventView::OpenFailed)
            &&& serve_ready(opening, ServeEventView::Opened(file_size)) <==> bounds is None || start
                <= end
            &&& !serve_ready(ServeStateView::Done, ServeEventView::Line(line))
        }),
{
}

} // verus!
