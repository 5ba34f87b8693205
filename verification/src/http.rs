//! A minimal HTTP/1.1 responder: it reads the request line, serves the index
//! template for `GET / HTTP/1.1` and the not-found template for anything else,
//! and answers `500 Internal Server Error` when something fails on the way.
//!
//! The socket and file work is done by the caller; this module decides, at each
//! step of an exchange, what to do next and with which bytes.
use vstd::hash_map::StringHashMap;
use vstd::prelude::*;
use vstd::string::StrSliceExecFns;
use vstd::string::StringExecFns;
use vstd::string::StringSliceAdditionalSpecFns;
use vstd::utf8::valid_utf8;

use crate::decimal::decimal_digits;
use crate::decimal::decimal_value;
use crate::decimal::lemma_decimal_digits_denote;
use crate::decimal::push_decimal;

verus! {

/// The request line that is answered with the index template.
pub open spec fn index_request() -> Seq<u8> {
    "GET / HTTP/1.1".spec_bytes()
}

/// Status line of a successful answer.
pub open spec fn ok_status() -> Seq<char> {
    "HTTP/1.1 200 OK"@
}

/// Status line of a not-found answer.
pub open spec fn not_found_status() -> Seq<char> {
    "HTTP/1.1 404 NOT FOUND"@
}

/// The headers that follow the status line, up to the content length.
pub open spec fn headers_before_length() -> Seq<u8> {
    "\r\nContent-Type: text/html; charset=utf-8\r\nContent-Length: ".spec_bytes()
}

/// The headers that follow the content length, up to the body.
pub open spec fn headers_after_length() -> Seq<u8> {
    "\r\nConnection: close\r\n\r\n".spec_bytes()
}

/// The whole answer sent when a request cannot be served.
pub open spec fn internal_error_bytes() -> Seq<u8> {
    "HTTP/1.1 500 Internal Server Error\r\nContent-Length: 0\r\nConnection: close\r\n\r\n".spec_bytes()
}

/// The answer that carries `content` under `status_line`.
pub open spec fn response_bytes(status_line: Seq<char>, content: Seq<u8>) -> Seq<u8> {
    vstd::utf8::encode_utf8(status_line) + headers_before_length() + decimal_digits(
        content.len(),
    ) + headers_after_length() + content
}

/// `raw` without its line ending: one trailing `\n`, and then one `\r` before it.
pub open spec fn strip_line_ending(raw: Seq<u8>) -> Seq<u8> {
    if raw.len() > 0 && raw.last() == 10 {
        let r = raw.drop_last();
        if r.len() > 0 && r.last() == 13 {
            r.drop_last()
        } else {
            r
        }
    } else {
        raw
    }
}

/// Why a request line could not be read.
#[derive(Debug, Clone, Copy, PartialEq, Eq, Structural)]
pub enum RequestLineError {
    /// The connection ended before any byte of a request arrived.
    Empty,
    /// The request line is not valid UTF-8.
    InvalidUtf8,
}

/// What reading the request line from the bytes `raw` (read up to and
/// including the first `\n`, or to the end of the stream) gives.
pub open spec fn request_line_result(raw: Seq<u8>) -> Result<Seq<u8>, RequestLineError> {
    if raw.len() == 0 {
        Err(RequestLineError::Empty)
    } else if !valid_utf8(raw) {
        Err(RequestLineError::InvalidUtf8)
    } else {
        Ok(strip_line_ending(raw))
    }
}

/// `std::str::from_utf8(bytes).is_ok()`: whether `bytes` is valid UTF-8, as
/// the standard library's decoder decides it.
#[verifier::external_body]
fn utf8_is_valid(bytes: &[u8]) -> (r: bool)
    ensures
        r == valid_utf8(bytes@),
{
    std::str::from_utf8(bytes).is_ok()
}

/// Appends the bytes of `src` to `out`.
fn append_bytes(out: &mut Vec<u8>, src: &[u8])
    ensures
        final(out)@ == old(out)@ + src@,
{
    let n = src.len();
    let mut i: usize = 0;
    while i < n
        invariant
            n == src@.len(),
            i <= n,
            out@ == old(out)@ + src@.subrange(0, i as int),
        decreases n - i,
    {
        out.push(src[i]);
        assert(src@.subrange(0, i + 1) == src@.subrange(0, i as int).push(src@[i as int]));
        i = i + 1;
    }
    assert(src@.subrange(0, n as int) == src@);
}

/// Whether the two byte strings are equal.
fn bytes_equal(a: &[u8], b: &[u8]) -> (r: bool)
    ensures
        r == (a@ == b@),
{
    if a.len() != b.len() {
        return false;
    }
    let n = a.len();
    let mut i: usize = 0;
    while i < n
        invariant
            n == a@.len(),
            n == b@.len(),
            i <= n,
            forall|j: int| 0 <= j < i ==> a@[j] == b@[j],
        decreases n - i,
    {
        if a[i] != b[i] {
            return false;
        }
        i = i + 1;
    }
    assert(a@ =~= b@);
    true
}

/// Reads the request line out of `raw`: the bytes read from the connection up
/// to and including the first `\n` (or to the end of the stream). The line
/// ending is removed; an empty read or a line that is not UTF-8 is an error.
pub fn request_line(raw: &[u8]) -> (r: Result<Vec<u8>, RequestLineError>)
    ensures
        match (r, request_line_result(raw@)) {
            (Ok(line), Ok(expected)) => line@ == expected,
            (Err(e), Err(expected)) => e == expected,
            _ => false,
        },
{
    if raw.len() == 0 {
        return Err(RequestLineError::Empty);
    }
    if !utf8_is_valid(raw) {
        return Err(RequestLineError::InvalidUtf8);
    }
    let mut end = raw.len();
    if raw[end - 1] == 10u8 {
        end = end - 1;
        if end > 0 && raw[end - 1] == 13u8 {
            end = end - 1;
        }
    }
    let mut line: Vec<u8> = Vec::new();
    let mut i: usize = 0;
    while i < end
        invariant
            end <= raw@.len(),
            i <= end,
            line@ == raw@.subrange(0, i as int),
        decreases end - i,
    {
        line.push(raw[i]);
        assert(raw@.subrange(0, i + 1) == raw@.subrange(0, i as int).push(raw@[i as int]));
        i = i + 1;
    }
    proof {
        let s = raw@;
        if s.last() == 10 {
            assert(s.drop_last() == s.subrange(0, s.len() - 1));
            if s.len() >= 2 && s.drop_last().last() == 13 {
                assert(s.drop_last().drop_last() == s.subrange(0, s.len() - 2));
            }
        } else {
            assert(s.subrange(0, s.len() as int) == s);
        }
    }
    Ok(line)
}

/// The answer that carries `content` under `status_line`: the status line,
/// the content type, the content length in bytes, `Connection: close`, an empty
/// line, and the content. `None` when the content is not valid UTF-8.
pub fn build_response(status_line: &str, content: &[u8]) -> (r: Option<Vec<u8>>)
    ensures
        match r {
            Some(bytes) => valid_utf8(content@) && bytes@ == response_bytes(status_line@, content@),
            None => !valid_utf8(content@),
        },
{
    if !utf8_is_valid(content) {
        return None;
    }
    let mut out: Vec<u8> = Vec::new();
    append_bytes(&mut out, status_line.as_bytes());
    append_bytes(&mut out, "\r\nContent-Type: text/html; charset=utf-8\r\nContent-Length: ".as_bytes());
    push_decimal(&mut out, content.len());
    append_bytes(&mut out, "\r\nConnection: close\r\n\r\n".as_bytes());
    append_bytes(&mut out, content);
    Some(out)
}

/// The answer sent when a request cannot be served.
pub fn internal_error_response() -> (r: Vec<u8>)
    ensures
        r@ == internal_error_bytes(),
{
    let mut out: Vec<u8> = Vec::new();
    append_bytes(
        &mut out,
        "HTTP/1.1 500 Internal Server Error\r\nContent-Length: 0\r\nConnection: close\r\n\r\n".as_bytes(),
    );
    out
}

/// `rest` appended to `base` as a relative path component: with a `/`
/// between them unless `base` already ends with one.
pub open spec fn joined_path(base: Seq<char>, rest: Seq<char>) -> Seq<char> {
    if base.len() > 0 && base.last() == '/' {
        base + rest
    } else {
        base + seq!['/'] + rest
    }
}

fn join_path(base: &str, rest: &str) -> (r: String)
    ensures
        r@ == joined_path(base@, rest@),
{
    let n = base.unicode_len();
    let mut out = base.to_owned();
    if !(n > 0 && base.get_char(n - 1) == '/') {
        out.append("/");
        proof {
            reveal_strlit("/");
        }
    }
    out.append(rest);
    out
}

/// Directory of the page templates, relative to the current directory.
pub open spec fn template_dir() -> Seq<char> {
    "templates/"@
}

/// The path of the template file `file`: `./templates/<file>`.
pub open spec fn template_path_of(file: Seq<char>) -> Seq<char> {
    joined_path(joined_path("."@, template_dir()), file)
}

/// HTTPHandler holds the listening address and the routing table from
/// template names to template files.
pub struct HTTPHandler {
    address: String,
    templates: StringHashMap<String>,
}

impl HTTPHandler {
    /// Both templates that routing uses are present.
    #[verifier::type_invariant]
    closed spec fn has_templates(self) -> bool {
        &&& self.templates@.contains_key("index"@)
        &&& self.templates@.contains_key("404"@)
    }

    /// The address the server listens on.
    pub closed spec fn address_view(&self) -> Seq<char> {
        self.address@
    }

    /// The routing table: template name to file path.
    pub closed spec fn templates_view(&self) -> Map<Seq<char>, Seq<char>> {
        self.templates@.map_values(|p: String| p@)
    }

    /// Builds the handler for `host:port`, with the templates `index` and `404`
    /// under `./templates/`.
    pub fn new(host: &str, port: &str) -> (r: HTTPHandler)
        ensures
            r.address_view() == host@ + ":"@ + port@,
            r.templates_view() == map![
                "index"@ => template_path_of("index.html"@),
                "404"@ => template_path_of("404.html"@),
            ],
    {
        let base = join_path(".", "templates/");
        let mut templates: StringHashMap<String> = StringHashMap::new();
        templates.insert("index".to_owned(), join_path(base.as_str(), "index.html"));
        templates.insert("404".to_owned(), join_path(base.as_str(), "404.html"));
        let mut address = host.to_owned();
        address.append(":");
        address.append(port);
        proof {
            reveal_strlit("index");
            reveal_strlit("404");
        }
        let r = HTTPHandler { address, templates };
        assert(r.templates_view() =~= map![
            "index"@ => template_path_of("index.html"@),
            "404"@ => template_path_of("404.html"@),
        ]);
        r
    }

    /// The address the server listens on, `host:port`.
    pub fn address(&self) -> (r: String)
        ensures
            r@ == self.address_view(),
    {
        self.address.clone()
    }

    /// The file path of the template `name`, if there is one.
    pub fn template_path(&self, name: &str) -> (r: Option<String>)
        ensures
            match r {
                Some(p) => self.templates_view().contains_key(name@) && p@
                    == self.templates_view()[name@],
                None => !self.templates_view().contains_key(name@),
            },
    {
        match self.templates.get(name) {
            Some(p) => Some(p.clone()),
            None => None,
        }
    }

    /// The template that answers the request line `line`.
    pub open spec fn route_template(line: Seq<u8>) -> Seq<char> {
        if line == index_request() {
            "index"@
        } else {
            "404"@
        }
    }

    /// The status line that answers the request line `line`.
    pub open spec fn route_status(line: Seq<u8>) -> Seq<char> {
        if line == index_request() {
            ok_status()
        } else {
            not_found_status()
        }
    }

    /// Routes a request line: the status line of the answer and the path of the
    /// template whose content is the body.
    pub fn route(&self, line: &[u8]) -> (r: (String, String))
        ensures
            r.0@ == Self::route_status(line@),
            self.templates_view().contains_key(Self::route_template(line@)),
            r.1@ == self.templates_view()[Self::route_template(line@)],
            line@ == "GET / HTTP/1.1".spec_bytes() ==> r.0@ == "HTTP/1.1 200 OK"@ && r.1@
                == self.templates_view()["index"@],
            line@ != "GET / HTTP/1.1".spec_bytes() ==> r.0@ == "HTTP/1.1 404 NOT FOUND"@
                && r.1@ == self.templates_view()["404"@],
    {
        proof {
            use_type_invariant(self);
        }
        if bytes_equal(line, "GET / HTTP/1.1".as_bytes()) {
            let p = self.templates.get("index").unwrap().clone();
            ("HTTP/1.1 200 OK".to_owned(), p)
        } else {
            let p = self.templates.get("404").unwrap().clone();
            ("HTTP/1.1 404 NOT FOUND".to_owned(), p)
        }
    }
}

/// An answer carries the content unchanged as its body, and its
/// `Content-Length` header holds decimal digits that denote the body's length
/// in bytes.
pub proof fn lemma_response_declares_body_length(status_line: Seq<char>, content: Seq<u8>)
    ensures
        ({
            let r = response_bytes(status_line, content);
            let digits = decimal_digits(content.len());
            &&& r == vstd::utf8::encode_utf8(status_line) + headers_before_length() + digits
                + headers_after_length() + content
            &&& r.subrange(r.len() - content.len(), r.len() as int) == content
            &&& decimal_value(digits) == content.len()
            &&& forall|i: int| 0 <= i < digits.len() ==> 48 <= #[trigger] digits[i] <= 57
        }),
{
    lemma_decimal_digits_denote(content.len());
    let r = response_bytes(status_line, content);
    let head = vstd::utf8::encode_utf8(status_line) + headers_before_length() + decimal_digits(
        content.len(),
    ) + headers_after_length();
    assert(r == head + content);
    assert(r.subrange(head.len() as int, r.len() as int) =~= content);
}

/// Where an exchange with one client stands.
pub enum ExchangeState {
    /// Waiting for the request line.
    AwaitingLine,
    /// Waiting for the content of the template that answers the request.
    AwaitingContent { status_line: String },
    /// Waiting for the answer to be written.
    Replying,
    /// Waiting for the internal-error answer to be written.
    ReplyingError,
    /// Done: the connection is closed.
    Finished,
}

/// What the caller observed while carrying out the last action.
pub enum ExchangeEvent {
    /// The request line was read: the bytes up to and including the first
    /// `\n`, or up to the end of the stream.
    LineRead(Vec<u8>),
    /// Reading from the connection failed.
    LineFailed,
    /// The template file was read.
    ContentRead(Vec<u8>),
    /// The template file could not be read.
    ContentFailed,
    /// The bytes were written and flushed.
    Written,
    /// Writing or flushing failed.
    WriteFailed,
}

/// What the caller is to do next.
pub enum ExchangeAction {
    /// Read the request line from the connection.
    ReadLine,
    /// Read the file at this path.
    ReadFile(String),
    /// Write these bytes to the connection.
    Write(Vec<u8>),
    /// Shut the connection down for writing.
    Close,
}

/// Whether `a` writes exactly `bytes`.
pub open spec fn writes(a: ExchangeAction, bytes: Seq<u8>) -> bool {
    a matches ExchangeAction::Write(b) && b@ == bytes
}

/// The exchange turns to the internal-error answer.
pub open spec fn turns_to_error(s: ExchangeState, a: ExchangeAction) -> bool {
    s is ReplyingError && writes(a, internal_error_bytes())
}

/// The exchange is over.
pub open spec fn closes(s: ExchangeState, a: ExchangeAction) -> bool {
    s is Finished && a is Close
}

/// How many steps an exchange in state `s` can still take at most.
pub open spec fn steps_left(s: ExchangeState) -> nat {
    match s {
        ExchangeState::AwaitingLine => 4,
        ExchangeState::AwaitingContent { .. } => 3,
        ExchangeState::Replying => 2,
        ExchangeState::ReplyingError => 1,
        ExchangeState::Finished => 0,
    }
}

/// The first state and action of every exchange: read the request line.
pub fn begin_exchange() -> (r: (ExchangeState, ExchangeAction))
    ensures
        r.0 is AwaitingLine,
        r.1 is ReadLine,
{
    (ExchangeState::AwaitingLine, ExchangeAction::ReadLine)
}

impl HTTPHandler {
    /// The next state and action of an exchange in state `s` after event `e`.
    /// An event that the last action cannot produce ends the exchange.
    pub open spec fn step_spec(
        &self,
        s: ExchangeState,
        e: ExchangeEvent,
        next: ExchangeState,
        a: ExchangeAction,
    ) -> bool {
        match s {
            ExchangeState::AwaitingLine => match e {
                ExchangeEvent::LineRead(raw) => match request_line_result(raw@) {
                    Ok(line) => {
                        &&& next matches ExchangeState::AwaitingContent { status_line }
                            && status_line@ == Self::route_status(line)
                        &&& a matches ExchangeAction::ReadFile(path) && path@
                            == self.templates_view()[Self::route_template(line)]
                    },
                    Err(_) => turns_to_error(next, a),
                },
                ExchangeEvent::LineFailed => turns_to_error(next, a),
                _ => closes(next, a),
            },
            ExchangeState::AwaitingContent { status_line } => match e {
                ExchangeEvent::ContentRead(content) => if valid_utf8(content@) {
                    next is Replying && writes(a, response_bytes(status_line@, content@))
                } else {
                    turns_to_error(next, a)
                },
                ExchangeEvent::ContentFailed => turns_to_error(next, a),
                _ => closes(next, a),
            },
            ExchangeState::Replying => match e {
                ExchangeEvent::WriteFailed => turns_to_error(next, a),
                _ => closes(next, a),
            },
            _ => closes(next, a),
        }
    }

    /// One step of an exchange: from the state and the outcome of the last
    /// action, the next state and the next action.
    pub fn step(&self, s: ExchangeState, e: ExchangeEvent) -> (r: (ExchangeState, ExchangeAction))
        ensures
            self.step_spec(s, e, r.0, r.1),
            s is Finished || steps_left(r.0) < steps_left(s),
            r.1 is Close <==> r.0 is Finished,
            r.1 is ReadFile ==> s is AwaitingLine && r.0 is AwaitingContent,
            r.1 is Write ==> r.0 is Replying || r.0 is ReplyingError,
            r.0 is Replying ==> s is AwaitingContent,
            s is ReplyingError || s is Finished ==> r.0 is Finished && r.1 is Close,
    {
        match s {
            ExchangeState::AwaitingLine => match e {
                ExchangeEvent::LineRead(raw) => match request_line(raw.as_slice()) {
                    Ok(line) => {
                        let (status_line, path) = self.route(line.as_slice());
                        (ExchangeState::AwaitingContent { status_line }, ExchangeAction::ReadFile(path))
                    },
                    Err(_) => (ExchangeState::ReplyingError, ExchangeAction::Write(internal_error_response())),
                },
                ExchangeEvent::LineFailed => (
                    ExchangeState::ReplyingError,
                    ExchangeAction::Write(internal_error_response()),
                ),
                _ => (ExchangeState::Finished, ExchangeAction::Close),
            },
            ExchangeState::AwaitingContent { status_line } => match e {
                ExchangeEvent::ContentRead(content) => match build_response(
                    status_line.as_str(),
                    content.as_slice(),
                ) {
                    Some(bytes) => (ExchangeState::Replying, ExchangeAction::Write(bytes)),
                    None => (ExchangeState::ReplyingError, ExchangeAction::Write(internal_error_response())),
                },
                ExchangeEvent::ContentFailed => (
                    ExchangeState::ReplyingError,
                    ExchangeAction::Write(internal_error_response()),
                ),
                _ => (ExchangeState::Finished, ExchangeAction::Close),
            },
            ExchangeState::Replying => match e {
                ExchangeEvent::WriteFailed => (
                    ExchangeState::ReplyingError,
                    ExchangeAction::Write(internal_error_response()),
                ),
                _ => (ExchangeState::Finished, ExchangeAction::Close),
            },
            _ => (ExchangeState::Finished, ExchangeAction::Close),
        }
    }
}

/// The bytes `\n`.
pub open spec fn lf() -> Seq<u8> {
    seq![10u8]
}

/// The bytes `\r\n`.
pub open spec fn crlf() -> Seq<u8> {
    seq![13u8, 10u8]
}

proof fn lemma_line_endings_are_utf8()
    ensures
        valid_utf8(lf()),
        valid_utf8(crlf()),
{
    assert((13u8 & 0x7Fu8) as u32 == 13u32) by (bit_vector);
    assert((10u8 & 0x7Fu8) as u32 == 10u32) by (bit_vector);
    assert(vstd::utf8::pop_first_scalar(lf()) =~= Seq::<u8>::empty());
    assert(vstd::utf8::pop_first_scalar(crlf()) =~= lf());
    reveal_with_fuel(valid_utf8, 3);
}

/// A request line reads the same whether it ends with `\r\n`, with `\n`, or,
/// when it is not empty, at the end of the stream.
pub proof fn lemma_line_ending_is_irrelevant(line: Seq<u8>)
    requires
        valid_utf8(line),
        line.len() > 0 ==> line.last() != 13 && line.last() != 10,
    ensures
        request_line_result(line + crlf()) == Ok::<Seq<u8>, RequestLineError>(line),
        request_line_result(line + lf()) == Ok::<Seq<u8>, RequestLineError>(line),
        line.len() > 0 ==> request_line_result(line) == Ok::<Seq<u8>, RequestLineError>(line),
{
    lemma_line_endings_are_utf8();
    vstd::utf8::valid_utf8_concat(line, crlf());
    vstd::utf8::valid_utf8_concat(line, lf());
    assert((line + crlf()).drop_last() =~= line.push(13u8));
    assert(line.push(13u8).drop_last() =~= line);
    assert((line + lf()).drop_last() =~= line);
}

impl HTTPHandler {
    /// The answer written for a request whose first bytes, up to and including
    /// the first `\n`, are `raw`, when the template file it routes to holds
    /// `content`.
    pub open spec fn answer(&self, raw: Seq<u8>, content: Seq<u8>) -> Seq<u8> {
        match request_line_result(raw) {
            Ok(line) => if valid_utf8(content) {
                response_bytes(Self::route_status(line), content)
            } else {
                internal_error_bytes()
            },
            Err(_) => internal_error_bytes(),
        }
    }

    /// The first answer of an exchange is `answer`: it depends on the request
    /// line and on the content of the template that the line routes to, and on
    /// nothing else the client sends.
    pub proof fn lemma_first_answer(
        &self,
        raw: Vec<u8>,
        s1: ExchangeState,
        a1: ExchangeAction,
        content: Vec<u8>,
        s2: ExchangeState,
        a2: ExchangeAction,
    )
        requires
            self.step_spec(ExchangeState::AwaitingLine, ExchangeEvent::LineRead(raw), s1, a1),
            self.step_spec(s1, ExchangeEvent::ContentRead(content), s2, a2),
        ensures
            match request_line_result(raw@) {
                Ok(line) => {
                    &&& a1 matches ExchangeAction::ReadFile(path) && path@
                        == self.templates_view()[Self::route_template(line)]
                    &&& writes(a2, self.answer(raw@, content@))
                },
                Err(_) => writes(a1, self.answer(raw@, content@)),
            },
    {
    }

    /// Two requests whose first lines agree, up to their `\r\n` or `\n`,
    /// get the same answer from the same template content.
    pub proof fn lemma_same_line_same_answer(
        &self,
        line: Seq<u8>,
        rest1: Seq<u8>,
        rest2: Seq<u8>,
        content: Seq<u8>,
    )
        requires
            valid_utf8(line),
            line.len() > 0 ==> line.last() != 13 && line.last() != 10,
            rest1 == crlf() || rest1 == lf(),
            rest2 == crlf() || rest2 == lf(),
        ensures
            self.answer(line + rest1, content) == self.answer(line + rest2, content),
    {
        lemma_line_ending_is_irrelevant(line);
    }
}

/// Routing serves the index, with `200 OK`, for the request line
/// `GET / HTTP/1.1` and for no other line; every other line gets the
/// not-found template with `404 NOT FOUND`.
pub proof fn lemma_route_serves_index_only_for_get_root(line: Seq<u8>)
    ensures
        (HTTPHandler::route_status(line) == "HTTP/1.1 200 OK"@) <==> line
            == "GET / HTTP/1.1".spec_bytes(),
        (HTTPHandler::route_template(line) == "index"@) <==> line == "GET / HTTP/1.1".spec_bytes(),
        line != "GET / HTTP/1.1".spec_bytes() ==> HTTPHandler::route_status(line)
            == "HTTP/1.1 404 NOT FOUND"@ && HTTPHandler::route_template(line) == "404"@,
{
    reveal_strlit("HTTP/1.1 200 OK");
    reveal_strlit("HTTP/1.1 404 NOT FOUND");
    reveal_strlit("index");
    reveal_strlit("404");
    assert("HTTP/1.1 200 OK"@.len() != "HTTP/1.1 404 NOT FOUND"@.len());
    assert("index"@.len() != "404"@.len());
}

/// The shape of every exchange: it closes exactly when it finishes; it reads
/// a template only right after the request line; it writes only on its way to
/// `Replying` or `ReplyingError`; it enters `Replying` (the one successful
/// answer) only from waiting for the template; and once the internal-error
/// answer has been written, or the exchange has finished, the next step
/// finishes and closes without writing again.
pub proof fn lemma_exchange_shape(
    h: HTTPHandler,
    s: ExchangeState,
    e: ExchangeEvent,
    next: ExchangeState,
    a: ExchangeAction,
)
    requires
        h.step_spec(s, e, next, a),
    ensures
        a is Close <==> next is Finished,
        a is ReadFile ==> s is AwaitingLine && next is AwaitingContent,
        a is Write ==> next is Replying || next is ReplyingError,
        next is Replying ==> s is AwaitingContent,
        s is ReplyingError || s is Finished ==> next is Finished && a is Close,
        s is Finished || steps_left(next) < steps_left(s),
{
}

} // verus!
