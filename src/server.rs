use vstd::prelude::*;

use crate::request::{header_value, parse_spec, Request, RequestView, SLASH};
use crate::response::{Response, ResponseView, content_length_name, content_type_name};
use crate::connection::{ends_with_crlf, lines_after, read_step, Connection, ReadStep};
use crate::wire::{copy_range, crlf, decimal, tail_equals};

verus! {

/// `GET`
pub open spec fn get_method() -> Seq<u8> {
    seq![0x47u8, 0x45u8, 0x54u8]
}

/// `/echo/`
pub open spec fn echo_prefix() -> Seq<u8> {
    seq![0x2fu8, 0x65u8, 0x63u8, 0x68u8, 0x6fu8, 0x2fu8]
}

/// `/files/`
pub open spec fn files_prefix() -> Seq<u8> {
    seq![0x2fu8, 0x66u8, 0x69u8, 0x6cu8, 0x65u8, 0x73u8, 0x2fu8]
}

/// `/user-agent`
pub open spec fn user_agent_path() -> Seq<u8> {
    seq![0x2fu8, 0x75u8, 0x73u8, 0x65u8, 0x72u8, 0x2du8, 0x61u8, 0x67u8, 0x65u8, 0x6eu8, 0x74u8]
}

/// `user-agent`
pub open spec fn user_agent_name() -> Seq<u8> {
    seq![0x75u8, 0x73u8, 0x65u8, 0x72u8, 0x2du8, 0x61u8, 0x67u8, 0x65u8, 0x6eu8, 0x74u8]
}

/// `text/plain`
pub open spec fn text_plain() -> Seq<u8> {
    seq![0x74u8, 0x65u8, 0x78u8, 0x74u8, 0x2fu8, 0x70u8, 0x6cu8, 0x61u8, 0x69u8, 0x6eu8]
}

/// `application/octet-stream`
pub open spec fn octet_stream() -> Seq<u8> {
    seq![0x61u8, 0x70u8, 0x70u8, 0x6cu8, 0x69u8, 0x63u8, 0x61u8, 0x74u8, 0x69u8, 0x6fu8, 0x6eu8, 0x2fu8, 0x6fu8, 0x63u8, 0x74u8, 0x65u8, 0x74u8, 0x2du8, 0x73u8, 0x74u8, 0x72u8, 0x65u8, 0x61u8, 0x6du8]
}

/// What follows `prefix` in `s`, if `s` starts with it.
pub open spec fn after_prefix(s: Seq<u8>, prefix: Seq<u8>) -> Option<Seq<u8>> {
    if prefix.len() <= s.len() && s.take(prefix.len() as int) == prefix {
        Some(s.skip(prefix.len() as int))
    } else {
        None
    }
}

/// The rest of `s` after `prefix`, if `s` starts with it.
pub fn strip_prefix(s: &[u8], prefix: &[u8]) -> (r: Option<Vec<u8>>)
    ensures
        match r {
            Some(rest) => after_prefix(s@, prefix@) == Some(rest@),
            None => after_prefix(s@, prefix@).is_none(),
        },
{
    let n: usize = s.len();
    if prefix.len() > n {
        return None;
    }
    let mut i: usize = 0;
    while i < prefix.len()
        invariant
            i <= prefix@.len() <= s@.len(),
            n == s@.len(),
            forall|k: int| 0 <= k < i ==> s@[k] == prefix@[k],
        decreases prefix@.len() - i,
    {
        if s[i] != prefix[i] {
            assert(s@.take(prefix@.len() as int)[i as int] != prefix@[i as int]);
            return None;
        }
        i += 1;
    }
    assert(s@.take(prefix@.len() as int) =~= prefix@);
    let rest = copy_range(s, prefix.len(), n);
    assert(rest@ =~= s@.skip(prefix@.len() as int));
    Some(rest)
}

/// A path that does not start with the prefix a route asks for.
#[derive(PartialEq, Eq, Structural, Clone, Copy, Debug)]
pub struct PathMismatch;

/// The part of `path` after `/echo/`, which may be empty and may hold
/// slashes.
pub fn parse_echo_path(path: &[u8]) -> (r: Result<Vec<u8>, PathMismatch>)
    ensures
        match r {
            Ok(rest) => after_prefix(path@, echo_prefix()) == Some(rest@),
            Err(_) => after_prefix(path@, echo_prefix()).is_none(),
        },
{
    let prefix: Vec<u8> = vec![0x2fu8, 0x65u8, 0x63u8, 0x68u8, 0x6fu8, 0x2fu8];
    assert(prefix@ == echo_prefix());
    match strip_prefix(path, prefix.as_slice()) {
        Some(rest) => Ok(rest),
        None => Err(PathMismatch),
    }
}

/// The part of `path` after `/files/`, which may be empty and may hold
/// slashes.
pub fn parse_file_path(path: &[u8]) -> (r: Result<Vec<u8>, PathMismatch>)
    ensures
        match r {
            Ok(rest) => after_prefix(path@, files_prefix()) == Some(rest@),
            Err(_) => after_prefix(path@, files_prefix()).is_none(),
        },
{
    let prefix: Vec<u8> = vec![0x2fu8, 0x66u8, 0x69u8, 0x6cu8, 0x65u8, 0x73u8, 0x2fu8];
    assert(prefix@ == files_prefix());
    match strip_prefix(path, prefix.as_slice()) {
        Some(rest) => Ok(rest),
        None => Err(PathMismatch),
    }
}

/// Why a connection is closed without a response.
#[derive(PartialEq, Eq, Structural, Clone, Copy, Debug)]
pub enum Abort {
    /// The header block is malformed or ends early.
    Parse,
    /// `/user-agent` was asked for without a `User-Agent` header.
    MissingHeader,
    /// A file was asked for, but no directory to serve files from is set.
    ConfigurationMissing,
}

/// What to do with a request.
#[derive(Debug)]
pub enum Action {
    /// Send this response.
    Respond(Response),
    /// Read the file at this path, relative to the served directory, and
    /// answer with `file_response` of the outcome.
    ReadFile(Vec<u8>),
    /// Close the connection without a response.
    Abort(Abort),
}

/// The abstract value of an `Action`.
pub ghost enum ActionView {
    Respond(ResponseView),
    ReadFile(Seq<u8>),
    Abort(Abort),
}

impl View for Action {
    type V = ActionView;

    open spec fn view(&self) -> ActionView {
        match self {
            Action::Respond(r) => ActionView::Respond(r@),
            Action::ReadFile(p) => ActionView::ReadFile(p@),
            Action::Abort(a) => ActionView::Abort(*a),
        }
    }
}

/// `200 OK` with no headers and no body.
pub open spec fn ok_empty() -> ResponseView {
    ResponseView { status: 200, headers: Seq::empty(), body: None }
}

/// `404 Not Found` with no headers and no body.
pub open spec fn not_found() -> ResponseView {
    ResponseView { status: 404, headers: Seq::empty(), body: None }
}

/// `200 OK` carrying `body` with the given content type and its length.
pub open spec fn ok_with_body(content_type: Seq<u8>, body: Seq<u8>) -> ResponseView {
    ResponseView {
        status: 200,
        headers: seq![
            (content_type_name(), content_type),
            (content_length_name(), decimal(body.len())),
        ],
        body: Some(body),
    }
}

/// How a request is answered. Only `GET` is served; `/` and `/user-agent`
/// match exactly, then `/echo/` and `/files/` by prefix; everything else is
/// `404 Not Found`. `has_directory` tells whether files can be served.
pub open spec fn handle_spec(req: RequestView, has_directory: bool) -> ActionView {
    let echo = after_prefix(req.target, echo_prefix());
    let file = after_prefix(req.target, files_prefix());
    if req.method != get_method() {
        ActionView::Respond(not_found())
    } else if req.target == seq![SLASH] {
        ActionView::Respond(ok_empty())
    } else if req.target == user_agent_path() {
        match header_value(req.headers, user_agent_name()) {
            Some(agent) => ActionView::Respond(ok_with_body(text_plain(), agent)),
            None => ActionView::Abort(Abort::MissingHeader),
        }
    } else if echo.is_some() {
        ActionView::Respond(ok_with_body(text_plain(), echo.unwrap()))
    } else if file.is_some() {
        if has_directory {
            ActionView::ReadFile(file.unwrap())
        } else {
            ActionView::Abort(Abort::ConfigurationMissing)
        }
    } else {
        ActionView::Respond(not_found())
    }
}

/// The response to a file request: the file's bytes as
/// `application/octet-stream`, or `404 Not Found` when it could not be read,
/// whatever the reason.
pub fn file_response(content: Option<Vec<u8>>) -> (r: Response)
    ensures
        r@ == match content {
            Some(b) => ok_with_body(octet_stream(), b@),
            None => not_found(),
        },
{
    match content {
        Some(b) => {
            let ct: Vec<u8> = vec![0x61u8, 0x70u8, 0x70u8, 0x6cu8, 0x69u8, 0x63u8, 0x61u8, 0x74u8, 0x69u8, 0x6fu8, 0x6eu8, 0x2fu8, 0x6fu8, 0x63u8, 0x74u8, 0x65u8, 0x74u8, 0x2du8, 0x73u8, 0x74u8, 0x72u8, 0x65u8, 0x61u8, 0x6du8];
            assert(ct@ == octet_stream());
            Response::with_body(200, ct.as_slice(), b)
        },
        None => Response::new(404),
    }
}

/// Where a connection driver is in its single exchange.
#[derive(PartialEq, Eq, Structural, Clone, Copy, Debug)]
pub enum Phase {
    /// Reading the header block.
    Reading,
    /// Waiting for the outcome of a file read.
    AwaitingFile,
    /// Finished: the connection is to be closed.
    Done,
}

/// What the connection driver asks to be done next.
#[derive(Debug)]
pub enum Step {
    /// Read one more line from the stream and hand it to `on_line`.
    ReadLine,
    /// Read the file at this path under the served directory and hand the
    /// outcome to `on_file`.
    ReadFile(Vec<u8>),
    /// Write these bytes, flush, and close the connection.
    Send(Vec<u8>),
    /// Close the connection without writing anything.
    Close,
    /// Close the connection without writing anything, for this reason.
    Abort(Abort),
}

/// The abstract value of a `Step`.
pub ghost enum StepView {
    ReadLine,
    ReadFile(Seq<u8>),
    Send(Seq<u8>),
    Close,
    Abort(Abort),
}

impl View for Step {
    type V = StepView;

    open spec fn view(&self) -> StepView {
        match self {
            Step::ReadLine => StepView::ReadLine,
            Step::ReadFile(p) => StepView::ReadFile(p@),
            Step::Send(b) => StepView::Send(b@),
            Step::Close => StepView::Close,
            Step::Abort(a) => StepView::Abort(*a),
        }
    }
}

/// The abstract value of a `Handler`.
pub ghost struct HandlerView {
    pub phase: Phase,
    pub lines: Seq<Seq<u8>>,
    pub has_directory: bool,
}

/// A driver that has read nothing yet.
pub open spec fn initial(has_directory: bool) -> HandlerView {
    HandlerView { phase: Phase::Reading, lines: Seq::empty(), has_directory }
}

/// `h` with its phase set to `phase`.
pub open spec fn in_phase(h: HandlerView, phase: Phase) -> HandlerView {
    HandlerView { phase, ..h }
}

/// The phase and step that carry out `a`.
pub open spec fn carry_out(a: ActionView) -> (Phase, StepView) {
    match a {
        ActionView::Respond(r) => (Phase::Done, StepView::Send(r.wire_bytes())),
        ActionView::ReadFile(p) => (Phase::AwaitingFile, StepView::ReadFile(p)),
        ActionView::Abort(x) => (Phase::Done, StepView::Abort(x)),
    }
}

/// The driver's state and step after it is handed `line` (empty at the end
/// of the stream).
pub open spec fn on_line_spec(h: HandlerView, line: Seq<u8>) -> (HandlerView, StepView) {
    if h.phase != Phase::Reading {
        (in_phase(h, Phase::Done), StepView::Close)
    } else {
        match read_step(h.lines, line) {
            ReadStep::More => (
                HandlerView { lines: lines_after(h.lines, line), ..h },
                StepView::ReadLine,
            ),
            ReadStep::Closed => (in_phase(h, Phase::Done), StepView::Close),
            ReadStep::Malformed => (in_phase(h, Phase::Done), StepView::Abort(Abort::Parse)),
            ReadStep::Complete => match parse_spec(h.lines) {
                None => (in_phase(h, Phase::Done), StepView::Abort(Abort::Parse)),
                Some(req) => {
                    let (p, st) = carry_out(handle_spec(req, h.has_directory));
                    (in_phase(h, p), st)
                },
            },
        }
    }
}

/// The response to a file read with the given outcome.
pub open spec fn file_response_spec(content: Option<Seq<u8>>) -> ResponseView {
    match content {
        Some(b) => ok_with_body(octet_stream(), b),
        None => not_found(),
    }
}

/// The driver's state and step after it is handed the outcome of a file read.
pub open spec fn on_file_spec(h: HandlerView, content: Option<Seq<u8>>) -> (HandlerView, StepView) {
    if h.phase == Phase::AwaitingFile {
        (in_phase(h, Phase::Done), StepView::Send(file_response_spec(content).wire_bytes()))
    } else {
        (in_phase(h, Phase::Done), StepView::Close)
    }
}

/// The driver's state and the steps it asks for when it is handed `lines`
/// one after the other.
pub open spec fn feed_lines(h: HandlerView, lines: Seq<Seq<u8>>) -> (HandlerView, Seq<StepView>)
    decreases lines.len(),
{
    if lines.len() == 0 {
        (h, Seq::empty())
    } else {
        let (h1, steps) = feed_lines(h, lines.drop_last());
        let (h2, st) = on_line_spec(h1, lines.last());
        (h2, steps.push(st))
    }
}

/// Header lines that are not the blank terminator only ever ask for the
/// next line.
proof fn lemma_header_lines_only_read(has_directory: bool, lines: Seq<Seq<u8>>, m: int)
    requires
        0 <= m <= lines.len(),
        forall|k: int|
            0 <= k < lines.len() ==> ends_with_crlf(#[trigger] lines[k]) && lines[k] != crlf(),
    ensures
        feed_lines(initial(has_directory), lines.take(m)).0.phase == Phase::Reading,
        feed_lines(initial(has_directory), lines.take(m)).0.lines.len() == m,
        feed_lines(initial(has_directory), lines.take(m)).0.has_directory == has_directory,
        feed_lines(initial(has_directory), lines.take(m)).1.len() == m,
        forall|k: int|
            0 <= k < m ==> #[trigger] feed_lines(initial(has_directory), lines.take(m)).1[k]
                == StepView::ReadLine,
    decreases m,
{
    if m > 0 {
        lemma_header_lines_only_read(has_directory, lines, m - 1);
        assert(lines.take(m).drop_last() =~= lines.take(m - 1));
        assert(lines.take(m).last() == lines[m - 1]);
        let line = lines[m - 1];
        assert(line.len() > 0);
    } else {
        assert(lines.take(m) =~= Seq::<Seq<u8>>::empty());
    }
}

/// A stream that ends inside the header block, before the blank line that
/// ends it, has the connection aborted as malformed, and no step along the
/// way writes a byte. `lines` are the complete header lines read, `last`
/// what was read when the stream ended: nothing, or a line cut short.
pub proof fn stream_ending_mid_headers_aborts(
    has_directory: bool,
    lines: Seq<Seq<u8>>,
    last: Seq<u8>,
)
    requires
        forall|k: int|
            0 <= k < lines.len() ==> ends_with_crlf(#[trigger] lines[k]) && lines[k] != crlf(),
        !ends_with_crlf(last),
        lines.len() > 0 || last.len() > 0,
    ensures
        feed_lines(initial(has_directory), lines.push(last)).0.phase == Phase::Done,
        feed_lines(initial(has_directory), lines.push(last)).1.last() == StepView::Abort(
            Abort::Parse,
        ),
        forall|k: int|
            0 <= k < feed_lines(initial(has_directory), lines.push(last)).1.len() ==> !(
            #[trigger] feed_lines(initial(has_directory), lines.push(last)).1[k] is Send),
{
    let all = lines.push(last);
    lemma_header_lines_only_read(has_directory, lines, lines.len() as int);
    assert(lines.take(lines.len() as int) =~= lines);
    assert(all.drop_last() =~= lines);
    assert(all.last() == last);
    assert(last != crlf());
}

/// The driver of one connection: it reads one request, answers it once,
/// and then the connection is closed.
#[derive(Debug)]
pub struct Handler {
    conn: Connection,
    phase: Phase,
    has_directory: bool,
}

impl View for Handler {
    type V = HandlerView;

    closed spec fn view(&self) -> HandlerView {
        HandlerView { phase: self.phase, lines: self.conn@, has_directory: self.has_directory }
    }
}

impl Handler {
    /// A driver for a fresh connection; `has_directory` tells whether a
    /// directory to serve files from is set.
    pub fn new(has_directory: bool) -> (r: Handler)
        ensures
            r@ == initial(has_directory),
    {
        Handler { conn: Connection::new(), phase: Phase::Reading, has_directory }
    }

    /// Takes one line read from the stream, with its terminator; an empty
    /// `line` means that the stream ended.
    pub fn on_line(&mut self, line: &[u8]) -> (r: Step)
        ensures
            (final(self)@, r@) == on_line_spec(old(self)@, line@),
    {
        if self.phase != Phase::Reading {
            self.phase = Phase::Done;
            return Step::Close;
        }
        match self.conn.read_line(line) {
            ReadStep::More => Step::ReadLine,
            ReadStep::Closed => {
                self.phase = Phase::Done;
                Step::Close
            },
            ReadStep::Malformed => {
                self.phase = Phase::Done;
                Step::Abort(Abort::Parse)
            },
            ReadStep::Complete => match self.conn.read_req() {
                Err(_) => {
                    self.phase = Phase::Done;
                    Step::Abort(Abort::Parse)
                },
                Ok(req) => match Handler::handle_request(&req, self.has_directory) {
                    Action::Respond(resp) => {
                        self.phase = Phase::Done;
                        Step::Send(resp.serialize())
                    },
                    Action::ReadFile(p) => {
                        self.phase = Phase::AwaitingFile;
                        Step::ReadFile(p)
                    },
                    Action::Abort(a) => {
                        self.phase = Phase::Done;
                        Step::Abort(a)
                    },
                },
            },
        }
    }

    /// Takes the outcome of the file read that a `Step::ReadFile` asked for:
    /// the file's bytes, or `None` when it could not be read.
    pub fn on_file(&mut self, content: Option<Vec<u8>>) -> (r: Step)
        ensures
            (final(self)@, r@) == on_file_spec(
                old(self)@,
                match content {
                    Some(b) => Some(b@),
                    None => None,
                },
            ),
    {
        if self.phase != Phase::AwaitingFile {
            self.phase = Phase::Done;
            return Step::Close;
        }
        self.phase = Phase::Done;
        let resp = file_response(content);
        Step::Send(resp.serialize())
    }

    /// Decides how to answer `req`; `has_directory` tells whether a
    /// directory to serve files from is set.
    pub fn handle_request(req: &Request, has_directory: bool) -> (r: Action)
        ensures
            r@ == handle_spec(req@, has_directory),
    {
        let get: Vec<u8> = vec![0x47u8, 0x45u8, 0x54u8];
        assert(get@ == get_method());
        if !tail_equals(req.method.as_slice(), 0, get.as_slice()) {
            assert(req.method@.subrange(0, req.method@.len() as int) =~= req.method@);
            return Action::Respond(Response::new(404));
        }
        assert(req.method@.subrange(0, req.method@.len() as int) =~= req.method@);
        let target = req.target.as_slice();
        assert(req.target@.subrange(0, req.target@.len() as int) =~= req.target@);
        let root: Vec<u8> = vec![SLASH];
        assert(root@ == seq![SLASH]);
        if tail_equals(target, 0, root.as_slice()) {
            return Action::Respond(Response::new(200));
        }
        let ua_path: Vec<u8> = vec![0x2fu8, 0x75u8, 0x73u8, 0x65u8, 0x72u8, 0x2du8, 0x61u8, 0x67u8, 0x65u8, 0x6eu8, 0x74u8];
        assert(ua_path@ == user_agent_path());
        if tail_equals(target, 0, ua_path.as_slice()) {
            let ua: Vec<u8> = vec![0x75u8, 0x73u8, 0x65u8, 0x72u8, 0x2du8, 0x61u8, 0x67u8, 0x65u8, 0x6eu8, 0x74u8];
            assert(ua@ == user_agent_name());
            return match req.header(ua.as_slice()) {
                Some(agent) => {
                    let tp: Vec<u8> = vec![0x74u8, 0x65u8, 0x78u8, 0x74u8, 0x2fu8, 0x70u8, 0x6cu8, 0x61u8, 0x69u8, 0x6eu8];
                    assert(tp@ == text_plain());
                    Action::Respond(Response::with_body(200, tp.as_slice(), agent))
                },
                None => Action::Abort(Abort::MissingHeader),
            };
        }
        match parse_echo_path(target) {
            Ok(rest) => {
                let tp: Vec<u8> = vec![0x74u8, 0x65u8, 0x78u8, 0x74u8, 0x2fu8, 0x70u8, 0x6cu8, 0x61u8, 0x69u8, 0x6eu8];
                assert(tp@ == text_plain());
                return Action::Respond(Response::with_body(200, tp.as_slice(), rest));
            },
            Err(_) => {},
        }
        match parse_file_path(target) {
            Ok(rest) => {
                if has_directory {
                    Action::ReadFile(rest)
                } else {
                    Action::Abort(Abort::ConfigurationMissing)
                }
            },
            Err(_) => Action::Respond(Response::new(404)),
        }
    }
}

} // verus!
