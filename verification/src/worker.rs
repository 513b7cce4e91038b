//! One worker: the request it sends for a chunk, and what it does with the
//! bytes that come back.
use crate::errors::{is_redirection, is_success, WorkerError};
use crate::headers::{
    credentials, credentials_in, custom_headers, header_views, headers_in, name_char, opt_pair,
    HeaderLine, HeaderView,
};
use crate::text::{
    copy_opt, decimal, decimal_text, joined, law_numbers_are_written_as_they_read, opt_text,
    reads_as, texts,
};
use crate::types::{ChunkInfo, ChunkStatus};
use vstd::prelude::*;
use vstd::string::*;

verus! {

/// `name` can be the name of a request method: it is made of the characters of
/// which header names are made.
pub open spec fn is_method_name(name: Seq<char>) -> bool {
    name.len() > 0 && forall|i: int| 0 <= i < name.len() ==> name_char(#[trigger] name[i])
}

/// Calls `Method::from_bytes` of the `http` crate, which `reqwest` hands on.
/// Trusted: it accepts exactly the texts of one or more characters that
/// [`name_char`] admits, and keeps them as they are, letter case included.
#[verifier::external_body]
fn method_name(text: &str) -> (r: Option<String>)
    ensures
        match r {
            Some(name) => is_method_name(text@) && name@ == text@,
            None => !is_method_name(text@),
        },
{
    match reqwest::Method::from_bytes(text.as_bytes()) {
        Ok(method) => Some(method.as_str().to_owned()),
        Err(_) => None,
    }
}

/// The method that is sent where `name` is asked for: that one, or GET where it
/// cannot be the name of a method.
pub open spec fn method_in(name: Seq<char>) -> Seq<char> {
    if is_method_name(name) {
        name
    } else {
        "GET"@
    }
}

/// The method that is sent where `name` is asked for: that one, or GET where it
/// cannot be the name of a method.
pub fn request_method(name: &str) -> (method: String)
    ensures
        method@ == method_in(name@),
{
    match method_name(name) {
        Some(method) => method,
        None => "GET".to_owned(),
    }
}

/// A request, ready to be sent.
#[derive(Debug)]
pub struct RequestPlan {
    /// The name of the method.
    pub method: String,
    pub url: String,
    /// The headers, in the order in which they are added.
    pub headers: Vec<HeaderLine>,
    /// User and password for basic authentication.
    pub auth: Option<(String, String)>,
    pub body: Option<String>,
}

/// The value of a [`RequestPlan`].
pub struct RequestView {
    pub method: Seq<char>,
    pub url: Seq<char>,
    pub headers: Seq<HeaderView>,
    pub auth: Option<(Seq<char>, Seq<char>)>,
    pub body: Option<Seq<char>>,
}

impl View for RequestPlan {
    type V = RequestView;

    open spec fn view(&self) -> RequestView {
        RequestView {
            method: self.method@,
            url: self.url@,
            headers: header_views(self.headers@),
            auth: opt_pair(self.auth),
            body: opt_text(self.body),
        }
    }
}

/// What one worker sends with its requests.
#[derive(Debug)]
pub struct Worker {
    pub id: usize,
    pub file_path: String,
    pub user_agent: Option<String>,
    pub headers: Vec<String>,
    pub auth: Option<String>,
    pub method: String,
    pub body: Option<String>,
}

/// The value of a [`Worker`].
pub struct WorkerView {
    pub id: usize,
    pub file_path: Seq<char>,
    pub user_agent: Option<Seq<char>>,
    pub headers: Seq<Seq<char>>,
    pub auth: Option<Seq<char>>,
    pub method: Seq<char>,
    pub body: Option<Seq<char>>,
}

impl View for Worker {
    type V = WorkerView;

    open spec fn view(&self) -> WorkerView {
        WorkerView {
            id: self.id,
            file_path: self.file_path@,
            user_agent: opt_text(self.user_agent),
            headers: texts(self.headers@),
            auth: opt_text(self.auth),
            method: self.method@,
            body: opt_text(self.body),
        }
    }
}

/// The stretch of the file that a chunk asks for: from the next byte to the
/// end; with an unknown end, from the next byte on, unless that is the first.
pub open spec fn range_of(chunk: ChunkInfo) -> Option<Seq<char>> {
    if !chunk.open_ended() {
        Some("bytes="@ + decimal(chunk.current as nat) + "-"@ + decimal(chunk.end as nat))
    } else if chunk.current > 0 {
        Some("bytes="@ + decimal(chunk.current as nat) + "-"@)
    } else {
        None
    }
}

/// There is something to ask for: the worker has not come to the end of the chunk.
pub open spec fn asks(chunk: ChunkInfo) -> bool {
    chunk.current <= chunk.end
}

/// A list of headers, one longer where `value` is there.
pub open spec fn with_header(
    list: Seq<HeaderView>,
    name: Seq<char>,
    value: Option<Seq<char>>,
) -> Seq<HeaderView> {
    match value {
        Some(value) => list.push(HeaderView { name, value }),
        None => list,
    }
}

impl WorkerView {
    /// The headers of the request for a chunk: the fixed ones, the range, the
    /// user agent, then those that the user gave.
    pub open spec fn headers_for(self, chunk: ChunkInfo) -> Seq<HeaderView> {
        let fixed = seq![
            HeaderView { name: "referer"@, value: "https://im.qq.com/"@ },
            HeaderView { name: "accept"@, value: "*/*"@ },
        ];
        let ranged = with_header(fixed, "range"@, range_of(chunk));
        with_header(ranged, "user-agent"@, self.user_agent) + headers_in(self.headers)
    }

    /// The request for a chunk.
    pub open spec fn request_for(self, chunk: ChunkInfo, url: Seq<char>) -> RequestView {
        RequestView {
            method: method_in(self.method),
            url,
            headers: self.headers_for(chunk),
            auth: credentials_in(self.auth),
            body: self.body,
        }
    }
}

/// Adds a header to a list.
fn add_header(list: &mut Vec<HeaderLine>, name: &str, value: String)
    ensures
        header_views(final(list)@) == header_views(old(list)@).push(
            HeaderView { name: name@, value: value@ },
        ),
{
    let ghost before = list@;
    let line = HeaderLine { name: name.to_owned(), value };
    list.push(line);
    assert(header_views(list@) =~= header_views(before).push(line@));
}

/// The stretch of the file that a chunk asks for.
fn range_text(chunk: &ChunkInfo) -> (range: Option<String>)
    ensures
        opt_text(range) == range_of(*chunk),
{
    let from = joined("bytes=", decimal_text(chunk.current).as_str()).concat("-");
    if chunk.end != u64::MAX {
        Some(from.concat(decimal_text(chunk.end).as_str()))
    } else if chunk.current > 0 {
        Some(from)
    } else {
        None
    }
}

impl Worker {
    /// A worker that sends the given data with its requests.
    pub fn new(
        id: usize,
        file_path: String,
        user_agent: Option<String>,
        headers: Vec<String>,
        auth: Option<String>,
        method: String,
        body: Option<String>,
    ) -> (worker: Self)
        ensures
            worker@ == (WorkerView {
                id,
                file_path: file_path@,
                user_agent: opt_text(user_agent),
                headers: texts(headers@),
                auth: opt_text(auth),
                method: method@,
                body: opt_text(body),
            }),
    {
        Worker { id, file_path, user_agent, headers, auth, method, body }
    }

    /// The request for what is left of a chunk; `None` where nothing is left: the
    /// worker has then come to the end of the data.
    pub fn request(&self, chunk: &ChunkInfo, url: &str) -> (plan: Option<RequestPlan>)
        ensures
            match plan {
                Some(plan) => asks(*chunk) && plan@ == self@.request_for(*chunk, url@),
                None => !asks(*chunk),
            },
    {
        if chunk.current > chunk.end {
            return None;
        }
        let mut headers: Vec<HeaderLine> = Vec::new();
        add_header(&mut headers, "referer", "https://im.qq.com/".to_owned());
        add_header(&mut headers, "accept", "*/*".to_owned());
        proof {
            assert(header_views(headers@) =~= seq![
                HeaderView { name: "referer"@, value: "https://im.qq.com/"@ },
                HeaderView { name: "accept"@, value: "*/*"@ },
            ]);
        }
        if let Some(range) = range_text(chunk) {
            add_header(&mut headers, "range", range);
        }
        if let Some(agent) = &self.user_agent {
            add_header(&mut headers, "user-agent", agent.clone());
        }
        let mut custom = custom_headers(&self.headers);
        let ghost own = headers@;
        let ghost theirs = custom@;
        headers.append(&mut custom);
        assert(header_views(headers@) =~= header_views(own) + header_views(theirs));
        Some(
            RequestPlan {
                method: request_method(self.method.as_str()),
                url: url.to_owned(),
                headers,
                auth: credentials(&self.auth),
                body: copy_opt(&self.body),
            },
        )
    }
}

/// After so many seconds without data, a worker counts as stalled.
pub const STALL_SECS: u64 = 30;

/// What happens to a worker while it downloads a chunk.
#[derive(Debug, Clone, Copy, PartialEq, Eq, Structural)]
pub enum StreamEvent {
    /// The server answered with this status.
    Status(u16),
    /// This many bytes came.
    Data(usize),
    /// This many bytes were written to the file.
    Written(usize),
    /// There is no more data.
    End,
    /// No data came for [`STALL_SECS`] seconds.
    Stalled,
    /// Reading the data or writing the file failed.
    Failed,
}

/// What a worker does next.
#[derive(Debug, Clone, Copy, PartialEq, Eq, Structural)]
pub enum StreamAction {
    /// Wait for data.
    Read,
    /// Write the first bytes of those that came, this many, at the offset.
    Write(usize),
    /// Stop; the chunk is in order.
    Done,
    /// Stop with this error.
    Fail(WorkerError),
    /// Stop with the error that reading or writing gave.
    Pass,
}

/// The place in the file that a worker has reached, and the end of its chunk
/// as it was when data last came.
#[derive(Debug, Clone, Copy, PartialEq, Eq, Structural)]
pub struct ChunkStream {
    pub offset: u64,
    pub seen_end: u64,
}

/// How many of `len` bytes that belong at `offset` are written, where the chunk
/// ends at `end` and `offset` is not beyond: those up to the end.
pub open spec fn accepted(offset: u64, len: usize, end: u64) -> usize {
    if end != u64::MAX && offset + len > end + 1 {
        (end + 1 - offset) as usize
    } else {
        len
    }
}

/// The chunk after its worker came to the end of the data: completed where the
/// end is not known or has been passed, as it was otherwise.
pub open spec fn settled(chunk: ChunkInfo) -> ChunkInfo {
    if chunk.open_ended() || chunk.current > chunk.end {
        chunk.with_status(ChunkStatus::Completed)
    } else {
        chunk
    }
}

/// What the status of an answer means for a worker.
pub open spec fn status_action(status: u16) -> StreamAction {
    if is_success(status) {
        StreamAction::Read
    } else if is_redirection(status) {
        StreamAction::Fail(WorkerError::Redirected(status))
    } else {
        StreamAction::Fail(WorkerError::Refused(status))
    }
}

/// What an event does to a worker and its chunk, and what the worker does next.
/// Data beyond the end of the chunk, as it then is, is not written; a worker
/// that finds itself beyond the end stops. A worker that fails makes its chunk
/// wait again, with what it has.
pub open spec fn stream_step(
    stream: ChunkStream,
    chunk: ChunkInfo,
    event: StreamEvent,
) -> (ChunkStream, ChunkInfo, StreamAction) {
    match event {
        StreamEvent::Status(status) => (stream, chunk, status_action(status)),
        StreamEvent::Data(len) => {
            let seen = ChunkStream { seen_end: chunk.end, ..stream };
            if stream.offset > chunk.end {
                (seen, settled(chunk), StreamAction::Done)
            } else {
                (seen, chunk, StreamAction::Write(accepted(stream.offset, len, chunk.end)))
            }
        },
        StreamEvent::Written(n) => {
            let offset = (stream.offset + n) as u64;
            let moved = ChunkInfo { current: offset, status: ChunkStatus::Downloading, ..chunk };
            if offset > stream.seen_end {
                (ChunkStream { offset, ..stream }, settled(moved), StreamAction::Done)
            } else {
                (ChunkStream { offset, ..stream }, moved, StreamAction::Read)
            }
        },
        StreamEvent::End => (stream, settled(chunk), StreamAction::Done),
        StreamEvent::Stalled => (
            stream,
            chunk.with_status(ChunkStatus::Pending),
            StreamAction::Fail(WorkerError::Stalled),
        ),
        StreamEvent::Failed => (
            stream,
            chunk.with_status(ChunkStatus::Pending),
            StreamAction::Pass,
        ),
    }
}

/// The offsets that an event leads to are in range.
pub open spec fn step_in_range(stream: ChunkStream, chunk: ChunkInfo, event: StreamEvent) -> bool {
    match event {
        StreamEvent::Data(len) => stream.offset <= chunk.end ==> stream.offset + len <= u64::MAX,
        StreamEvent::Written(n) => stream.offset + n <= u64::MAX,
        _ => true,
    }
}

impl ChunkStream {
    /// The place of a worker that begins on a chunk: where the chunk stands.
    pub open spec fn at(chunk: ChunkInfo) -> ChunkStream {
        ChunkStream { offset: chunk.current, seen_end: chunk.end }
    }

    /// A worker that begins where the chunk stands.
    pub fn new(chunk: &ChunkInfo) -> (stream: Self)
        ensures
            stream == Self::at(*chunk),
    {
        ChunkStream { offset: chunk.current, seen_end: chunk.end }
    }
}

/// The worker came to the end of the data.
fn settle(chunk: &mut ChunkInfo)
    ensures
        *final(chunk) == settled(*old(chunk)),
{
    if chunk.end == u64::MAX {
        chunk.status = ChunkStatus::Completed;
    } else if chunk.current >= chunk.end.saturating_add(1) {
        chunk.status = ChunkStatus::Completed;
    }
}

impl Worker {
    /// One step of the download of a chunk: what `event` does to the worker's
    /// place and to the chunk, and what the worker is to do next. The chunk may
    /// have been split since the last step.
    pub fn download_chunk(
        stream: &mut ChunkStream,
        chunk: &mut ChunkInfo,
        event: StreamEvent,
    ) -> (action: StreamAction)
        requires
            step_in_range(*old(stream), *old(chunk), event),
        ensures
            (*final(stream), *final(chunk), action) == stream_step(
                *old(stream),
                *old(chunk),
                event,
            ),
    {
        match event {
            StreamEvent::Status(status) => {
                if 200 <= status && status < 300 {
                    StreamAction::Read
                } else if 300 <= status && status < 400 {
                    StreamAction::Fail(WorkerError::Redirected(status))
                } else {
                    StreamAction::Fail(WorkerError::Refused(status))
                }
            },
            StreamEvent::Data(len) => {
                let end: u64 = chunk.end;
                stream.seen_end = end;
                if stream.offset > end {
                    settle(chunk);
                    return StreamAction::Done;
                }
                let mut n: usize = len;
                if end != u64::MAX && stream.offset + len as u64 > end.saturating_add(1) {
                    let allowed: u64 = end.saturating_add(1).saturating_sub(stream.offset);
                    n = allowed as usize;
                }
                StreamAction::Write(n)
            },
            StreamEvent::Written(n) => {
                stream.offset = stream.offset + n as u64;
                chunk.current = stream.offset;
                chunk.status = ChunkStatus::Downloading;
                if stream.offset > stream.seen_end {
                    settle(chunk);
                    StreamAction::Done
                } else {
                    StreamAction::Read
                }
            },
            StreamEvent::End => {
                settle(chunk);
                StreamAction::Done
            },
            StreamEvent::Stalled => {
                chunk.status = ChunkStatus::Pending;
                StreamAction::Fail(WorkerError::Stalled)
            },
            StreamEvent::Failed => {
                chunk.status = ChunkStatus::Pending;
                StreamAction::Pass
            },
        }
    }
}

/// Where a worker and its chunk stand after data came in pieces of the given
/// lengths and was written, and then no more came.
pub open spec fn after_pieces(
    stream: ChunkStream,
    chunk: ChunkInfo,
    pieces: Seq<usize>,
) -> (ChunkStream, ChunkInfo)
    decreases pieces.len(),
{
    if pieces.len() == 0 {
        let (s, c, _) = stream_step(stream, chunk, StreamEvent::End);
        (s, c)
    } else {
        let (s, c, action) = stream_step(stream, chunk, StreamEvent::Data(pieces[0]));
        match action {
            StreamAction::Write(n) => {
                let (s, c, action) = stream_step(s, c, StreamEvent::Written(n));
                if action is Read {
                    after_pieces(s, c, pieces.drop_first())
                } else {
                    (s, c)
                }
            },
            _ => (s, c),
        }
    }
}

/// The sum of the lengths of the pieces.
pub open spec fn total_len(pieces: Seq<usize>) -> nat
    decreases pieces.len(),
{
    if pieces.len() == 0 {
        0
    } else {
        pieces[0] as nat + total_len(pieces.drop_first())
    }
}

/// However the data is cut into pieces, a worker writes all of it up to the end
/// of its chunk and nothing beyond, and the chunk is completed exactly when as
/// many bytes came as were left of it.
pub proof fn law_stream_fills_the_chunk(stream: ChunkStream, chunk: ChunkInfo, pieces: Seq<usize>)
    requires
        !chunk.open_ended(),
        chunk.current <= chunk.end,
        stream.offset == chunk.current,
        chunk.status == ChunkStatus::Downloading,
    ensures
        ({
            let (s, c) = after_pieces(stream, chunk, pieces);
            let came = total_len(pieces);
            &&& s.offset == c.current
            &&& c.start == chunk.start && c.end == chunk.end && c.id == chunk.id
            &&& came < chunk.left() ==> c.current == chunk.current + came && c.status
                == ChunkStatus::Downloading
            &&& came >= chunk.left() ==> c.current == chunk.end + 1 && c.status
                == ChunkStatus::Completed
        }),
    decreases pieces.len(),
{
    if pieces.len() > 0 {
        let (s, c, action) = stream_step(stream, chunk, StreamEvent::Data(pieces[0]));
        let n = accepted(stream.offset, pieces[0], chunk.end);
        assert(action == StreamAction::Write(n));
        assert(stream.offset + n <= chunk.end + 1);
        let (s2, c2, action2) = stream_step(s, c, StreamEvent::Written(n));
        if action2 is Read {
            law_stream_fills_the_chunk(s2, c2, pieces.drop_first());
        }
    }
}

/// A worker on a chunk whose end is not known writes all the data that comes,
/// however it is cut into pieces, and the chunk is completed when no more comes.
pub proof fn law_open_stream_takes_all(stream: ChunkStream, chunk: ChunkInfo, pieces: Seq<usize>)
    requires
        chunk.open_ended(),
        stream.offset == chunk.current,
        chunk.current + total_len(pieces) <= u64::MAX,
    ensures
        ({
            let (s, c) = after_pieces(stream, chunk, pieces);
            &&& s.offset == c.current
            &&& c.start == chunk.start && c.end == chunk.end && c.id == chunk.id
            &&& c.current == chunk.current + total_len(pieces)
            &&& c.status == ChunkStatus::Completed
        }),
    decreases pieces.len(),
{
    if pieces.len() > 0 {
        let (s, c, action) = stream_step(stream, chunk, StreamEvent::Data(pieces[0]));
        let (s2, c2, action2) = stream_step(s, c, StreamEvent::Written(pieces[0]));
        assert(action == StreamAction::Write(pieces[0]));
        assert(action2 == StreamAction::Read);
        law_open_stream_takes_all(s2, c2, pieces.drop_first());
    }
}

/// A worker never writes a byte that lies beyond the end of its chunk, as the
/// end is when the data comes.
pub proof fn law_writes_stay_in_the_chunk(stream: ChunkStream, chunk: ChunkInfo, len: usize)
    requires
        !chunk.open_ended(),
    ensures
        stream_step(stream, chunk, StreamEvent::Data(len)).2 matches StreamAction::Write(n) ==> n
            <= len && stream.offset + n <= chunk.end + 1,
{
}

/// A chunk that failed keeps what it has: its worker's successor begins where
/// it stopped.
pub proof fn law_failure_keeps_progress(stream: ChunkStream, chunk: ChunkInfo, event: StreamEvent)
    requires
        event is Stalled || event is Failed,
    ensures
        stream_step(stream, chunk, event).1 == chunk.with_status(ChunkStatus::Pending),
        stream_step(stream, chunk, event).1.current == chunk.current,
{
}

// ---------------------------------------------------------------------------
// What a request asks for
// ---------------------------------------------------------------------------
/// The header at position `i` is the only one of its name among the first `n`.
pub open spec fn only_of_its_name(list: Seq<HeaderView>, n: int, i: int) -> bool {
    &&& 0 <= i < n
    &&& forall|j: int| 0 <= j < n && j != i ==> (#[trigger] list[j]).name != list[i].name
}

/// `value` asks for the bytes from `first` to `last`.
pub open spec fn asks_for(value: Seq<char>, first: int, last: int) -> bool {
    exists|a: Seq<char>, b: Seq<char>|
        reads_as(a, first) && reads_as(b, last) && value == #[trigger] ("bytes="@ + a + "-"@ + b)
}

/// `value` asks for all bytes from `first` on.
pub open spec fn asks_from(value: Seq<char>, first: int) -> bool {
    exists|a: Seq<char>| reads_as(a, first) && value == #[trigger] ("bytes="@ + a + "-"@)
}

/// The names of the headers that a request has of its own differ.
proof fn lemma_names_differ()
    ensures
        "range"@ != "referer"@,
        "range"@ != "accept"@,
        "range"@ != "user-agent"@,
        "user-agent"@ != "referer"@,
        "user-agent"@ != "accept"@,
        "referer"@ != "accept"@,
{
    reveal_strlit("range");
    reveal_strlit("referer");
    reveal_strlit("accept");
    reveal_strlit("user-agent");
    assert("range"@.len() == 5 && "referer"@.len() == 7);
    assert("accept"@.len() == 6 && "user-agent"@.len() == 10);
}

/// Whoever asks for what is left of a chunk whose end is known asks for exactly
/// that: of the headers before the user's own, one is a range, and the bytes that
/// it names are the next that the chunk lacks and its last. Data that comes back
/// thus begins where the worker writes it. Where no header of the user's is a
/// range, it is the only one of the request.
pub proof fn law_a_request_asks_for_what_is_left(
    worker: WorkerView,
    chunk: ChunkInfo,
    url: Seq<char>,
) -> (i: int)
    requires
        chunk.end != u64::MAX,
        chunk.current <= chunk.end,
    ensures
        ({
            let headers = worker.request_for(chunk, url).headers;
            let own = headers.len() - headers_in(worker.headers).len();
            &&& only_of_its_name(headers, own, i)
            &&& headers[i].name == "range"@
            &&& asks_for(headers[i].value, chunk.current as int, chunk.end as int)
            &&& ChunkStream::at(chunk).offset == chunk.current
            &&& ChunkStream::at(chunk).seen_end == chunk.end
            &&& (forall|j: int|
                0 <= j < headers_in(worker.headers).len() ==> (#[trigger] headers_in(
                    worker.headers,
                )[j]).name != "range"@) ==> only_of_its_name(headers, headers.len() as int, i)
        }),
{
    lemma_names_differ();
    law_numbers_are_written_as_they_read(chunk.current as nat);
    law_numbers_are_written_as_they_read(chunk.end as nat);
    let headers = worker.request_for(chunk, url).headers;
    let theirs = headers_in(worker.headers);
    let own = headers.len() - theirs.len();
    assert(headers[2].name == "range"@);
    assert(headers[0].name == "referer"@ && headers[1].name == "accept"@);
    assert(own == 3 || own == 4 && headers[3].name == "user-agent"@);
    let (a, b) = (decimal(chunk.current as nat), decimal(chunk.end as nat));
    assert(headers[2].value == "bytes="@ + a + "-"@ + b);
    assert(reads_as(a, chunk.current as int) && reads_as(b, chunk.end as int));
    if forall|j: int| 0 <= j < theirs.len() ==> (#[trigger] theirs[j]).name != "range"@ {
        assert forall|j: int| 0 <= j < headers.len() && j != 2 implies (
        #[trigger] headers[j]).name != headers[2].name by {
            if j >= own {
                assert(headers[j] == theirs[j - own]);
            }
        }
    }
    2
}

/// Whoever asks for a chunk whose end is not known asks for all from the next
/// byte on, and for the whole without a range where that is the first.
pub proof fn law_a_request_without_end_asks_for_the_rest(
    worker: WorkerView,
    chunk: ChunkInfo,
    url: Seq<char>,
) -> (i: int)
    requires
        chunk.end == u64::MAX,
    ensures
        ({
            let headers = worker.request_for(chunk, url).headers;
            let own = headers.len() - headers_in(worker.headers).len();
            &&& chunk.current > 0 ==> {
                &&& only_of_its_name(headers, own, i)
                &&& headers[i].name == "range"@
                &&& asks_from(headers[i].value, chunk.current as int)
            }
            &&& chunk.current == 0 ==> forall|j: int|
                0 <= j < own ==> (#[trigger] headers[j]).name != "range"@
            &&& ChunkStream::at(chunk).offset == chunk.current
        }),
{
    lemma_names_differ();
    law_numbers_are_written_as_they_read(chunk.current as nat);
    let headers = worker.request_for(chunk, url).headers;
    let theirs = headers_in(worker.headers);
    let own = headers.len() - theirs.len();
    assert(headers[0].name == "referer"@ && headers[1].name == "accept"@);
    if chunk.current > 0 {
        assert(headers[2].name == "range"@);
        assert(own == 3 || own == 4 && headers[3].name == "user-agent"@);
        let a = decimal(chunk.current as nat);
        assert(headers[2].value == "bytes="@ + a + "-"@);
        assert(reads_as(a, chunk.current as int));
    } else {
        assert(own == 2 || own == 3 && headers[2].name == "user-agent"@);
    }
    2
}

/// A request goes to the link that it is for, and carries what its worker was
/// given: the credentials, the body, the method where it can be one, the user
/// agent where there is one, and behind all others the user's headers, in order
/// and complete. It always says where it comes from and that it accepts
/// anything.
pub proof fn law_a_request_carries_what_the_worker_has(
    worker: WorkerView,
    chunk: ChunkInfo,
    url: Seq<char>,
)
    ensures
        ({
            let request = worker.request_for(chunk, url);
            let headers = request.headers;
            let own = headers.len() - headers_in(worker.headers).len();
            &&& request.url == url
            &&& request.body == worker.body
            &&& request.auth == credentials_in(worker.auth)
            &&& is_method_name(worker.method) ==> request.method == worker.method
            &&& !is_method_name(worker.method) ==> request.method == "GET"@
            &&& 2 <= own <= 4
            &&& headers.skip(own) == headers_in(worker.headers)
            &&& headers[0] == HeaderView { name: "referer"@, value: "https://im.qq.com/"@ }
            &&& headers[1] == HeaderView { name: "accept"@, value: "*/*"@ }
            &&& worker.user_agent matches Some(agent) ==> headers[own - 1] == HeaderView {
                name: "user-agent"@,
                value: agent,
            }
            &&& worker.user_agent is None ==> forall|j: int|
                0 <= j < own ==> (#[trigger] headers[j]).name != "user-agent"@
        }),
{
    lemma_names_differ();
    let headers = worker.request_for(chunk, url).headers;
    let theirs = headers_in(worker.headers);
    let own = headers.len() - theirs.len();
    assert(headers.skip(own) =~= theirs);
    assert(headers[0].name == "referer"@ && headers[1].name == "accept"@);
    if worker.user_agent is None {
        assert(own == 2 || own == 3 && headers[2].name == "range"@);
    }
}

/// A worker asks exactly where some byte of its chunk is still to come, and then
/// stands at the first of these.
pub proof fn law_workers_ask_while_bytes_are_left(chunk: ChunkInfo)
    ensures
        asks(chunk) <==> chunk.left() > 0,
        chunk.end == u64::MAX ==> asks(chunk),
        asks(chunk) && chunk.end != u64::MAX ==> chunk.left() == chunk.end - ChunkStream::at(
            chunk,
        ).offset + 1,
        !asks(chunk) && chunk.end != u64::MAX ==> chunk.left() == 0,
{
}

// ---------------------------------------------------------------------------
// What a worker does with what comes
// ---------------------------------------------------------------------------
/// A worker reads on exactly where the status is one of the 200s; otherwise it
/// fails, and says with which status: a redirect is one of the 300s. The status
/// changes neither its place nor its chunk.
pub proof fn law_only_success_is_read(stream: ChunkStream, chunk: ChunkInfo, status: u16)
    ensures
        ({
            let (s, c, action) = stream_step(stream, chunk, StreamEvent::Status(status));
            &&& s == stream && c == chunk
            &&& action is Read <==> 200 <= status <= 299
            &&& 300 <= status <= 399 ==> action == StreamAction::Fail(
                WorkerError::Redirected(status),
            )
            &&& !(200 <= status <= 399) ==> action == StreamAction::Fail(
                WorkerError::Refused(status),
            )
        }),
{
}

/// Of the data that comes, a worker writes all that belongs to its chunk, and
/// all of it where the end is not known; a worker beyond the end writes nothing
/// and stops. The chunk gains nothing before the data is written.
pub proof fn law_all_that_belongs_is_written(stream: ChunkStream, chunk: ChunkInfo, len: usize)
    ensures
        ({
            let (s, c, action) = stream_step(stream, chunk, StreamEvent::Data(len));
            let room = chunk.end - stream.offset + 1;
            &&& s.offset == stream.offset && s.seen_end == chunk.end
            &&& c.current == chunk.current && c.start == chunk.start && c.end == chunk.end
            &&& c.id == chunk.id && c.retries == chunk.retries
            &&& action is Write <==> stream.offset <= chunk.end
            &&& action is Done <==> stream.offset > chunk.end
            &&& action matches StreamAction::Write(n) ==> {
                &&& n == len || n == room && n < len && chunk.end != u64::MAX
                &&& chunk.end != u64::MAX ==> n <= room
                &&& c.status == chunk.status
            }
        }),
{
}

/// What has been written counts: the worker and its chunk stand right behind it,
/// and nothing else of the chunk changes. The worker stops exactly where it has
/// passed the end that it saw, and the chunk is then completed exactly where its
/// own end is passed, or not known.
pub proof fn law_what_is_written_counts(stream: ChunkStream, chunk: ChunkInfo, n: usize)
    requires
        stream.offset + n <= u64::MAX,
    ensures
        ({
            let (s, c, action) = stream_step(stream, chunk, StreamEvent::Written(n));
            &&& s.offset == stream.offset + n && s.seen_end == stream.seen_end
            &&& c.current == stream.offset + n
            &&& c.start == chunk.start && c.end == chunk.end
            &&& c.id == chunk.id && c.retries == chunk.retries
            &&& action is Done <==> stream.offset + n > stream.seen_end
            &&& action is Read <==> stream.offset + n <= stream.seen_end
            &&& action is Read ==> c.status == ChunkStatus::Downloading
            &&& action is Done ==> c.status == (if chunk.end == u64::MAX || stream.offset + n
                > chunk.end {
                ChunkStatus::Completed
            } else {
                ChunkStatus::Downloading
            })
        }),
{
}

/// When no more data comes the worker stops, with its chunk completed exactly
/// where its end is passed or not known; when the data fails to come, the chunk
/// waits again. Neither changes anything else.
pub proof fn law_ends_are_told_from_failures(stream: ChunkStream, chunk: ChunkInfo)
    ensures
        ({
            let (s, c, action) = stream_step(stream, chunk, StreamEvent::End);
            &&& s == stream && action is Done
            &&& chunk.end == u64::MAX || chunk.current > chunk.end ==> c.status
                == ChunkStatus::Completed
            &&& chunk.end != u64::MAX && chunk.current <= chunk.end ==> c.status == chunk.status
            &&& c == ChunkInfo { status: c.status, ..chunk }
        }),
        ({
            let (s, c, action) = stream_step(stream, chunk, StreamEvent::Stalled);
            &&& s == stream && action == StreamAction::Fail(WorkerError::Stalled)
            &&& c == ChunkInfo { status: ChunkStatus::Pending, ..chunk }
        }),
        ({
            let (s, c, action) = stream_step(stream, chunk, StreamEvent::Failed);
            &&& s == stream && action is Pass
            &&& c == ChunkInfo { status: ChunkStatus::Pending, ..chunk }
        }),
{
}

/// The value of a request, and that of a worker, is that of each of its fields.
pub proof fn law_values_of_workers_and_requests(worker: Worker, plan: RequestPlan)
    ensures
        worker@.id == worker.id,
        worker@.file_path == worker.file_path@,
        worker@.user_agent == opt_text(worker.user_agent),
        worker@.headers == texts(worker.headers@),
        worker@.auth == opt_text(worker.auth),
        worker@.method == worker.method@,
        worker@.body == opt_text(worker.body),
        plan@.method == plan.method@,
        plan@.url == plan.url@,
        plan@.headers == header_views(plan.headers@),
        plan@.auth == opt_pair(plan.auth),
        plan@.body == opt_text(plan.body),
{
}

/// A method is sent as it was asked for where it is made of the characters of
/// header names, and is GET where it is not.
pub proof fn law_methods_are_sent_as_asked(name: Seq<char>)
    ensures
        name.len() > 0 && (forall|i: int| 0 <= i < name.len() ==> name_char(#[trigger] name[i]))
            ==> method_in(name) == name,
        (exists|i: int| 0 <= i < name.len() && !name_char(#[trigger] name[i])) ==> method_in(name)
            == "GET"@,
        name.len() == 0 ==> method_in(name) == "GET"@,
{
}

} // verus!
