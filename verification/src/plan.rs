//! How a task begins: the options of its connections, what is asked first, what
//! is resumed, and how the file is divided.
use crate::errors::{is_redirection, is_success, TaskError};
use crate::headers::{credentials, credentials_in, custom_headers, headers_in};
use crate::text::{
    copy_opt, law_numbers_are_read, opt_text, read_u64, reads_as, same_text, u64_in,
};
use crate::tiling::{covered, holds, honest, numbered, started, tiles};
use crate::types::{
    copy_chunks, ChunkInfo, ChunkStatus, ConfigView, DownloadTaskConfig, MetadataView,
    TaskMetadata, TaskStatus, TaskStatusView,
};
use crate::worker::{RequestPlan, RequestView};
use vstd::prelude::*;

verus! {

// ---------------------------------------------------------------------------
// Connections
// ---------------------------------------------------------------------------
/// The options of the connections of a task.
#[derive(Debug)]
pub struct ClientOptions {
    pub user_agent: String,
    /// Only HTTP/1.1 is spoken.
    pub http1_only: bool,
    /// Compressed replies are asked for and unpacked.
    pub compressed: bool,
    pub connect_timeout_secs: u64,
    pub timeout_secs: u64,
    pub accept_invalid_certs: bool,
    pub follow_redirects: bool,
    pub proxy: Option<String>,
}

/// The value of [`ClientOptions`].
pub struct ClientView {
    pub user_agent: Seq<char>,
    pub http1_only: bool,
    pub compressed: bool,
    pub connect_timeout_secs: u64,
    pub timeout_secs: u64,
    pub accept_invalid_certs: bool,
    pub follow_redirects: bool,
    pub proxy: Option<Seq<char>>,
}

impl View for ClientOptions {
    type V = ClientView;

    open spec fn view(&self) -> ClientView {
        ClientView {
            user_agent: self.user_agent@,
            http1_only: self.http1_only,
            compressed: self.compressed,
            connect_timeout_secs: self.connect_timeout_secs,
            timeout_secs: self.timeout_secs,
            accept_invalid_certs: self.accept_invalid_certs,
            follow_redirects: self.follow_redirects,
            proxy: opt_text(self.proxy),
        }
    }
}

/// The user agent where none is given.
pub open spec fn default_user_agent() -> Seq<char> {
    "Mozilla/5.0 (Macintosh; Intel Mac OS X 10_15_7) AppleWebKit/537.36 (KHTML, like Gecko) Chrome/120.0.0.0 Safari/537.36"@
}

/// The connections of a task: HTTP/1.1, ten seconds to connect and five minutes
/// in all, and for the rest as the task is configured.
pub open spec fn client_for(config: ConfigView) -> ClientView {
    ClientView {
        user_agent: match config.user_agent {
            Some(agent) => agent,
            None => default_user_agent(),
        },
        http1_only: true,
        compressed: config.compressed,
        connect_timeout_secs: 10,
        timeout_secs: 300,
        accept_invalid_certs: config.insecure,
        follow_redirects: config.location,
        proxy: config.proxy,
    }
}

/// The options of the connections of a task.
pub fn client_options(config: &DownloadTaskConfig) -> (options: ClientOptions)
    ensures
        options@ == client_for(config@),
{
    let user_agent = match &config.user_agent {
        Some(agent) => agent.clone(),
        None =>
            "Mozilla/5.0 (Macintosh; Intel Mac OS X 10_15_7) AppleWebKit/537.36 (KHTML, like Gecko) Chrome/120.0.0.0 Safari/537.36".to_owned(),
    };
    ClientOptions {
        user_agent,
        http1_only: true,
        compressed: config.compressed,
        connect_timeout_secs: 10,
        timeout_secs: 300,
        accept_invalid_certs: config.insecure,
        follow_redirects: config.location,
        proxy: copy_opt(&config.proxy),
    }
}

// ---------------------------------------------------------------------------
// Resuming
// ---------------------------------------------------------------------------
/// A chunk of an earlier run: one that has come to its end is completed, and one
/// that a worker was on waits again, with what it has.
pub open spec fn resumed(chunk: ChunkInfo) -> ChunkInfo {
    if !chunk.open_ended() && chunk.current > chunk.end {
        chunk.with_status(ChunkStatus::Completed)
    } else if chunk.status == ChunkStatus::Downloading {
        chunk.with_status(ChunkStatus::Pending)
    } else {
        chunk
    }
}

/// The chunks of an earlier run.
pub open spec fn resumed_all(chunks: Seq<ChunkInfo>) -> Seq<ChunkInfo> {
    chunks.map_values(|chunk: ChunkInfo| resumed(chunk))
}

/// What is remembered of a task that takes over what an earlier run left, and
/// whether it goes on from there.
pub open spec fn restored(
    task: MetadataView,
    saved: MetadataView,
    file_exists: bool,
) -> (MetadataView, bool) {
    (
        MetadataView {
            chunks: resumed_all(saved.chunks),
            total_size: saved.total_size,
            ..task
        },
        file_exists,
    )
}

/// What is remembered of a task that begins.
pub open spec fn begun(
    task: MetadataView,
    total_size: u64,
    chunks: Seq<ChunkInfo>,
) -> MetadataView {
    MetadataView { chunks, total_size, status: TaskStatusView::Running, ..task }
}

/// What is remembered of a task whose chunks have come so far.
pub open spec fn noted(task: MetadataView, chunks: Seq<ChunkInfo>) -> MetadataView {
    MetadataView { chunks, ..task }
}

/// What is written beside the file of a task whose chunks have come so far.
pub open spec fn noted_for_saving(task: MetadataView, chunks: Seq<ChunkInfo>) -> MetadataView {
    MetadataView {
        chunks,
        status: if task.status is Pending {
            TaskStatusView::Running
        } else {
            task.status
        },
        ..task
    }
}

impl TaskMetadata {
    /// Takes over what an earlier run left beside the file. The result says
    /// whether the task goes on from there: it does when the file itself is
    /// still there. Otherwise what was left beside it is of no use.
    pub fn restore(&mut self, saved: &TaskMetadata, file_exists: bool) -> (resume: bool)
        ensures
            (final(self)@, resume) == restored(old(self)@, saved@, file_exists),
    {
        let mut chunks: Vec<ChunkInfo> = Vec::new();
        let mut i: usize = 0;
        while i < saved.chunks.len()
            invariant
                i <= saved.chunks.len(),
                chunks@ == resumed_all(saved.chunks@).take(i as int),
            decreases saved.chunks.len() - i,
        {
            let mut chunk = saved.chunks[i];
            if chunk.end != u64::MAX && chunk.current > chunk.end {
                chunk.status = ChunkStatus::Completed;
            } else if chunk.status == ChunkStatus::Downloading {
                chunk.status = ChunkStatus::Pending;
            }
            chunks.push(chunk);
            assert(resumed_all(saved.chunks@).take(i + 1) =~= resumed_all(saved.chunks@).take(
                i as int,
            ).push(resumed(saved.chunks@[i as int])));
            i += 1;
        }
        assert(resumed_all(saved.chunks@).take(i as int) =~= resumed_all(saved.chunks@));
        self.chunks = chunks;
        self.total_size = saved.total_size;
        file_exists
    }

    /// The task begins to download a file divided into the given chunks.
    pub fn begin(&mut self, total_size: u64, chunks: &Vec<ChunkInfo>)
        ensures
            final(self)@ == begun(old(self)@, total_size, chunks@),
    {
        self.total_size = total_size;
        self.chunks = copy_chunks(chunks);
        self.status = TaskStatus::Running;
    }

    /// Takes over how far the chunks have come.
    pub fn note_chunks(&mut self, chunks: &Vec<ChunkInfo>)
        ensures
            final(self)@ == noted(old(self)@, chunks@),
    {
        self.chunks = copy_chunks(chunks);
    }

    /// Takes over how far the chunks have come, before this is written beside
    /// the file; a task that was waiting counts as running from now on.
    pub fn note_for_saving(&mut self, chunks: &Vec<ChunkInfo>)
        ensures
            final(self)@ == noted_for_saving(old(self)@, chunks@),
    {
        self.chunks = copy_chunks(chunks);
        if let TaskStatus::Pending = self.status {
            self.status = TaskStatus::Running;
        }
    }
}

/// Resuming keeps the division of the file and what has been downloaded of it,
/// and leaves no chunk with a worker. A chunk that waits then has something to
/// wait for.
pub proof fn law_resuming_keeps_progress(chunks: Seq<ChunkInfo>, total: int)
    requires
        tiles(chunks, total),
        started(chunks),
        honest(chunks),
    ensures
        tiles(resumed_all(chunks), total),
        started(resumed_all(chunks)),
        honest(resumed_all(chunks)),
        numbered(chunks) ==> numbered(resumed_all(chunks)),
        forall|i: int|
            0 <= i < chunks.len() ==> {
                &&& (#[trigger] resumed_all(chunks)[i]).current == chunks[i].current
                &&& resumed_all(chunks)[i].status != ChunkStatus::Downloading
                &&& resumed_all(chunks)[i].status == ChunkStatus::Pending ==> chunks[i].left() > 0
            },
{
    let now = resumed_all(chunks);
    assert forall|b: int| 0 <= b < total implies #[trigger] covered(now, b) by {
        assert(covered(chunks, b));
        let k = choose|k: int| 0 <= k < chunks.len() && holds(#[trigger] chunks[k], b);
        assert(holds(now[k], b));
    }
}

// ---------------------------------------------------------------------------
// Asking for the size
// ---------------------------------------------------------------------------
/// What a server says of a file.
#[derive(Debug, Clone, Copy, PartialEq, Eq, Structural)]
pub struct ProbeInfo {
    /// The size; zero where the server does not say.
    pub total_size: u64,
    /// Whether parts of the file can be asked for.
    pub accept_ranges: bool,
}

/// The answer to the question for the size.
#[derive(Debug)]
pub struct ProbeReply {
    pub status: u16,
    /// The header `Content-Length`, where it is there and is plain text.
    pub content_length: Option<String>,
    /// The header `Accept-Ranges`, where it is there and is plain text.
    pub accept_ranges: Option<String>,
}

/// The size of the file is asked for before the download, which is so for GET
/// requests alone.
pub open spec fn probes(config: ConfigView) -> bool {
    config.method == "GET"@
}

/// Whether the size of the file is asked for before the download.
pub fn needs_probe(config: &DownloadTaskConfig) -> (r: bool)
    ensures
        r == probes(config@),
{
    same_text(config.method.as_str(), "GET")
}

/// The request that asks for the size: HEAD to the first link, with the user's
/// headers and credentials.
pub open spec fn probe_request_for(config: ConfigView) -> RequestView {
    RequestView {
        method: "HEAD"@,
        url: config.urls[0],
        headers: headers_in(config.headers),
        auth: credentials_in(config.auth),
        body: None,
    }
}

/// The request that asks for the size: HEAD to the first link, with the user's
/// headers and credentials.
pub fn probe_request(config: &DownloadTaskConfig) -> (plan: RequestPlan)
    requires
        config.urls@.len() > 0,
    ensures
        plan@ == probe_request_for(config@),
{
    RequestPlan {
        method: "HEAD".to_owned(),
        url: config.urls[0].clone(),
        headers: custom_headers(&config.headers),
        auth: credentials(&config.auth),
        body: None,
    }
}

/// What the answer to the question for the size says.
pub open spec fn probe_of(
    status: u16,
    content_length: Option<Seq<char>>,
    accept_ranges: Option<Seq<char>>,
) -> Result<ProbeInfo, TaskError> {
    if is_success(status) {
        Ok(
            ProbeInfo {
                total_size: match content_length {
                    Some(text) => match u64_in(text) {
                        Some(n) => n,
                        None => 0,
                    },
                    None => 0,
                },
                accept_ranges: accept_ranges == Some("bytes"@),
            },
        )
    } else if is_redirection(status) {
        Err(TaskError::HeadRedirected(status))
    } else {
        Err(TaskError::HeadRefused(status))
    }
}

/// What the answer to the question for the size says, where one came.
pub open spec fn probe_in(reply: Option<ProbeReply>) -> Result<ProbeInfo, TaskError> {
    match reply {
        Some(reply) => probe_of(
            reply.status,
            opt_text(reply.content_length),
            opt_text(reply.accept_ranges),
        ),
        None => Err(TaskError::HeadUnreachable),
    }
}

/// Reads the answer to the question for the size; `None` where none came.
pub fn read_probe(reply: &Option<ProbeReply>) -> (r: Result<ProbeInfo, TaskError>)
    ensures
        r == probe_in(*reply),
{
    match reply {
        Some(reply) => {
            if 200 <= reply.status && reply.status < 300 {
                let total_size: u64 = match &reply.content_length {
                    Some(text) => match read_u64(text.as_str()) {
                        Some(n) => n,
                        None => 0,
                    },
                    None => 0,
                };
                let accept_ranges = match &reply.accept_ranges {
                    Some(text) => same_text(text.as_str(), "bytes"),
                    None => false,
                };
                Ok(ProbeInfo { total_size, accept_ranges })
            } else if 300 <= reply.status && reply.status < 400 {
                Err(TaskError::HeadRedirected(reply.status))
            } else {
                Err(TaskError::HeadRefused(reply.status))
            }
        },
        None => Err(TaskError::HeadUnreachable),
    }
}

// ---------------------------------------------------------------------------
// Dividing the file
// ---------------------------------------------------------------------------
/// Chunk `i` of a file of `total` bytes divided into `n` chunks: all chunks are
/// of one size, but for the last, which takes the rest.
pub open spec fn even_chunk(total: u64, n: u32, i: int) -> ChunkInfo {
    let size = total as int / n as int;
    let start = (i * size) as u64;
    ChunkInfo {
        id: i as usize,
        start,
        end: (if i == n - 1 {
            total - 1
        } else {
            (i + 1) * size - 1
        }) as u64,
        current: start,
        status: ChunkStatus::Pending,
        retries: 0,
    }
}

/// Among how many of `n` workers a file of `total` bytes is divided: no worker
/// is left without a byte.
pub open spec fn sharers(total: u64, n: u32) -> u32 {
    if total < n {
        total as u32
    } else {
        n
    }
}

/// A file of `total` bytes divided among `n` workers.
pub open spec fn even_chunks(total: u64, n: u32) -> Seq<ChunkInfo> {
    Seq::new(sharers(total, n) as nat, |i: int| even_chunk(total, sharers(total, n), i))
}

proof fn lemma_even_bounds(total: u64, n: u32, i: int)
    requires
        1 <= n <= total,
        0 <= i < n,
    ensures
        ({
            let size = total as int / n as int;
            &&& size >= 1
            &&& 0 <= i * size < total
            &&& (i + 1) * size <= total
            &&& i * size < (i + 1) * size
            &&& (i + 1) * size == i * size + size
            &&& i == n - 1 ==> i * size <= total - 1
        }),
{
    let size = total as int / n as int;
    let t = total as int;
    let m = n as int;
    assert(size >= 1) by (nonlinear_arith)
        requires
            size == t / m,
            1 <= m <= t,
    ;
    assert((i + 1) * size == i * size + size) by (nonlinear_arith);
    assert((i + 1) * size <= m * size) by (nonlinear_arith)
        requires
            i + 1 <= m,
            size >= 1,
    ;
    assert(m * size <= t) by (nonlinear_arith)
        requires
            size == t / m,
            m >= 1,
            t >= 0,
    ;
    assert(0 <= i * size) by (nonlinear_arith)
        requires
            i >= 0,
            size >= 1,
    ;
}

/// Divides a file of `total` bytes among `workers` workers, or among as many as
/// it has bytes where these are fewer.
pub fn plan_chunks(total: u64, workers: u32) -> (chunks: Vec<ChunkInfo>)
    requires
        total > 0 ==> workers > 0,
    ensures
        chunks@ == even_chunks(total, workers),
{
    let n: u32 = if total < workers as u64 {
        total as u32
    } else {
        workers
    };
    if n == 0 {
        let chunks: Vec<ChunkInfo> = Vec::new();
        assert(chunks@ =~= even_chunks(total, workers));
        return chunks;
    }
    let size: u64 = total / n as u64;
    let mut chunks: Vec<ChunkInfo> = Vec::new();
    let mut i: u32 = 0;
    while i < n
        invariant
            1 <= n <= total,
            size == total as int / n as int,
            i <= n,
            chunks@.len() == i,
            forall|k: int| 0 <= k < i ==> #[trigger] chunks@[k] == even_chunk(total, n, k),
        decreases n - i,
    {
        proof {
            lemma_even_bounds(total, n, i as int);
        }
        let start: u64 = i as u64 * size;
        let end: u64 = if i == n - 1 {
            total - 1
        } else {
            (i + 1) as u64 * size - 1
        };
        if start <= end {
            chunks.push(ChunkInfo::new(i as usize, start, end));
        }
        i += 1;
    }
    assert(chunks@ =~= even_chunks(total, workers));
    chunks
}

/// The chunks of a plan divide the file among them, whatever the number of
/// workers; none is empty, they are numbered in order, and nothing of them has
/// been downloaded.
pub proof fn law_plan_divides_the_file(total: u64, workers: u32)
    requires
        total > 0 ==> workers > 0,
    ensures
        tiles(even_chunks(total, workers), total as int),
        started(even_chunks(total, workers)),
        honest(even_chunks(total, workers)),
        numbered(even_chunks(total, workers)),
        even_chunks(total, workers).len() <= workers,
        forall|i: int|
            0 <= i < even_chunks(total, workers).len() ==> {
                &&& (#[trigger] even_chunks(total, workers)[i]).start <= even_chunks(
                    total,
                    workers,
                )[i].end
                &&& even_chunks(total, workers)[i].current == even_chunks(total, workers)[i].start
                &&& even_chunks(total, workers)[i].status == ChunkStatus::Pending
            },
{
    if total > 0 {
        lemma_even_chunks_tile(total, workers);
    }
}

proof fn lemma_even_chunks_tile(total: u64, workers: u32)
    requires
        total > 0,
        workers > 0,
    ensures
        tiles(even_chunks(total, workers), total as int),
        numbered(even_chunks(total, workers)),
        forall|i: int|
            0 <= i < even_chunks(total, workers).len() ==> (#[trigger] even_chunks(
                total,
                workers,
            )[i]).start <= even_chunks(total, workers)[i].end,
{
    let n = sharers(total, workers);
    let chunks = even_chunks(total, workers);
    let size = total as int / n as int;
    assert forall|i: int| 0 <= i < chunks.len() implies {
        &&& (#[trigger] chunks[i]).start == i * size
        &&& chunks[i].start <= chunks[i].end < total
        &&& i < n - 1 ==> chunks[i].end == (i + 1) * size - 1
        &&& i == n - 1 ==> chunks[i].end == total - 1
    } by {
        lemma_even_bounds(total, n, i);
    }
    assert forall|i: int, j: int|
        #![trigger chunks[i], chunks[j]]
        0 <= i < chunks.len() && 0 <= j < chunks.len() && i != j implies chunks[i].end
        < chunks[j].start || chunks[j].end < chunks[i].start by {
        if i < j {
            assert((i + 1) * size <= j * size) by (nonlinear_arith)
                requires
                    i + 1 <= j,
                    size >= 0,
            ;
        } else {
            assert((j + 1) * size <= i * size) by (nonlinear_arith)
                requires
                    j + 1 <= i,
                    size >= 0,
            ;
        }
    }
    assert forall|b: int| 0 <= b < total implies #[trigger] covered(chunks, b) by {
        lemma_even_bounds(total, n, 0);
        let q = b / size;
        assert(q * size <= b < (q + 1) * size && 0 <= q) by (nonlinear_arith)
            requires
                q == b / size,
                size >= 1,
                b >= 0,
        ;
        let i = if q < n - 1 { q } else { n - 1 };
        assert(i * size <= b) by (nonlinear_arith)
            requires
                i <= q,
                q * size <= b,
                size >= 1,
        ;
        assert(holds(chunks[i], b));
    }
}

/// How a download begins.
#[derive(Debug)]
pub struct StartPlan {
    /// The size with which the file is laid out; zero where it is not known.
    pub total_size: u64,
    /// The chunks in which it is downloaded; none where the file is empty.
    pub chunks: Vec<ChunkInfo>,
}

/// The chunk of a file whose size is not known.
pub open spec fn whole_file() -> ChunkInfo {
    ChunkInfo {
        id: 0,
        start: 0,
        end: u64::MAX,
        current: 0,
        status: ChunkStatus::Pending,
        retries: 0,
    }
}

/// The download is in one piece: the server cannot send parts of the file, or
/// was not asked.
pub open spec fn in_one_piece(config: ConfigView, probe: ProbeInfo) -> bool {
    !probes(config) || !probe.accept_ranges
}

/// The configuration under which the download runs: a download in one piece has
/// one worker and is not split.
pub open spec fn config_to_run(config: ConfigView, probe: ProbeInfo) -> ConfigView {
    if in_one_piece(config, probe) {
        ConfigView { max_threads: 1, dynamic_split: false, ..config }
    } else {
        config
    }
}

/// The size that the download goes by: that which the server said; zero where
/// it was not asked.
pub open spec fn size_to_run(config: ConfigView, probe: ProbeInfo) -> u64 {
    if probes(config) {
        probe.total_size
    } else {
        0
    }
}

/// The chunks in which the download begins: the file divided among the workers,
/// or all of it where its size was not asked for.
pub open spec fn chunks_to_run(config: ConfigView, probe: ProbeInfo) -> Seq<ChunkInfo> {
    if probes(config) {
        even_chunks(probe.total_size, config_to_run(config, probe).max_threads)
    } else {
        seq![whole_file()]
    }
}

/// There is a worker, where the file is to be divided among workers.
pub open spec fn can_be_divided(config: ConfigView, probe: ProbeInfo) -> bool {
    probes(config) && probe.accept_ranges && probe.total_size > 0 ==> config.max_threads > 0
}

/// Decides how the download of a file begins, after the server was asked for
/// its size. Where the server was not asked, `probe` is not looked at.
pub fn plan_start(config: &mut DownloadTaskConfig, probe: ProbeInfo) -> (plan: StartPlan)
    requires
        can_be_divided(old(config)@, probe),
    ensures
        final(config)@ == config_to_run(old(config)@, probe),
        plan.total_size == size_to_run(old(config)@, probe),
        plan.chunks@ == chunks_to_run(old(config)@, probe),
{
    let asked = needs_probe(config);
    if !asked || !probe.accept_ranges {
        config.max_threads = 1;
        config.dynamic_split = false;
    }
    if asked {
        StartPlan {
            total_size: probe.total_size,
            chunks: plan_chunks(probe.total_size, config.max_threads),
        }
    } else {
        let mut chunks: Vec<ChunkInfo> = Vec::new();
        chunks.push(ChunkInfo::new(0, 0, u64::MAX));
        assert(chunks@ =~= seq![whole_file()]);
        StartPlan { total_size: 0, chunks }
    }
}

/// A download begins with a division of the file; one whose size is not known
/// counts as having every offset there is.
pub proof fn law_start_divides_the_file(config: ConfigView, probe: ProbeInfo)
    requires
        can_be_divided(config, probe),
    ensures
        ({
            let chunks = chunks_to_run(config, probe);
            &&& tiles(
                chunks,
                if probes(config) {
                    probe.total_size as int
                } else {
                    u64::MAX + 1
                },
            )
            &&& started(chunks)
            &&& honest(chunks)
            &&& numbered(chunks)
            &&& in_one_piece(config, probe) ==> chunks.len() <= 1
        }),
{
    let chunks = chunks_to_run(config, probe);
    if probes(config) {
        law_plan_divides_the_file(probe.total_size, config_to_run(config, probe).max_threads);
    } else {
        assert forall|b: int| 0 <= b < u64::MAX + 1 implies #[trigger] covered(chunks, b) by {
            assert(holds(chunks[0], b));
        }
    }
}

// ---------------------------------------------------------------------------
// What the beginning of a task promises
// ---------------------------------------------------------------------------
/// A file is divided among all the workers, or among as many as it has bytes:
/// there are that many chunks, they follow one another from the first byte to the
/// last, and all are of one length, but for the last, which has what is over.
pub proof fn law_every_worker_gets_its_share(total: u64, workers: u32)
    requires
        total > 0,
        workers > 0,
    ensures
        ({
            let chunks = even_chunks(total, workers);
            let n = if total < workers {
                total as int
            } else {
                workers as int
            };
            &&& chunks.len() == n
            &&& chunks[0].start == 0
            &&& chunks[n - 1].end == total - 1
            &&& forall|i: int|
                0 <= i < n - 1 ==> (#[trigger] chunks[i]).end - chunks[i].start + 1 == total as int
                    / n
            &&& forall|i: int, j: int|
                0 <= i < n - 1 && j == i + 1 ==> (#[trigger] chunks[j]).start == (
                #[trigger] chunks[i]).end + 1
            &&& total as int / n <= chunks[n - 1].end - chunks[n - 1].start + 1 < total as int / n
                + n
            &&& forall|i: int|
                0 <= i < n ==> {
                    &&& (#[trigger] chunks[i]).id == i
                    &&& chunks[i].current == chunks[i].start
                    &&& chunks[i].retries == 0
                    &&& chunks[i].status == ChunkStatus::Pending
                }
        }),
{
    let chunks = even_chunks(total, workers);
    let n = sharers(total, workers);
    let m = n as int;
    let t = total as int;
    let size = t / m;
    assert forall|i: int| 0 <= i < m implies {
        &&& (#[trigger] chunks[i]).start == i * size
        &&& i < m - 1 ==> chunks[i].end == i * size + size - 1
        &&& i == m - 1 ==> chunks[i].end == t - 1
    } by {
        lemma_even_bounds(total, n, i);
    }
    assert forall|i: int, j: int| 0 <= i < m - 1 && j == i + 1 implies (#[trigger] chunks[j]).start
        == (#[trigger] chunks[i]).end + 1 by {
        lemma_even_bounds(total, n, i);
        assert(chunks[j].start == j * size);
    }
    lemma_even_bounds(total, n, m - 1);
    assert(chunks[0].start == 0 * size);
    assert(m * size <= t < m * size + m) by (nonlinear_arith)
        requires
            size == t / m,
            m >= 1,
            t >= 0,
    ;
    assert((m - 1) * size + size == m * size) by (nonlinear_arith);
    assert(chunks[m - 1].start == (m - 1) * size);
}

/// A file of no bytes needs no chunks.
pub proof fn law_nothing_is_not_divided(workers: u32)
    ensures
        even_chunks(0, workers).len() == 0,
{
}

/// The download of a file of which the server can send parts is divided among
/// the workers that the task is configured with. Where it cannot, one worker
/// downloads the file in one piece, which is not split. Where the server was not
/// asked, because the method is not GET, one worker downloads whatever comes, in
/// a chunk without end. Nothing else of the configuration changes.
pub proof fn law_downloads_begin_as_the_server_allows(config: ConfigView, probe: ProbeInfo)
    ensures
        ({
            let run = config_to_run(config, probe);
            let chunks = chunks_to_run(config, probe);
            let asked = config.method == "GET"@;
            &&& run == ConfigView {
                max_threads: run.max_threads,
                dynamic_split: run.dynamic_split,
                ..config
            }
            &&& asked && probe.accept_ranges ==> {
                &&& run.max_threads == config.max_threads
                &&& run.dynamic_split == config.dynamic_split
                &&& chunks == even_chunks(probe.total_size, config.max_threads)
            }
            &&& !asked || !probe.accept_ranges ==> run.max_threads == 1 && !run.dynamic_split
            &&& asked && !probe.accept_ranges ==> {
                &&& probe.total_size > 0 ==> chunks.len() == 1 && chunks[0].start == 0
                    && chunks[0].end == probe.total_size - 1
                &&& probe.total_size == 0 ==> chunks.len() == 0
            }
            &&& !asked ==> chunks.len() == 1 && chunks[0].start == 0 && chunks[0].current == 0
                && chunks[0].end == u64::MAX && chunks[0].status == ChunkStatus::Pending
                && chunks[0].id == 0 && chunks[0].retries == 0
            &&& size_to_run(config, probe) == (if asked {
                probe.total_size
            } else {
                0
            })
            &&& probes(config) == asked
        }),
{
    if config.method == "GET"@ && !probe.accept_ranges && probe.total_size > 0 {
        law_every_worker_gets_its_share(probe.total_size, 1);
    }
}

/// The connections of a task are as it is configured: with its user agent, its
/// proxy, its say on certificates, redirects and compression. Two tasks differ in
/// nothing else, and none has no user agent.
pub proof fn law_connections_are_as_configured(config: ConfigView, other: ConfigView)
    ensures
        ({
            let client = client_for(config);
            &&& config.user_agent matches Some(agent) ==> client.user_agent == agent
            &&& config.user_agent is None ==> client.user_agent == default_user_agent()
            &&& client.proxy == config.proxy
            &&& client.accept_invalid_certs == config.insecure
            &&& client.follow_redirects == config.location
            &&& client.compressed == config.compressed
            &&& client.http1_only
            &&& client.connect_timeout_secs == 10
            &&& client.timeout_secs == 5 * 60
            &&& client_for(other) == ClientView {
                user_agent: client_for(other).user_agent,
                compressed: other.compressed,
                accept_invalid_certs: other.insecure,
                follow_redirects: other.location,
                proxy: other.proxy,
                ..client
            }
        }),
{
}

/// The size is asked for with a HEAD request to the first link that carries the
/// user's credentials and headers and no body.
pub proof fn law_the_size_is_asked_for_as_the_file_is(config: ConfigView)
    requires
        config.urls.len() > 0,
    ensures
        ({
            let request = probe_request_for(config);
            &&& request.method == "HEAD"@
            &&& request.url == config.urls[0]
            &&& request.auth == credentials_in(config.auth)
            &&& request.headers == headers_in(config.headers)
            &&& request.body is None
        }),
{
}

/// An answer of the 200s tells the size that its length says, where that is a
/// number, and zero otherwise; parts can be asked for exactly where it says
/// "bytes". Any other answer ends the task, and says with which status: a redirect
/// is one of the 300s.
pub proof fn law_answers_about_the_size(
    status: u16,
    length: Option<Seq<char>>,
    ranges: Option<Seq<char>>,
    n: u64,
)
    ensures
        ({
            let r = probe_of(status, length, ranges);
            &&& r is Ok <==> 200 <= status <= 299
            &&& r matches Ok(info) ==> {
                &&& length is Some && reads_as(length->0, n as int) ==> info.total_size == n
                &&& length is None ==> info.total_size == 0
                &&& info.total_size == n && n > 0 ==> length is Some && (reads_as(
                    length->0,
                    n as int,
                ) || length->0.len() > 0 && length->0[0] == '+' && reads_as(
                    length->0.skip(1),
                    n as int,
                ))
                &&& info.accept_ranges <==> ranges == Some("bytes"@)
            }
            &&& 300 <= status <= 399 ==> r == Err::<ProbeInfo, TaskError>(
                TaskError::HeadRedirected(status),
            )
            &&& !(200 <= status <= 399) ==> r == Err::<ProbeInfo, TaskError>(
                TaskError::HeadRefused(status),
            )
        }),
{
    if let Some(text) = length {
        law_numbers_are_read(text, n);
    }
}

/// Every chunk of an earlier run is taken over with its bounds, its number and
/// what it has; it is completed where it has come to its end, and no chunk is left
/// with a worker. The size is taken over too, nothing else is, and the task goes
/// on exactly where the file is still there.
pub proof fn law_earlier_runs_are_taken_over(
    task: MetadataView,
    saved: MetadataView,
    file_exists: bool,
)
    ensures
        ({
            let (after, resume) = restored(task, saved, file_exists);
            &&& resume == file_exists
            &&& after.total_size == saved.total_size
            &&& after.id == task.id && after.config == task.config && after.status == task.status
            &&& after.chunks.len() == saved.chunks.len()
            &&& forall|i: int|
                0 <= i < saved.chunks.len() ==> {
                    let was = saved.chunks[i];
                    let is = #[trigger] after.chunks[i];
                    &&& is.id == was.id && is.start == was.start && is.end == was.end
                    &&& is.current == was.current && is.retries == was.retries
                    &&& was.end != u64::MAX && was.current > was.end ==> is.status
                        == ChunkStatus::Completed
                    &&& !(was.end != u64::MAX && was.current > was.end) ==> (is.status
                        == ChunkStatus::Completed <==> was.status == ChunkStatus::Completed)
                    &&& is.status != ChunkStatus::Downloading
                }
        }),
{
}

/// What is remembered of a task follows what it does: when it begins, it runs on
/// the file and the chunks that were planned; as it goes on, its chunks are noted,
/// and a task whose progress is written down no longer waits.
pub proof fn law_what_is_remembered_follows(
    task: MetadataView,
    total_size: u64,
    chunks: Seq<ChunkInfo>,
)
    ensures
        ({
            let after = begun(task, total_size, chunks);
            &&& after.chunks == chunks && after.total_size == total_size
            &&& after.status is Running
            &&& after.id == task.id && after.config == task.config
        }),
        ({
            let after = noted(task, chunks);
            &&& after.chunks == chunks && after.total_size == task.total_size
            &&& after.status == task.status
            &&& after.id == task.id && after.config == task.config
        }),
        ({
            let after = noted_for_saving(task, chunks);
            &&& after.chunks == chunks && after.total_size == task.total_size
            &&& task.status is Pending ==> after.status is Running
            &&& !(task.status is Pending) ==> after.status == task.status
            &&& after.id == task.id && after.config == task.config
        }),
{
}

/// The value of the options of connections is that of each of them.
pub proof fn law_values_of_options(options: ClientOptions)
    ensures
        options@.user_agent == options.user_agent@,
        options@.http1_only == options.http1_only,
        options@.compressed == options.compressed,
        options@.connect_timeout_secs == options.connect_timeout_secs,
        options@.timeout_secs == options.timeout_secs,
        options@.accept_invalid_certs == options.accept_invalid_certs,
        options@.follow_redirects == options.follow_redirects,
        options@.proxy == opt_text(options.proxy),
{
}

/// An answer is read by its status and its two headers; without one the task
/// ends, and says so.
pub proof fn law_answers_are_read_whole(reply: ProbeReply)
    ensures
        probe_in(None) == Err::<ProbeInfo, TaskError>(TaskError::HeadUnreachable),
        probe_in(Some(reply)) == probe_of(
            reply.status,
            opt_text(reply.content_length),
            opt_text(reply.accept_ranges),
        ),
        probe_in(Some(reply)) is Ok <==> 200 <= reply.status <= 299,
{
}

} // verus!
