//! The data of a download task: its configuration, its chunks, its state.
use crate::text::{copy_opt, copy_texts, opt_text, texts};
use vstd::prelude::*;

verus! {

/// How a file is to be downloaded.
#[derive(Debug)]
pub struct DownloadTaskConfig {
    /// The links; all of them serve the same file.
    pub urls: Vec<String>,
    /// Where the file goes.
    pub file_path: String,
    /// How many workers may run at once.
    pub max_threads: u32,
    /// A chunk is split only while more than twice this many bytes are left.
    pub min_chunk_size: u64,
    /// Whether idle workers take over part of a busy worker's chunk.
    pub dynamic_split: bool,
    /// The speed limit, in bytes per second.
    pub limit_bps: Option<u64>,
    pub user_agent: Option<String>,
    pub proxy: Option<String>,
    /// Extra header lines, each "Key: Value".
    pub headers: Vec<String>,
    /// The expected digest of the file, in hexadecimal.
    pub checksum: Option<String>,
    /// How often one chunk may fail before the task fails.
    pub max_retries: u32,
    /// Basic credentials, "user:password".
    pub auth: Option<String>,
    pub method: String,
    pub body: Option<String>,
    /// Whether invalid certificates are accepted.
    pub insecure: bool,
    /// Whether redirects are followed.
    pub location: bool,
    /// Whether compressed replies are asked for.
    pub compressed: bool,
}

/// The value of a [`DownloadTaskConfig`].
pub struct ConfigView {
    pub urls: Seq<Seq<char>>,
    pub file_path: Seq<char>,
    pub max_threads: u32,
    pub min_chunk_size: u64,
    pub dynamic_split: bool,
    pub limit_bps: Option<u64>,
    pub user_agent: Option<Seq<char>>,
    pub proxy: Option<Seq<char>>,
    pub headers: Seq<Seq<char>>,
    pub checksum: Option<Seq<char>>,
    pub max_retries: u32,
    pub auth: Option<Seq<char>>,
    pub method: Seq<char>,
    pub body: Option<Seq<char>>,
    pub insecure: bool,
    pub location: bool,
    pub compressed: bool,
}

impl View for DownloadTaskConfig {
    type V = ConfigView;

    open spec fn view(&self) -> ConfigView {
        ConfigView {
            urls: texts(self.urls@),
            file_path: self.file_path@,
            max_threads: self.max_threads,
            min_chunk_size: self.min_chunk_size,
            dynamic_split: self.dynamic_split,
            limit_bps: self.limit_bps,
            user_agent: opt_text(self.user_agent),
            proxy: opt_text(self.proxy),
            headers: texts(self.headers@),
            checksum: opt_text(self.checksum),
            max_retries: self.max_retries,
            auth: opt_text(self.auth),
            method: self.method@,
            body: opt_text(self.body),
            insecure: self.insecure,
            location: self.location,
            compressed: self.compressed,
        }
    }
}

impl Clone for DownloadTaskConfig {
    fn clone(&self) -> (copy: Self)
        ensures
            copy@ == self@,
    {
        DownloadTaskConfig {
            urls: copy_texts(&self.urls),
            file_path: self.file_path.clone(),
            max_threads: self.max_threads,
            min_chunk_size: self.min_chunk_size,
            dynamic_split: self.dynamic_split,
            limit_bps: self.limit_bps,
            user_agent: copy_opt(&self.user_agent),
            proxy: copy_opt(&self.proxy),
            headers: copy_texts(&self.headers),
            checksum: copy_opt(&self.checksum),
            max_retries: self.max_retries,
            auth: copy_opt(&self.auth),
            method: self.method.clone(),
            body: copy_opt(&self.body),
            insecure: self.insecure,
            location: self.location,
            compressed: self.compressed,
        }
    }
}

/// The request method where none is given.
pub fn default_method() -> (method: String)
    ensures
        method@ == "GET"@,
{
    "GET".to_owned()
}

/// How far a task has come.
#[derive(Debug)]
pub enum TaskStatus {
    Pending,
    Running,
    Paused,
    Completed,
    Error(String),
}

/// The value of a [`TaskStatus`].
pub enum TaskStatusView {
    Pending,
    Running,
    Paused,
    Completed,
    Error(Seq<char>),
}

impl View for TaskStatus {
    type V = TaskStatusView;

    open spec fn view(&self) -> TaskStatusView {
        match self {
            TaskStatus::Pending => TaskStatusView::Pending,
            TaskStatus::Running => TaskStatusView::Running,
            TaskStatus::Paused => TaskStatusView::Paused,
            TaskStatus::Completed => TaskStatusView::Completed,
            TaskStatus::Error(message) => TaskStatusView::Error(message@),
        }
    }
}

impl Clone for TaskStatus {
    fn clone(&self) -> (copy: Self)
        ensures
            copy@ == self@,
    {
        match self {
            TaskStatus::Pending => TaskStatus::Pending,
            TaskStatus::Running => TaskStatus::Running,
            TaskStatus::Paused => TaskStatus::Paused,
            TaskStatus::Completed => TaskStatus::Completed,
            TaskStatus::Error(message) => TaskStatus::Error(message.clone()),
        }
    }
}

impl PartialEq for TaskStatus {
    fn eq(&self, other: &Self) -> (same: bool) {
        match (self, other) {
            (TaskStatus::Pending, TaskStatus::Pending) => true,
            (TaskStatus::Running, TaskStatus::Running) => true,
            (TaskStatus::Paused, TaskStatus::Paused) => true,
            (TaskStatus::Completed, TaskStatus::Completed) => true,
            (TaskStatus::Error(a), TaskStatus::Error(b)) => *a == *b,
            _ => false,
        }
    }
}

impl vstd::std_specs::cmp::PartialEqSpecImpl for TaskStatus {
    open spec fn obeys_eq_spec() -> bool {
        true
    }

    open spec fn eq_spec(&self, other: &Self) -> bool {
        self@ == other@
    }
}

/// What a chunk is waiting for.
#[derive(Debug, Clone, Copy, PartialEq, Eq, Structural)]
pub enum ChunkStatus {
    Pending,
    Downloading,
    Completed,
}

/// A stretch of the file that one worker downloads at a time.
#[derive(Debug, Clone, Copy, PartialEq, Eq, Structural)]
pub struct ChunkInfo {
    pub id: usize,
    /// The first byte.
    pub start: u64,
    /// The last byte; `u64::MAX` where the size of the file is not known.
    pub end: u64,
    /// The next byte to download.
    pub current: u64,
    pub status: ChunkStatus,
    /// How often the chunk has failed.
    pub retries: u32,
}

impl ChunkInfo {
    /// The end of the chunk is not known.
    pub open spec fn open_ended(self) -> bool {
        self.end == u64::MAX
    }

    /// How many bytes are still to come.
    pub open spec fn left(self) -> nat {
        if self.open_ended() {
            u64::MAX as nat
        } else if self.current > self.end {
            0
        } else {
            (self.end - self.current + 1) as nat
        }
    }

    /// How many bytes the chunk has, of which one is counted where it is empty.
    pub open spec fn size(self) -> int {
        if self.open_ended() {
            u64::MAX as int
        } else if self.end < self.start {
            1
        } else {
            self.end - self.start + 1
        }
    }

    /// The same chunk, with another status.
    pub open spec fn with_status(self, status: ChunkStatus) -> ChunkInfo {
        ChunkInfo { status, ..self }
    }

    /// A chunk of which nothing has been downloaded.
    pub fn new(id: usize, start: u64, end: u64) -> (chunk: Self)
        ensures
            chunk == (ChunkInfo {
                id,
                start,
                end,
                current: start,
                status: ChunkStatus::Pending,
                retries: 0,
            }),
    {
        ChunkInfo { id, start, end, current: start, status: ChunkStatus::Pending, retries: 0 }
    }

    /// The number of bytes of the chunk; `u64::MAX` where its end is not known.
    pub fn len(&self) -> (n: u64)
        ensures
            n == self.size(),
    {
        if self.end == u64::MAX {
            return u64::MAX;
        }
        self.end.saturating_sub(self.start).saturating_add(1)
    }

    /// The number of bytes still to come; `u64::MAX` where the end of the
    /// chunk is not known.
    pub fn remaining(&self) -> (n: u64)
        ensures
            n == self.left(),
    {
        if self.end == u64::MAX {
            return u64::MAX;
        }
        if self.current > self.end {
            return 0;
        }
        self.end.saturating_sub(self.current).saturating_add(1)
    }
}

/// A chunk with a known end has as many bytes left as lie between the next to
/// download and its last, both of them counted: of a chunk that has not begun,
/// all, and each byte that is downloaded is one less. A chunk without a known end
/// always has more.
pub proof fn law_what_is_left_of_a_chunk(chunk: ChunkInfo)
    ensures
        chunk.end != u64::MAX && chunk.current <= chunk.end ==> chunk.left() + chunk.current
            == chunk.end + 1,
        chunk.end != u64::MAX && chunk.current > chunk.end ==> chunk.left() == 0,
        chunk.end == u64::MAX ==> chunk.left() == u64::MAX && chunk.size() == u64::MAX,
        chunk.current == chunk.start && chunk.start <= chunk.end ==> chunk.left() == chunk.size(),
        chunk.size() >= 1,
        chunk.end < chunk.start ==> chunk.size() == 1,
        forall|status: ChunkStatus|
            #![trigger chunk.with_status(status)]
            chunk.with_status(status).status == status && chunk.with_status(status).left()
                == chunk.left() && chunk.with_status(status).id == chunk.id && chunk.with_status(
                status,
            ).start == chunk.start && chunk.with_status(status).end == chunk.end
                && chunk.with_status(status).current == chunk.current && chunk.with_status(
                status,
            ).retries == chunk.retries,
{
}

/// A copy of a list of chunks.
pub(crate) fn copy_chunks(chunks: &Vec<ChunkInfo>) -> (copy: Vec<ChunkInfo>)
    ensures
        copy@ == chunks@,
{
    let mut copy: Vec<ChunkInfo> = Vec::new();
    let mut i: usize = 0;
    while i < chunks.len()
        invariant
            i <= chunks.len(),
            copy@ == chunks@.take(i as int),
        decreases chunks.len() - i,
    {
        copy.push(chunks[i]);
        assert(chunks@.take(i + 1) == chunks@.take(i as int).push(chunks@[i as int]));
        i += 1;
    }
    assert(chunks@.take(i as int) == chunks@);
    copy
}

/// What is remembered of a task, in memory and beside the file.
#[derive(Debug)]
pub struct TaskMetadata {
    pub id: u128,
    pub config: DownloadTaskConfig,
    /// The size of the file; zero where it is not known.
    pub total_size: u64,
    pub chunks: Vec<ChunkInfo>,
    pub status: TaskStatus,
}

/// The value of a [`TaskMetadata`].
pub struct MetadataView {
    pub id: u128,
    pub config: ConfigView,
    pub total_size: u64,
    pub chunks: Seq<ChunkInfo>,
    pub status: TaskStatusView,
}

impl View for TaskMetadata {
    type V = MetadataView;

    open spec fn view(&self) -> MetadataView {
        MetadataView {
            id: self.id,
            config: self.config@,
            total_size: self.total_size,
            chunks: self.chunks@,
            status: self.status@,
        }
    }
}

impl Clone for TaskMetadata {
    fn clone(&self) -> (copy: Self)
        ensures
            copy@ == self@,
    {
        TaskMetadata {
            id: self.id,
            config: self.config.clone(),
            total_size: self.total_size,
            chunks: copy_chunks(&self.chunks),
            status: self.status.clone(),
        }
    }
}

/// The value of a configuration is that of each of its fields.
pub proof fn law_values_of_configurations(config: DownloadTaskConfig)
    ensures
        config@.urls == texts(config.urls@),
        config@.file_path == config.file_path@,
        config@.max_threads == config.max_threads,
        config@.min_chunk_size == config.min_chunk_size,
        config@.dynamic_split == config.dynamic_split,
        config@.limit_bps == config.limit_bps,
        config@.user_agent == opt_text(config.user_agent),
        config@.proxy == opt_text(config.proxy),
        config@.headers == texts(config.headers@),
        config@.checksum == opt_text(config.checksum),
        config@.max_retries == config.max_retries,
        config@.auth == opt_text(config.auth),
        config@.method == config.method@,
        config@.body == opt_text(config.body),
        config@.insecure == config.insecure,
        config@.location == config.location,
        config@.compressed == config.compressed,
{
}

/// The value of what is remembered of a task is that of each of its fields; that
/// of a status tells which status it is, and with which message.
pub proof fn law_values_of_metadata(metadata: TaskMetadata)
    ensures
        metadata@.id == metadata.id,
        metadata@.config == metadata.config@,
        metadata@.total_size == metadata.total_size,
        metadata@.chunks == metadata.chunks@,
        metadata@.status == metadata.status@,
        metadata.status@ is Pending <==> metadata.status is Pending,
        metadata.status@ is Running <==> metadata.status is Running,
        metadata.status@ is Paused <==> metadata.status is Paused,
        metadata.status@ is Completed <==> metadata.status is Completed,
        metadata.status matches TaskStatus::Error(message) ==> metadata.status@
            == TaskStatusView::Error(message@),
{
}

/// Two statuses count as equal exactly where they are the same, with the same
/// message where there is one.
pub proof fn law_equal_statuses(a: TaskStatus, b: TaskStatus)
    ensures
        vstd::std_specs::cmp::PartialEqSpec::eq_spec(&a, &b) <==> a@ == b@,
{
}

} // verus!
