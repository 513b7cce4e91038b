//! A running task: which worker gets which chunk, and what follows from what
//! the workers report.
use crate::checksum::FinalCheck;
use crate::errors::TaskError;
use crate::headers::{credentials_in, headers_in, HeaderView};
use crate::scheduler::{any_pending, any_stealable, handed_out, stealable, Scheduler};
use crate::text::{contains, copy_opt, copy_texts, has_part, law_beginnings_and_parts};
use crate::tiling::{
    all_completed, covered, holds, honest, law_downloading_keeps_tiling,
    law_handing_out_keeps_numbers, law_handing_out_keeps_tiling, numbered, started, tiles,
};
use crate::types::{ChunkInfo, ChunkStatus, ConfigView, DownloadTaskConfig};
use crate::worker::{
    asks_for, is_method_name, law_a_request_asks_for_what_is_left,
    law_a_request_carries_what_the_worker_has, step_in_range, stream_step, ChunkStream,
    StreamAction, StreamEvent, Worker, WorkerView,
};
use vstd::prelude::*;

verus! {

/// A running task.
#[derive(Debug)]
pub struct TaskRun {
    pub config: DownloadTaskConfig,
    pub scheduler: Scheduler,
    /// How many workers are at work.
    pub active_workers: u32,
    /// How many times work has been given out.
    pub url_index: usize,
}

/// A piece of work for one worker.
#[derive(Debug)]
pub struct Assignment {
    /// The position of the chunk.
    pub position: usize,
    /// The number of the chunk.
    pub chunk_id: usize,
    /// The link to ask.
    pub url: String,
    pub worker: Worker,
}

/// The configuration of a running task, with what may change while it runs
/// taken from the task's own.
pub open spec fn synced(config: ConfigView, live: ConfigView) -> ConfigView {
    ConfigView {
        max_threads: live.max_threads,
        user_agent: live.user_agent,
        headers: live.headers,
        auth: live.auth,
        checksum: live.checksum,
        max_retries: live.max_retries,
        ..config
    }
}

/// The worker that is numbered `id` and sends what the configuration says.
pub open spec fn worker_for(config: ConfigView, id: u32) -> WorkerView {
    WorkerView {
        id: id as usize,
        file_path: config.file_path,
        user_agent: config.user_agent,
        headers: config.headers,
        auth: config.auth,
        method: config.method,
        body: config.body,
    }
}

/// The position of the work, where there is work.
pub open spec fn position_in(work: Option<Assignment>) -> Option<usize> {
    match work {
        Some(work) => Some(work.position),
        None => None,
    }
}

/// There is work to give out: a chunk waits, or may be split.
pub open spec fn has_work(scheduler: Scheduler) -> bool {
    ||| any_pending(scheduler.chunks@)
    ||| scheduler.dynamic_split && any_stealable(scheduler.chunks@, scheduler.min_chunk_size)
}

/// Chunk `i` is the first with the number `id`.
pub open spec fn is_first_with_id(chunks: Seq<ChunkInfo>, id: usize, i: int) -> bool {
    &&& 0 <= i < chunks.len()
    &&& chunks[i].id == id
    &&& forall|j: int| 0 <= j < i ==> (#[trigger] chunks[j]).id != id
}

/// The message speaks of a redirect in the words that are used where the size is
/// asked for. The workers' own messages use others: of theirs, none does.
pub open spec fn tells_of_redirect(message: Seq<char>) -> bool {
    has_part(message, "遇到重定向"@)
}

/// A chunk after one more failure: it waits again, unless it has now failed too
/// often.
pub open spec fn after_failure(chunk: ChunkInfo, max_retries: u32) -> ChunkInfo {
    ChunkInfo {
        retries: (chunk.retries + 1) as u32,
        status: if chunk.retries + 1 > max_retries {
            chunk.status
        } else {
            ChunkStatus::Pending
        },
        ..chunk
    }
}

/// What a request for work leads to. While fewer workers are at work than may be,
/// a chunk is handed out where there is one; its worker sends what the
/// configuration says, to the link whose turn it is.
pub open spec fn assigned(before: TaskRun, after: TaskRun, work: Option<Assignment>) -> bool {
    &&& after.config == before.config
    &&& if before.active_workers < before.config.max_threads {
        handed_out(before.scheduler, after.scheduler, position_in(work))
    } else {
        work is None && after.scheduler == before.scheduler
    }
    &&& work is Some <==> before.active_workers < before.config.max_threads && has_work(
        before.scheduler,
    )
    &&& match work {
        Some(work) => {
            let config = before.config@;
            &&& work.position < after.scheduler.chunks@.len()
            &&& work.chunk_id == after.scheduler.chunks@[work.position as int].id
            &&& work.url@ == config.urls[before.url_index as int % config.urls.len() as int]
            &&& work.worker@ == worker_for(config, before.active_workers)
            &&& after.active_workers == before.active_workers + 1
            &&& after.active_workers <= before.config.max_threads
            &&& after.url_index == before.url_index + 1
        },
        None => {
            &&& after.active_workers == before.active_workers
            &&& after.url_index == before.url_index
        },
    }
}

/// A task that begins with the given chunks.
pub open spec fn fresh(config: DownloadTaskConfig, chunks: Vec<ChunkInfo>) -> TaskRun {
    TaskRun {
        config,
        scheduler: Scheduler {
            chunks,
            min_chunk_size: config.min_chunk_size,
            dynamic_split: config.dynamic_split,
        },
        active_workers: 0,
        url_index: 0,
    }
}

/// A chunk was replaced, and nothing else changed.
pub open spec fn chunk_replaced(
    before: TaskRun,
    after: TaskRun,
    position: int,
    chunk: ChunkInfo,
) -> bool {
    &&& after.scheduler.chunks@ == before.scheduler.chunks@.update(position, chunk)
    &&& after.scheduler.min_chunk_size == before.scheduler.min_chunk_size
    &&& after.scheduler.dynamic_split == before.scheduler.dynamic_split
    &&& after.config == before.config
    &&& after.active_workers == before.active_workers
    &&& after.url_index == before.url_index
}

/// One worker less is at work, and the configuration and the turn of the links
/// are as they were.
pub open spec fn worker_gone(before: TaskRun, after: TaskRun) -> bool {
    &&& after.active_workers == before.active_workers - 1
    &&& after.config == before.config
    &&& after.url_index == before.url_index
}

/// The download is done: every chunk is completed, and no worker is at work.
pub open spec fn done(run: TaskRun) -> bool {
    all_completed(run.scheduler.chunks@) && run.active_workers == 0
}

/// The check with which a run ends, once it is done.
pub open spec fn ends_with_check(run: TaskRun, check: Option<FinalCheck>) -> bool {
    match check {
        Some(check) => {
            &&& done(run)
            &&& check.checksum() == run.config@.checksum
            &&& check.taken() == Seq::<u8>::empty()
        },
        None => !done(run),
    }
}

impl TaskRun {
    /// A task that begins with the given chunks.
    pub fn new(config: DownloadTaskConfig, chunks: Vec<ChunkInfo>) -> (run: Self)
        ensures
            run == fresh(config, chunks),
    {
        let scheduler = Scheduler::new(chunks, config.min_chunk_size, config.dynamic_split);
        TaskRun { config, scheduler, active_workers: 0, url_index: 0 }
    }

    /// Takes over what was changed in the configuration of the task. The proxy
    /// and the speed limit are not among it: connections are made once.
    pub fn sync_config(&mut self, live: &DownloadTaskConfig)
        ensures
            final(self).config@ == synced(old(self).config@, live@),
            final(self).scheduler == old(self).scheduler,
            final(self).active_workers == old(self).active_workers,
            final(self).url_index == old(self).url_index,
    {
        self.config.max_threads = live.max_threads;
        self.config.user_agent = copy_opt(&live.user_agent);
        self.config.headers = copy_texts(&live.headers);
        self.config.auth = copy_opt(&live.auth);
        self.config.checksum = copy_opt(&live.checksum);
        self.config.max_retries = live.max_retries;
    }

    /// Whether the download is done: every chunk is completed, and no worker is
    /// at work.
    pub fn is_finished(&self) -> (finished: bool)
        ensures
            finished == done(*self),
    {
        let mut i: usize = 0;
        while i < self.scheduler.chunks.len()
            invariant
                i <= self.scheduler.chunks.len(),
                forall|j: int|
                    0 <= j < i ==> (#[trigger] self.scheduler.chunks@[j]).status
                        == ChunkStatus::Completed,
            decreases self.scheduler.chunks.len() - i,
        {
            if self.scheduler.chunks[i].status != ChunkStatus::Completed {
                assert(self.scheduler.chunks@[i as int].status != ChunkStatus::Completed);
                return false;
            }
            i += 1;
        }
        self.active_workers == 0
    }

    /// The check of the file, once the download is done: only then can the task
    /// end. The digest that is expected is the one that the task is configured
    /// with.
    pub fn end_check(&self) -> (check: Option<FinalCheck>)
        ensures
            ends_with_check(*self, check),
    {
        if self.is_finished() {
            Some(FinalCheck::start(&self.config.checksum))
        } else {
            None
        }
    }

    /// The next piece of work, while fewer workers are at work than may be and
    /// there is work to give out. The links take turns.
    pub fn next_assignment(&mut self) -> (work: Option<Assignment>)
        requires
            old(self).active_workers < old(self).config.max_threads ==> {
                &&& old(self).scheduler.ready()
                &&& has_work(old(self).scheduler) ==> old(self).config.urls@.len() > 0 && old(
                    self,
                ).url_index < usize::MAX
            },
        ensures
            assigned(*old(self), *final(self), work),
    {
        if self.active_workers >= self.config.max_threads {
            return None;
        }
        let ghost before = self.scheduler;
        match self.scheduler.get_next_chunk() {
            Some(position) => {
                proof {
                    crate::tiling::law_one_worker_per_chunk(
                        before,
                        self.scheduler,
                        Some(position),
                    );
                }
                let chunk_id: usize = self.scheduler.chunks[position].id;
                let turn: usize = self.url_index % self.config.urls.len();
                let url = self.config.urls[turn].clone();
                self.url_index = self.url_index + 1;
                let worker = Worker::new(
                    self.active_workers as usize,
                    self.config.file_path.clone(),
                    copy_opt(&self.config.user_agent),
                    copy_texts(&self.config.headers),
                    copy_opt(&self.config.auth),
                    self.config.method.clone(),
                    copy_opt(&self.config.body),
                );
                self.active_workers = self.active_workers + 1;
                Some(Assignment { position, chunk_id, url, worker })
            },
            None => None,
        }
    }

    /// One step of the download of the chunk at `position`.
    pub fn on_stream_event(
        &mut self,
        position: usize,
        stream: &mut ChunkStream,
        event: StreamEvent,
    ) -> (action: StreamAction)
        requires
            position < old(self).scheduler.chunks@.len(),
            step_in_range(*old(stream), old(self).scheduler.chunks@[position as int], event),
        ensures
            ({
                let chunk = old(self).scheduler.chunks@[position as int];
                let step = stream_step(*old(stream), chunk, event);
                &&& *final(stream) == step.0
                &&& chunk_replaced(*old(self), *final(self), position as int, step.1)
                &&& action == step.2
            }),
    {
        let mut chunk = self.scheduler.chunks[position];
        let action = Worker::download_chunk(stream, &mut chunk, event);
        self.scheduler.chunks.set(position, chunk);
        action
    }

    /// A worker came to an end, with its chunk in order or without a word.
    pub fn on_worker_done(&mut self)
        requires
            old(self).active_workers > 0,
        ensures
            worker_gone(*old(self), *final(self)),
            final(self).scheduler == old(self).scheduler,
    {
        self.active_workers = self.active_workers - 1;
    }

    /// A worker failed on the chunk numbered `chunk_id`. The chunk waits again,
    /// unless it has failed too often, or the message speaks of a redirect as
    /// [`tells_of_redirect`] says: then the task fails. A worker that is redirected
    /// reports it in other words, so its chunk is tried again like any other.
    pub fn on_worker_failed(&mut self, chunk_id: usize, message: &str) -> (r: Result<
        (),
        TaskError,
    >)
        requires
            old(self).active_workers > 0,
            !tells_of_redirect(message@) ==> forall|i: int|
                is_first_with_id(old(self).scheduler.chunks@, chunk_id, i) ==> (#[trigger] old(
                    self,
                ).scheduler.chunks@[i]).retries < u32::MAX,
        ensures
            worker_gone(*old(self), *final(self)),
            final(self).scheduler.min_chunk_size == old(self).scheduler.min_chunk_size,
            final(self).scheduler.dynamic_split == old(self).scheduler.dynamic_split,
            failure_noted(
                old(self).scheduler.chunks@,
                final(self).scheduler.chunks@,
                old(self).config.max_retries,
                chunk_id,
                message@,
                r,
            ),
    {
        self.active_workers = self.active_workers - 1;
        if contains(message, "遇到重定向") {
            return Err(TaskError::Redirected);
        }
        let n: usize = self.scheduler.chunks.len();
        let mut i: usize = 0;
        while i < n
            invariant
                n == self.scheduler.chunks@.len(),
                i <= n,
                self.scheduler == old(self).scheduler,
                self.config == old(self).config,
                self.url_index == old(self).url_index,
                self.active_workers == old(self).active_workers - 1,
                !tells_of_redirect(message@),
                forall|j: int|
                    is_first_with_id(old(self).scheduler.chunks@, chunk_id, j) ==> (
                    #[trigger] old(self).scheduler.chunks@[j]).retries < u32::MAX,
                forall|j: int| 0 <= j < i ==> (#[trigger] self.scheduler.chunks@[j]).id != chunk_id,
            decreases n - i,
        {
            let mut chunk = self.scheduler.chunks[i];
            if chunk.id == chunk_id {
                proof {
                    let chunks = old(self).scheduler.chunks@;
                    assert(is_first_with_id(chunks, chunk_id, i as int));
                    assert(chunks[i as int].retries < u32::MAX);
                    assert forall|j: int| is_first_with_id(chunks, chunk_id, j) implies j == i by {
                        assert(chunks[j].id == chunk_id);
                        assert(chunks[i as int].id == chunk_id);
                    }
                }
                chunk.retries = chunk.retries + 1;
                if chunk.retries > self.config.max_retries {
                    self.scheduler.chunks.set(i, chunk);
                    return Err(TaskError::ChunkFailed { chunk_id, retries: chunk.retries });
                }
                chunk.status = ChunkStatus::Pending;
                self.scheduler.chunks.set(i, chunk);
                return Ok(());
            }
            i += 1;
        }
        assert forall|j: int| !is_first_with_id(self.scheduler.chunks@, chunk_id, j) by {
            if 0 <= j < n {
                assert(self.scheduler.chunks@[j].id != chunk_id);
            }
        }
        Ok(())
    }

    /// For how long a running task waits before it looks around again, in
    /// milliseconds: workers are waited for longer than work is.
    pub fn wait_millis(&self) -> (millis: u64)
        ensures
            millis == millis_to_wait(self.active_workers),
    {
        if self.active_workers > 0 {
            500
        } else {
            100
        }
    }
}

/// For how long a running task waits before it looks around again, in
/// milliseconds.
pub open spec fn millis_to_wait(active_workers: u32) -> int {
    if active_workers > 0 {
        500
    } else {
        100
    }
}

/// What the failure of a worker on the chunk numbered `id` leads to.
pub open spec fn failure_noted(
    before: Seq<ChunkInfo>,
    after: Seq<ChunkInfo>,
    max_retries: u32,
    id: usize,
    message: Seq<char>,
    r: Result<(), TaskError>,
) -> bool {
    if tells_of_redirect(message) {
        r == Err::<(), TaskError>(TaskError::Redirected) && after == before
    } else if exists|i: int| is_first_with_id(before, id, i) {
        forall|i: int| #[trigger]
            is_first_with_id(before, id, i) ==> {
                &&& after == before.update(i, after_failure(before[i], max_retries))
                &&& r == (if before[i].retries + 1 > max_retries {
                    Err(
                        TaskError::ChunkFailed {
                            chunk_id: id,
                            retries: (before[i].retries + 1) as u32,
                        },
                    )
                } else {
                    Ok(())
                })
            }
    } else {
        r == Ok::<(), TaskError>(()) && after == before
    }
}

/// What is remembered of a task is to be written beside the file again when
/// more than two seconds have passed since it last was.
pub open spec fn is_save_due(elapsed_secs: u64, elapsed_nanos: u32) -> bool {
    elapsed_secs > 2 || elapsed_secs == 2 && elapsed_nanos > 0
}

/// What is remembered of a task is to be written beside the file again when
/// more than two seconds have passed since it last was.
pub fn save_due(elapsed_secs: u64, elapsed_nanos: u32) -> (due: bool)
    ensures
        due == is_save_due(elapsed_secs, elapsed_nanos),
{
    elapsed_secs > 2 || (elapsed_secs == 2 && elapsed_nanos > 0)
}

// ---------------------------------------------------------------------------
// What holds of a running task
// ---------------------------------------------------------------------------
/// The chunks are a division of the first `total` bytes of the file, numbered
/// in order, and count as completed only when they are.
pub open spec fn sound(chunks: Seq<ChunkInfo>, total: int) -> bool {
    tiles(chunks, total) && started(chunks) && honest(chunks) && numbered(chunks)
}

/// Giving out work keeps the chunks sound.
pub proof fn law_assigning_keeps_sound(
    before: Scheduler,
    after: Scheduler,
    next: Option<usize>,
    total: int,
)
    requires
        handed_out(before, after, next),
        before.ready(),
        sound(before.chunks@, total),
    ensures
        sound(after.chunks@, total),
{
    law_handing_out_keeps_tiling(before, after, next, total);
    law_handing_out_keeps_numbers(before, after, next);
}

/// Whatever happens to a worker that began where its chunk stood, the chunks
/// stay sound.
pub proof fn law_downloading_keeps_sound(
    chunks: Seq<ChunkInfo>,
    total: int,
    i: int,
    stream: ChunkStream,
    event: StreamEvent,
)
    requires
        sound(chunks, total),
        0 <= i < chunks.len(),
        chunks[i].start <= stream.offset,
        step_in_range(stream, chunks[i], event),
    ensures
        sound(chunks.update(i, stream_step(stream, chunks[i], event).1), total),
        chunks[i].start <= stream_step(stream, chunks[i], event).0.offset,
{
    law_downloading_keeps_tiling(chunks, total, i, stream, event);
}

/// The failure of a worker keeps the chunks sound, and loses nothing that has
/// been downloaded.
pub proof fn law_failing_keeps_sound(
    before: Seq<ChunkInfo>,
    after: Seq<ChunkInfo>,
    max_retries: u32,
    id: usize,
    message: Seq<char>,
    r: Result<(), TaskError>,
    total: int,
)
    requires
        failure_noted(before, after, max_retries, id, message, r),
        sound(before, total),
    ensures
        sound(after, total),
        after.len() == before.len(),
        forall|i: int|
            0 <= i < before.len() ==> (#[trigger] after[i]).current == before[i].current,
{
    if !tells_of_redirect(message) && exists|i: int| is_first_with_id(before, id, i) {
        let i = choose|i: int| is_first_with_id(before, id, i);
        assert(after == before.update(i, after_failure(before[i], max_retries)));
        assert forall|b: int| 0 <= b < total implies #[trigger] covered(after, b) by {
            assert(covered(before, b));
            let k = choose|k: int| 0 <= k < before.len() && holds(#[trigger] before[k], b);
            assert(holds(after[k], b));
        }
    }
}

/// A chunk is tried again after each of its first `max_retries` failures; the
/// failure after that ends the task.
pub proof fn law_retries_are_bounded(
    before: Seq<ChunkInfo>,
    after: Seq<ChunkInfo>,
    max_retries: u32,
    id: usize,
    message: Seq<char>,
    r: Result<(), TaskError>,
    i: int,
)
    requires
        failure_noted(before, after, max_retries, id, message, r),
        is_first_with_id(before, id, i),
        before[i].retries < u32::MAX,
        !tells_of_redirect(message),
    ensures
        after[i].retries == before[i].retries + 1,
        r is Ok <==> before[i].retries < max_retries,
        r is Ok ==> after[i].status == ChunkStatus::Pending,
{
}

/// The links take turns: as many pieces of work later as there are links, the
/// same link is asked again, and not before.
pub proof fn law_links_take_turns(count: nat, turn: int, later: int)
    requires
        count > 0,
        turn >= 0,
        0 < later <= count,
    ensures
        (turn + later) % count as int == turn % count as int <==> later == count,
{
    let n = count as int;
    assert((turn + n) % n == turn % n) by (nonlinear_arith)
        requires
            n > 0,
    ;
    if later < n {
        let q = turn / n;
        let m = turn % n;
        assert(turn == q * n + m && 0 <= m < n) by (nonlinear_arith)
            requires
                q == turn / n,
                m == turn % n,
                n > 0,
        ;
        if m + later < n {
            assert((turn + later) % n == m + later) by (nonlinear_arith)
                requires
                    turn == q * n + m,
                    0 <= m + later < n,
            ;
        } else {
            assert((turn + later) % n == m + later - n) by (nonlinear_arith)
                requires
                    turn == q * n + m,
                    0 <= m + later - n < n,
            ;
        }
    }
}

// ---------------------------------------------------------------------------
// What is given out
// ---------------------------------------------------------------------------
/// Whatever chunk a worker is given, its request goes to the link that it was
/// given and carries what the run is configured with: the credentials, the body,
/// the method, the user agent and, behind all others, the headers. For a chunk
/// with a known end, it asks for the bytes that the chunk lacks.
pub proof fn law_work_is_done_as_configured(
    before: TaskRun,
    after: TaskRun,
    work: Assignment,
    chunk: ChunkInfo,
)
    requires
        assigned(before, after, Some(work)),
    ensures
        ({
            let config = before.config@;
            let request = work.worker@.request_for(chunk, work.url@);
            let theirs = headers_in(config.headers);
            let own = request.headers.len() - theirs.len();
            &&& request.url == work.url@
            &&& request.auth == credentials_in(config.auth)
            &&& request.body == config.body
            &&& is_method_name(config.method) ==> request.method == config.method
            &&& !is_method_name(config.method) ==> request.method == "GET"@
            &&& request.headers.skip(own) == theirs
            &&& config.user_agent matches Some(agent) ==> request.headers[own - 1] == HeaderView {
                name: "user-agent"@,
                value: agent,
            }
            &&& work.worker@.file_path == config.file_path
            &&& work.worker@.id == before.active_workers
            &&& chunk.end != u64::MAX && chunk.current <= chunk.end ==> exists|i: int|
                0 <= i < own && (#[trigger] request.headers[i]).name == "range"@ && asks_for(
                    request.headers[i].value,
                    chunk.current as int,
                    chunk.end as int,
                )
        }),
{
    law_a_request_carries_what_the_worker_has(work.worker@, chunk, work.url@);
    if chunk.end != u64::MAX && chunk.current <= chunk.end {
        let i = law_a_request_asks_for_what_is_left(work.worker@, chunk, work.url@);
        let headers = work.worker@.request_for(chunk, work.url@).headers;
        assert(headers[i].name == "range"@);
    }
}

/// Work is given out exactly while fewer workers are at work than may be and a
/// chunk waits, or may be split. Each piece counts as one worker more and gives
/// the turn to the next link, and the chunk that is given out is one that a
/// worker is then on.
pub proof fn law_work_is_given_out_while_there_is_some(
    before: TaskRun,
    after: TaskRun,
    work: Option<Assignment>,
)
    requires
        assigned(before, after, work),
    ensures
        work is Some <==> before.active_workers < before.config@.max_threads && ((exists|i: int|
            0 <= i < before.scheduler.chunks@.len() && (#[trigger] before.scheduler.chunks@[i]).status
                == ChunkStatus::Pending) || before.scheduler.dynamic_split && (exists|i: int|
            0 <= i < before.scheduler.chunks@.len() && (#[trigger] before.scheduler.chunks@[i]).status
                == ChunkStatus::Downloading && before.scheduler.chunks@[i].left() > 2
                * before.scheduler.min_chunk_size)),
        after.active_workers == before.active_workers + (if work is Some {
            1int
        } else {
            0
        }),
        after.url_index == before.url_index + (if work is Some {
            1int
        } else {
            0
        }),
        after.active_workers <= before.config@.max_threads || after.active_workers
            == before.active_workers,
        after.config@ == before.config@,
        work is None ==> after.scheduler.chunks@ == before.scheduler.chunks@,
        work matches Some(w) ==> {
            &&& w.position < after.scheduler.chunks@.len()
            &&& after.scheduler.chunks@[w.position as int].id == w.chunk_id
            &&& after.scheduler.chunks@[w.position as int].status == ChunkStatus::Downloading
        },
{
    let chunks = before.scheduler.chunks@;
    if exists|i: int|
        0 <= i < chunks.len() && (#[trigger] chunks[i]).status == ChunkStatus::Downloading
            && chunks[i].left() > 2 * before.scheduler.min_chunk_size {
        let i = choose|i: int|
            0 <= i < chunks.len() && (#[trigger] chunks[i]).status == ChunkStatus::Downloading
                && chunks[i].left() > 2 * before.scheduler.min_chunk_size;
        assert(stealable(chunks[i], before.scheduler.min_chunk_size));
    }
    if any_stealable(chunks, before.scheduler.min_chunk_size) {
        let i = choose|i: int|
            0 <= i < chunks.len() && stealable(
                #[trigger] chunks[i],
                before.scheduler.min_chunk_size,
            );
        assert(chunks[i].status == ChunkStatus::Downloading);
    }
    if work is Some {
        crate::tiling::law_one_worker_per_chunk(
            before.scheduler,
            after.scheduler,
            position_in(work),
        );
    }
}

/// The links of a task are asked in turn: of as many pieces of work in a row as
/// there are links, no two go to the same link, and all go to links of the task.
/// The first goes to the first.
pub proof fn law_work_goes_to_every_link(
    a: TaskRun,
    after_a: TaskRun,
    work_a: Assignment,
    b: TaskRun,
    after_b: TaskRun,
    work_b: Assignment,
)
    requires
        assigned(a, after_a, Some(work_a)),
        assigned(b, after_b, Some(work_b)),
        a.config@.urls == b.config@.urls,
        a.config@.urls.len() > 0,
        a.url_index < b.url_index <= a.url_index + a.config@.urls.len(),
        forall|i: int, j: int|
            0 <= i < j < a.config@.urls.len() ==> a.config@.urls[i] != a.config@.urls[j],
    ensures
        a.config@.urls.contains(work_a.url@),
        work_a.url@ == work_b.url@ <==> b.url_index - a.url_index == a.config@.urls.len(),
        a.url_index < a.config@.urls.len() ==> work_a.url@ == a.config@.urls[a.url_index as int],
{
    let urls = a.config@.urls;
    let n = urls.len();
    let i = a.url_index as int % n as int;
    let j = b.url_index as int % n as int;
    assert(0 <= i < n && 0 <= j < n) by (nonlinear_arith)
        requires
            n > 0,
            i == a.url_index as int % n as int,
            j == b.url_index as int % n as int,
    ;
    assert(work_a.url@ == urls[i] && work_b.url@ == urls[j]);
    law_links_take_turns(n, a.url_index as int, b.url_index - a.url_index);
    if a.url_index < n {
        assert(i == a.url_index) by (nonlinear_arith)
            requires
                0 <= a.url_index < n,
                i == a.url_index as int % n as int,
        ;
    }
    assert(i != j ==> urls[i] != urls[j]);
}

/// A download is done exactly where no worker is at work and every chunk counts
/// as completed.
pub proof fn law_done_is_done(run: TaskRun)
    ensures
        done(run) <==> run.active_workers == 0 && forall|i: int|
            0 <= i < run.scheduler.chunks@.len() ==> (#[trigger] run.scheduler.chunks@[i]).status
                == ChunkStatus::Completed,
{
}

/// A running task takes over what its configuration says of the number of
/// workers, the user agent, the headers, the credentials, the digest and the
/// retries, whatever it went by before; everything else stays.
pub proof fn law_running_tasks_follow_their_configuration(config: ConfigView, live: ConfigView)
    ensures
        ({
            let now = synced(config, live);
            &&& now.max_threads == live.max_threads
            &&& now.user_agent == live.user_agent
            &&& now.headers == live.headers
            &&& now.auth == live.auth
            &&& now.checksum == live.checksum
            &&& now.max_retries == live.max_retries
            &&& now.urls == config.urls && now.file_path == config.file_path
            &&& now.min_chunk_size == config.min_chunk_size
            &&& now.dynamic_split == config.dynamic_split
            &&& now.limit_bps == config.limit_bps && now.proxy == config.proxy
            &&& now.method == config.method && now.body == config.body
            &&& now.insecure == config.insecure && now.location == config.location
            &&& now.compressed == config.compressed
        }),
{
}

/// The failure of a worker touches its chunk alone, and of that only the count
/// of failures and the status. It ends the task where the message speaks of a
/// redirect, or where the chunk has now failed more often than may be; the end
/// then says which chunk and how often. Otherwise the chunk waits again.
pub proof fn law_failures_are_counted(
    before: Seq<ChunkInfo>,
    after: Seq<ChunkInfo>,
    max_retries: u32,
    id: usize,
    message: Seq<char>,
    r: Result<(), TaskError>,
    i: int,
)
    requires
        failure_noted(before, after, max_retries, id, message, r),
        0 <= i < before.len(),
        before[i].retries < u32::MAX,
        before[i].id == id,
        forall|j: int| 0 <= j < i ==> (#[trigger] before[j]).id != id,
    ensures
        after.len() == before.len(),
        forall|j: int| 0 <= j < before.len() && j != i ==> #[trigger] after[j] == before[j],
        after[i].id == before[i].id && after[i].start == before[i].start,
        after[i].end == before[i].end && after[i].current == before[i].current,
        (exists|a: Seq<char>, b: Seq<char>| message == #[trigger] (a + "遇到重定向"@ + b))
            <==> r == Err::<(), TaskError>(TaskError::Redirected),
        r != Err::<(), TaskError>(TaskError::Redirected) ==> {
            &&& after[i].retries == before[i].retries + 1
            &&& r is Ok <==> before[i].retries < max_retries
            &&& r is Ok ==> after[i].status == ChunkStatus::Pending
            &&& r is Err ==> r == Err::<(), TaskError>(
                TaskError::ChunkFailed { chunk_id: id, retries: after[i].retries },
            ) && after[i].status == before[i].status
        },
        r == Err::<(), TaskError>(TaskError::Redirected) ==> after == before,
{
    law_beginnings_and_parts(message, "遇到重定向"@);
    assert(is_first_with_id(before, id, i));
}

/// The failure of a worker on a chunk that is not there is passed over, unless
/// the message speaks of a redirect.
pub proof fn law_failures_of_unknown_chunks_pass(
    before: Seq<ChunkInfo>,
    after: Seq<ChunkInfo>,
    max_retries: u32,
    id: usize,
    message: Seq<char>,
    r: Result<(), TaskError>,
)
    requires
        failure_noted(before, after, max_retries, id, message, r),
        forall|j: int| 0 <= j < before.len() ==> (#[trigger] before[j]).id != id,
    ensures
        after == before,
        r is Err <==> exists|a: Seq<char>, b: Seq<char>|
            message == #[trigger] (a + "遇到重定向"@ + b),
{
    law_beginnings_and_parts(message, "遇到重定向"@);
    assert forall|i: int| !is_first_with_id(before, id, i) by {
        if 0 <= i < before.len() {
            assert(before[i].id != id);
        }
    }
}

/// The progress is written down once more than two seconds have passed, and not
/// before.
pub proof fn law_progress_is_saved_in_time(secs: u64, nanos: u32)
    requires
        nanos < 1_000_000_000,
    ensures
        is_save_due(secs, nanos) <==> secs * 1_000_000_000 + nanos > 2 * 1_000_000_000,
{
}

/// However many workers there are, they are waited for equally long, and longer
/// than work is waited for where there are none; no wait is longer than half a
/// second.
pub proof fn law_waits_are_short(workers: u32, others: u32)
    ensures
        workers > 0 && others > 0 ==> millis_to_wait(workers) == millis_to_wait(others),
        workers > 0 ==> millis_to_wait(0) < millis_to_wait(workers) == 500,
        millis_to_wait(0) == 100,
{
}

/// A run begins without workers, at the first link, on the chunks that it was
/// given, and splits them as it is configured to.
pub proof fn law_runs_begin_as_configured(config: DownloadTaskConfig, chunks: Vec<ChunkInfo>)
    ensures
        ({
            let run = fresh(config, chunks);
            &&& run.config@ == config@
            &&& run.scheduler.chunks@ == chunks@
            &&& run.scheduler.min_chunk_size == config@.min_chunk_size
            &&& run.scheduler.dynamic_split == config@.dynamic_split
            &&& run.active_workers == 0 && run.url_index == 0
        }),
{
}

/// What happens to a worker touches its own chunk and no other, and neither the
/// number of workers nor the configuration.
pub proof fn law_workers_touch_their_own_chunk(
    before: TaskRun,
    after: TaskRun,
    position: int,
    chunk: ChunkInfo,
    i: int,
)
    requires
        chunk_replaced(before, after, position, chunk),
        0 <= position < before.scheduler.chunks@.len(),
        0 <= i < before.scheduler.chunks@.len(),
    ensures
        after.scheduler.chunks@.len() == before.scheduler.chunks@.len(),
        after.scheduler.chunks@[position] == chunk,
        i != position ==> after.scheduler.chunks@[i] == before.scheduler.chunks@[i],
        after.scheduler.min_chunk_size == before.scheduler.min_chunk_size,
        after.scheduler.dynamic_split == before.scheduler.dynamic_split,
        after.config@ == before.config@,
        after.active_workers == before.active_workers,
        after.url_index == before.url_index,
{
}

/// A worker that is given work and comes to an end leaves as many workers as
/// there were, and the turn with the next link.
pub proof fn law_workers_come_and_go(
    before: TaskRun,
    during: TaskRun,
    work: Assignment,
    after: TaskRun,
)
    requires
        assigned(before, during, Some(work)),
        worker_gone(during, after),
    ensures
        after.active_workers == before.active_workers,
        after.url_index == before.url_index + 1,
        after.config@ == before.config@,
{
}

/// A run ends exactly when it is done, and never without the check that it is
/// configured with, which then has the whole file before it.
pub proof fn law_runs_end_with_their_check(run: TaskRun, check: Option<FinalCheck>)
    requires
        ends_with_check(run, check),
    ensures
        check is Some <==> done(run),
        check matches Some(c) ==> c.checksum() == run.config@.checksum && c.taken().len() == 0,
{
}

} // verus!
