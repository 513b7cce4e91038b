//! What the server answers to requests about tasks.
use crate::engine::{
    in_step, is_random_uuid, new_task, task_at, task_reconfigured, with_new_config,
    with_new_task, DownloadEngine, HandleView,
};
use crate::errors::TaskError;
use crate::limiter::RateLimiter;
use crate::text::{opt_text, texts};
use crate::types::{ConfigView, DownloadTaskConfig, MetadataView, TaskMetadata};
use vstd::prelude::*;

verus! {

/// What a client wants changed in the configuration of a task; what is absent
/// stays.
#[derive(Debug)]
pub struct UpdateConfigPayload {
    pub max_threads: Option<u32>,
    pub limit_bps: Option<u64>,
    pub user_agent: Option<String>,
    pub proxy: Option<String>,
    pub headers: Option<Vec<String>>,
    pub checksum: Option<String>,
    pub max_retries: Option<u32>,
    pub auth: Option<String>,
}

/// The value of an [`UpdateConfigPayload`].
pub struct PayloadView {
    pub max_threads: Option<u32>,
    pub limit_bps: Option<u64>,
    pub user_agent: Option<Seq<char>>,
    pub proxy: Option<Seq<char>>,
    pub headers: Option<Seq<Seq<char>>>,
    pub checksum: Option<Seq<char>>,
    pub max_retries: Option<u32>,
    pub auth: Option<Seq<char>>,
}

impl View for UpdateConfigPayload {
    type V = PayloadView;

    open spec fn view(&self) -> PayloadView {
        PayloadView {
            max_threads: self.max_threads,
            limit_bps: self.limit_bps,
            user_agent: opt_text(self.user_agent),
            proxy: opt_text(self.proxy),
            headers: match self.headers {
                Some(list) => Some(texts(list@)),
                None => None,
            },
            checksum: opt_text(self.checksum),
            max_retries: self.max_retries,
            auth: opt_text(self.auth),
        }
    }
}

/// What is wanted, where something is; what there was otherwise.
pub open spec fn or_else<T>(wanted: Option<T>, was: T) -> T {
    match wanted {
        Some(value) => value,
        None => was,
    }
}

/// What is wanted, where something is; what there was, if anything, otherwise.
pub open spec fn or_keep<T>(wanted: Option<T>, was: Option<T>) -> Option<T> {
    match wanted {
        Some(_) => wanted,
        None => was,
    }
}

/// A configuration with the changes that a client wants.
pub open spec fn changed(config: ConfigView, payload: PayloadView) -> ConfigView {
    ConfigView {
        max_threads: or_else(payload.max_threads, config.max_threads),
        limit_bps: or_keep(payload.limit_bps, config.limit_bps),
        user_agent: or_keep(payload.user_agent, config.user_agent),
        proxy: or_keep(payload.proxy, config.proxy),
        headers: or_else(payload.headers, config.headers),
        checksum: or_keep(payload.checksum, config.checksum),
        max_retries: or_else(payload.max_retries, config.max_retries),
        auth: or_keep(payload.auth, config.auth),
        ..config
    }
}

impl UpdateConfigPayload {
    /// Makes the changes in a configuration.
    pub fn apply(self, config: &mut DownloadTaskConfig)
        ensures
            final(config)@ == changed(old(config)@, self@),
    {
        if let Some(max_threads) = self.max_threads {
            config.max_threads = max_threads;
        }
        if let Some(limit_bps) = self.limit_bps {
            config.limit_bps = Some(limit_bps);
        }
        if let Some(user_agent) = self.user_agent {
            config.user_agent = Some(user_agent);
        }
        if let Some(proxy) = self.proxy {
            config.proxy = Some(proxy);
        }
        if let Some(headers) = self.headers {
            config.headers = headers;
        }
        if let Some(checksum) = self.checksum {
            config.checksum = Some(checksum);
        }
        if let Some(max_retries) = self.max_retries {
            config.max_retries = max_retries;
        }
        if let Some(auth) = self.auth {
            config.auth = Some(auth);
        }
    }
}

/// An answer.
#[derive(Debug)]
pub enum Reply {
    /// The task has been created, under this number.
    Created(u128),
    /// The configuration has been changed.
    Changed,
    /// What is remembered of the task.
    Status(TaskMetadata),
    /// There is no such task.
    NotFound,
}

impl Reply {
    /// The status of an answer, as a value.
    pub open spec fn code(self) -> u16 {
        match self {
            Reply::Created(_) => 201,
            Reply::Changed => 200,
            Reply::Status(_) => 200,
            Reply::NotFound => 404,
        }
    }

    /// The status of an answer.
    pub fn status_code(&self) -> (code: u16)
        ensures
            code == self.code(),
    {
        match self {
            Reply::Created(_) => 201,
            Reply::Changed => 200,
            Reply::Status(_) => 200,
            Reply::NotFound => 404,
        }
    }

    /// What the client is told where there is no such task.
    pub fn error_text(&self) -> (text: Option<String>)
        ensures
            opt_text(text) == (if *self is NotFound {
                Some(TaskError::NotFound.text())
            } else {
                None
            }),
    {
        match self {
            Reply::NotFound => Some(TaskError::NotFound.message()),
            _ => None,
        }
    }
}

/// Creates a task.
pub fn create_task(engine: &mut DownloadEngine, config: DownloadTaskConfig) -> (reply: Reply)
    ensures
        reply matches Reply::Created(id) && is_random_uuid(id) && final(engine).tasks()
            == with_new_task(old(engine).tasks(), id, config@),
{
    Reply::Created(engine.create_task(config))
}

/// The tasks after a client wants the configuration of one of them changed, where
/// there is such a task.
pub open spec fn tasks_changed(
    tasks: Map<u128, HandleView>,
    id: u128,
    payload: PayloadView,
) -> Map<u128, HandleView> {
    with_new_config(tasks, id, changed(tasks[id].config, payload))
}

/// Changes the configuration of a task.
pub fn update_config(
    engine: &mut DownloadEngine,
    id: u128,
    payload: UpdateConfigPayload,
) -> (reply: Reply)
    ensures
        final(engine).tasks() == tasks_changed(old(engine).tasks(), id, payload@),
        reply is Changed <==> old(engine).tasks().contains_key(id),
        reply is NotFound <==> !old(engine).tasks().contains_key(id),
{
    match engine.get_task(id) {
        Some(task) => {
            let mut config = task.config.clone();
            payload.apply(&mut config);
            match engine.update_task_config(id, config) {
                Ok(_) => Reply::Changed,
                Err(_) => Reply::NotFound,
            }
        },
        None => Reply::NotFound,
    }
}

/// What is remembered of the task with the given number, where there is one.
pub open spec fn status_at(tasks: Map<u128, HandleView>, id: u128) -> Option<MetadataView> {
    match task_at(tasks, id) {
        Some(task) => Some(task.metadata),
        None => None,
    }
}

/// Tells what is remembered of a task.
pub fn get_status(engine: &DownloadEngine, id: u128) -> (reply: Reply)
    ensures
        match reply {
            Reply::Status(metadata) => status_at(engine.tasks(), id) == Some(metadata@),
            Reply::NotFound => status_at(engine.tasks(), id) is None,
            _ => false,
        },
{
    match engine.get_task(id) {
        Some(task) => Reply::Status(task.metadata),
        None => Reply::NotFound,
    }
}

/// A client that wants nothing changed.
pub open spec fn no_changes() -> PayloadView {
    PayloadView {
        max_threads: None,
        limit_bps: None,
        user_agent: None,
        proxy: None,
        headers: None,
        checksum: None,
        max_retries: None,
        auth: None,
    }
}

/// The speed limit that is in force is the one that the task is configured
/// with, where it is configured with one.
pub open spec fn limit_in_force(task: HandleView) -> bool {
    task.config.limit_bps matches Some(bps) ==> task.limiter == Some(
        RateLimiter { rate_per_sec: bps },
    )
}

/// The speed limit of a new task is in force, and that of a task stays in force
/// through changes of its configuration.
pub proof fn law_limits_are_in_force(
    id: u128,
    config: ConfigView,
    task: HandleView,
    payload: PayloadView,
)
    requires
        limit_in_force(task),
    ensures
        limit_in_force(new_task(id, config)),
        limit_in_force(task_reconfigured(task, changed(task.config, payload))),
{
}

/// A client that wants nothing changed changes nothing.
pub proof fn law_no_changes_change_nothing(task: HandleView)
    requires
        in_step(task),
        limit_in_force(task),
    ensures
        task_reconfigured(task, changed(task.config, no_changes())) == task,
{
}

/// After a change, what is remembered of a task shows exactly the configuration
/// that the client asked for.
pub proof fn law_changes_are_shown(task: HandleView, payload: PayloadView)
    ensures
        task_reconfigured(task, changed(task.config, payload)).metadata.config == changed(
            task.config,
            payload,
        ),
        task_reconfigured(task, changed(task.config, payload)).config == changed(
            task.config,
            payload,
        ),
{
}

/// Whatever a task had before, what a client wants changed is as the client
/// wants it, and what the client does not speak of is as it was.
pub proof fn law_changes_are_made_as_wanted(config: ConfigView, payload: PayloadView)
    ensures
        ({
            let now = changed(config, payload);
            &&& payload.max_threads matches Some(n) ==> now.max_threads == n
            &&& payload.limit_bps matches Some(n) ==> now.limit_bps == Some(n)
            &&& payload.user_agent matches Some(text) ==> now.user_agent == Some(text)
            &&& payload.proxy matches Some(text) ==> now.proxy == Some(text)
            &&& payload.headers matches Some(list) ==> now.headers == list
            &&& payload.checksum matches Some(text) ==> now.checksum == Some(text)
            &&& payload.max_retries matches Some(n) ==> now.max_retries == n
            &&& payload.auth matches Some(text) ==> now.auth == Some(text)
            &&& payload.max_threads is None ==> now.max_threads == config.max_threads
            &&& payload.limit_bps is None ==> now.limit_bps == config.limit_bps
            &&& payload.user_agent is None ==> now.user_agent == config.user_agent
            &&& payload.proxy is None ==> now.proxy == config.proxy
            &&& payload.headers is None ==> now.headers == config.headers
            &&& payload.checksum is None ==> now.checksum == config.checksum
            &&& payload.max_retries is None ==> now.max_retries == config.max_retries
            &&& payload.auth is None ==> now.auth == config.auth
            &&& now.urls == config.urls && now.file_path == config.file_path
            &&& now.min_chunk_size == config.min_chunk_size
            &&& now.dynamic_split == config.dynamic_split
            &&& now.method == config.method && now.body == config.body
            &&& now.insecure == config.insecure && now.location == config.location
            &&& now.compressed == config.compressed
        }),
{
}

/// Of two changes, one after the other, the second counts where it speaks, and
/// the first where only that one does: no field depends on what it was.
pub proof fn law_the_last_change_counts(
    config: ConfigView,
    other: ConfigView,
    first: PayloadView,
    second: PayloadView,
)
    ensures
        ({
            let now = changed(changed(config, first), second);
            &&& second.max_threads is Some ==> now.max_threads == second.max_threads->0
            &&& second.max_threads is None && first.max_threads is Some ==> now.max_threads
                == first.max_threads->0
            &&& second.max_retries is Some ==> now.max_retries == second.max_retries->0
            &&& second.limit_bps is Some ==> now.limit_bps == second.limit_bps
            &&& second.headers is Some ==> now.headers == second.headers->0
            &&& second.auth is Some ==> now.auth == second.auth
        }),
        changed(changed(config, first), first) == changed(config, first),
        first.max_threads is Some ==> changed(config, first).max_threads == changed(
            other,
            first,
        ).max_threads,
{
}

/// A change reaches the task and what is shown of it: with its number of workers,
/// its speed limit, which is in force from then on, and all else that the client
/// wants. Other tasks are as they were, and so is how far the task has come.
pub proof fn law_changes_reach_the_task(
    tasks: Map<u128, HandleView>,
    id: u128,
    payload: PayloadView,
    other: u128,
)
    requires
        tasks.contains_key(id),
        other != id,
    ensures
        ({
            let after = tasks_changed(tasks, id, payload);
            let task = after[id];
            &&& after.contains_key(id)
            &&& payload.max_threads matches Some(n) ==> task.config.max_threads == n
                && task.metadata.config.max_threads == n
            &&& payload.limit_bps matches Some(n) ==> task.config.limit_bps == Some(n)
                && task.metadata.config.limit_bps == Some(n) && task.limiter == Some(
                RateLimiter { rate_per_sec: n },
            )
            &&& payload.limit_bps is None && tasks[id].config.limit_bps is None ==> task.limiter
                == tasks[id].limiter
            &&& payload.user_agent matches Some(text) ==> task.config.user_agent == Some(text)
            &&& payload.proxy matches Some(text) ==> task.config.proxy == Some(text)
            &&& payload.headers matches Some(list) ==> task.config.headers == list
            &&& payload.checksum matches Some(text) ==> task.config.checksum == Some(text)
            &&& payload.max_retries matches Some(n) ==> task.config.max_retries == n
            &&& payload.auth matches Some(text) ==> task.config.auth == Some(text)
            &&& task.metadata.config == task.config
            &&& task.metadata.chunks == tasks[id].metadata.chunks
            &&& task.metadata.total_size == tasks[id].metadata.total_size
            &&& task.status == tasks[id].status && task.metadata.status
                == tasks[id].metadata.status
            &&& after.contains_key(other) == tasks.contains_key(other)
            &&& tasks.contains_key(other) ==> after[other] == tasks[other]
        }),
{
}

/// Where there is no such task, nothing changes.
pub proof fn law_unknown_tasks_are_not_changed(
    tasks: Map<u128, HandleView>,
    id: u128,
    payload: PayloadView,
)
    requires
        !tasks.contains_key(id),
    ensures
        tasks_changed(tasks, id, payload) == tasks,
{
}

/// An answer of the 200s says that the request was met: a task was created
/// exactly where it is a 201. A task that is not there is answered with 404, and
/// with a message, which comes with no other answer.
pub proof fn law_answers_have_their_status(reply: Reply)
    ensures
        200 <= reply.code() <= 299 <==> !(reply is NotFound),
        reply is Created <==> reply.code() == 201,
        reply is Changed || reply is Status <==> reply.code() == 200,
        reply is NotFound <==> reply.code() == 404,
{
}

/// The value of what a client wants is that of each of its fields.
pub proof fn law_values_of_payloads(payload: UpdateConfigPayload)
    ensures
        payload@.max_threads == payload.max_threads,
        payload@.limit_bps == payload.limit_bps,
        payload@.user_agent == opt_text(payload.user_agent),
        payload@.proxy == opt_text(payload.proxy),
        payload.headers matches Some(list) ==> payload@.headers == Some(texts(list@)),
        payload.headers is None ==> payload@.headers is None,
        payload@.checksum == opt_text(payload.checksum),
        payload@.max_retries == payload.max_retries,
        payload@.auth == opt_text(payload.auth),
{
}

/// Whoever creates a task and asks for its status is shown the task, waiting, with
/// the configuration that was given. Whoever then changes it is shown the number
/// of workers and all else as changed, and how far the task has come as it was.
pub proof fn law_the_status_shows_what_was_asked_for(
    tasks: Map<u128, HandleView>,
    id: u128,
    config: ConfigView,
    payload: PayloadView,
)
    ensures
        status_at(with_new_task(tasks, id, config), id) matches Some(shown) && shown.id == id
            && shown.config == config && shown.status is Pending && shown.chunks.len() == 0
            && shown.total_size == 0,
        status_at(tasks, id) is Some <==> tasks.contains_key(id),
        tasks.contains_key(id) ==> status_at(tasks, id) == Some(tasks[id].metadata),
        tasks.contains_key(id) && tasks[id].config == tasks[id].metadata.config ==> {
            let was = tasks[id].metadata;
            let shown = status_at(tasks_changed(tasks, id, payload), id)->0;
            &&& status_at(tasks_changed(tasks, id, payload), id) is Some
            &&& shown.id == was.id && shown.status == was.status
            &&& shown.chunks == was.chunks && shown.total_size == was.total_size
            &&& payload.max_threads matches Some(n) ==> shown.config.max_threads == n
            &&& payload.max_threads is None ==> shown.config.max_threads == was.config.max_threads
            &&& payload.limit_bps matches Some(n) ==> shown.config.limit_bps == Some(n)
            &&& payload.limit_bps is None ==> shown.config.limit_bps == was.config.limit_bps
            &&& payload.max_retries matches Some(n) ==> shown.config.max_retries == n
            &&& payload.max_retries is None ==> shown.config.max_retries == was.config.max_retries
            &&& payload.headers matches Some(list) ==> shown.config.headers == list
            &&& payload.headers is None ==> shown.config.headers == was.config.headers
            &&& shown.config.urls == was.config.urls
            &&& shown.config.file_path == was.config.file_path
        },
        !tasks.contains_key(id) ==> status_at(tasks_changed(tasks, id, payload), id) is None,
{
}

} // verus!
