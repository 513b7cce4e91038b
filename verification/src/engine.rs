//! The tasks that a downloader has.
use crate::checksum::{hex, kind_of, passes, FinalCheck};
use crate::errors::TaskError;
use crate::limiter::RateLimiter;
use crate::text::{copy_opt, copy_texts, lowercase};
use crate::types::{
    ConfigView, DownloadTaskConfig, MetadataView, TaskMetadata, TaskStatus, TaskStatusView,
};
use vstd::prelude::*;

verus! {

/// A task.
#[derive(Debug)]
pub struct TaskHandle {
    pub id: u128,
    pub config: DownloadTaskConfig,
    pub status: TaskStatus,
    pub metadata: TaskMetadata,
    pub limiter: Option<RateLimiter>,
}

/// The value of a [`TaskHandle`].
pub struct HandleView {
    pub id: u128,
    pub config: ConfigView,
    pub status: TaskStatusView,
    pub metadata: MetadataView,
    pub limiter: Option<RateLimiter>,
}

impl View for TaskHandle {
    type V = HandleView;

    open spec fn view(&self) -> HandleView {
        HandleView {
            id: self.id,
            config: self.config@,
            status: self.status@,
            metadata: self.metadata@,
            limiter: self.limiter,
        }
    }
}

impl Clone for TaskHandle {
    fn clone(&self) -> (copy: Self)
        ensures
            copy@ == self@,
    {
        TaskHandle {
            id: self.id,
            config: self.config.clone(),
            status: self.status.clone(),
            metadata: self.metadata.clone(),
            limiter: self.limiter,
        }
    }
}

/// A task that has not begun.
pub open spec fn new_task(id: u128, config: ConfigView) -> HandleView {
    HandleView {
        id,
        config,
        status: TaskStatusView::Pending,
        metadata: MetadataView {
            id,
            config,
            total_size: 0,
            chunks: Seq::empty(),
            status: TaskStatusView::Pending,
        },
        limiter: match config.limit_bps {
            Some(bps) => Some(RateLimiter { rate_per_sec: bps }),
            None => None,
        },
    }
}

/// A configuration with what may change while a task runs taken from another.
pub open spec fn reconfigured(config: ConfigView, new: ConfigView) -> ConfigView {
    ConfigView {
        max_threads: new.max_threads,
        limit_bps: new.limit_bps,
        user_agent: new.user_agent,
        proxy: new.proxy,
        headers: new.headers,
        checksum: new.checksum,
        max_retries: new.max_retries,
        auth: new.auth,
        ..config
    }
}

/// A task with a new configuration. A new speed limit takes effect; where none
/// is given, the old one stays.
pub open spec fn task_reconfigured(task: HandleView, new: ConfigView) -> HandleView {
    let config = reconfigured(task.config, new);
    HandleView {
        config,
        metadata: MetadataView { config, ..task.metadata },
        limiter: match new.limit_bps {
            Some(bps) => Some(RateLimiter { rate_per_sec: bps }),
            None => task.limiter,
        },
        ..task
    }
}

/// A task with another status.
pub open spec fn task_with_status(task: HandleView, status: TaskStatusView) -> HandleView {
    HandleView { status, metadata: MetadataView { status, ..task.metadata }, ..task }
}

/// A task that ends, and what its end is: `passed` says whether the file passed
/// its check.
pub open spec fn task_ended(task: HandleView, passed: bool) -> (HandleView, Result<(), TaskError>) {
    if passed {
        (task_with_status(task, TaskStatusView::Completed), Ok(()))
    } else {
        (
            task_with_status(task, TaskStatusView::Error(TaskError::ChecksumMismatch.text())),
            Err(TaskError::ChecksumMismatch),
        )
    }
}

impl TaskHandle {
    /// A task that has not begun.
    pub fn new(id: u128, config: DownloadTaskConfig) -> (task: Self)
        ensures
            task@ == new_task(id, config@),
    {
        let limiter = match config.limit_bps {
            Some(bps) => Some(RateLimiter::new(bps)),
            None => None,
        };
        let metadata = TaskMetadata {
            id,
            config: config.clone(),
            total_size: 0,
            chunks: Vec::new(),
            status: TaskStatus::Pending,
        };
        assert(metadata@.chunks =~= Seq::empty());
        TaskHandle { id, config, status: TaskStatus::Pending, metadata, limiter }
    }

    /// Takes over a new configuration.
    pub fn reconfigure(&mut self, new_config: &DownloadTaskConfig)
        ensures
            final(self)@ == task_reconfigured(old(self)@, new_config@),
    {
        self.config.max_threads = new_config.max_threads;
        self.config.limit_bps = new_config.limit_bps;
        self.config.user_agent = copy_opt(&new_config.user_agent);
        self.config.proxy = copy_opt(&new_config.proxy);
        self.config.headers = copy_texts(&new_config.headers);
        self.config.checksum = copy_opt(&new_config.checksum);
        self.config.max_retries = new_config.max_retries;
        self.config.auth = copy_opt(&new_config.auth);
        self.metadata.config = self.config.clone();
        if let Some(bps) = new_config.limit_bps {
            match self.limiter {
                Some(limiter) => {
                    let mut changed = limiter;
                    changed.set_rate(bps);
                    self.limiter = Some(changed);
                },
                None => {
                    self.limiter = Some(RateLimiter::new(bps));
                },
            }
        }
    }

    /// The task has failed.
    pub fn fail(&mut self, message: &str)
        ensures
            final(self)@ == task_with_status(old(self)@, TaskStatusView::Error(message@)),
    {
        self.status = TaskStatus::Error(message.to_owned());
        self.metadata.status = TaskStatus::Error(message.to_owned());
    }

    /// The task ends: it is done where the file passes its check, and has failed
    /// otherwise.
    pub fn finish(&mut self, check: FinalCheck) -> (r: Result<(), TaskError>)
        ensures
            (final(self)@, r) == task_ended(old(self)@, passes(check.checksum(), check.taken())),
    {
        match check.finish() {
            Ok(_) => {
                self.status = TaskStatus::Completed;
                self.metadata.status = TaskStatus::Completed;
                Ok(())
            },
            Err(e) => {
                self.fail(e.message().as_str());
                Err(e)
            },
        }
    }
}

// ---------------------------------------------------------------------------
// The table of tasks
// ---------------------------------------------------------------------------
/// The map of the `dashmap` crate.
#[verifier::external_type_specification]
#[verifier::external_body]
#[verifier::reject_recursive_types(K)]
#[verifier::reject_recursive_types(V)]
#[verifier::reject_recursive_types(S)]
pub struct ExDashMap<K, V, S>(dashmap::DashMap<K, V, S>);

/// The table of tasks.
type TaskTable = dashmap::DashMap<u128, TaskHandle, std::hash::RandomState>;

/// What a table of tasks holds.
pub uninterp spec fn table_tasks(
    table: dashmap::DashMap<u128, TaskHandle, std::hash::RandomState>,
) -> Map<u128, HandleView>;

/// A table without tasks.
pub open spec fn no_tasks() -> Map<u128, HandleView> {
    Map::empty()
}

/// Calls `DashMap::new`. Trusted: the table is empty.
#[verifier::external_body]
fn table_new() -> (table: TaskTable)
    ensures
        table_tasks(table) == no_tasks(),
{
    dashmap::DashMap::new()
}

/// Calls `DashMap::insert`. Trusted: the task stands under the number, in place
/// of any that stood there, and nothing else changes.
#[verifier::external_body]
fn table_insert(table: &mut TaskTable, id: u128, task: TaskHandle)
    ensures
        table_tasks(*final(table)) == table_tasks(*old(table)).insert(id, task@),
{
    table.insert(id, task);
}

/// Calls `DashMap::get` and copies what it finds. Trusted: it finds the task
/// that stands under the number, where one does.
#[verifier::external_body]
fn table_get(table: &TaskTable, id: u128) -> (task: Option<TaskHandle>)
    ensures
        match task {
            Some(task) => table_tasks(*table).contains_key(id) && task@ == table_tasks(*table)[id],
            None => !table_tasks(*table).contains_key(id),
        },
{
    table.get(&id).map(|found| found.value().clone())
}

/// The bits by which a random UUID is told from others: version 4, and the
/// variant of RFC 4122.
pub open spec fn is_random_uuid(id: u128) -> bool {
    id & 0xF000_C000_0000_0000_0000u128 == 0x4000_8000_0000_0000_0000u128
}

/// Calls `Uuid::new_v4` of the `uuid` crate. Trusted: the bits of version and
/// variant. The other bits are random, and nothing is said of them.
#[verifier::external_body]
fn random_id() -> (id: u128)
    ensures
        is_random_uuid(id),
{
    uuid::Uuid::new_v4().as_u128()
}

/// The tasks with a new one among them.
pub open spec fn with_new_task(
    tasks: Map<u128, HandleView>,
    id: u128,
    config: ConfigView,
) -> Map<u128, HandleView> {
    tasks.insert(id, new_task(id, config))
}

/// The tasks with one in place of that with the same number, where there is one.
pub open spec fn with_task(
    tasks: Map<u128, HandleView>,
    id: u128,
    task: HandleView,
) -> Map<u128, HandleView> {
    if tasks.contains_key(id) {
        tasks.insert(id, task)
    } else {
        tasks
    }
}

/// The tasks with a new configuration for one of them, where it is there.
pub open spec fn with_new_config(
    tasks: Map<u128, HandleView>,
    id: u128,
    new: ConfigView,
) -> Map<u128, HandleView> {
    with_task(tasks, id, task_reconfigured(tasks[id], new))
}

/// The task with the given number, where there is one.
pub open spec fn task_at(tasks: Map<u128, HandleView>, id: u128) -> Option<HandleView> {
    if tasks.contains_key(id) {
        Some(tasks[id])
    } else {
        None
    }
}

/// What looking for a task comes to.
pub open spec fn found(tasks: Map<u128, HandleView>, id: u128) -> Result<(), TaskError> {
    if tasks.contains_key(id) {
        Ok(())
    } else {
        Err(TaskError::NotFound)
    }
}

/// The tasks of a downloader.
pub struct DownloadEngine {
    tasks: TaskTable,
}

impl DownloadEngine {
    /// The tasks, by their numbers.
    pub closed spec fn tasks(self) -> Map<u128, HandleView> {
        table_tasks(self.tasks)
    }

    /// A downloader without tasks.
    pub fn new() -> (engine: Self)
        ensures
            engine.tasks() == no_tasks(),
    {
        DownloadEngine { tasks: table_new() }
    }

    /// Adds a task under a random number.
    pub fn create_task(&mut self, config: DownloadTaskConfig) -> (id: u128)
        ensures
            is_random_uuid(id),
            final(self).tasks() == with_new_task(old(self).tasks(), id, config@),
    {
        let id: u128 = random_id();
        self.add_task(id, config);
        id
    }

    /// Adds a task under the given number.
    pub fn add_task(&mut self, id: u128, config: DownloadTaskConfig)
        ensures
            final(self).tasks() == with_new_task(old(self).tasks(), id, config@),
    {
        table_insert(&mut self.tasks, id, TaskHandle::new(id, config));
    }

    /// A copy of the task with the given number.
    pub fn get_task(&self, id: u128) -> (task: Option<TaskHandle>)
        ensures
            match task {
                Some(task) => task_at(self.tasks(), id) == Some(task@),
                None => task_at(self.tasks(), id) is None,
            },
    {
        table_get(&self.tasks, id)
    }

    /// Puts a task in the place of the one with the same number; fails where
    /// there is none.
    pub fn replace_task(&mut self, id: u128, task: TaskHandle) -> (r: Result<(), TaskError>)
        ensures
            final(self).tasks() == with_task(old(self).tasks(), id, task@),
            r == found(old(self).tasks(), id),
    {
        match table_get(&self.tasks, id) {
            Some(_) => {
                table_insert(&mut self.tasks, id, task);
                Ok(())
            },
            None => Err(TaskError::NotFound),
        }
    }

    /// Gives a task a new configuration; fails where there is no such task.
    pub fn update_task_config(&mut self, id: u128, new_config: DownloadTaskConfig) -> (r: Result<
        (),
        TaskError,
    >)
        ensures
            final(self).tasks() == with_new_config(old(self).tasks(), id, new_config@),
            r == found(old(self).tasks(), id),
    {
        match table_get(&self.tasks, id) {
            Some(mut task) => {
                task.reconfigure(&new_config);
                table_insert(&mut self.tasks, id, task);
                Ok(())
            },
            None => Err(TaskError::NotFound),
        }
    }
}

/// What cannot change while a task runs: its links, its file, how it is
/// divided, and how it is asked for.
pub proof fn law_reconfiguring_keeps_identity(task: HandleView, new: ConfigView)
    ensures
        ({
            let after = task_reconfigured(task, new);
            &&& after.id == task.id
            &&& after.status == task.status
            &&& after.config.urls == task.config.urls
            &&& after.config.file_path == task.config.file_path
            &&& after.config.min_chunk_size == task.config.min_chunk_size
            &&& after.config.dynamic_split == task.config.dynamic_split
            &&& after.config.method == task.config.method
            &&& after.config.body == task.config.body
            &&& after.config.insecure == task.config.insecure
            &&& after.config.location == task.config.location
            &&& after.config.compressed == task.config.compressed
            &&& after.metadata.chunks == task.metadata.chunks
            &&& after.metadata.total_size == task.metadata.total_size
            &&& after.metadata.status == task.metadata.status
        }),
{
}

/// What is remembered of a task always has the task's own configuration.
pub open spec fn in_step(task: HandleView) -> bool {
    task.metadata.id == task.id && task.metadata.config == task.config
}

/// A new task is in step with what is remembered of it, and stays so through
/// changes of its configuration and its status.
pub proof fn law_tasks_stay_in_step(
    id: u128,
    config: ConfigView,
    task: HandleView,
    new: ConfigView,
    status: TaskStatusView,
)
    requires
        in_step(task),
    ensures
        in_step(new_task(id, config)),
        in_step(task_reconfigured(task, new)),
        in_step(task_with_status(task, status)),
{
}

/// A task ends as completed exactly where its file passes the check: always
/// where no digest is expected, and never where the expected digest has the
/// length of none.
pub proof fn law_completed_means_checked(
    task: HandleView,
    checksum: Option<Seq<char>>,
    data: Seq<u8>,
)
    ensures
        ({
            let (after, r) = task_ended(task, passes(checksum, data));
            &&& r is Ok <==> passes(checksum, data)
            &&& after.status is Completed <==> r is Ok
            &&& after.metadata.status == after.status
            &&& after.config == task.config
            &&& after.metadata.chunks == task.metadata.chunks
        }),
        checksum is None ==> passes(checksum, data),
        checksum matches Some(expected) ==> (passes(checksum, data) <==> kind_of(expected) is Some
            && hex(kind_of(expected)->0.digest(data)) == lowercase(expected)),
{
}

/// Giving a task the same new configuration a second time changes nothing.
pub proof fn law_reconfiguring_twice_is_once(task: HandleView, new: ConfigView)
    ensures
        task_reconfigured(task_reconfigured(task, new), new) == task_reconfigured(task, new),
{
}

/// A new task has the number and the configuration that it was given, nothing of
/// its file, and waits; its speed is limited exactly where its configuration says
/// so, and as much.
pub proof fn law_new_tasks_are_as_asked_for(id: u128, config: ConfigView)
    ensures
        ({
            let task = new_task(id, config);
            &&& task.id == id && task.metadata.id == id
            &&& task.config == config && task.metadata.config == config
            &&& task.status is Pending && task.metadata.status is Pending
            &&& task.metadata.total_size == 0 && task.metadata.chunks.len() == 0
            &&& task.limiter is Some <==> config.limit_bps is Some
            &&& config.limit_bps matches Some(bps) ==> task.limiter->0.rate_per_sec == bps
        }),
{
}

/// A new configuration takes effect, whatever the task had before: in the task
/// and in what is remembered of it. A new speed limit is in force from then on;
/// where there is none in it, the one in force stays.
pub proof fn law_new_configurations_take_effect(task: HandleView, new: ConfigView)
    ensures
        ({
            let after = task_reconfigured(task, new);
            &&& after.config.max_threads == new.max_threads
            &&& after.config.limit_bps == new.limit_bps
            &&& after.config.user_agent == new.user_agent
            &&& after.config.proxy == new.proxy
            &&& after.config.headers == new.headers
            &&& after.config.checksum == new.checksum
            &&& after.config.max_retries == new.max_retries
            &&& after.config.auth == new.auth
            &&& after.metadata.config == after.config
            &&& after.metadata.id == task.metadata.id
            &&& new.limit_bps matches Some(bps) ==> after.limiter == Some(
                RateLimiter { rate_per_sec: bps },
            )
            &&& new.limit_bps is None ==> after.limiter == task.limiter
        }),
{
}

/// A change of its status changes nothing else of a task.
pub proof fn law_a_status_is_only_a_status(task: HandleView, status: TaskStatusView)
    ensures
        ({
            let after = task_with_status(task, status);
            &&& after.status == status && after.metadata.status == status
            &&& after.id == task.id && after.metadata.id == task.metadata.id
            &&& after.config == task.config && after.metadata.config == task.metadata.config
            &&& after.limiter == task.limiter
            &&& after.metadata.chunks == task.metadata.chunks
            &&& after.metadata.total_size == task.metadata.total_size
        }),
{
}

/// A task whose file does not pass fails, and tells why; one whose file passes is
/// completed.
pub proof fn law_tasks_end_as_their_files_do(task: HandleView, passed: bool)
    ensures
        ({
            let (after, r) = task_ended(task, passed);
            &&& r is Ok <==> passed
            &&& passed ==> after.status is Completed
            &&& !passed ==> r == Err::<(), TaskError>(TaskError::ChecksumMismatch) && after.status
                == TaskStatusView::Error(TaskError::ChecksumMismatch.text())
            &&& after == task_with_status(task, after.status)
        }),
{
}

/// What is done to one task is done to that one: under its number stands the new
/// task, the replaced one or the reconfigured one, and under every other number
/// what stood there. Only a new task adds a number, and what is not there is not
/// found.
pub proof fn law_tasks_do_not_affect_each_other(
    tasks: Map<u128, HandleView>,
    id: u128,
    other: u128,
    config: ConfigView,
    task: HandleView,
)
    requires
        other != id,
    ensures
        with_new_task(tasks, id, config).contains_key(id),
        with_new_task(tasks, id, config)[id] == new_task(id, config),
        tasks.contains_key(id) ==> with_task(tasks, id, task).contains_key(id) && with_task(
            tasks,
            id,
            task,
        )[id] == task,
        tasks.contains_key(id) ==> with_new_config(tasks, id, config).contains_key(id)
            && with_new_config(tasks, id, config)[id] == task_reconfigured(tasks[id], config),
        !tasks.contains_key(id) ==> with_task(tasks, id, task) == tasks && with_new_config(
            tasks,
            id,
            config,
        ) == tasks,
        with_new_task(tasks, id, config).contains_key(other) == tasks.contains_key(other),
        with_task(tasks, id, task).contains_key(other) == tasks.contains_key(other),
        with_new_config(tasks, id, config).contains_key(other) == tasks.contains_key(other),
        tasks.contains_key(other) ==> {
            &&& with_new_task(tasks, id, config)[other] == tasks[other]
            &&& with_task(tasks, id, task)[other] == tasks[other]
            &&& with_new_config(tasks, id, config)[other] == tasks[other]
        },
        found(tasks, id) is Ok <==> tasks.contains_key(id),
        found(tasks, id) is Err ==> found(tasks, id) == Err::<(), TaskError>(TaskError::NotFound),
{
}

/// The value of a task is that of each of its fields.
pub proof fn law_values_of_tasks(task: TaskHandle)
    ensures
        task@.id == task.id,
        task@.config == task.config@,
        task@.status == task.status@,
        task@.metadata == task.metadata@,
        task@.limiter == task.limiter,
{
}

/// What stands under a number is what is found there: a new task as it was asked
/// for, one that was put in the place of another, one with its new configuration;
/// nothing where nothing was put.
pub proof fn law_tasks_are_found_where_they_were_put(
    tasks: Map<u128, HandleView>,
    id: u128,
    other: u128,
    config: ConfigView,
    task: HandleView,
)
    requires
        other != id,
    ensures
        task_at(no_tasks(), id) is None,
        task_at(with_new_task(tasks, id, config), id) == Some(new_task(id, config)),
        task_at(tasks, id) matches Some(was) ==> {
            &&& task_at(with_task(tasks, id, task), id) == Some(task)
            &&& task_at(with_new_config(tasks, id, config), id) == Some(
                task_reconfigured(was, config),
            )
        },
        task_at(tasks, id) is None ==> {
            &&& task_at(with_task(tasks, id, task), id) is None
            &&& task_at(with_new_config(tasks, id, config), id) is None
        },
        task_at(with_new_task(tasks, id, config), other) == task_at(tasks, other),
        task_at(with_task(tasks, id, task), other) == task_at(tasks, other),
        task_at(with_new_config(tasks, id, config), other) == task_at(tasks, other),
        task_at(tasks, id) is Some <==> tasks.contains_key(id),
        task_at(tasks, id) matches Some(was) ==> was == tasks[id],
{
}

} // verus!
