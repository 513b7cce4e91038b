use rurl::api::{create_task, get_status, update_config, Reply, UpdateConfigPayload};
use rurl::engine::{DownloadEngine, TaskHandle};
use rurl::errors::TaskError;
use rurl::limiter::{Acquire, RateLimiter};
use rurl::plan::{client_options, needs_probe, probe_request, read_probe, ProbeInfo, ProbeReply};
use rurl::run::{save_due, TaskRun};
use rurl::types::{default_method, ChunkInfo, ChunkStatus, DownloadTaskConfig, TaskStatus};
use rurl::worker::{ChunkStream, StreamAction, StreamEvent};

fn config() -> DownloadTaskConfig {
    DownloadTaskConfig {
        urls: vec!["http://a.example/f".to_string(), "http://b.example/f".to_string()],
        file_path: "f".to_string(),
        max_threads: 3,
        min_chunk_size: 10,
        dynamic_split: true,
        limit_bps: Some(500),
        user_agent: Some("agent".to_string()),
        proxy: Some("socks5://127.0.0.1:7890".to_string()),
        headers: vec!["X-Test: 1".to_string()],
        checksum: None,
        max_retries: 2,
        auth: Some("user:password".to_string()),
        method: default_method(),
        body: None,
        insecure: true,
        location: true,
        compressed: false,
    }
}

fn no_changes() -> UpdateConfigPayload {
    UpdateConfigPayload {
        max_threads: None,
        limit_bps: None,
        user_agent: None,
        proxy: None,
        headers: None,
        checksum: None,
        max_retries: None,
        auth: None,
    }
}

fn same_config(a: &DownloadTaskConfig, b: &DownloadTaskConfig) -> bool {
    format!("{:?}", a) == format!("{:?}", b)
}

#[test]
fn the_method_is_get_by_default() {
    assert_eq!(default_method(), "GET");
}

#[test]
fn a_new_task_waits() {
    let mut engine = DownloadEngine::new();
    let id = engine.create_task(config());
    let task = engine.get_task(id).unwrap();
    assert_eq!(task.id, id);
    assert!(same_config(&task.config, &config()));
    assert!(task.status == TaskStatus::Pending);
    assert_eq!(task.limiter, Some(RateLimiter { rate_per_sec: 500 }));
    assert_eq!(task.metadata.id, id);
    assert!(same_config(&task.metadata.config, &config()));
    assert_eq!(task.metadata.total_size, 0);
    assert!(task.metadata.chunks.is_empty());
    assert!(task.metadata.status == TaskStatus::Pending);
}

#[test]
fn numbers_of_tasks_are_random_uuids() {
    let mut engine = DownloadEngine::new();
    let a = engine.create_task(config());
    let b = engine.create_task(config());
    assert_ne!(a, b);
    for id in [a, b] {
        assert_eq!((id >> 76) & 0xf, 4);
        assert_eq!((id >> 62) & 0x3, 2);
    }
}

#[test]
fn unknown_tasks_are_not_found() {
    let mut engine = DownloadEngine::new();
    engine.add_task(7, config());
    assert!(engine.get_task(8).is_none());
    assert_eq!(engine.update_task_config(8, config()), Err(TaskError::NotFound));
    let task = engine.get_task(7).unwrap();
    assert_eq!(engine.replace_task(8, task), Err(TaskError::NotFound));
    assert!(engine.get_task(8).is_none());
    assert_eq!(TaskError::NotFound.message(), "未找到任务");
}

#[test]
fn tasks_do_not_affect_each_other() {
    let mut engine = DownloadEngine::new();
    engine.add_task(7, config());
    engine.add_task(8, config());
    let mut changed = config();
    changed.max_threads = 16;
    changed.limit_bps = None;
    changed.checksum = Some("abc".to_string());
    changed.file_path = "other".to_string();
    changed.method = "PUT".to_string();
    assert_eq!(engine.update_task_config(7, changed), Ok(()));
    let task = engine.get_task(7).unwrap();
    assert_eq!(task.config.max_threads, 16);
    assert_eq!(task.config.checksum, Some("abc".to_string()));
    assert_eq!(task.config.limit_bps, None);
    assert_eq!(task.config.file_path, "f");
    assert_eq!(task.config.method, "GET");
    assert_eq!(task.limiter, Some(RateLimiter { rate_per_sec: 500 }));
    assert!(same_config(&task.metadata.config, &task.config));
    assert!(same_config(&engine.get_task(8).unwrap().config, &config()));
}

#[test]
fn a_new_limit_takes_effect() {
    let mut engine = DownloadEngine::new();
    let mut unlimited = config();
    unlimited.limit_bps = None;
    engine.add_task(1, unlimited.clone());
    assert_eq!(engine.get_task(1).unwrap().limiter, None);
    unlimited.limit_bps = Some(100);
    assert_eq!(engine.update_task_config(1, unlimited.clone()), Ok(()));
    assert_eq!(engine.get_task(1).unwrap().limiter, Some(RateLimiter { rate_per_sec: 100 }));
    unlimited.limit_bps = Some(200);
    assert_eq!(engine.update_task_config(1, unlimited), Ok(()));
    assert_eq!(engine.get_task(1).unwrap().limiter, Some(RateLimiter { rate_per_sec: 200 }));
}

#[test]
fn tasks_end_one_way_or_the_other() {
    let mut engine = DownloadEngine::new();
    engine.add_task(1, config());
    let mut task = engine.get_task(1).unwrap();
    let run = TaskRun::new(config(), vec![]);
    assert_eq!(task.finish(run.end_check().unwrap()), Ok(()));
    assert!(task.status == TaskStatus::Completed && task.metadata.status == TaskStatus::Completed);
    task.fail("HEAD 请求失败");
    assert!(task.status == TaskStatus::Error("HEAD 请求失败".to_string()));
    assert!(task.metadata.status == TaskStatus::Error("HEAD 请求失败".to_string()));
    assert!(task.status != TaskStatus::Error("".to_string()));
    assert_eq!(engine.replace_task(1, task), Ok(()));
    assert!(engine.get_task(1).unwrap().status != TaskStatus::Pending);
}

#[test]
fn requests_about_tasks_are_answered() {
    let mut engine = DownloadEngine::new();
    let reply = create_task(&mut engine, config());
    assert_eq!(reply.status_code(), 201);
    assert_eq!(reply.error_text(), None);
    let id = match reply {
        Reply::Created(id) => id,
        other => panic!("{:?}", other),
    };
    let reply = get_status(&engine, id);
    assert_eq!(reply.status_code(), 200);
    match reply {
        Reply::Status(metadata) => assert!(same_config(&metadata.config, &config())),
        other => panic!("{:?}", other),
    }
    let mut payload = no_changes();
    payload.max_threads = Some(8);
    payload.headers = Some(vec![]);
    payload.limit_bps = Some(900);
    let reply = update_config(&mut engine, id, payload);
    assert_eq!(reply.status_code(), 200);
    match get_status(&engine, id) {
        Reply::Status(metadata) => {
            assert_eq!(metadata.config.max_threads, 8);
            assert!(metadata.config.headers.is_empty());
            assert_eq!(metadata.config.limit_bps, Some(900));
            assert_eq!(metadata.config.auth, config().auth);
            assert_eq!(metadata.config.proxy, config().proxy);
        }
        other => panic!("{:?}", other),
    }
    assert_eq!(engine.get_task(id).unwrap().limiter, Some(RateLimiter { rate_per_sec: 900 }));
}

#[test]
fn requests_about_unknown_tasks_are_refused() {
    let mut engine = DownloadEngine::new();
    let reply = get_status(&engine, 5);
    assert_eq!(reply.status_code(), 404);
    assert_eq!(reply.error_text(), Some("未找到任务".to_string()));
    assert_eq!(update_config(&mut engine, 5, no_changes()).status_code(), 404);
}

#[test]
fn an_empty_change_changes_nothing() {
    let mut engine = DownloadEngine::new();
    engine.add_task(5, config());
    let before = format!("{:?}", engine.get_task(5));
    assert_eq!(update_config(&mut engine, 5, no_changes()).status_code(), 200);
    assert_eq!(format!("{:?}", engine.get_task(5)), before);
}

#[test]
fn every_field_can_be_changed() {
    let mut c = config();
    let payload = UpdateConfigPayload {
        max_threads: Some(9),
        limit_bps: Some(1),
        user_agent: Some("ua".to_string()),
        proxy: Some("http://p".to_string()),
        headers: Some(vec!["B: 2".to_string()]),
        checksum: Some("c".to_string()),
        max_retries: Some(0),
        auth: Some("a:b".to_string()),
    };
    payload.apply(&mut c);
    assert_eq!(c.max_threads, 9);
    assert_eq!(c.limit_bps, Some(1));
    assert_eq!(c.user_agent, Some("ua".to_string()));
    assert_eq!(c.proxy, Some("http://p".to_string()));
    assert_eq!(c.headers, vec!["B: 2".to_string()]);
    assert_eq!(c.checksum, Some("c".to_string()));
    assert_eq!(c.max_retries, 0);
    assert_eq!(c.auth, Some("a:b".to_string()));
    assert_eq!(c.urls, config().urls);
}

#[test]
fn connections_are_as_configured() {
    let options = client_options(&config());
    assert_eq!(options.user_agent, "agent");
    assert!(options.http1_only && options.accept_invalid_certs && options.follow_redirects);
    assert!(!options.compressed);
    assert_eq!((options.connect_timeout_secs, options.timeout_secs), (10, 300));
    assert_eq!(options.proxy, Some("socks5://127.0.0.1:7890".to_string()));
    let mut plain = config();
    plain.user_agent = None;
    assert_eq!(
        client_options(&plain).user_agent,
        "Mozilla/5.0 (Macintosh; Intel Mac OS X 10_15_7) AppleWebKit/537.36 (KHTML, like Gecko) Chrome/120.0.0.0 Safari/537.36"
    );
}

#[test]
fn the_size_is_asked_for_first() {
    assert!(needs_probe(&config()));
    let mut post = config();
    post.method = "POST".to_string();
    assert!(!needs_probe(&post));
    let plan = probe_request(&config());
    assert_eq!(plan.method, "HEAD");
    assert_eq!(plan.url, "http://a.example/f");
    assert_eq!(plan.headers.len(), 1);
    assert_eq!((plan.headers[0].name.as_str(), plan.headers[0].value.as_str()), ("x-test", "1"));
    assert_eq!(plan.auth, Some(("user".to_string(), "password".to_string())));
    assert_eq!(plan.body, None);
}

fn reply(status: u16, length: Option<&str>, ranges: Option<&str>) -> Option<ProbeReply> {
    Some(ProbeReply {
        status,
        content_length: length.map(|s| s.to_string()),
        accept_ranges: ranges.map(|s| s.to_string()),
    })
}

#[test]
fn answers_about_the_size() {
    let info = |total_size, accept_ranges| Ok(ProbeInfo { total_size, accept_ranges });
    assert_eq!(read_probe(&reply(200, Some("1048576"), Some("bytes"))), info(1048576, true));
    assert_eq!(read_probe(&reply(200, Some("+5"), Some("none"))), info(5, false));
    assert_eq!(read_probe(&reply(204, None, None)), info(0, false));
    assert_eq!(read_probe(&reply(200, Some(" 5"), Some("Bytes"))), info(0, false));
    assert_eq!(read_probe(&reply(200, Some("-5"), None)), info(0, false));
    assert_eq!(
        read_probe(&reply(200, Some("18446744073709551615"), None)),
        info(u64::MAX, false)
    );
    assert_eq!(read_probe(&reply(200, Some("18446744073709551616"), None)), info(0, false));
    assert_eq!(read_probe(&reply(301, Some("5"), None)), Err(TaskError::HeadRedirected(301)));
    assert_eq!(read_probe(&reply(403, Some("5"), None)), Err(TaskError::HeadRefused(403)));
    assert_eq!(read_probe(&None), Err(TaskError::HeadUnreachable));
}

#[test]
fn messages_of_tasks() {
    assert_eq!(
        TaskError::HeadRedirected(301).message(),
        "HEAD 请求遇到重定向 (301 Moved Permanently). 请使用 -L 或 --location 参数以允许跟随重定向。"
    );
    assert_eq!(TaskError::HeadRefused(403).message(), "HEAD 请求失败: 403 Forbidden");
    assert_eq!(TaskError::HeadUnreachable.message(), "HEAD 请求失败");
    assert_eq!(
        TaskError::Redirected.message(),
        "任务失败: 检测到重定向 (3xx)。请添加 -L 或 --location 参数以允许跟随重定向。"
    );
    assert_eq!(
        TaskError::ChunkFailed { chunk_id: 12, retries: 11 }.message(),
        "分块 12 失败次数过多 (11)，终止任务。"
    );
    assert_eq!(TaskError::ChecksumMismatch.message(), "校验和不匹配！下载可能已损坏。");
}

#[test]
fn an_earlier_run_is_resumed() {
    let mut engine = DownloadEngine::new();
    engine.add_task(1, config());
    let mut now = engine.get_task(1).unwrap().metadata;
    let mut saved = now.clone();
    saved.id = 99;
    saved.total_size = 300;
    saved.status = TaskStatus::Running;
    saved.chunks = vec![
        ChunkInfo { id: 0, start: 0, end: 99, current: 100, status: ChunkStatus::Completed, retries: 0 },
        ChunkInfo { id: 1, start: 100, end: 199, current: 150, status: ChunkStatus::Downloading, retries: 1 },
        ChunkInfo { id: 2, start: 200, end: 299, current: 200, status: ChunkStatus::Pending, retries: 0 },
    ];
    assert!(now.restore(&saved, true));
    assert_eq!((now.id, now.total_size), (1, 300));
    assert!(now.status == TaskStatus::Pending);
    assert_eq!(now.chunks[0], saved.chunks[0]);
    assert_eq!(now.chunks[1].current, 150);
    assert_eq!(now.chunks[1].status, ChunkStatus::Pending);
    assert_eq!(now.chunks[1].retries, 1);
    assert_eq!(now.chunks[2], saved.chunks[2]);
    assert!(!now.restore(&saved, false));
}

#[test]
fn what_is_remembered_follows_the_task() {
    let mut engine = DownloadEngine::new();
    engine.add_task(1, config());
    let mut m = engine.get_task(1).unwrap().metadata;
    let chunks = vec![ChunkInfo::new(0, 0, 9)];
    m.note_chunks(&chunks);
    assert_eq!(m.chunks, chunks);
    assert!(m.status == TaskStatus::Pending);
    m.note_for_saving(&vec![]);
    assert!(m.chunks.is_empty() && m.status == TaskStatus::Running);
    m.begin(10, &chunks);
    assert_eq!((m.total_size, m.chunks.len()), (10, 1));
    assert!(m.status == TaskStatus::Running);
    m.status = TaskStatus::Completed;
    m.note_for_saving(&chunks);
    assert!(m.status == TaskStatus::Completed);
}

#[test]
fn workers_are_limited_and_links_take_turns() {
    let chunks: Vec<ChunkInfo> = (0..5).map(|i| ChunkInfo::new(i, i as u64 * 10, i as u64 * 10 + 9)).collect();
    let mut run = TaskRun::new(config(), chunks);
    let mut urls = vec![];
    for i in 0..3 {
        let work = run.next_assignment().unwrap();
        assert_eq!((work.position, work.chunk_id, work.worker.id), (i, i, i));
        assert_eq!(work.worker.user_agent, Some("agent".to_string()));
        urls.push(work.url);
    }
    assert!(run.next_assignment().is_none());
    assert_eq!(run.active_workers, 3);
    run.on_worker_done();
    urls.push(run.next_assignment().unwrap().url);
    assert_eq!(urls, vec![
        "http://a.example/f",
        "http://b.example/f",
        "http://a.example/f",
        "http://b.example/f",
    ]);
}

#[test]
fn a_chunk_is_retried_and_then_given_up() {
    let mut run = TaskRun::new(config(), vec![ChunkInfo::new(0, 0, 9), ChunkInfo::new(1, 10, 19)]);
    run.active_workers = 3;
    run.scheduler.chunks[1].current = 15;
    run.scheduler.chunks[1].status = ChunkStatus::Downloading;
    assert_eq!(run.on_worker_failed(1, "读取数据超时 (30s)"), Ok(()));
    assert_eq!(run.scheduler.chunks[1].retries, 1);
    assert_eq!(run.scheduler.chunks[1].status, ChunkStatus::Pending);
    assert_eq!(run.scheduler.chunks[1].current, 15);
    assert_eq!(run.on_worker_failed(1, "读取数据超时 (30s)"), Ok(()));
    assert_eq!(
        run.on_worker_failed(1, "读取数据超时 (30s)"),
        Err(TaskError::ChunkFailed { chunk_id: 1, retries: 3 })
    );
    assert_eq!(run.active_workers, 0);
    assert_eq!(run.scheduler.chunks[0].retries, 0);
}

#[test]
fn failures_of_unknown_chunks_pass() {
    let mut run = TaskRun::new(config(), vec![ChunkInfo::new(0, 0, 9)]);
    run.active_workers = 1;
    assert_eq!(run.on_worker_failed(5, "x"), Ok(()));
    assert_eq!(run.scheduler.chunks[0], ChunkInfo::new(0, 0, 9));
}

#[test]
fn a_redirect_ends_the_task() {
    let mut run = TaskRun::new(config(), vec![ChunkInfo::new(0, 0, 9)]);
    run.active_workers = 1;
    assert_eq!(
        run.on_worker_failed(0, "HEAD 请求遇到重定向 (302 Found)"),
        Err(TaskError::Redirected)
    );
    assert_eq!(run.scheduler.chunks[0].retries, 0);
}

#[test]
fn a_task_is_finished_when_all_is_done() {
    let mut run = TaskRun::new(config(), vec![ChunkInfo::new(0, 0, 9), ChunkInfo::new(1, 10, 19)]);
    assert!(!run.is_finished());
    assert_eq!(run.wait_millis(), 100);
    while let Some(work) = run.next_assignment() {
        let p = work.position;
        let mut stream = ChunkStream::new(&run.scheduler.chunks[p]);
        assert_eq!(
            run.on_stream_event(p, &mut stream, StreamEvent::Status(206)),
            StreamAction::Read
        );
        assert_eq!(
            run.on_stream_event(p, &mut stream, StreamEvent::Data(64)),
            StreamAction::Write(10)
        );
        assert_eq!(
            run.on_stream_event(p, &mut stream, StreamEvent::Written(10)),
            StreamAction::Done
        );
        assert!(!run.is_finished());
        assert_eq!(run.wait_millis(), 500);
        run.on_worker_done();
    }
    assert!(run.is_finished());
    assert_eq!(run.scheduler.chunks.len(), 2);
    assert!(TaskRun::new(config(), vec![]).is_finished());
}

#[test]
fn a_running_task_follows_its_configuration() {
    let mut run = TaskRun::new(config(), vec![]);
    let mut live = config();
    live.max_threads = 9;
    live.user_agent = None;
    live.headers = vec![];
    live.auth = None;
    live.checksum = Some("c".to_string());
    live.max_retries = 77;
    live.proxy = None;
    live.limit_bps = None;
    live.urls = vec![];
    run.sync_config(&live);
    assert_eq!(run.config.max_threads, 9);
    assert_eq!(run.config.user_agent, None);
    assert!(run.config.headers.is_empty());
    assert_eq!(run.config.auth, None);
    assert_eq!(run.config.checksum, Some("c".to_string()));
    assert_eq!(run.config.max_retries, 77);
    assert_eq!(run.config.proxy, config().proxy);
    assert_eq!(run.config.limit_bps, Some(500));
    assert_eq!(run.config.urls, config().urls);
}

#[test]
fn the_state_is_saved_every_two_seconds() {
    assert!(!save_due(0, 999_999_999));
    assert!(!save_due(2, 0));
    assert!(save_due(2, 1));
    assert!(save_due(3, 0));
}

#[test]
fn limits_are_kept() {
    let mut limiter = RateLimiter::new(100);
    assert_eq!(limiter.acquire(0, 0), Acquire::Nothing);
    assert_eq!(limiter.acquire(50, 50), Acquire::Take);
    assert_eq!(limiter.acquire(51, 50), Acquire::Wait { per_second: 100 });
    assert_eq!(limiter.acquire(100, 5000), Acquire::Take);
    assert_eq!(limiter.acquire(101, 5000), Acquire::Wait { per_second: 100 });
    limiter.set_rate(200);
    assert_eq!(limiter.acquire(101, 5000), Acquire::Take);
    limiter.set_rate(0);
    assert_eq!(limiter.acquire(1, 5000), Acquire::Wait { per_second: 1 });
}

/// Ends a task that has nothing to download, or what `data` says.
fn end(checksum: Option<&str>, data: &[&[u8]]) -> (Result<(), TaskError>, TaskHandle) {
    let mut c = config();
    c.checksum = checksum.map(|s| s.to_string());
    let mut task = TaskHandle::new(1, c.clone());
    let mut check = TaskRun::new(c, vec![]).end_check().unwrap();
    for piece in data {
        check = check.feed(piece);
    }
    let r = task.finish(check);
    (r, task)
}

#[test]
fn an_empty_file_is_checked_like_any_other() {
    let (r, task) = end(Some("00000000000000000000000000000000"), &[]);
    assert_eq!(r, Err(TaskError::ChecksumMismatch));
    let told = TaskStatus::Error("校验和不匹配！下载可能已损坏。".to_string());
    assert!(task.status == told && task.metadata.status == told);
    let (r, task) = end(Some("D41D8CD98F00B204E9800998ECF8427E"), &[]);
    assert_eq!(r, Ok(()));
    assert!(task.status == TaskStatus::Completed && task.metadata.status == TaskStatus::Completed);
}

#[test]
fn a_task_is_completed_only_if_its_file_passes() {
    for good in [
        "900150983cd24fb0d6963f7d28e17f72",
        "A9993E364706816ABA3E25717850C26C9CD0D89D",
        "ba7816bf8f01cfea414140de5dae2223b00361a396177a9cb410ff61f20015ad",
    ] {
        let (r, task) = end(Some(good), &[b"a", b"bc"]);
        assert_eq!(r, Ok(()));
        assert!(task.status == TaskStatus::Completed);
        let (r, task) = end(Some(good), &[b"abd"]);
        assert_eq!(r, Err(TaskError::ChecksumMismatch));
        assert!(task.status != TaskStatus::Completed && task.metadata.status != TaskStatus::Completed);
    }
    assert_eq!(end(Some("abc"), &[b"abc"]).0, Err(TaskError::ChecksumMismatch));
    assert_eq!(end(None, &[b"anything"]).0, Ok(()));
}

#[test]
fn the_file_is_read_only_where_it_matters() {
    let mut c = config();
    let reads = |c: DownloadTaskConfig| TaskRun::new(c, vec![]).end_check().unwrap().reads_file();
    assert!(!reads(c.clone()));
    c.checksum = Some("abc".to_string());
    assert!(!reads(c.clone()));
    c.checksum = Some("a".repeat(40));
    assert!(reads(c));
}

#[test]
fn an_unfinished_task_cannot_end() {
    let mut run = TaskRun::new(config(), vec![ChunkInfo::new(0, 0, 9)]);
    assert!(run.end_check().is_none());
    run.scheduler.chunks[0].status = ChunkStatus::Completed;
    run.active_workers = 1;
    assert!(run.end_check().is_none());
    run.on_worker_done();
    assert!(run.end_check().is_some());
}

#[test]
fn a_full_chunk_of_an_earlier_run_is_completed() {
    let full = ChunkInfo { id: 0, start: 0, end: 9, current: 10, status: ChunkStatus::Downloading, retries: 0 };
    let mut saved = TaskHandle::new(1, config()).metadata;
    saved.begin(10, &vec![full]);
    let mut now = TaskHandle::new(2, config()).metadata;
    assert!(now.restore(&saved, true));
    assert_eq!(now.chunks[0].status, ChunkStatus::Completed);
    let mut run = TaskRun::new(config(), now.chunks);
    assert!(run.next_assignment().is_none());
    let mut task = TaskHandle::new(2, config());
    assert_eq!(task.finish(run.end_check().unwrap()), Ok(()));
    assert!(task.status == TaskStatus::Completed);
}

#[test]
fn a_full_chunk_is_settled_by_its_worker() {
    let full = ChunkInfo { id: 0, start: 0, end: 9, current: 12, status: ChunkStatus::Pending, retries: 0 };
    let mut run = TaskRun::new(config(), vec![full]);
    let work = run.next_assignment().unwrap();
    let chunk = run.scheduler.chunks[0];
    assert!(work.worker.request(&chunk, &work.url).is_none());
    let mut stream = ChunkStream::new(&chunk);
    assert_eq!(run.on_stream_event(0, &mut stream, StreamEvent::End), StreamAction::Done);
    run.on_worker_done();
    assert!(run.is_finished());
}

#[test]
fn a_new_rate_keeps_the_tokens() {
    // 30 tokens were saved; two seconds at the new rate of 20 would bring 40 more.
    let mut limiter = RateLimiter::new(100);
    limiter.set_rate(20);
    assert_eq!(limiter.acquire(20, 30 + 40), Acquire::Take);
    assert_eq!(limiter.acquire(21, 30 + 40), Acquire::Wait { per_second: 20 });
    limiter.set_rate(100);
    assert_eq!(limiter.acquire(70, 30 + 40), Acquire::Take);
    assert_eq!(limiter.acquire(71, 30 + 40), Acquire::Wait { per_second: 100 });
}

#[test]
fn limits_hold_over_many_requests() {
    // A bucket that is kept by whole seconds: the rates change on the way.
    let (mut tokens, mut taken, mut come_in) = (0u64, 0u64, 0u64);
    for i in 0..1000u64 {
        let rate = 50 + (i / 100) * 10;
        let limiter = RateLimiter::new(rate);
        come_in += rate;
        tokens = (tokens + rate).min(rate);
        let amount = (i * 37) % 160;
        if limiter.acquire(amount, tokens) == Acquire::Take {
            tokens -= amount;
            taken += amount;
        }
        assert!(taken + tokens <= come_in);
    }
    assert!(taken > 0);
}
