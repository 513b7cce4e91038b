use rurl::errors::WorkerError;
use rurl::types::{ChunkInfo, ChunkStatus};
use rurl::worker::{
    request_method, ChunkStream, RequestPlan, StreamAction, StreamEvent, Worker, STALL_SECS,
};

fn worker(headers: Vec<&str>, method: &str) -> Worker {
    Worker::new(
        2,
        "file.zip".to_string(),
        Some("RurlTestAgent/1.0".to_string()),
        headers.iter().map(|h| h.to_string()).collect(),
        Some("user:pass:word".to_string()),
        method.to_string(),
        Some("field1=value1&field2=value2".to_string()),
    )
}

fn lines(plan: &RequestPlan) -> Vec<(String, String)> {
    plan.headers.iter().map(|h| (h.name.clone(), h.value.clone())).collect()
}

fn pair(name: &str, value: &str) -> (String, String) {
    (name.to_string(), value.to_string())
}

fn at_work(start: u64, end: u64, current: u64) -> (ChunkStream, ChunkInfo) {
    let mut chunk = ChunkInfo::new(0, start, end);
    chunk.current = current;
    chunk.status = ChunkStatus::Downloading;
    (ChunkStream::new(&chunk), chunk)
}

#[test]
fn a_worker_keeps_what_it_is_given() {
    let w = worker(vec!["A: b"], "PUT");
    assert_eq!(w.id, 2);
    assert_eq!(w.file_path, "file.zip");
    assert_eq!(w.method, "PUT");
    assert_eq!(w.headers, vec!["A: b".to_string()]);
}

#[test]
fn a_request_asks_for_what_is_left() {
    let w = worker(vec!["X-Test-Header: MyValue", "no header", "X-Another: 123"], "GET");
    let mut chunk = ChunkInfo::new(1, 100, 199);
    chunk.current = 150;
    let plan = w.request(&chunk, "http://example.com/a").unwrap();
    assert_eq!(plan.method, "GET");
    assert_eq!(plan.url, "http://example.com/a");
    assert_eq!(lines(&plan), vec![
        pair("referer", "https://im.qq.com/"),
        pair("accept", "*/*"),
        pair("range", "bytes=150-199"),
        pair("user-agent", "RurlTestAgent/1.0"),
        pair("x-test-header", "MyValue"),
        pair("x-another", "123"),
    ]);
    assert_eq!(plan.auth, Some(pair("user", "pass:word")));
    assert_eq!(plan.body, Some("field1=value1&field2=value2".to_string()));
}

#[test]
fn a_request_of_unknown_length_has_no_end() {
    let w = Worker::new(0, "f".to_string(), None, vec![], None, "POST".to_string(), None);
    let mut chunk = ChunkInfo::new(0, 0, u64::MAX);
    let plan = w.request(&chunk, "http://example.com/a").unwrap();
    assert_eq!(lines(&plan), vec![
        pair("referer", "https://im.qq.com/"),
        pair("accept", "*/*"),
    ]);
    assert_eq!(plan.method, "POST");
    assert_eq!(plan.auth, None);
    assert_eq!(plan.body, None);
    chunk.current = 1024;
    let plan = w.request(&chunk, "http://example.com/a").unwrap();
    assert_eq!(lines(&plan)[2], pair("range", "bytes=1024-"));
}

#[test]
fn nothing_is_asked_for_when_nothing_is_left() {
    let w = worker(vec![], "GET");
    let mut chunk = ChunkInfo::new(1, 100, 199);
    chunk.current = 200;
    assert!(w.request(&chunk, "http://example.com/a").is_none());
    chunk.current = 199;
    assert!(w.request(&chunk, "http://example.com/a").is_some());
}

#[test]
fn methods_by_name() {
    for name in ["GET", "POST", "PUT", "HEAD", "DELETE", "PATCH", "post", "X-Odd~1", "!"] {
        assert_eq!(request_method(name), name);
    }
    let long = "A".repeat(100);
    assert_eq!(request_method(&long), long);
    for name in ["", "TWO WORDS", "GÉT", "A:B", "(A)", "A\n"] {
        assert_eq!(request_method(name), "GET");
    }
}

#[test]
fn the_method_asked_for_is_sent() {
    let w = Worker::new(0, "f".to_string(), None, vec![], None, "DELETE".to_string(), None);
    let plan = w.request(&ChunkInfo::new(0, 0, u64::MAX), "http://example.com/a").unwrap();
    assert_eq!(plan.method, "DELETE");
}

#[test]
fn the_status_decides() {
    let (mut stream, mut chunk) = at_work(0, 9, 0);
    let mut act = |status: u16| {
        Worker::download_chunk(&mut stream, &mut chunk, StreamEvent::Status(status))
    };
    assert_eq!(act(200), StreamAction::Read);
    assert_eq!(act(206), StreamAction::Read);
    assert_eq!(act(299), StreamAction::Read);
    assert_eq!(act(302), StreamAction::Fail(WorkerError::Redirected(302)));
    assert_eq!(act(404), StreamAction::Fail(WorkerError::Refused(404)));
    assert_eq!(act(100), StreamAction::Fail(WorkerError::Refused(100)));
    assert_eq!(act(503), StreamAction::Fail(WorkerError::Refused(503)));
    assert_eq!(chunk, at_work(0, 9, 0).1);
}

#[test]
fn pieces_fill_a_chunk() {
    let (mut stream, mut chunk) = at_work(100, 109, 100);
    let a = Worker::download_chunk(&mut stream, &mut chunk, StreamEvent::Data(4));
    assert_eq!(a, StreamAction::Write(4));
    let a = Worker::download_chunk(&mut stream, &mut chunk, StreamEvent::Written(4));
    assert_eq!(a, StreamAction::Read);
    assert_eq!((stream.offset, chunk.current), (104, 104));
    let a = Worker::download_chunk(&mut stream, &mut chunk, StreamEvent::Data(50));
    assert_eq!(a, StreamAction::Write(6));
    let a = Worker::download_chunk(&mut stream, &mut chunk, StreamEvent::Written(6));
    assert_eq!(a, StreamAction::Done);
    assert_eq!(chunk.current, 110);
    assert_eq!(chunk.status, ChunkStatus::Completed);
}

#[test]
fn a_split_shortens_what_is_written() {
    let (mut stream, mut chunk) = at_work(0, 99, 0);
    Worker::download_chunk(&mut stream, &mut chunk, StreamEvent::Data(10));
    Worker::download_chunk(&mut stream, &mut chunk, StreamEvent::Written(10));
    chunk.end = 14;
    let a = Worker::download_chunk(&mut stream, &mut chunk, StreamEvent::Data(10));
    assert_eq!(a, StreamAction::Write(5));
    let a = Worker::download_chunk(&mut stream, &mut chunk, StreamEvent::Written(5));
    assert_eq!(a, StreamAction::Done);
    assert_eq!(chunk.status, ChunkStatus::Completed);
}

#[test]
fn a_worker_beyond_the_end_stops() {
    let (mut stream, mut chunk) = at_work(0, 99, 0);
    Worker::download_chunk(&mut stream, &mut chunk, StreamEvent::Data(60));
    chunk.end = 49;
    let a = Worker::download_chunk(&mut stream, &mut chunk, StreamEvent::Written(60));
    assert_eq!(a, StreamAction::Read);
    assert_eq!(chunk.status, ChunkStatus::Downloading);
    let a = Worker::download_chunk(&mut stream, &mut chunk, StreamEvent::Data(10));
    assert_eq!(a, StreamAction::Done);
    assert_eq!(chunk.current, 60);
    assert_eq!(chunk.status, ChunkStatus::Completed);
}

#[test]
fn a_stream_that_ends_early_leaves_the_chunk_open() {
    let (mut stream, mut chunk) = at_work(0, 99, 40);
    let a = Worker::download_chunk(&mut stream, &mut chunk, StreamEvent::End);
    assert_eq!(a, StreamAction::Done);
    assert_eq!(chunk.status, ChunkStatus::Downloading);
    assert_eq!(chunk.current, 40);
}

#[test]
fn a_stream_of_unknown_length_ends_when_it_ends() {
    let (mut stream, mut chunk) = at_work(0, u64::MAX, 0);
    let a = Worker::download_chunk(&mut stream, &mut chunk, StreamEvent::Data(70000));
    assert_eq!(a, StreamAction::Write(70000));
    let a = Worker::download_chunk(&mut stream, &mut chunk, StreamEvent::Written(70000));
    assert_eq!(a, StreamAction::Read);
    let a = Worker::download_chunk(&mut stream, &mut chunk, StreamEvent::End);
    assert_eq!(a, StreamAction::Done);
    assert_eq!(chunk.status, ChunkStatus::Completed);
    assert_eq!(chunk.current, 70000);
}

#[test]
fn failures_keep_what_is_there() {
    let (mut stream, mut chunk) = at_work(0, 99, 40);
    let a = Worker::download_chunk(&mut stream, &mut chunk, StreamEvent::Stalled);
    assert_eq!(a, StreamAction::Fail(WorkerError::Stalled));
    assert_eq!((chunk.status, chunk.current), (ChunkStatus::Pending, 40));
    let (mut stream, mut chunk) = at_work(0, 99, 40);
    let a = Worker::download_chunk(&mut stream, &mut chunk, StreamEvent::Failed);
    assert_eq!(a, StreamAction::Pass);
    assert_eq!((chunk.status, chunk.current), (ChunkStatus::Pending, 40));
}

#[test]
fn messages_of_workers() {
    assert_eq!(
        WorkerError::Redirected(302).message(),
        "检测到重定向 (302 Found)。请使用 -L 或 --location 参数以允许跟随重定向。"
    );
    assert_eq!(WorkerError::Refused(404).message(), "请求失败，状态码: 404 Not Found");
    assert_eq!(
        WorkerError::Refused(799).message(),
        "请求失败，状态码: 799 <unknown status code>"
    );
    assert_eq!(WorkerError::Stalled.message(), format!("读取数据超时 ({}s)", STALL_SECS));
    assert_eq!(STALL_SECS, 30);
}
