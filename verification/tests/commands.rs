use rurl::cli::{links_from_lines, normalize_urls, parse_size, size_error, Size};
use rurl::command::{
    answers_yes, existing_file, is_text, remote_file_name, CommandLine, Existing, RunMode,
};
use rurl::headers::{credentials, custom_headers, last_headers};

fn command(urls: Vec<&str>) -> CommandLine {
    CommandLine {
        urls: urls.iter().map(|u| u.to_string()).collect(),
        output: None,
        remote_name: false,
        max_threads: 4,
        min_chunk_size: 1048576,
        no_dynamic_split: false,
        limit_bps: None,
        server: false,
        user_agent: None,
        proxy: None,
        header: vec![],
        checksum: None,
        max_retries: 10,
        auth: None,
        force: false,
        data: None,
        json: None,
        method: None,
        insecure: false,
        location: false,
        compressed: false,
        head: false,
        include_headers: false,
    }
}

fn strings(list: &[&str]) -> Vec<String> {
    list.iter().map(|s| s.to_string()).collect()
}

fn bytes(text: &str) -> u64 {
    match parse_size(text) {
        Size::Bytes(n) => n,
        other => panic!("{:?}", other),
    }
}

fn scaled(text: &str) -> (String, u64) {
    match parse_size(text) {
        Size::Scaled { number, multiplier } => (number, multiplier),
        other => panic!("{:?}", other),
    }
}

#[test]
fn sizes_with_units() {
    assert_eq!(bytes("1024"), 1024);
    assert_eq!(bytes("512k"), 524288);
    assert_eq!(bytes("512KB"), 524288);
    assert_eq!(bytes("5m"), 5242880);
    assert_eq!(bytes("1M"), 1048576);
    assert_eq!(bytes("1mB"), 1048576);
    assert_eq!(bytes("2g"), 2147483648);
    assert_eq!(bytes(" 2 gb "), 2147483648);
    assert_eq!(bytes("500k"), 512000);
    assert_eq!(bytes("007"), 7);
    assert_eq!(bytes("0"), 0);
}

#[test]
fn sizes_that_are_too_large() {
    assert_eq!(bytes("9007199254740992"), 9007199254740992);
    assert_eq!(bytes("9007199254740992g"), u64::MAX);
    assert_eq!(bytes("17179869183g"), 17179869183 * 1073741824);
    assert_eq!(bytes("17179869184g"), u64::MAX);
}

#[test]
fn sizes_that_are_no_whole_numbers() {
    assert_eq!(scaled("1.5m"), ("1.5".to_string(), 1048576));
    assert_eq!(scaled("9007199254740993"), ("9007199254740993".to_string(), 1));
    assert_eq!(scaled("-1k"), ("-1".to_string(), 1024));
    assert_eq!(scaled("10b"), ("10b".to_string(), 1));
    assert_eq!(scaled("kb"), ("".to_string(), 1024));
    assert_eq!(scaled(""), ("".to_string(), 1));
    assert_eq!(size_error("  x1 "), "无效的大小格式: x1");
}

#[test]
fn links_get_a_scheme() {
    let list = strings(&[
        "example.com/file.zip",
        " 'https://example.com/a' ",
        "\"http://b\"",
        "`socks5://c`",
        "''",
        "   ",
        "HTTP://d",
    ]);
    assert_eq!(normalize_urls(&list), strings(&[
        "http://example.com/file.zip",
        "https://example.com/a",
        "http://b",
        "socks5://c",
        "http://HTTP://d",
    ]));
}

#[test]
fn links_come_in_lines() {
    let lines = strings(&["  http://a \r", "", "\u{3000}", "b"]);
    assert_eq!(links_from_lines(&lines), strings(&["http://a", "b"]));
}

#[test]
fn what_a_command_line_does() {
    assert!(matches!(command(vec![]).run_mode(), RunMode::Help));
    let mut serve = command(vec![]);
    serve.server = true;
    assert!(matches!(serve.run_mode(), RunMode::Serve));
    assert!(matches!(command(vec!["''", " "]).run_mode(), RunMode::NoLink));
    match command(vec!["a"]).run_mode() {
        RunMode::Download(urls) => assert_eq!(urls, strings(&["http://a"])),
        other => panic!("{:?}", other),
    }
    let mut shown = command(vec!["a"]);
    shown.include_headers = true;
    match shown.run_mode() {
        RunMode::Stream(url) => assert_eq!(url, "http://a"),
        other => panic!("{:?}", other),
    }
    let mut piped = command(vec!["a", "b"]);
    piped.output = Some("-".to_string());
    assert!(matches!(piped.run_mode(), RunMode::TooManyLinks));
    piped.urls = strings(&["b"]);
    match piped.run_mode() {
        RunMode::Stream(url) => assert_eq!(url, "http://b"),
        other => panic!("{:?}", other),
    }
    let mut head = command(vec!["''", "a", "b"]);
    head.head = true;
    match head.run_mode() {
        RunMode::Head(url) => assert_eq!(url, "http://a"),
        other => panic!("{:?}", other),
    }
    let mut file = command(vec!["a", "b"]);
    file.output = Some("f".to_string());
    match file.run_mode() {
        RunMode::Download(urls) => assert_eq!(urls, strings(&["http://a", "http://b"])),
        other => panic!("{:?}", other),
    }
}

#[test]
fn where_the_output_goes() {
    let mut c = command(vec!["a"]);
    assert!(!c.stdout_mode() && !c.explicit_stdout());
    c.output = Some("-".to_string());
    c.server = true;
    assert!(c.stdout_mode() && c.explicit_stdout());
    c.include_headers = true;
    c.output = Some("./-".to_string());
    assert!(!c.stdout_mode() && !c.explicit_stdout());
    c.output = None;
    assert!(!c.stdout_mode());
    c.server = false;
    assert!(c.stdout_mode() && !c.explicit_stdout());
    c.remote_name = true;
    assert!(!c.stdout_mode());
}

#[test]
fn data_is_posted_as_a_form() {
    let mut c = command(vec!["a"]);
    c.data = Some("field1=value1&field2=value2".to_string());
    let config = c.task_config(strings(&["http://a"]), "f".to_string());
    assert_eq!(config.method, "POST");
    assert_eq!(config.body, Some("field1=value1&field2=value2".to_string()));
    assert_eq!(config.headers, strings(&["Content-Type: application/x-www-form-urlencoded"]));
    c.header = strings(&["X: y", "CONTENT-type: text/plain"]);
    c.method = Some("PUT".to_string());
    let config = c.task_config(strings(&["http://a"]), "f".to_string());
    assert_eq!(config.method, "PUT");
    assert_eq!(config.headers, c.header);
}

#[test]
fn json_is_posted_as_json() {
    let mut c = command(vec!["a"]);
    c.json = Some("{\"key\": \"value\", \"num\": 123}".to_string());
    c.data = Some("other".to_string());
    c.header = strings(&["Content-Type: text/plain"]);
    c.method = Some("GET".to_string());
    let config = c.task_config(strings(&["http://a"]), "f".to_string());
    assert_eq!(config.method, "POST");
    assert_eq!(config.body, c.json);
    assert_eq!(config.headers, strings(&[
        "Content-Type: text/plain",
        "Content-Type: application/json",
    ]));
}

#[test]
fn a_plain_command_line_gets() {
    let mut c = command(vec!["a"]);
    c.no_dynamic_split = true;
    c.limit_bps = Some(5);
    c.checksum = Some("c".to_string());
    c.insecure = true;
    let config = c.task_config(strings(&["http://a"]), "f".to_string());
    assert_eq!(config.method, "GET");
    assert_eq!(config.body, None);
    assert!(config.headers.is_empty());
    assert_eq!(config.file_path, "f");
    assert_eq!(config.urls, strings(&["http://a"]));
    assert_eq!((config.max_threads, config.min_chunk_size, config.max_retries), (4, 1048576, 10));
    assert!(!config.dynamic_split && config.insecure && !config.location && !config.compressed);
    assert_eq!(config.limit_bps, Some(5));
    assert_eq!(config.checksum, Some("c".to_string()));
}

#[test]
fn a_request_for_headers() {
    let mut c = command(vec!["a"]);
    c.header = strings(&["X-A: 1", "x-a: 2", "bad name: 3"]);
    c.auth = Some("user:password".to_string());
    c.data = Some("d".to_string());
    let plan = c.head_request("http://a");
    assert_eq!(plan.method, "HEAD");
    assert_eq!(plan.url, "http://a");
    assert_eq!(plan.headers.len(), 2);
    assert_eq!(plan.auth, Some(("user".to_string(), "password".to_string())));
    assert_eq!(plan.body, None);
}

#[test]
fn a_request_for_the_standard_output() {
    let mut c = command(vec!["a"]);
    c.header = strings(&["X-A: 1", "x-b: 2", "x-a: 3"]);
    c.json = Some("{}".to_string());
    let plan = c.stream_request("http://a");
    assert_eq!(plan.method, "POST");
    assert_eq!(plan.body, Some("{}".to_string()));
    let lines: Vec<(&str, &str)> =
        plan.headers.iter().map(|h| (h.name.as_str(), h.value.as_str())).collect();
    assert_eq!(lines, vec![
        ("x-b", "2"),
        ("x-a", "3"),
        ("content-type", "application/json"),
    ]);
    c.method = Some("PATCH".to_string());
    assert_eq!(c.stream_request("http://a").method, "PATCH");
    let plan = command(vec!["a"]).stream_request("http://a");
    assert_eq!(plan.method, "GET");
    assert_eq!(plan.body, None);
}

#[test]
fn names_from_links() {
    let mut c = command(vec!["a"]);
    c.remote_name = true;
    let name = |url: &str| c.output_path(&strings(&[url]));
    assert_eq!(name("https://example.com/file.zip"), "file.zip");
    assert_eq!(name("https://example.com/a/b/file.zip?x=/y#z"), "file.zip");
    assert_eq!(name("https://example.com/a b"), "a%20b");
    assert_eq!(name("https://example.com/dir/"), "downloaded_file");
    assert_eq!(name("https://example.com"), "downloaded_file");
    assert_eq!(name("socks5://example.com"), "downloaded_file");
    assert_eq!(name("http://[bad/x/file.bin?q=1"), "file.bin");
    assert_eq!(name("http://[bad/"), "downloaded_file");
    c.output = Some("./downloads/game.zip".to_string());
    assert_eq!(c.output_path(&vec![]), "./downloads/game.zip");
}

#[test]
fn names_from_paths() {
    let path = |p: &str| Some(p.to_string());
    assert_eq!(remote_file_name("x", &path("/a/b.zip")), "b.zip");
    assert_eq!(remote_file_name("x", &path("/")), "downloaded_file");
    assert_eq!(remote_file_name("x", &path("")), "downloaded_file");
    assert_eq!(remote_file_name("x", &path("a/b")), "downloaded_file");
    assert_eq!(remote_file_name("a/b?c", &None), "b");
    assert_eq!(remote_file_name("a/?c", &None), "");
    assert_eq!(remote_file_name("a/", &None), "downloaded_file");
}

#[test]
fn files_of_earlier_runs() {
    assert_eq!(existing_file(false, false, false), Existing::Start);
    assert_eq!(existing_file(false, true, true), Existing::Start);
    assert_eq!(existing_file(true, true, false), Existing::Resume);
    assert_eq!(existing_file(true, true, true), Existing::Restart);
    assert_eq!(existing_file(true, false, true), Existing::Overwrite);
    assert_eq!(existing_file(true, false, false), Existing::Ask);
    assert!(answers_yes(" y\n"));
    assert!(answers_yes("Y\r\n"));
    assert!(!answers_yes("yes"));
    assert!(!answers_yes(""));
}

#[test]
fn terminals_are_spared() {
    let mut c = command(vec!["a"]);
    assert!(c.spares_terminal(true, "application/octet-stream"));
    assert!(!c.spares_terminal(false, "application/octet-stream"));
    assert!(!c.spares_terminal(true, "text/html; charset=utf-8"));
    c.output = Some("-".to_string());
    assert!(!c.spares_terminal(true, "application/octet-stream"));
    assert!(is_text(""));
    assert!(is_text("application/json"));
    assert!(is_text("application/xhtml+xml"));
    assert!(is_text("application/javascript"));
    assert!(!is_text("image/png"));
    assert!(!is_text("Text/plain"));
}

#[test]
fn header_lines() {
    let lines = custom_headers(&strings(&[
        "Authorization: Bearer token",
        "X-Empty:",
        " X-Trim :  a b  ",
        "no colon",
        "bad name: x",
        ": no name",
        "X-Bad: a\u{7}b",
        "X-Tab: a\tb",
        "X-Colon: a:b",
        "X-Wide: é",
    ]));
    let lines: Vec<(&str, &str)> =
        lines.iter().map(|h| (h.name.as_str(), h.value.as_str())).collect();
    assert_eq!(lines, vec![
        ("authorization", "Bearer token"),
        ("x-empty", ""),
        ("x-trim", "a b"),
        ("x-tab", "a\tb"),
        ("x-colon", "a:b"),
        ("x-wide", "é"),
    ]);
}

#[test]
fn the_length_of_header_names_is_limited() {
    let most = format!("{}: x", "a".repeat(65535));
    let more = format!("{}: x", "a".repeat(65536));
    assert_eq!(custom_headers(&vec![most]).len(), 1);
    assert_eq!(custom_headers(&vec![more]).len(), 0);
}

#[test]
fn the_last_header_of_a_name_counts() {
    let lines = custom_headers(&strings(&["A: 1", "B: 2", "a: 3", "C: 4", "b: 5"]));
    let lines: Vec<(String, String)> =
        last_headers(&lines).into_iter().map(|h| (h.name, h.value)).collect();
    assert_eq!(lines, vec![
        ("a".to_string(), "3".to_string()),
        ("c".to_string(), "4".to_string()),
        ("b".to_string(), "5".to_string()),
    ]);
}

#[test]
fn credentials_are_split_at_the_first_colon() {
    let read = |s: &str| credentials(&Some(s.to_string()));
    assert_eq!(read("user:password"), Some(("user".to_string(), "password".to_string())));
    assert_eq!(read("user:a:b"), Some(("user".to_string(), "a:b".to_string())));
    assert_eq!(read(":"), Some(("".to_string(), "".to_string())));
    assert_eq!(read("user"), None);
    assert_eq!(credentials(&None), None);
}
