//! What can go wrong, and what the user is told.
use crate::text::{
    decimal, decimal_text, joined, law_numbers_are_written_as_they_read, reads_as,
};
use vstd::prelude::*;
use vstd::string::*;

verus! {

/// A status of the 2xx class.
pub open spec fn is_success(status: u16) -> bool {
    200 <= status < 300
}

/// A status of the 3xx class.
pub open spec fn is_redirection(status: u16) -> bool {
    300 <= status < 400
}

/// The standard phrase for a status, where it has one.
pub uninterp spec fn canonical_reason(status: u16) -> Option<Seq<char>>;

/// Calls `StatusCode::canonical_reason` of the `http` crate, which `reqwest`
/// hands on. Trusted: the phrase is a function of the status alone; a number
/// that is no status has none. Which phrase belongs to which status is left to
/// the name `canonical_reason`.
#[verifier::external_body]
fn reason_phrase(status: u16) -> (phrase: Option<String>)
    ensures
        crate::text::opt_text(phrase) == canonical_reason(status),
{
    match reqwest::StatusCode::from_u16(status) {
        Ok(code) => code.canonical_reason().map(|phrase| phrase.to_owned()),
        Err(_) => None,
    }
}

/// A status as it is shown: the number, then the phrase.
pub open spec fn status_shown(status: u16) -> Seq<char> {
    decimal(status as nat) + " "@ + match canonical_reason(status) {
        Some(phrase) => phrase,
        None => "<unknown status code>"@,
    }
}

/// A status as it is shown.
fn status_text(status: u16) -> (r: String)
    ensures
        r@ == status_shown(status),
{
    let number = decimal_text(status as u64).concat(" ");
    match reason_phrase(status) {
        Some(phrase) => number.concat(phrase.as_str()),
        None => number.concat("<unknown status code>"),
    }
}

/// Why a request of a worker came to nothing.
#[derive(Debug, Clone, Copy, PartialEq, Eq, Structural)]
pub enum WorkerError {
    /// The server redirects, and redirects are not followed.
    Redirected(u16),
    /// The server answers with another status than success.
    Refused(u16),
    /// No data came for thirty seconds.
    Stalled,
}

impl WorkerError {
    /// The message, as a value.
    pub open spec fn text(self) -> Seq<char> {
        match self {
            WorkerError::Redirected(status) => "检测到重定向 ("@ + status_shown(status)
                + ")。请使用 -L 或 --location 参数以允许跟随重定向。"@,
            WorkerError::Refused(status) => "请求失败，状态码: "@ + status_shown(status),
            WorkerError::Stalled => "读取数据超时 (30s)"@,
        }
    }

    /// The message for the user.
    pub fn message(&self) -> (r: String)
        ensures
            r@ == self.text(),
    {
        match self {
            WorkerError::Redirected(status) => joined(
                "检测到重定向 (",
                status_text(*status).as_str(),
            ).concat(")。请使用 -L 或 --location 参数以允许跟随重定向。"),
            WorkerError::Refused(status) => joined(
                "请求失败，状态码: ",
                status_text(*status).as_str(),
            ),
            WorkerError::Stalled => "读取数据超时 (30s)".to_owned(),
        }
    }
}

/// Why a task fails.
#[derive(Debug, Clone, Copy, PartialEq, Eq, Structural)]
pub enum TaskError {
    /// The size of the file was asked for, and the server redirects.
    HeadRedirected(u16),
    /// The size of the file was asked for, and the server refuses.
    HeadRefused(u16),
    /// The size of the file was asked for, and no answer came.
    HeadUnreachable,
    /// A message about a chunk speaks of a redirect in the words of
    /// [`TaskError::HeadRedirected`]; those of [`WorkerError::Redirected`] are others.
    Redirected,
    /// A chunk failed more often than is allowed.
    ChunkFailed { chunk_id: usize, retries: u32 },
    /// The file is not the one that was expected.
    ChecksumMismatch,
    /// There is no such task.
    NotFound,
}

impl TaskError {
    /// The message, as a value.
    pub open spec fn text(self) -> Seq<char> {
        match self {
            TaskError::HeadRedirected(status) => "HEAD 请求遇到重定向 ("@ + status_shown(status)
                + "). 请使用 -L 或 --location 参数以允许跟随重定向。"@,
            TaskError::HeadRefused(status) => "HEAD 请求失败: "@ + status_shown(status),
            TaskError::HeadUnreachable => "HEAD 请求失败"@,
            TaskError::Redirected =>
                "任务失败: 检测到重定向 (3xx)。请添加 -L 或 --location 参数以允许跟随重定向。"@,
            TaskError::ChunkFailed { chunk_id, retries } => "分块 "@ + decimal(chunk_id as nat)
                + " 失败次数过多 ("@ + decimal(retries as nat) + ")，终止任务。"@,
            TaskError::ChecksumMismatch => "校验和不匹配！下载可能已损坏。"@,
            TaskError::NotFound => "未找到任务"@,
        }
    }

    /// The message for the user.
    pub fn message(&self) -> (r: String)
        ensures
            r@ == self.text(),
    {
        match self {
            TaskError::HeadRedirected(status) => joined(
                "HEAD 请求遇到重定向 (",
                status_text(*status).as_str(),
            ).concat("). 请使用 -L 或 --location 参数以允许跟随重定向。"),
            TaskError::HeadRefused(status) => joined(
                "HEAD 请求失败: ",
                status_text(*status).as_str(),
            ),
            TaskError::HeadUnreachable => "HEAD 请求失败".to_owned(),
            TaskError::Redirected =>
                "任务失败: 检测到重定向 (3xx)。请添加 -L 或 --location 参数以允许跟随重定向。".to_owned(),
            TaskError::ChunkFailed { chunk_id, retries } => joined(
                "分块 ",
                decimal_text(*chunk_id as u64).as_str(),
            ).concat(" 失败次数过多 (").concat(decimal_text(*retries as u64).as_str()).concat(
                ")，终止任务。",
            ),
            TaskError::ChecksumMismatch => "校验和不匹配！下载可能已损坏。".to_owned(),
            TaskError::NotFound => "未找到任务".to_owned(),
        }
    }
}

/// A status of the 200s is a success and one of the 300s a redirect; no other
/// is.
pub proof fn law_classes_of_statuses(status: u16)
    ensures
        is_success(status) <==> status / 100 == 2,
        is_redirection(status) <==> status / 100 == 3,
{
}

/// `shown` is a status: its number and a space, and then its phrase.
pub open spec fn shows(shown: Seq<char>, status: u16) -> bool {
    exists|number: Seq<char>, phrase: Seq<char>|
        reads_as(number, status as int) && (match canonical_reason(status) {
            Some(reason) => phrase == reason,
            None => phrase == "<unknown status code>"@,
        }) && shown == #[trigger] (number + " "@ + phrase)
}

/// What the user is told of an answer tells its status, whatever it is; of a
/// redirect, it tells how redirects can be followed.
pub proof fn law_messages_tell_the_status(status: u16) -> (shown: Seq<char>)
    ensures
        shows(shown, status),
        WorkerError::Redirected(status).text() == "检测到重定向 ("@ + shown
            + ")。请使用 -L 或 --location 参数以允许跟随重定向。"@,
        WorkerError::Refused(status).text() == "请求失败，状态码: "@ + shown,
        TaskError::HeadRedirected(status).text() == "HEAD 请求遇到重定向 ("@ + shown
            + "). 请使用 -L 或 --location 参数以允许跟随重定向。"@,
        TaskError::HeadRefused(status).text() == "HEAD 请求失败: "@ + shown,
{
    law_numbers_are_written_as_they_read(status as nat);
    let number = decimal(status as nat);
    let phrase = match canonical_reason(status) {
        Some(reason) => reason,
        None => "<unknown status code>"@,
    };
    assert(reads_as(number, status as int));
    assert(status_shown(status) == number + " "@ + phrase);
    status_shown(status)
}

/// What the user is told of a chunk that failed too often tells which it is and
/// how often it failed.
pub proof fn law_messages_tell_the_chunk(chunk_id: usize, retries: u32) -> (r: (
    Seq<char>,
    Seq<char>,
))
    ensures
        reads_as(r.0, chunk_id as int),
        reads_as(r.1, retries as int),
        (TaskError::ChunkFailed { chunk_id, retries }).text() == "分块 "@ + r.0 + " 失败次数过多 ("@
            + r.1 + ")，终止任务。"@,
{
    law_numbers_are_written_as_they_read(chunk_id as nat);
    law_numbers_are_written_as_they_read(retries as nat);
    (decimal(chunk_id as nat), decimal(retries as nat))
}

} // verus!
