//! What a command line makes the program do.
use crate::cli::{law_links_have_schemes, links_in, normalize_urls};
use crate::headers::{
    bare, blank, credentials, credentials_in, custom_headers, headers_in, last_headers,
    last_of_each_name, lemma_trimming_blanks,
};
use crate::text::{
    after_last, ascii_lower, ascii_lowered, before_first, chars_of, contains, copy_opt, copy_texts,
    has_part, has_prefix, law_beginnings_and_parts, law_texts_are_cut_at_the_first,
    law_the_end_follows_the_last, lemma_after_last, opt_text, same_text, starts_with, text_after,
    text_before, texts, trim, trimmed,
};
use crate::types::{default_method, ConfigView, DownloadTaskConfig};
use crate::worker::{is_method_name, method_in, request_method, RequestPlan, RequestView};
use vstd::prelude::*;
use vstd::string::*;

verus! {

/// The options of a command line.
#[derive(Debug)]
pub struct CommandLine {
    /// The links, as they were given.
    pub urls: Vec<String>,
    /// Where the output goes; "-" is the standard output.
    pub output: Option<String>,
    /// The output goes to a file that is named as the link is.
    pub remote_name: bool,
    pub max_threads: u32,
    pub min_chunk_size: u64,
    pub no_dynamic_split: bool,
    pub limit_bps: Option<u64>,
    /// Requests about tasks are answered.
    pub server: bool,
    pub user_agent: Option<String>,
    pub proxy: Option<String>,
    /// Extra header lines, each "Key: Value".
    pub header: Vec<String>,
    pub checksum: Option<String>,
    pub max_retries: u32,
    pub auth: Option<String>,
    /// What an earlier run left is thrown away without a question.
    pub force: bool,
    /// The body of the request.
    pub data: Option<String>,
    /// The body of the request, as JSON.
    pub json: Option<String>,
    pub method: Option<String>,
    pub insecure: bool,
    pub location: bool,
    pub compressed: bool,
    /// Only the headers of the reply are asked for.
    pub head: bool,
    /// The headers of the reply are shown before what it holds.
    pub include_headers: bool,
}

/// The value of a [`CommandLine`].
pub struct CommandView {
    pub urls: Seq<Seq<char>>,
    pub output: Option<Seq<char>>,
    pub remote_name: bool,
    pub max_threads: u32,
    pub min_chunk_size: u64,
    pub no_dynamic_split: bool,
    pub limit_bps: Option<u64>,
    pub server: bool,
    pub user_agent: Option<Seq<char>>,
    pub proxy: Option<Seq<char>>,
    pub header: Seq<Seq<char>>,
    pub checksum: Option<Seq<char>>,
    pub max_retries: u32,
    pub auth: Option<Seq<char>>,
    pub force: bool,
    pub data: Option<Seq<char>>,
    pub json: Option<Seq<char>>,
    pub method: Option<Seq<char>>,
    pub insecure: bool,
    pub location: bool,
    pub compressed: bool,
    pub head: bool,
    pub include_headers: bool,
}

impl View for CommandLine {
    type V = CommandView;

    open spec fn view(&self) -> CommandView {
        CommandView {
            urls: texts(self.urls@),
            output: opt_text(self.output),
            remote_name: self.remote_name,
            max_threads: self.max_threads,
            min_chunk_size: self.min_chunk_size,
            no_dynamic_split: self.no_dynamic_split,
            limit_bps: self.limit_bps,
            server: self.server,
            user_agent: opt_text(self.user_agent),
            proxy: opt_text(self.proxy),
            header: texts(self.header@),
            checksum: opt_text(self.checksum),
            max_retries: self.max_retries,
            auth: opt_text(self.auth),
            force: self.force,
            data: opt_text(self.data),
            json: opt_text(self.json),
            method: opt_text(self.method),
            insecure: self.insecure,
            location: self.location,
            compressed: self.compressed,
            head: self.head,
            include_headers: self.include_headers,
        }
    }
}

// ---------------------------------------------------------------------------
// What is to be done
// ---------------------------------------------------------------------------
/// What the program does.
#[derive(Debug)]
pub enum RunMode {
    /// Show the help text: there is nothing to do.
    Help,
    /// Answer requests about tasks, and nothing else.
    Serve,
    /// Fail: none of the texts that were given stands for a link.
    NoLink,
    /// Show the headers of the reply from this link.
    Head(String),
    /// Refuse: several links cannot go to the standard output.
    TooManyLinks,
    /// Write what this link serves to the standard output.
    Stream(String),
    /// Download the file that these links serve.
    Download(Vec<String>),
}

/// The value of a [`RunMode`].
pub enum RunView {
    Help,
    Serve,
    NoLink,
    Head(Seq<char>),
    TooManyLinks,
    Stream(Seq<char>),
    Download(Seq<Seq<char>>),
}

impl View for RunMode {
    type V = RunView;

    open spec fn view(&self) -> RunView {
        match self {
            RunMode::Help => RunView::Help,
            RunMode::Serve => RunView::Serve,
            RunMode::NoLink => RunView::NoLink,
            RunMode::Head(url) => RunView::Head(url@),
            RunMode::TooManyLinks => RunView::TooManyLinks,
            RunMode::Stream(url) => RunView::Stream(url@),
            RunMode::Download(urls) => RunView::Download(texts(urls@)),
        }
    }
}

impl CommandView {
    /// The output goes to the standard output because the user says so.
    pub open spec fn explicit_stdout(self) -> bool {
        self.output == Some("-"@)
    }

    /// The output goes to the standard output: the user says so, or wants to see
    /// the headers of the reply and names no file. Otherwise it goes to a file.
    pub open spec fn to_stdout(self) -> bool {
        match self.output {
            Some(path) => path == "-"@,
            None => self.include_headers && !self.remote_name && !self.server,
        }
    }

    /// What the command line makes the program do.
    pub open spec fn mode(self) -> RunView {
        let links = links_in(self.urls);
        if self.urls.len() == 0 {
            if self.server {
                RunView::Serve
            } else {
                RunView::Help
            }
        } else if links.len() == 0 {
            RunView::NoLink
        } else if self.head {
            RunView::Head(links[0])
        } else if !self.to_stdout() {
            RunView::Download(links)
        } else if links.len() > 1 {
            RunView::TooManyLinks
        } else {
            RunView::Stream(links[0])
        }
    }
}

impl CommandLine {
    /// Whether the output goes to the standard output because the user says so.
    pub fn explicit_stdout(&self) -> (r: bool)
        ensures
            r == self@.explicit_stdout(),
    {
        match &self.output {
            Some(path) => same_text(path.as_str(), "-"),
            None => false,
        }
    }

    /// Whether the output goes to the standard output.
    pub fn stdout_mode(&self) -> (r: bool)
        ensures
            r == self@.to_stdout(),
    {
        match &self.output {
            Some(path) => same_text(path.as_str(), "-"),
            None => self.include_headers && !self.remote_name && !self.server,
        }
    }

    /// What the command line makes the program do.
    pub fn run_mode(&self) -> (mode: RunMode)
        ensures
            mode@ == self@.mode(),
    {
        if self.urls.len() == 0 {
            return if self.server {
                RunMode::Serve
            } else {
                RunMode::Help
            };
        }
        let links = normalize_urls(&self.urls);
        assert(links@.len() == texts(links@).len());
        if links.len() == 0 {
            RunMode::NoLink
        } else if self.head {
            RunMode::Head(links[0].clone())
        } else if !self.stdout_mode() {
            RunMode::Download(links)
        } else if links.len() > 1 {
            RunMode::TooManyLinks
        } else {
            RunMode::Stream(links[0].clone())
        }
    }
}

/// Links alone are enough for a download: where the user asks neither for the
/// standard output nor for headers, all of them serve the file.
pub proof fn law_links_are_downloaded(command: CommandView)
    requires
        links_in(command.urls).len() > 0,
        !command.explicit_stdout(),
        !command.head,
        !command.include_headers,
    ensures
        command.mode() == RunView::Download(links_in(command.urls)),
{
    law_links_have_schemes(command.urls);
}

// ---------------------------------------------------------------------------
// The request
// ---------------------------------------------------------------------------
/// The header line says of which type the body is.
pub open spec fn tells_content_type(line: Seq<char>) -> bool {
    has_prefix(ascii_lowered(line), "content-type:"@)
}

/// Some header line says of which type the body is.
pub open spec fn content_type_told(lines: Seq<Seq<char>>) -> bool {
    exists|i: int| 0 <= i < lines.len() && tells_content_type(#[trigger] lines[i])
}

impl CommandView {
    /// The method that the user asks for, or GET.
    pub open spec fn method_asked(self) -> Seq<char> {
        match self.method {
            Some(method) => method,
            None => "GET"@,
        }
    }

    /// The method of the request: with a body, POST in place of GET.
    pub open spec fn method_sent(self) -> Seq<char> {
        if (self.json is Some || self.data is Some) && self.method_asked() == "GET"@ {
            "POST"@
        } else {
            self.method_asked()
        }
    }

    /// The body of the request.
    pub open spec fn body_sent(self) -> Option<Seq<char>> {
        if self.json is Some {
            self.json
        } else {
            self.data
        }
    }

    /// The header lines of the request: those that were given, and the type of
    /// the body. JSON is always said to be JSON; other data is a form where the
    /// user does not say what it is.
    pub open spec fn lines_sent(self) -> Seq<Seq<char>> {
        if self.json is Some {
            self.header.push("Content-Type: application/json"@)
        } else if self.data is Some && !content_type_told(self.header) {
            self.header.push("Content-Type: application/x-www-form-urlencoded"@)
        } else {
            self.header
        }
    }

    /// The configuration of the task that downloads a file.
    pub open spec fn config_for(self, urls: Seq<Seq<char>>, file_path: Seq<char>) -> ConfigView {
        ConfigView {
            urls,
            file_path,
            max_threads: self.max_threads,
            min_chunk_size: self.min_chunk_size,
            dynamic_split: !self.no_dynamic_split,
            limit_bps: self.limit_bps,
            user_agent: self.user_agent,
            proxy: self.proxy,
            headers: self.lines_sent(),
            checksum: self.checksum,
            max_retries: self.max_retries,
            auth: self.auth,
            method: self.method_sent(),
            body: self.body_sent(),
            insecure: self.insecure,
            location: self.location,
            compressed: self.compressed,
        }
    }

    /// The request for the headers of a reply.
    pub open spec fn head_request_for(self, url: Seq<char>) -> RequestView {
        RequestView {
            method: "HEAD"@,
            url,
            headers: headers_in(self.header),
            auth: credentials_in(self.auth),
            body: None,
        }
    }

    /// The request for what goes to the standard output.
    pub open spec fn stream_request_for(self, url: Seq<char>) -> RequestView {
        RequestView {
            method: method_in(self.method_sent()),
            url,
            headers: last_of_each_name(headers_in(self.lines_sent())),
            auth: credentials_in(self.auth),
            body: self.body_sent(),
        }
    }
}

/// Whether the header line says of which type the body is.
fn is_content_type(line: &str) -> (r: bool)
    ensures
        r == tells_content_type(line@),
{
    let n: usize = 13;
    let low = "content-type:";
    let chars = chars_of(line);
    let want = chars_of(low);
    proof {
        reveal_strlit("content-type:");
    }
    let ghost lowered = ascii_lowered(line@);
    if chars.len() < n {
        return false;
    }
    let mut i: usize = 0;
    while i < n
        invariant
            n == 13,
            want@.len() == n,
            want@ == "content-type:"@,
            chars@ == line@,
            chars@.len() >= n,
            i <= n,
            lowered == ascii_lowered(line@),
            forall|j: int| 0 <= j < i ==> #[trigger] lowered[j] == want@[j],
        decreases n - i,
    {
        let c = chars[i];
        let folded = if 'A' <= c && c <= 'Z' {
            ((c as u8) + 32) as char
        } else {
            c
        };
        assert(folded == ascii_lower(c));
        assert(lowered[i as int] == folded);
        if folded != want[i] {
            assert(lowered.take(n as int)[i as int] != want@[i as int]);
            return false;
        }
        i += 1;
    }
    assert(lowered.take(n as int) =~= want@);
    true
}

impl CommandLine {
    /// Whether some header line says of which type the body is.
    fn has_content_type(&self) -> (r: bool)
        ensures
            r == content_type_told(self@.header),
    {
        let mut i: usize = 0;
        while i < self.header.len()
            invariant
                i <= self.header.len(),
                forall|j: int| 0 <= j < i ==> !tells_content_type(#[trigger] self@.header[j]),
            decreases self.header.len() - i,
        {
            assert(self@.header[i as int] == self.header@[i as int]@);
            if is_content_type(self.header[i].as_str()) {
                return true;
            }
            i += 1;
        }
        false
    }

    /// The method of the request.
    pub fn method_to_send(&self) -> (method: String)
        ensures
            method@ == self@.method_sent(),
    {
        let method = match &self.method {
            Some(method) => method.clone(),
            None => default_method(),
        };
        if (self.json.is_some() || self.data.is_some()) && same_text(method.as_str(), "GET") {
            "POST".to_owned()
        } else {
            method
        }
    }

    /// The body of the request.
    pub fn body_to_send(&self) -> (body: Option<String>)
        ensures
            opt_text(body) == self@.body_sent(),
    {
        if self.json.is_some() {
            copy_opt(&self.json)
        } else {
            copy_opt(&self.data)
        }
    }

    /// The header lines of the request.
    pub fn lines_to_send(&self) -> (lines: Vec<String>)
        ensures
            texts(lines@) == self@.lines_sent(),
    {
        let mut lines = copy_texts(&self.header);
        let ghost given = lines@;
        if self.json.is_some() {
            let line = "Content-Type: application/json".to_owned();
            lines.push(line);
            assert(texts(lines@) =~= texts(given).push(line@));
        } else if self.data.is_some() && !self.has_content_type() {
            let line = "Content-Type: application/x-www-form-urlencoded".to_owned();
            lines.push(line);
            assert(texts(lines@) =~= texts(given).push(line@));
        }
        lines
    }

    /// The configuration of the task that downloads a file.
    pub fn task_config(&self, urls: Vec<String>, file_path: String) -> (config: DownloadTaskConfig)
        ensures
            config@ == self@.config_for(texts(urls@), file_path@),
    {
        DownloadTaskConfig {
            urls,
            file_path,
            max_threads: self.max_threads,
            min_chunk_size: self.min_chunk_size,
            dynamic_split: !self.no_dynamic_split,
            limit_bps: self.limit_bps,
            user_agent: copy_opt(&self.user_agent),
            proxy: copy_opt(&self.proxy),
            headers: self.lines_to_send(),
            checksum: copy_opt(&self.checksum),
            max_retries: self.max_retries,
            auth: copy_opt(&self.auth),
            method: self.method_to_send(),
            body: self.body_to_send(),
            insecure: self.insecure,
            location: self.location,
            compressed: self.compressed,
        }
    }

    /// The request for the headers of a reply.
    pub fn head_request(&self, url: &str) -> (plan: RequestPlan)
        ensures
            plan@ == self@.head_request_for(url@),
    {
        RequestPlan {
            method: "HEAD".to_owned(),
            url: url.to_owned(),
            headers: custom_headers(&self.header),
            auth: credentials(&self.auth),
            body: None,
        }
    }

    /// The request for what goes to the standard output.
    pub fn stream_request(&self, url: &str) -> (plan: RequestPlan)
        ensures
            plan@ == self@.stream_request_for(url@),
    {
        RequestPlan {
            method: request_method(self.method_to_send().as_str()),
            url: url.to_owned(),
            headers: last_headers(&custom_headers(&self.lines_to_send())),
            auth: credentials(&self.auth),
            body: self.body_to_send(),
        }
    }
}

/// A body makes the request a POST, unless the user asks for another method; a
/// request without a body is what the user asks for.
pub proof fn law_a_body_is_posted(command: CommandView)
    ensures
        command.body_sent() is Some && command.method is None ==> command.method_sent() == "POST"@,
        command.body_sent() is None ==> command.method_sent() == command.method_asked(),
        command.method matches Some(method) && method != "GET"@ ==> command.method_sent()
            == command.method->0,
{
}

/// Whoever sends a body says of which type it is.
pub proof fn law_bodies_have_a_type(command: CommandView)
    requires
        command.body_sent() is Some,
    ensures
        content_type_told(command.lines_sent()),
{
    reveal_strlit("content-type:");
    reveal_strlit("Content-Type: application/json");
    reveal_strlit("Content-Type: application/x-www-form-urlencoded");
    let lines = command.lines_sent();
    if command.json is Some || !content_type_told(command.header) {
        let line = lines.last();
        assert(ascii_lowered(line).take(13) =~= "content-type:"@);
        assert(tells_content_type(lines[lines.len() - 1]));
    }
}

// ---------------------------------------------------------------------------
// The file
// ---------------------------------------------------------------------------
/// The path of a link, where the link is a URL.
pub uninterp spec fn url_path(link: Seq<char>) -> Option<Seq<char>>;

/// Calls `Url::parse` of the `url` crate, which `reqwest` hands on, and takes
/// the path of the URL. Trusted: it is a function of the text alone. Which texts
/// are URLs, and how a path is normalised and encoded, is left to the name
/// `url_path`.
#[verifier::external_body]
fn path_of_url(link: &str) -> (path: Option<String>)
    ensures
        opt_text(path) == url_path(link@),
{
    match reqwest::Url::parse(link) {
        Ok(url) => Some(url.path().to_owned()),
        Err(_) => None,
    }
}

/// The name of the file that a link serves, where the path of the link is
/// `path`: its last segment. Of a link that is no URL, it is what stands behind
/// the last slash, up to a question mark.
pub open spec fn remote_name_in(link: Seq<char>, path: Option<Seq<char>>) -> Seq<char> {
    match path {
        Some(path) => if has_prefix(path, "/"@) && after_last(path, '/').len() > 0 {
            after_last(path, '/')
        } else {
            "downloaded_file"@
        },
        None => if after_last(link, '/').len() > 0 {
            before_first(after_last(link, '/'), '?')
        } else {
            "downloaded_file"@
        },
    }
}

/// The name of the file that a link serves, where the path of the link is
/// `path`.
pub fn remote_file_name(link: &str, path: &Option<String>) -> (name: String)
    ensures
        name@ == remote_name_in(link@, opt_text(*path)),
{
    proof {
        reveal_strlit("downloaded_file");
    }
    match path {
        Some(path) => {
            let segment = text_after(path.as_str(), '/');
            if starts_with(path.as_str(), "/") && segment.unicode_len() > 0 {
                segment.to_owned()
            } else {
                "downloaded_file".to_owned()
            }
        },
        None => {
            let segment = text_after(link, '/');
            if segment.unicode_len() > 0 {
                text_before(segment, '?').to_owned()
            } else {
                "downloaded_file".to_owned()
            }
        },
    }
}

/// The name of a file that a URL serves is never empty, and never leads to
/// another directory.
pub proof fn law_remote_names_are_names(link: Seq<char>, path: Seq<char>)
    ensures
        remote_name_in(link, Some(path)).len() > 0,
        !remote_name_in(link, Some(path)).contains('/'),
{
    reveal_strlit("downloaded_file");
    lemma_after_last(path, '/');
}

impl CommandView {
    /// Where the downloaded file goes: where the user says, or to a file that is
    /// named as the first link is.
    pub open spec fn path_for(self, urls: Seq<Seq<char>>) -> Seq<char> {
        match self.output {
            Some(path) => path,
            None => remote_name_in(urls[0], url_path(urls[0])),
        }
    }
}

impl CommandLine {
    /// Where the downloaded file goes: where the user says, or to a file that is
    /// named as the first link is.
    pub fn output_path(&self, urls: &Vec<String>) -> (path: String)
        requires
            self.output is None ==> urls@.len() > 0,
        ensures
            path@ == self@.path_for(texts(urls@)),
    {
        match &self.output {
            Some(path) => path.clone(),
            None => remote_file_name(urls[0].as_str(), &path_of_url(urls[0].as_str())),
        }
    }
}

/// What is done about what an earlier run left.
#[derive(Debug, Clone, Copy, PartialEq, Eq, Structural)]
pub enum Existing {
    /// There is no file yet.
    Start,
    /// The file is unfinished: the download goes on.
    Resume,
    /// The file is unfinished, and is thrown away with its state.
    Restart,
    /// The file is finished, and is thrown away.
    Overwrite,
    /// The file is finished: the user is asked.
    Ask,
}

/// What is done about what an earlier run left.
pub open spec fn about_existing(file_exists: bool, meta_exists: bool, force: bool) -> Existing {
    if !file_exists {
        Existing::Start
    } else if meta_exists {
        if force {
            Existing::Restart
        } else {
            Existing::Resume
        }
    } else if force {
        Existing::Overwrite
    } else {
        Existing::Ask
    }
}

/// What is done about what an earlier run left: a file, and its state beside it.
pub fn existing_file(file_exists: bool, meta_exists: bool, force: bool) -> (r: Existing)
    ensures
        r == about_existing(file_exists, meta_exists, force),
{
    match (file_exists, meta_exists, force) {
        (false, _, _) => Existing::Start,
        (true, true, true) => Existing::Restart,
        (true, true, false) => Existing::Resume,
        (true, false, true) => Existing::Overwrite,
        (true, false, false) => Existing::Ask,
    }
}

/// The answer to the question if a file is to be overwritten is yes.
pub open spec fn is_yes(answer: Seq<char>) -> bool {
    trimmed(answer) == "y"@ || trimmed(answer) == "Y"@
}

/// Whether the answer to the question if a file is to be overwritten is yes.
pub fn answers_yes(answer: &str) -> (yes: bool)
    ensures
        yes == is_yes(answer@),
{
    let answer = trim(answer);
    same_text(answer, "y") || same_text(answer, "Y")
}

/// Nothing is thrown away without being asked for: a file of an earlier run goes
/// only where the user insists, or is asked.
pub proof fn law_files_are_safe(meta_exists: bool)
    ensures
        about_existing(true, meta_exists, false) is Resume || about_existing(
            true,
            meta_exists,
            false,
        ) is Ask,
        about_existing(false, meta_exists, false) is Start,
        about_existing(false, meta_exists, true) is Start,
{
}

// ---------------------------------------------------------------------------
// The standard output
// ---------------------------------------------------------------------------
/// Data of this type is text.
pub open spec fn is_text_type(content_type: Seq<char>) -> bool {
    ||| content_type.len() == 0
    ||| has_prefix(content_type, "text/"@)
    ||| has_part(content_type, "json"@)
    ||| has_part(content_type, "xml"@)
    ||| has_part(content_type, "javascript"@)
}

/// Whether data of this type is text; no type at all counts as text.
pub fn is_text(content_type: &str) -> (r: bool)
    ensures
        r == is_text_type(content_type@),
{
    content_type.unicode_len() == 0 || starts_with(content_type, "text/") || contains(
        content_type,
        "json",
    ) || contains(content_type, "xml") || contains(content_type, "javascript")
}

impl CommandView {
    /// Data of this type is kept from a terminal: it is not text, and the user does
    /// not insist.
    pub open spec fn keeps_from(self, to_terminal: bool, content_type: Seq<char>) -> bool {
        to_terminal && !self.explicit_stdout() && !is_text_type(content_type)
    }
}

impl CommandLine {
    /// Whether data of this type is kept from a terminal: it is, where it is not
    /// text and the user does not insist.
    pub fn spares_terminal(&self, to_terminal: bool, content_type: &str) -> (r: bool)
        ensures
            r == self@.keeps_from(to_terminal, content_type@),
    {
        to_terminal && !self.explicit_stdout() && !is_text(content_type)
    }
}

// ---------------------------------------------------------------------------
// What the options mean
// ---------------------------------------------------------------------------
/// Without links the program serves or shows its help; where links were given
/// and none of them is one, it fails. With `-I` it shows the headers from the
/// first link. It writes to the standard output where the output is "-", or where
/// headers are to be shown and neither a file nor the server is asked for; that
/// takes exactly one link. In all other cases it downloads, from all links.
pub proof fn law_options_decide_what_is_done(command: CommandView)
    ensures
        ({
            let links = links_in(command.urls);
            let some = command.urls.len() > 0 && links.len() > 0 && !command.head;
            let shown = command.output == Some("-"@) || command.output is None
                && command.include_headers && !command.remote_name && !command.server;
            &&& command.mode() is Serve <==> command.urls.len() == 0 && command.server
            &&& command.mode() is Help <==> command.urls.len() == 0 && !command.server
            &&& command.mode() is NoLink <==> command.urls.len() > 0 && links.len() == 0
            &&& command.mode() is Head <==> links.len() > 0 && command.head
            &&& command.mode() matches RunView::Head(link) ==> link == links[0]
            &&& command.mode() is TooManyLinks <==> some && shown && links.len() > 1
            &&& command.mode() is Stream <==> some && shown && links.len() == 1
            &&& command.mode() matches RunView::Stream(link) ==> link == links[0]
            &&& command.mode() is Download <==> some && !shown
            &&& command.mode() matches RunView::Download(urls) ==> urls == links
            &&& command.to_stdout() == shown
            &&& command.explicit_stdout() <==> command.output == Some("-"@)
        }),
{
    law_links_have_schemes(command.urls);
}

/// A task is configured as the command line says, with the links and the file
/// that it is for.
pub proof fn law_tasks_are_configured_as_asked(
    command: CommandView,
    urls: Seq<Seq<char>>,
    file_path: Seq<char>,
)
    ensures
        ({
            let config = command.config_for(urls, file_path);
            &&& config.urls == urls && config.file_path == file_path
            &&& config.max_threads == command.max_threads
            &&& config.min_chunk_size == command.min_chunk_size
            &&& config.dynamic_split == !command.no_dynamic_split
            &&& config.limit_bps == command.limit_bps
            &&& config.user_agent == command.user_agent
            &&& config.proxy == command.proxy
            &&& config.checksum == command.checksum
            &&& config.max_retries == command.max_retries
            &&& config.auth == command.auth
            &&& config.insecure == command.insecure
            &&& config.location == command.location
            &&& config.compressed == command.compressed
            &&& config.method == command.method_sent()
            &&& config.body == command.body_sent()
            &&& config.headers == command.lines_sent()
        }),
{
}

/// The body is the JSON that was given, or else the data; there is one exactly
/// where one of them was given. The method is the one that was asked for, and GET
/// where none was, except that a body is never sent with GET, but with POST.
pub proof fn law_what_is_sent_is_what_was_given(command: CommandView)
    ensures
        command.json is Some ==> command.body_sent() == command.json,
        command.json is None ==> command.body_sent() == command.data,
        command.body_sent() is Some ==> command.method_sent() != "GET"@,
        command.body_sent() is Some && (command.method is None || command.method == Some("GET"@))
            ==> command.method_sent() == "POST"@,
        command.method is Some && command.method != Some("GET"@) ==> command.method
            == Some(command.method_sent()),
        command.body_sent() is None && command.method is Some ==> command.method
            == Some(command.method_sent()),
        command.body_sent() is None && command.method is None ==> command.method_sent()
            == "GET"@,
{
    reveal_strlit("GET");
    reveal_strlit("POST");
    assert("GET"@.len() == 3 && "POST"@.len() == 4);
}

/// The header lines that were given are all sent, in order. One line is added
/// behind them exactly where there is a body whose type is to be told: JSON is
/// told to be JSON, and other data is told to be a form where no line begins with
/// "content-type:", in whatever case.
pub proof fn law_header_lines_are_all_sent(command: CommandView)
    ensures
        ({
            let lines = command.lines_sent();
            let n = command.header.len() as int;
            let told = exists|i: int|
                0 <= i < n && has_prefix(
                    ascii_lowered(#[trigger] command.header[i]),
                    "content-type:"@,
                );
            &&& lines.take(n) == command.header
            &&& command.json is Some ==> lines.len() == n + 1 && lines[n]
                == "Content-Type: application/json"@
            &&& command.json is None && command.data is Some && !told ==> lines.len() == n + 1
                && lines[n] == "Content-Type: application/x-www-form-urlencoded"@
            &&& command.json is None && (command.data is None || told) ==> lines == command.header
        }),
{
    let lines = command.lines_sent();
    let n = command.header.len() as int;
    assert(lines.take(n) =~= command.header);
    if content_type_told(command.header) {
        let i = choose|i: int| 0 <= i < n && tells_content_type(#[trigger] command.header[i]);
        assert(has_prefix(ascii_lowered(command.header[i]), "content-type:"@));
    }
    if exists|i: int|
        0 <= i < n && has_prefix(ascii_lowered(#[trigger] command.header[i]), "content-type:"@) {
        let i = choose|i: int|
            0 <= i < n && has_prefix(
                ascii_lowered(#[trigger] command.header[i]),
                "content-type:"@,
            );
        assert(tells_content_type(command.header[i]));
    }
}

/// A request for headers is a HEAD to its link, without a body, with the
/// credentials and headers that were given. What goes to the standard output is
/// asked for at its link with the method, the body and the credentials that were
/// given, and with the last header of each name.
pub proof fn law_requests_are_as_asked(command: CommandView, url: Seq<char>)
    ensures
        ({
            let head = command.head_request_for(url);
            &&& head.method == "HEAD"@ && head.url == url && head.body is None
            &&& head.auth == credentials_in(command.auth)
            &&& head.headers == headers_in(command.header)
        }),
        ({
            let request = command.stream_request_for(url);
            &&& request.url == url
            &&& request.body == command.body_sent()
            &&& request.auth == credentials_in(command.auth)
            &&& request.headers == last_of_each_name(headers_in(command.lines_sent()))
            &&& is_method_name(command.method_sent()) ==> request.method == command.method_sent()
            &&& !is_method_name(command.method_sent()) ==> request.method == "GET"@
        }),
{
}

/// A file is named as the last segment of the path of its link, whatever stands
/// before it and whatever the link is otherwise. Where there is no such segment,
/// or the path does not begin at the root, it is "downloaded_file".
pub proof fn law_files_are_named_as_paths_end(link: Seq<char>, front: Seq<char>, name: Seq<char>)
    requires
        !name.contains('/'),
    ensures
        name.len() > 0 ==> remote_name_in(link, Some("/"@ + front.push('/') + name)) == name,
        name.len() > 0 ==> remote_name_in(link, Some("/"@ + name)) == name,
        remote_name_in(link, Some("/"@ + front.push('/'))) == "downloaded_file"@,
        remote_name_in(link, Some("/"@)) == "downloaded_file"@,
        front.len() == 0 || front[0] != '/' ==> remote_name_in(link, Some(front))
            == "downloaded_file"@,
{
    reveal_strlit("/");
    let none = Seq::<char>::empty();
    let slash = "/"@;
    assert(slash =~= seq!['/']);
    assert(slash + front.push('/') + name =~= (slash + front).push('/') + name);
    law_the_end_follows_the_last(slash + front, '/', name);
    assert((slash + front.push('/') + name).take(1) =~= slash);
    assert(slash + name =~= none.push('/') + name);
    law_the_end_follows_the_last(none, '/', name);
    assert((slash + name).take(1) =~= slash);
    assert(slash + front.push('/') =~= (slash + front).push('/') + none);
    law_the_end_follows_the_last(slash + front, '/', none);
    assert((slash + front.push('/')).take(1) =~= slash);
    assert(slash =~= none.push('/') + none);
    law_the_end_follows_the_last(none, '/', none);
    assert(slash.take(1) =~= slash);
    if has_prefix(front, slash) {
        assert(front.take(1)[0] == slash[0]);
    }
}

/// Of a link that is no URL, the name is what stands between its last slash and
/// the first question mark behind that; it is all of the link where there is
/// neither, and "downloaded_file" where the link ends with the slash.
pub proof fn law_files_are_named_as_links_end(
    front: Seq<char>,
    name: Seq<char>,
    query: Seq<char>,
)
    requires
        !name.contains('/') && !name.contains('?'),
        !query.contains('/'),
    ensures
        name.len() > 0 ==> remote_name_in(front.push('/') + name, None) == name,
        name.len() > 0 ==> remote_name_in(name, None) == name,
        remote_name_in(front.push('/') + name.push('?') + query, None) == name,
        remote_name_in(name.push('?') + query, None) == name,
        remote_name_in(front.push('/'), None) == "downloaded_file"@,
{
    let none = Seq::<char>::empty();
    law_the_end_follows_the_last(front, '/', name);
    law_texts_are_cut_at_the_first(name, '?', query);
    let tail = name.push('?') + query;
    assert(!tail.contains('/')) by {
        if tail.contains('/') {
            let i = choose|i: int| 0 <= i < tail.len() && tail[i] == '/';
            if i < name.len() {
                assert(name.contains(name[i]));
            } else if i > name.len() {
                assert(query.contains(query[i - name.len() - 1]));
            }
        }
    }
    assert(front.push('/') + name.push('?') + query =~= front.push('/') + tail);
    law_the_end_follows_the_last(front, '/', tail);
    assert(front.push('/') =~= front.push('/') + none);
    law_the_end_follows_the_last(front, '/', none);
}

/// The file goes where the user says, and otherwise under the name that the
/// first link gives it, whatever the others are.
pub proof fn law_files_go_where_the_user_says(
    command: CommandView,
    link: Seq<char>,
    others: Seq<Seq<char>>,
)
    ensures
        command.output matches Some(path) ==> command.path_for(seq![link] + others) == path,
        command.output is None ==> command.path_for(seq![link] + others) == remote_name_in(
            link,
            url_path(link),
        ),
{
    assert((seq![link] + others)[0] == link);
}

/// A download begins anew exactly where there is no file, and goes on where there
/// is one with its state, unless the user insists; a file without its state is
/// overwritten where the user insists, and otherwise not without a question.
pub proof fn law_earlier_files_are_dealt_with(file: bool, meta: bool, force: bool)
    ensures
        about_existing(file, meta, force) is Start <==> !file,
        about_existing(file, meta, force) is Resume <==> file && meta && !force,
        about_existing(file, meta, force) is Restart <==> file && meta && force,
        about_existing(file, meta, force) is Overwrite <==> file && !meta && force,
        about_existing(file, meta, force) is Ask <==> file && !meta && !force,
{
}

/// Only a "y", in either case and with blanks around it, is a yes.
pub proof fn law_yes_is_a_letter(answer: Seq<char>, blanks: Seq<char>, more_blanks: Seq<char>)
    requires
        bare(answer),
        blank(blanks) && blank(more_blanks),
    ensures
        is_yes(blanks + answer + more_blanks) <==> answer == seq!['y'] || answer == seq!['Y'],
{
    reveal_strlit("y");
    reveal_strlit("Y");
    lemma_trimming_blanks(blanks, answer, more_blanks);
    assert("y"@ =~= seq!['y'] && "Y"@ =~= seq!['Y']);
}

/// Data is kept from a terminal exactly where the user does not ask for the
/// standard output by name, and its type is told, does not begin with "text/",
/// and speaks neither of JSON nor of XML nor of JavaScript.
pub proof fn law_terminals_get_text(
    command: CommandView,
    to_terminal: bool,
    content_type: Seq<char>,
)
    ensures
        command.keeps_from(to_terminal, content_type) <==> {
            &&& to_terminal
            &&& command.output != Some("-"@)
            &&& content_type.len() > 0
            &&& !(exists|b: Seq<char>| content_type == #[trigger] ("text/"@ + b))
            &&& !(exists|a: Seq<char>, b: Seq<char>|
                content_type == #[trigger] (a + "json"@ + b))
            &&& !(exists|a: Seq<char>, b: Seq<char>|
                content_type == #[trigger] (a + "xml"@ + b))
            &&& !(exists|a: Seq<char>, b: Seq<char>|
                content_type == #[trigger] (a + "javascript"@ + b))
        },
{
    law_beginnings_and_parts(content_type, "text/"@);
    law_beginnings_and_parts(content_type, "json"@);
    law_beginnings_and_parts(content_type, "xml"@);
    law_beginnings_and_parts(content_type, "javascript"@);
}

/// The value of a command line is that of each of its options.
pub proof fn law_values_of_options(command: CommandLine)
    ensures
        command@.urls == texts(command.urls@),
        command@.output == opt_text(command.output),
        command@.remote_name == command.remote_name,
        command@.max_threads == command.max_threads,
        command@.min_chunk_size == command.min_chunk_size,
        command@.no_dynamic_split == command.no_dynamic_split,
        command@.limit_bps == command.limit_bps,
        command@.server == command.server,
        command@.user_agent == opt_text(command.user_agent),
        command@.proxy == opt_text(command.proxy),
        command@.header == texts(command.header@),
        command@.checksum == opt_text(command.checksum),
        command@.max_retries == command.max_retries,
        command@.auth == opt_text(command.auth),
        command@.force == command.force,
        command@.data == opt_text(command.data),
        command@.json == opt_text(command.json),
        command@.method == opt_text(command.method),
        command@.insecure == command.insecure,
        command@.location == command.location,
        command@.compressed == command.compressed,
        command@.head == command.head,
        command@.include_headers == command.include_headers,
{
}

/// The value of what the program does tells which it is, and with which links.
pub proof fn law_values_of_modes(mode: RunMode)
    ensures
        mode@ is Help <==> mode is Help,
        mode@ is Serve <==> mode is Serve,
        mode@ is NoLink <==> mode is NoLink,
        mode@ is TooManyLinks <==> mode is TooManyLinks,
        mode matches RunMode::Head(link) ==> mode@ == RunView::Head(link@),
        mode matches RunMode::Stream(link) ==> mode@ == RunView::Stream(link@),
        mode matches RunMode::Download(links) ==> mode@ == RunView::Download(texts(links@)),
{
}

} // verus!
