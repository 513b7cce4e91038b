//! What the user is shown of a running download.
use crate::run::is_first_with_id;
use crate::text::{
    decimal, decimal_text, joined, law_numbers_are_written_as_they_read, reads_as,
};
use crate::tiling::{covered, holds, started, tiles};
use crate::types::{ChunkInfo, ChunkStatus, TaskStatus};
use vstd::prelude::*;
use vstd::set_lib::*;
use vstd::string::*;

verus! {

// ---------------------------------------------------------------------------
// How much there is
// ---------------------------------------------------------------------------
/// How many bytes the chunks have downloaded.
pub open spec fn downloaded(chunks: Seq<ChunkInfo>) -> int
    decreases chunks.len(),
{
    if chunks.len() == 0 {
        0
    } else {
        downloaded(chunks.drop_last()) + (chunks.last().current - chunks.last().start)
    }
}

proof fn lemma_downloaded_grows(chunks: Seq<ChunkInfo>, n: int)
    requires
        started(chunks),
        0 <= n <= chunks.len(),
    ensures
        0 <= downloaded(chunks.take(n)) <= downloaded(chunks),
    decreases chunks.len(),
{
    if n < chunks.len() {
        let front = chunks.drop_last();
        assert(forall|i: int| 0 <= i < front.len() ==> front[i] == chunks[i]);
        assert(started(front));
        lemma_downloaded_grows(front, n);
        assert(front.take(n) =~= chunks.take(n));
    } else {
        assert(chunks.take(n) =~= chunks);
        if n > 0 {
            let front = chunks.drop_last();
            assert(forall|i: int| 0 <= i < front.len() ==> front[i] == chunks[i]);
            assert(started(front));
            lemma_downloaded_grows(front, front.len() as int);
            assert(front.take(front.len() as int) =~= front);
        }
    }
}

/// How many bytes the chunks have downloaded.
pub fn total_downloaded(chunks: &Vec<ChunkInfo>) -> (total: u64)
    requires
        started(chunks@),
        downloaded(chunks@) <= u64::MAX,
    ensures
        total == downloaded(chunks@),
{
    let mut total: u64 = 0;
    let mut i: usize = 0;
    assert(chunks@.take(0) =~= Seq::<ChunkInfo>::empty());
    while i < chunks.len()
        invariant
            started(chunks@),
            downloaded(chunks@) <= u64::MAX,
            i <= chunks.len(),
            total == downloaded(chunks@.take(i as int)),
        decreases chunks.len() - i,
    {
        proof {
            lemma_downloaded_grows(chunks@, i + 1);
            assert(chunks@.take(i + 1).drop_last() =~= chunks@.take(i as int));
            assert(chunks@[i as int].start <= chunks@[i as int].current);
        }
        total = total + (chunks[i].current - chunks[i].start);
        i += 1;
    }
    assert(chunks@.take(i as int) =~= chunks@);
    total
}

/// No chunk has gone beyond its end.
pub open spec fn within(chunks: Seq<ChunkInfo>) -> bool {
    forall|i: int| 0 <= i < chunks.len() ==> (#[trigger] chunks[i]).current <= chunks[i].end + 1
}

/// Every chunk has come to its end.
pub open spec fn at_end(chunks: Seq<ChunkInfo>) -> bool {
    forall|i: int| 0 <= i < chunks.len() ==> (#[trigger] chunks[i]).current == chunks[i].end + 1
}

/// The bytes that the first `n` chunks have downloaded.
spec fn bytes_of(chunks: Seq<ChunkInfo>, n: int) -> Set<int>
    decreases n,
{
    if n <= 0 {
        Set::empty()
    } else {
        bytes_of(chunks, n - 1) + set_int_range(
            chunks[n - 1].start as int,
            chunks[n - 1].current as int,
        )
    }
}

proof fn lemma_bytes_of(chunks: Seq<ChunkInfo>, total: int, n: int)
    requires
        tiles(chunks, total),
        started(chunks),
        within(chunks),
        0 <= n <= chunks.len(),
    ensures
        bytes_of(chunks, n).finite(),
        bytes_of(chunks, n).len() == downloaded(chunks.take(n)),
        forall|b: int| #[trigger]
            bytes_of(chunks, n).contains(b) <==> exists|i: int|
                0 <= i < n && (#[trigger] chunks[i]).start <= b < chunks[i].current,
    decreases n,
{
    if n == 0 {
        assert(chunks.take(0) =~= Seq::<ChunkInfo>::empty());
    } else {
        lemma_bytes_of(chunks, total, n - 1);
        let before = bytes_of(chunks, n - 1);
        let last = chunks[n - 1];
        let own = set_int_range(last.start as int, last.current as int);
        lemma_int_range(last.start as int, last.current as int);
        assert(chunks.take(n).drop_last() =~= chunks.take(n - 1));
        assert(before.disjoint(own)) by {
            assert forall|b: int| before.contains(b) implies !own.contains(b) by {
                let i = choose|i: int|
                    0 <= i < n - 1 && (#[trigger] chunks[i]).start <= b < chunks[i].current;
                assert(chunks[i].end < last.start || last.end < chunks[i].start);
            }
        }
        lemma_set_disjoint_lens(before, own);
        let now = bytes_of(chunks, n);
        assert(now =~= before + own);
        assert forall|b: int| #[trigger] now.contains(b) implies exists|i: int|
            0 <= i < n && (#[trigger] chunks[i]).start <= b < chunks[i].current by {
            if before.contains(b) {
                let i = choose|i: int|
                    0 <= i < n - 1 && (#[trigger] chunks[i]).start <= b < chunks[i].current;
                assert(chunks[i].start <= b < chunks[i].current);
            } else {
                assert(chunks[n - 1].start <= b < chunks[n - 1].current);
            }
        }
        assert forall|b: int|
            (exists|i: int|
                0 <= i < n && (#[trigger] chunks[i]).start <= b < chunks[i].current) implies
            #[trigger] now.contains(b) by {
            let i = choose|i: int|
                0 <= i < n && (#[trigger] chunks[i]).start <= b < chunks[i].current;
            if i < n - 1 {
                assert(before.contains(b));
            }
        }
    }
}

/// The chunks that divide a file have never downloaded more than the file holds,
/// as long as none has gone beyond its end; and when all have come to their
/// ends, they have downloaded exactly the file.
pub proof fn law_progress_is_of_the_file(chunks: Seq<ChunkInfo>, total: int)
    requires
        tiles(chunks, total),
        started(chunks),
        within(chunks),
        total >= 0,
    ensures
        0 <= downloaded(chunks) <= total,
        at_end(chunks) ==> downloaded(chunks) == total,
{
    let n = chunks.len() as int;
    lemma_bytes_of(chunks, total, n);
    assert(chunks.take(n) =~= chunks);
    lemma_int_range(0, total);
    let whole = set_int_range(0, total);
    let bytes = bytes_of(chunks, n);
    assert forall|b: int| bytes.contains(b) implies whole.contains(b) by {
        let i = choose|i: int| 0 <= i < n && (#[trigger] chunks[i]).start <= b < chunks[i].current;
        assert(chunks[i].end < total);
    }
    lemma_len_subset(bytes, whole);
    if at_end(chunks) {
        assert forall|b: int| whole.contains(b) implies bytes.contains(b) by {
            assert(covered(chunks, b));
            let i = choose|i: int| 0 <= i < chunks.len() && holds(#[trigger] chunks[i], b);
            assert(chunks[i].start <= b < chunks[i].current);
        }
        assert(bytes =~= whole);
    }
}

/// How many of the chunks a worker is on.
pub open spec fn active(chunks: Seq<ChunkInfo>) -> int
    decreases chunks.len(),
{
    if chunks.len() == 0 {
        0
    } else {
        active(chunks.drop_last()) + if chunks.last().status == ChunkStatus::Downloading {
            1int
        } else {
            0
        }
    }
}

/// How many of the chunks a worker is on.
pub fn active_chunks(chunks: &Vec<ChunkInfo>) -> (n: usize)
    ensures
        n == active(chunks@),
{
    let mut n: usize = 0;
    let mut i: usize = 0;
    assert(chunks@.take(0) =~= Seq::<ChunkInfo>::empty());
    while i < chunks.len()
        invariant
            i <= chunks.len(),
            n <= i,
            n == active(chunks@.take(i as int)),
        decreases chunks.len() - i,
    {
        proof {
            assert(chunks@.take(i + 1).drop_last() =~= chunks@.take(i as int));
        }
        if chunks[i].status == ChunkStatus::Downloading {
            n = n + 1;
        }
        i += 1;
    }
    assert(chunks@.take(i as int) =~= chunks@);
    n
}

// ---------------------------------------------------------------------------
// Bars
// ---------------------------------------------------------------------------
/// A bar for a chunk that a worker is on.
#[derive(Debug, Clone, Copy, PartialEq, Eq, Structural)]
pub struct ChunkBar {
    /// The number of the chunk.
    pub id: usize,
    /// How many bytes it has.
    pub position: u64,
    /// How many bytes lie between its first and its last.
    pub length: u64,
}

/// The bar of a chunk.
pub open spec fn bar_of(chunk: ChunkInfo) -> ChunkBar {
    ChunkBar {
        id: chunk.id,
        position: (chunk.current - chunk.start) as u64,
        length: (chunk.end - chunk.start) as u64,
    }
}

/// The bars of the chunks that workers are on, in order.
pub open spec fn bars_of(chunks: Seq<ChunkInfo>) -> Seq<ChunkBar>
    decreases chunks.len(),
{
    if chunks.len() == 0 {
        Seq::empty()
    } else if chunks.last().status == ChunkStatus::Downloading {
        bars_of(chunks.drop_last()).push(bar_of(chunks.last()))
    } else {
        bars_of(chunks.drop_last())
    }
}

/// The bars of the chunks that workers are on.
pub fn chunk_bars(chunks: &Vec<ChunkInfo>) -> (bars: Vec<ChunkBar>)
    requires
        forall|i: int|
            0 <= i < chunks@.len() && (#[trigger] chunks@[i]).status == ChunkStatus::Downloading
                ==> chunks@[i].start <= chunks@[i].current && chunks@[i].start <= chunks@[i].end,
    ensures
        bars@ == bars_of(chunks@),
{
    let mut bars: Vec<ChunkBar> = Vec::new();
    let mut i: usize = 0;
    assert(chunks@.take(0) =~= Seq::<ChunkInfo>::empty());
    while i < chunks.len()
        invariant
            forall|k: int|
                0 <= k < chunks@.len() && (#[trigger] chunks@[k]).status
                    == ChunkStatus::Downloading ==> chunks@[k].start <= chunks@[k].current
                    && chunks@[k].start <= chunks@[k].end,
            i <= chunks.len(),
            bars@ == bars_of(chunks@.take(i as int)),
        decreases chunks.len() - i,
    {
        proof {
            assert(chunks@.take(i + 1).drop_last() =~= chunks@.take(i as int));
        }
        let chunk = chunks[i];
        if chunk.status == ChunkStatus::Downloading {
            assert(chunks@[i as int].status == ChunkStatus::Downloading);
            bars.push(
                ChunkBar {
                    id: chunk.id,
                    position: chunk.current - chunk.start,
                    length: chunk.end - chunk.start,
                },
            );
        }
        i += 1;
    }
    assert(chunks@.take(i as int) =~= chunks@);
    bars
}

/// The bar of the chunk numbered `id` stays: a worker is on the chunk.
pub open spec fn bar_stays(chunks: Seq<ChunkInfo>, id: usize) -> bool {
    exists|i: int| #[trigger]
        is_first_with_id(chunks, id, i) && chunks[i].status == ChunkStatus::Downloading
}

/// Whether the bar of the chunk numbered `id` stays: it does while a worker is
/// on the chunk.
pub fn keeps_bar(chunks: &Vec<ChunkInfo>, id: usize) -> (r: bool)
    ensures
        r == bar_stays(chunks@, id),
{
    let mut i: usize = 0;
    while i < chunks.len()
        invariant
            i <= chunks.len(),
            forall|j: int| 0 <= j < i ==> (#[trigger] chunks@[j]).id != id,
        decreases chunks.len() - i,
    {
        if chunks[i].id == id {
            proof {
                assert(is_first_with_id(chunks@, id, i as int));
                assert forall|k: int| #[trigger] is_first_with_id(chunks@, id, k) implies k == i by {
                    assert(chunks@[k].id == id);
                    assert(chunks@[i as int].id == id);
                }
            }
            return chunks[i].status == ChunkStatus::Downloading;
        }
        i += 1;
    }
    assert forall|k: int| !#[trigger] is_first_with_id(chunks@, id, k) by {
        if 0 <= k < chunks@.len() {
            assert(chunks@[k].id != id);
        }
    }
    false
}

// ---------------------------------------------------------------------------
// Texts
// ---------------------------------------------------------------------------
/// So many seconds, in hours, minutes and seconds; what is zero in front is left
/// out.
pub open spec fn time_shown(secs: u64) -> Seq<char> {
    let h = (secs / 3600) as nat;
    let m = (secs % 3600 / 60) as nat;
    let s = (secs % 60) as nat;
    if h > 0 {
        decimal(h) + "时"@ + decimal(m) + "分"@ + decimal(s) + "秒"@
    } else if m > 0 {
        decimal(m) + "分"@ + decimal(s) + "秒"@
    } else {
        decimal(s) + "秒"@
    }
}

/// The time that is still needed, as it is shown.
pub fn time_text(secs: u64) -> (r: String)
    ensures
        r@ == time_shown(secs),
{
    let h: u64 = secs / 3600;
    let m: u64 = (secs % 3600) / 60;
    let s: u64 = secs % 60;
    if h > 0 {
        decimal_text(h).concat("时").concat(decimal_text(m).as_str()).concat("分").concat(
            decimal_text(s).as_str(),
        ).concat("秒")
    } else if m > 0 {
        decimal_text(m).concat("分").concat(decimal_text(s).as_str()).concat("秒")
    } else {
        decimal_text(s).concat("秒")
    }
}

/// How many workers there are, as it is shown.
pub open spec fn threads_shown(n: nat) -> Seq<char> {
    "| 线程数: "@ + decimal(n)
}

/// How many workers there are, as it is shown.
pub fn threads_text(n: usize) -> (r: String)
    ensures
        r@ == threads_shown(n as nat),
{
    joined("| 线程数: ", decimal_text(n as u64).as_str())
}

/// What the user is shown when a task has failed.
pub open spec fn failure_shown(message: Seq<char>) -> Seq<char> {
    "下载失败: "@ + message
}

/// What the user is shown when a task has failed.
pub fn failure_text(message: &str) -> (r: String)
    ensures
        r@ == failure_shown(message@),
{
    joined("下载失败: ", message)
}

// ---------------------------------------------------------------------------
// Watching
// ---------------------------------------------------------------------------
/// How much had been downloaded when the download was first seen to have come
/// anywhere: the speed is counted from there.
#[derive(Debug, Clone, Copy, PartialEq, Eq, Structural)]
pub struct Meter {
    pub initial: u64,
    pub seen: bool,
}

impl Meter {
    /// The meter after it was told how much has been downloaded.
    pub open spec fn updated(self, total: u64) -> Meter {
        if !self.seen && total > 0 {
            Meter { initial: total, seen: true }
        } else {
            self
        }
    }

    /// How much has been downloaded since, where `position` bytes are there now.
    pub open spec fn gain(self, position: u64) -> Option<u64> {
        if position >= self.initial {
            Some((position - self.initial) as u64)
        } else {
            None
        }
    }

    /// Nothing has been seen yet.
    pub fn new() -> (meter: Self)
        ensures
            meter == (Meter { initial: 0, seen: false }),
    {
        Meter { initial: 0, seen: false }
    }

    /// Takes note of how much has been downloaded.
    pub fn update(&mut self, total: u64)
        ensures
            *final(self) == old(self).updated(total),
    {
        if !self.seen && total > 0 {
            self.initial = total;
            self.seen = true;
        }
    }

    /// How much has been downloaded since, where `position` bytes are there now;
    /// `None` where they are fewer than at first.
    pub fn gained(&self, position: u64) -> (r: Option<u64>)
        ensures
            r == self.gain(position),
    {
        if position >= self.initial {
            Some(position - self.initial)
        } else {
            None
        }
    }
}

/// What the status of a task means for one who waits for it.
#[derive(Debug)]
pub enum Watch {
    /// The task is not done.
    Going,
    /// The task is done.
    Done,
    /// The task has failed, with this message.
    Failed(String),
}

/// The status of a task means `r` for one who waits for it.
pub open spec fn means(status: TaskStatus, r: Watch) -> bool {
    match (status, r) {
        (TaskStatus::Completed, Watch::Done) => true,
        (TaskStatus::Error(message), Watch::Failed(told)) => told@ == message@,
        (TaskStatus::Pending, Watch::Going) => true,
        (TaskStatus::Running, Watch::Going) => true,
        (TaskStatus::Paused, Watch::Going) => true,
        _ => false,
    }
}

/// What the status of a task means for one who waits for it.
pub fn watch(status: &TaskStatus) -> (r: Watch)
    ensures
        means(*status, r),
{
    match status {
        TaskStatus::Completed => Watch::Done,
        TaskStatus::Error(message) => Watch::Failed(message.clone()),
        _ => Watch::Going,
    }
}

// ---------------------------------------------------------------------------
// What is shown
// ---------------------------------------------------------------------------
/// What chunks have downloaded is what each of them has, from its first byte to
/// where it stands, and adds up.
pub proof fn law_downloads_add_up(a: Seq<ChunkInfo>, b: Seq<ChunkInfo>, chunk: ChunkInfo)
    ensures
        downloaded(a + b) == downloaded(a) + downloaded(b),
        downloaded(seq![chunk]) == chunk.current - chunk.start,
        downloaded(Seq::empty()) == 0,
    decreases b.len(),
{
    reveal_with_fuel(downloaded, 2);
    assert(seq![chunk].drop_last() =~= Seq::<ChunkInfo>::empty());
    if b.len() == 0 {
        assert(a + b =~= a);
    } else {
        law_downloads_add_up(a, b.drop_last(), chunk);
        assert((a + b).drop_last() =~= a + b.drop_last());
        assert((a + b).last() == b.last());
    }
}

/// The workers that are shown are those that are on a chunk, each counted once,
/// and each of them has a bar, in the order of the chunks; a chunk without a
/// worker has none.
pub proof fn law_workers_are_shown(a: Seq<ChunkInfo>, b: Seq<ChunkInfo>, chunk: ChunkInfo)
    ensures
        active(a + b) == active(a) + active(b),
        active(seq![chunk]) == (if chunk.status == ChunkStatus::Downloading {
            1int
        } else {
            0
        }),
        active(Seq::empty()) == 0,
        bars_of(a + b) == bars_of(a) + bars_of(b),
        chunk.status == ChunkStatus::Downloading ==> bars_of(seq![chunk]) == seq![bar_of(chunk)],
        chunk.status != ChunkStatus::Downloading ==> bars_of(seq![chunk]) == Seq::<
            ChunkBar,
        >::empty(),
        bars_of(Seq::empty()) == Seq::<ChunkBar>::empty(),
    decreases b.len(),
{
    reveal_with_fuel(active, 2);
    reveal_with_fuel(bars_of, 2);
    let one = seq![chunk];
    assert(one.drop_last() =~= Seq::<ChunkInfo>::empty());
    assert(one.last() == chunk);
    if chunk.status == ChunkStatus::Downloading {
        assert(bars_of(one) =~= seq![bar_of(chunk)]);
    }
    if b.len() == 0 {
        assert(a + b =~= a);
    } else {
        law_workers_are_shown(a, b.drop_last(), chunk);
        assert((a + b).drop_last() =~= a + b.drop_last());
        assert((a + b).last() == b.last());
        assert(bars_of(a + b) =~= bars_of(a) + bars_of(b));
    }
}

/// The bar of a chunk has its number. It is empty while nothing has been
/// downloaded, grows by one with each byte, and is one byte beyond its length when
/// the chunk has come to its end.
pub proof fn law_bars_grow_with_their_chunks(chunk: ChunkInfo, longer: ChunkInfo)
    requires
        chunk.start <= chunk.current,
        chunk.start <= chunk.end,
        longer == (ChunkInfo { current: longer.current, ..chunk }),
        chunk.current <= longer.current,
    ensures
        bar_of(chunk).id == chunk.id,
        chunk.current == chunk.start ==> bar_of(chunk).position == 0,
        bar_of(longer).position - bar_of(chunk).position == longer.current - chunk.current,
        bar_of(longer).length == bar_of(chunk).length,
        chunk.current == chunk.end + 1 ==> bar_of(chunk).position == bar_of(chunk).length + 1,
        bar_of(chunk).length + chunk.start == chunk.end,
{
}

/// The text says how many hours, minutes and seconds there are.
pub open spec fn tells_time(text: Seq<char>, h: int, m: int, s: int) -> bool {
    exists|a: Seq<char>, b: Seq<char>, c: Seq<char>|
        reads_as(a, h) && reads_as(b, m) && reads_as(c, s) && text == #[trigger] (a + "时"@ + b
            + "分"@ + c + "秒"@)
}

/// The text says how many minutes and seconds there are.
pub open spec fn tells_minutes(text: Seq<char>, m: int, s: int) -> bool {
    exists|b: Seq<char>, c: Seq<char>|
        reads_as(b, m) && reads_as(c, s) && text == #[trigger] (b + "分"@ + c + "秒"@)
}

/// The text says how many seconds there are.
pub open spec fn tells_seconds(text: Seq<char>, s: int) -> bool {
    exists|c: Seq<char>| reads_as(c, s) && text == #[trigger] (c + "秒"@)
}

/// So many hours, minutes and seconds are shown as such, and what is zero in
/// front is left out.
pub proof fn law_times_are_shown(secs: u64, h: int, m: int, s: int)
    requires
        secs == 3600 * h + 60 * m + s,
        0 <= h,
        0 <= m < 60,
        0 <= s < 60,
    ensures
        h > 0 ==> tells_time(time_shown(secs), h, m, s),
        h == 0 && m > 0 ==> tells_minutes(time_shown(secs), m, s),
        h == 0 && m == 0 ==> tells_seconds(time_shown(secs), s),
{
    assert(secs / 3600 == h);
    assert(secs % 3600 == 60 * m + s);
    assert(secs % 3600 / 60 == m);
    assert(secs % 60 == s);
    law_numbers_are_written_as_they_read(h as nat);
    law_numbers_are_written_as_they_read(m as nat);
    law_numbers_are_written_as_they_read(s as nat);
    let (a, b, c) = (decimal(h as nat), decimal(m as nat), decimal(s as nat));
    if h > 0 {
        assert(time_shown(secs) == a + "时"@ + b + "分"@ + c + "秒"@);
    } else if m > 0 {
        assert(time_shown(secs) == b + "分"@ + c + "秒"@);
    } else {
        assert(time_shown(secs) == c + "秒"@);
    }
}

/// The speed counts from what was there when the download was first seen to have
/// come anywhere, and never from anything later.
pub proof fn law_speed_counts_from_the_first_sight(
    meter: Meter,
    total: u64,
    later: u64,
    position: u64,
)
    requires
        !meter.seen,
        total > 0,
    ensures
        meter.updated(0) == meter,
        meter.updated(total).initial == total && meter.updated(total).seen,
        meter.updated(total).updated(later) == meter.updated(total),
        meter.updated(total).gain(position) is Some <==> position >= total,
        meter.updated(total).gain(position) matches Some(n) ==> n + total == position,
{
}

/// Where chunks are numbered in order, a bar stays exactly while a worker is on
/// the chunk with its number.
pub proof fn law_bars_stay_while_workers_do(chunks: Seq<ChunkInfo>, id: usize)
    requires
        forall|i: int| 0 <= i < chunks.len() ==> (#[trigger] chunks[i]).id == i,
    ensures
        bar_stays(chunks, id) <==> id < chunks.len() && chunks[id as int].status
            == ChunkStatus::Downloading,
{
    if id < chunks.len() {
        assert(is_first_with_id(chunks, id, id as int));
    }
    if bar_stays(chunks, id) {
        let i = choose|i: int| #[trigger]
            is_first_with_id(chunks, id, i) && chunks[i].status == ChunkStatus::Downloading;
        assert(chunks[i].id == id);
    }
}

/// Whoever waits for a task waits until it is completed or has failed, and is
/// then told which, and why.
pub proof fn law_waiting_ends_with_the_task(status: TaskStatus, r: Watch)
    requires
        means(status, r),
    ensures
        r is Done <==> status is Completed,
        r is Failed <==> status is Error,
        r is Going <==> !(status is Completed || status is Error),
        r matches Watch::Failed(told) ==> status->Error_0@ == told@,
{
}

/// What is shown of the workers ends with their number, and what is shown of a
/// failure with the whole of its message; what stands before is always the same.
pub proof fn law_shown_texts_end_with_what_they_show(n: nat, message: Seq<char>) -> (digits: Seq<
    char,
>)
    ensures
        reads_as(digits, n as int),
        threads_shown(n) == "| 线程数: "@ + digits,
        failure_shown(message) == "下载失败: "@ + message,
{
    law_numbers_are_written_as_they_read(n);
    decimal(n)
}

} // verus!
