//! What the chunks of a task are together: a division of the file.
use crate::scheduler::{
    any_pending, any_stealable, back_half, front_half, handed_out, is_victim, middle,
    split_at, split_in_range, stealable, stolen, Scheduler,
};
use crate::types::{ChunkInfo, ChunkStatus};
use crate::worker::{step_in_range, stream_step, ChunkStream, StreamEvent};
use vstd::prelude::*;

verus! {

/// Byte `b` of the file belongs to the chunk.
pub open spec fn holds(chunk: ChunkInfo, b: int) -> bool {
    chunk.start <= b <= chunk.end
}

/// The chunks divide the first `total` bytes of the file among them: no chunk
/// reaches beyond, no two share a byte, and no byte is left out. A chunk may be
/// empty; it then ends before it begins, by one.
pub open spec fn tiles(chunks: Seq<ChunkInfo>, total: int) -> bool {
    &&& forall|i: int|
        0 <= i < chunks.len() ==> (#[trigger] chunks[i]).start - 1 <= chunks[i].end < total
    &&& forall|i: int, j: int|
        #![trigger chunks[i], chunks[j]]
        0 <= i < chunks.len() && 0 <= j < chunks.len() && i != j ==> chunks[i].end
            < chunks[j].start || chunks[j].end < chunks[i].start
    &&& forall|b: int| 0 <= b < total ==> #[trigger] covered(chunks, b)
}

/// Byte `b` belongs to some chunk.
pub open spec fn covered(chunks: Seq<ChunkInfo>, b: int) -> bool {
    exists|i: int| 0 <= i < chunks.len() && holds(#[trigger] chunks[i], b)
}

/// No chunk has been downloaded backwards.
pub open spec fn started(chunks: Seq<ChunkInfo>) -> bool {
    forall|i: int| 0 <= i < chunks.len() ==> (#[trigger] chunks[i]).start <= chunks[i].current
}

/// A chunk that counts as completed has been downloaded to its end, where the
/// end is known.
pub open spec fn honest(chunks: Seq<ChunkInfo>) -> bool {
    forall|i: int|
        0 <= i < chunks.len() && (#[trigger] chunks[i]).status == ChunkStatus::Completed
            && !chunks[i].open_ended() ==> chunks[i].current > chunks[i].end
}

/// The number of a chunk is its position.
pub open spec fn numbered(chunks: Seq<ChunkInfo>) -> bool {
    forall|i: int| 0 <= i < chunks.len() ==> (#[trigger] chunks[i]).id == i
}

/// Byte `b` is still to be downloaded by some chunk.
pub open spec fn to_come(chunks: Seq<ChunkInfo>, b: int) -> bool {
    exists|i: int|
        0 <= i < chunks.len() && (#[trigger] chunks[i]).current <= b <= chunks[i].end
}

/// Byte `b` has been downloaded by some chunk.
pub open spec fn fetched(chunks: Seq<ChunkInfo>, b: int) -> bool {
    exists|i: int|
        0 <= i < chunks.len() && (#[trigger] chunks[i]).start <= b < chunks[i].current
}

/// Every chunk counts as completed.
pub open spec fn all_completed(chunks: Seq<ChunkInfo>) -> bool {
    forall|i: int|
        0 <= i < chunks.len() ==> (#[trigger] chunks[i]).status == ChunkStatus::Completed
}

/// When every chunk counts as completed, every byte of the file has been
/// downloaded.
pub proof fn law_completed_means_fetched(chunks: Seq<ChunkInfo>, total: int)
    requires
        tiles(chunks, total),
        honest(chunks),
        all_completed(chunks),
        total <= u64::MAX,
    ensures
        forall|b: int| 0 <= b < total ==> #[trigger] fetched(chunks, b),
{
    assert forall|b: int| 0 <= b < total implies #[trigger] fetched(chunks, b) by {
        assert(covered(chunks, b));
        let i = choose|i: int| 0 <= i < chunks.len() && holds(#[trigger] chunks[i], b);
        assert(chunks[i].status == ChunkStatus::Completed);
        assert(chunks[i].start <= b < chunks[i].current);
    }
}

/// A split gives the back half of what is left to a new chunk: the two halves
/// differ by one byte at most, the front half being the larger, and together
/// they are what was left. Neither is smaller than the smallest chunk size.
pub proof fn law_split_is_in_halves(chunk: ChunkInfo, min_chunk_size: u64, id: usize)
    requires
        stealable(chunk, min_chunk_size),
        !chunk.open_ended(),
    ensures
        front_half(chunk).left() + back_half(chunk, id as int).left() == chunk.left(),
        front_half(chunk).left() == back_half(chunk, id as int).left() || front_half(chunk).left()
            == back_half(chunk, id as int).left() + 1,
        front_half(chunk).left() >= min_chunk_size,
        back_half(chunk, id as int).left() >= min_chunk_size,
{
    assert(chunk.current <= middle(chunk) <= chunk.end);
}

/// A chunk with no more than twice the smallest size left is not split.
pub proof fn law_small_chunks_stay_whole(before: Scheduler, after: Scheduler, next: Option<usize>, i: int)
    requires
        handed_out(before, after, next),
        0 <= i < before.chunks@.len(),
        before.chunks@[i].left() <= 2 * before.min_chunk_size,
    ensures
        after.chunks@[i].start == before.chunks@[i].start,
        after.chunks@[i].end == before.chunks@[i].end,
        after.chunks@[i].current == before.chunks@[i].current,
{
    let chunks = before.chunks@;
    let least = before.min_chunk_size;
    if !any_pending(chunks) && before.dynamic_split && any_stealable(chunks, least) {
        let v = choose|v: int| is_victim(chunks, least, v);
        assert(after.chunks@ == split_at(chunks, v));
        assert(v != i);
    }
}

/// With splitting off, the number of chunks and their bounds never change.
pub proof fn law_no_split_without_dynamic_split(
    before: Scheduler,
    after: Scheduler,
    next: Option<usize>,
)
    requires
        handed_out(before, after, next),
        !before.dynamic_split,
    ensures
        after.chunks@.len() == before.chunks@.len(),
        forall|i: int|
            0 <= i < before.chunks@.len() ==> {
                &&& (#[trigger] after.chunks@[i]).start == before.chunks@[i].start
                &&& after.chunks@[i].end == before.chunks@[i].end
                &&& after.chunks@[i].current == before.chunks@[i].current
            },
{
}

/// A chunk that is handed out was not with a worker before, and is with one
/// after; every other chunk keeps its status.
pub proof fn law_one_worker_per_chunk(before: Scheduler, after: Scheduler, next: Option<usize>)
    requires
        handed_out(before, after, next),
        next is Some,
    ensures
        next->0 < after.chunks@.len(),
        after.chunks@[next->0 as int].status == ChunkStatus::Downloading,
        next->0 < before.chunks@.len() ==> before.chunks@[next->0 as int].status
            == ChunkStatus::Pending,
        forall|i: int|
            0 <= i < before.chunks@.len() && i != next->0 ==> (#[trigger] after.chunks@[i]).status
                == before.chunks@[i].status,
{
    let chunks = before.chunks@;
    let least = before.min_chunk_size;
    if !any_pending(chunks) {
        let v = choose|v: int| is_victim(chunks, least, v);
        assert(after.chunks@ == split_at(chunks, v));
    }
}

/// Work is stolen exactly where more than twice the smallest size is left of a
/// chunk that a worker is on. It is the back half of what is left of the chunk that
/// has the most left, the first of these: the halves meet, the front one is larger
/// by at most a byte, and nothing else changes.
pub proof fn law_the_most_is_shared(
    before: Scheduler,
    after: Scheduler,
    next: Option<usize>,
) -> (v: int)
    requires
        stolen(before, after, next),
        split_in_range(before.chunks@, before.min_chunk_size),
    ensures
        ({
            let chunks = before.chunks@;
            let now = after.chunks@;
            let n = chunks.len() as int;
            let mid = now[v].end as int;
            &&& next is Some <==> exists|i: int|
                0 <= i < n && (#[trigger] chunks[i]).status == ChunkStatus::Downloading
                    && chunks[i].left() > 2 * before.min_chunk_size
            &&& next is None ==> now == chunks
            &&& next is Some ==> {
                &&& next->0 == n && now.len() == n + 1
                &&& 0 <= v < n
                &&& chunks[v].status == ChunkStatus::Downloading
                &&& chunks[v].left() > 2 * before.min_chunk_size
                &&& forall|j: int|
                    0 <= j < n && (#[trigger] chunks[j]).status == ChunkStatus::Downloading ==> {
                        &&& chunks[j].left() <= chunks[v].left()
                        &&& j < v ==> chunks[j].left() < chunks[v].left()
                    }
                &&& now[v] == ChunkInfo { end: now[v].end, ..chunks[v] }
                &&& chunks[v].current <= mid <= chunks[v].end
                &&& 0 <= (mid - chunks[v].current + 1) - (chunks[v].end - mid) <= 1
                &&& now[n].start == mid + 1 && now[n].current == mid + 1
                &&& now[n].end == chunks[v].end
                &&& now[n].status == ChunkStatus::Downloading
                &&& now[n].id == n && now[n].retries == 0
                &&& forall|j: int| 0 <= j < n && j != v ==> #[trigger] now[j] == chunks[j]
            }
        }),
        after.min_chunk_size == before.min_chunk_size,
        after.dynamic_split == before.dynamic_split,
{
    let chunks = before.chunks@;
    let least = before.min_chunk_size;
    let n = chunks.len() as int;
    if exists|i: int|
        0 <= i < n && (#[trigger] chunks[i]).status == ChunkStatus::Downloading && chunks[i].left()
            > 2 * least {
        let i = choose|i: int|
            0 <= i < n && (#[trigger] chunks[i]).status == ChunkStatus::Downloading
                && chunks[i].left() > 2 * least;
        assert(stealable(chunks[i], least));
    }
    if any_stealable(chunks, least) {
        let i = choose|i: int| 0 <= i < n && stealable(#[trigger] chunks[i], least);
        assert(chunks[i].status == ChunkStatus::Downloading);
        let v = choose|v: int| is_victim(chunks, least, v);
        assert(is_victim(chunks, least, v));
        assert(after.chunks@ == split_at(chunks, v));
        assert(chunks[v].current <= middle(chunks[v]) <= chunks[v].end);
        assert(before.chunks.len() <= usize::MAX);
        assert forall|j: int|
            0 <= j < n && (#[trigger] chunks[j]).status == ChunkStatus::Downloading implies {
            &&& chunks[j].left() <= chunks[v].left()
            &&& j < v ==> chunks[j].left() < chunks[v].left()
        } by {
            if stealable(chunks[j], least) {
                assert(chunks[j].left() <= chunks[v].left());
            }
        }
        v
    } else {
        0
    }
}

/// A request for a chunk is met with the first that waits, which changes in
/// nothing but its status. Where none waits and splitting is on, work is stolen;
/// otherwise there is no chunk to hand out, and nothing changes.
pub proof fn law_waiting_chunks_go_first(
    before: Scheduler,
    after: Scheduler,
    next: Option<usize>,
)
    requires
        handed_out(before, after, next),
    ensures
        ({
            let chunks = before.chunks@;
            let now = after.chunks@;
            let n = chunks.len() as int;
            let p = next->0 as int;
            let waits = exists|i: int|
                0 <= i < n && (#[trigger] chunks[i]).status == ChunkStatus::Pending;
            &&& waits ==> {
                &&& next is Some
                &&& 0 <= p < n && now.len() == n
                &&& chunks[p].status == ChunkStatus::Pending
                &&& forall|j: int|
                    0 <= j < p ==> (#[trigger] chunks[j]).status != ChunkStatus::Pending
                &&& now[p] == ChunkInfo { status: ChunkStatus::Downloading, ..chunks[p] }
                &&& forall|j: int| 0 <= j < n && j != p ==> #[trigger] now[j] == chunks[j]
            }
            &&& !waits && before.dynamic_split ==> stolen(before, after, next)
            &&& !waits && !before.dynamic_split ==> next is None && now == chunks
        }),
        after.min_chunk_size == before.min_chunk_size,
        after.dynamic_split == before.dynamic_split,
{
}

/// Handing out a chunk keeps the chunks a division of the file.
pub proof fn law_handing_out_keeps_tiling(
    before: Scheduler,
    after: Scheduler,
    next: Option<usize>,
    total: int,
)
    requires
        handed_out(before, after, next),
        tiles(before.chunks@, total),
        started(before.chunks@),
        before.ready(),
    ensures
        tiles(after.chunks@, total),
        started(after.chunks@),
{
    let chunks = before.chunks@;
    let least = before.min_chunk_size;
    let now = after.chunks@;
    if any_pending(chunks) {
        let p = next->0 as int;
        assert forall|b: int| 0 <= b < total implies #[trigger] covered(now, b) by {
            assert(covered(chunks, b));
            let i = choose|i: int| 0 <= i < chunks.len() && holds(#[trigger] chunks[i], b);
            assert(holds(now[i], b));
        }
    } else if before.dynamic_split && any_stealable(chunks, least) {
        let v = choose|v: int| is_victim(chunks, least, v);
        assert(now == split_at(chunks, v));
        lemma_split_tiles(chunks, total, v);
    }
}

proof fn lemma_split_tiles(chunks: Seq<ChunkInfo>, total: int, v: int)
    requires
        tiles(chunks, total),
        started(chunks),
        0 <= v < chunks.len(),
        chunks[v].current <= chunks[v].end,
        chunks[v].current < u64::MAX,
    ensures
        tiles(split_at(chunks, v), total),
        started(split_at(chunks, v)),
{
    let now = split_at(chunks, v);
    let n = chunks.len() as int;
    assert(chunks[v].current <= middle(chunks[v]) <= chunks[v].end);
    assert(now[v] == front_half(chunks[v]));
    assert(now[n] == back_half(chunks[v], n));
    assert(forall|i: int| 0 <= i < n && i != v ==> now[i] == chunks[i]);
    assert forall|i: int, j: int|
        #![trigger now[i], now[j]]
        0 <= i < now.len() && 0 <= j < now.len() && i != j implies now[i].end < now[j].start
        || now[j].end < now[i].start by {
        let a = if i == n { v } else { i };
        let c = if j == n { v } else { j };
        if a != c {
            assert(chunks[a].end < chunks[c].start || chunks[c].end < chunks[a].start);
        }
    }
    assert forall|b: int| 0 <= b < total implies #[trigger] covered(now, b) by {
        assert(covered(chunks, b));
        let i = choose|i: int| 0 <= i < chunks.len() && holds(#[trigger] chunks[i], b);
        if i == v {
            assert(holds(now[v], b) || holds(now[n], b));
        } else {
            assert(holds(now[i], b));
        }
    }
}

/// Handing out a chunk changes neither which bytes are still to come nor which
/// have been downloaded.
pub proof fn law_handing_out_keeps_bytes(
    before: Scheduler,
    after: Scheduler,
    next: Option<usize>,
    b: int,
)
    requires
        handed_out(before, after, next),
        before.ready(),
    ensures
        to_come(after.chunks@, b) == to_come(before.chunks@, b),
        fetched(after.chunks@, b) == fetched(before.chunks@, b),
{
    let chunks = before.chunks@;
    let least = before.min_chunk_size;
    let now = after.chunks@;
    let n = chunks.len() as int;
    if !any_pending(chunks) && before.dynamic_split && any_stealable(chunks, least) {
        let v = choose|v: int| is_victim(chunks, least, v);
        assert(now == split_at(chunks, v));
        assert(chunks[v].current <= middle(chunks[v]) <= chunks[v].end);
        assert(now[v] == front_half(chunks[v]));
        assert(now[n] == back_half(chunks[v], n));
        if to_come(chunks, b) {
            let i = choose|i: int|
                0 <= i < chunks.len() && (#[trigger] chunks[i]).current <= b <= chunks[i].end;
            assert(now[i].current <= b <= now[i].end || now[n].current <= b <= now[n].end);
        }
        if to_come(now, b) {
            let i = choose|i: int| 0 <= i < now.len() && (#[trigger] now[i]).current <= b <= now[i].end;
            let a = if i == n { v } else { i };
            assert(chunks[a].current <= b <= chunks[a].end);
        }
        if fetched(chunks, b) {
            let i = choose|i: int|
                0 <= i < chunks.len() && (#[trigger] chunks[i]).start <= b < chunks[i].current;
            assert(now[i].start <= b < now[i].current);
        }
        if fetched(now, b) {
            let i = choose|i: int| 0 <= i < now.len() && (#[trigger] now[i]).start <= b < now[i].current;
            assert(i != n);
            assert(chunks[i].start <= b < chunks[i].current);
        }
    } else {
        assert(forall|i: int| 0 <= i < n ==> now[i].end == chunks[i].end);
        if to_come(chunks, b) {
            let i = choose|i: int|
                0 <= i < chunks.len() && (#[trigger] chunks[i]).current <= b <= chunks[i].end;
            assert(now[i].current <= b <= now[i].end);
        }
        if fetched(chunks, b) {
            let i = choose|i: int|
                0 <= i < chunks.len() && (#[trigger] chunks[i]).start <= b < chunks[i].current;
            assert(now[i].start <= b < now[i].current);
        }
        if to_come(now, b) {
            let i = choose|i: int| 0 <= i < now.len() && (#[trigger] now[i]).current <= b <= now[i].end;
            assert(chunks[i].current <= b <= chunks[i].end);
        }
        if fetched(now, b) {
            let i = choose|i: int| 0 <= i < now.len() && (#[trigger] now[i]).start <= b < now[i].current;
            assert(chunks[i].start <= b < chunks[i].current);
        }
    }
}

/// Handing out a chunk keeps the numbers of the chunks equal to their
/// positions, and keeps completed chunks complete.
pub proof fn law_handing_out_keeps_numbers(
    before: Scheduler,
    after: Scheduler,
    next: Option<usize>,
)
    requires
        handed_out(before, after, next),
    ensures
        numbered(before.chunks@) ==> numbered(after.chunks@),
        honest(before.chunks@) ==> honest(after.chunks@),
{
    let chunks = before.chunks@;
    let least = before.min_chunk_size;
    let now = after.chunks@;
    if !any_pending(chunks) && before.dynamic_split && any_stealable(chunks, least) {
        let v = choose|v: int| is_victim(chunks, least, v);
        assert(now == split_at(chunks, v));
    }
}

/// Replacing a chunk by one with the same bounds keeps the division.
proof fn lemma_same_bounds_tile(chunks: Seq<ChunkInfo>, total: int, i: int, chunk: ChunkInfo)
    requires
        tiles(chunks, total),
        0 <= i < chunks.len(),
        chunk.start == chunks[i].start,
        chunk.end == chunks[i].end,
    ensures
        tiles(chunks.update(i, chunk), total),
{
    let now = chunks.update(i, chunk);
    assert forall|b: int| 0 <= b < total implies #[trigger] covered(now, b) by {
        assert(covered(chunks, b));
        let k = choose|k: int| 0 <= k < chunks.len() && holds(#[trigger] chunks[k], b);
        assert(holds(now[k], b));
    }
}

/// Whatever happens to a worker, the chunks stay a division of the file, keep
/// their numbers, and count as completed only when they are.
pub proof fn law_downloading_keeps_tiling(
    chunks: Seq<ChunkInfo>,
    total: int,
    i: int,
    stream: ChunkStream,
    event: StreamEvent,
)
    requires
        tiles(chunks, total),
        started(chunks),
        honest(chunks),
        0 <= i < chunks.len(),
        chunks[i].start <= stream.offset,
        step_in_range(stream, chunks[i], event),
    ensures
        ({
            let now = chunks.update(i, stream_step(stream, chunks[i], event).1);
            &&& tiles(now, total)
            &&& started(now)
            &&& honest(now)
            &&& numbered(chunks) ==> numbered(now)
        }),
{
    lemma_same_bounds_tile(chunks, total, i, stream_step(stream, chunks[i], event).1);
}

} // verus!
