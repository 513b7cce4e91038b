//! What a download comes to: whatever its workers do and in whatever order, the
//! file ends up as the one that the links serve.
use crate::errors::TaskError;
use crate::plan::{even_chunks, law_plan_divides_the_file, law_resuming_keeps_progress, resumed_all};
use crate::run::{
    failure_noted, law_assigning_keeps_sound, law_downloading_keeps_sound, law_failing_keeps_sound,
    sound,
};
use crate::scheduler::{
    any_pending, any_stealable, handed_out, is_victim, split_at, Scheduler,
};
use crate::tiling::{all_completed, covered, holds};
use crate::types::{ChunkInfo, ChunkStatus};
use crate::worker::{step_in_range, stream_step, ChunkStream, StreamAction, StreamEvent};
use vstd::prelude::*;

verus! {

/// A worker at work.
pub struct Hand {
    /// The position of its chunk.
    pub position: int,
    pub stream: ChunkStream,
    /// How many bytes have come and are about to be written.
    pub to_write: Option<usize>,
}

/// A download under way: its chunks, its workers, and the file as it is.
pub struct Download {
    pub scheduler: Scheduler,
    pub hands: Map<nat, Hand>,
    pub file: Seq<u8>,
}

/// Something that happens to a download.
pub enum Step {
    /// Work is asked for; where there is some, a worker with this number gets it.
    GiveOut { next: Option<usize>, worker: nat },
    /// Something happens to a worker.
    Work { worker: nat, event: StreamEvent },
    /// A worker leaves without having done anything more.
    Leave { worker: nat },
    /// The failure of a worker is noted.
    Note {
        id: usize,
        message: Seq<char>,
        max_retries: u32,
        outcome: Result<(), TaskError>,
    },
}

/// A file after some data was written to it; the file grows where the data
/// reaches beyond its end.
pub open spec fn written(file: Seq<u8>, offset: int, data: Seq<u8>) -> Seq<u8> {
    Seq::new(
        if offset + data.len() > file.len() {
            (offset + data.len()) as nat
        } else {
            file.len()
        },
        |b: int|
            if offset <= b < offset + data.len() {
                data[b - offset]
            } else {
                file[b]
            },
    )
}

/// The workers after one of them took a step that leads to an action.
pub open spec fn hands_after(
    hands: Map<nat, Hand>,
    worker: nat,
    stream: ChunkStream,
    action: StreamAction,
) -> Map<nat, Hand> {
    let position = hands[worker].position;
    match action {
        StreamAction::Read => hands.insert(worker, Hand { position, stream, to_write: None }),
        StreamAction::Write(n) => hands.insert(
            worker,
            Hand { position, stream, to_write: Some(n) },
        ),
        _ => hands.remove(worker),
    }
}

/// The step leads from the one state of a download to the other, where the links
/// serve `remote`. A worker that writes so many bytes writes those that the
/// links serve from its place on, and writes as many as it was told to.
pub open spec fn leads_to(a: Download, step: Step, b: Download, remote: Seq<u8>) -> bool {
    match step {
        Step::GiveOut { next, worker } => {
            &&& a.scheduler.ready()
            &&& handed_out(a.scheduler, b.scheduler, next)
            &&& b.file == a.file
            &&& !a.hands.contains_key(worker)
            &&& b.hands == match next {
                Some(p) => {
                    let chunk = b.scheduler.chunks@[p as int];
                    a.hands.insert(
                        worker,
                        Hand {
                            position: p as int,
                            stream: ChunkStream::at(chunk),
                            to_write: None,
                        },
                    )
                },
                None => a.hands,
            }
        },
        Step::Work { worker, event } => {
            let hand = a.hands[worker];
            let chunks = a.scheduler.chunks@;
            let (stream, chunk, action) = stream_step(hand.stream, chunks[hand.position], event);
            &&& a.hands.contains_key(worker)
            &&& step_in_range(hand.stream, chunks[hand.position], event)
            &&& event is Written ==> hand.to_write == Some(event->Written_0)
            &&& b.scheduler.chunks@ == chunks.update(hand.position, chunk)
            &&& b.scheduler.min_chunk_size == a.scheduler.min_chunk_size
            &&& b.scheduler.dynamic_split == a.scheduler.dynamic_split
            &&& b.hands == hands_after(a.hands, worker, stream, action)
            &&& b.file == match event {
                StreamEvent::Written(n) => written(
                    a.file,
                    hand.stream.offset as int,
                    remote.subrange(hand.stream.offset as int, hand.stream.offset + n),
                ),
                _ => a.file,
            }
        },
        Step::Leave { worker } => {
            &&& b.scheduler == a.scheduler
            &&& b.file == a.file
            &&& b.hands == a.hands.remove(worker)
        },
        Step::Note { id, message, max_retries, outcome } => {
            &&& failure_noted(
                a.scheduler.chunks@,
                b.scheduler.chunks@,
                max_retries,
                id,
                message,
                outcome,
            )
            &&& b.scheduler.min_chunk_size == a.scheduler.min_chunk_size
            &&& b.scheduler.dynamic_split == a.scheduler.dynamic_split
            &&& b.file == a.file
            &&& b.hands == a.hands
        },
    }
}

/// The bytes from `from` up to `to` are those that the links serve.
pub open spec fn right(file: Seq<u8>, remote: Seq<u8>, from: int, to: int) -> bool {
    forall|b: int| from <= b < to && 0 <= b < remote.len() ==> #[trigger] file[b] == remote[b]
}

/// What the chunks have downloaded is what the links serve.
pub open spec fn chunks_right(file: Seq<u8>, remote: Seq<u8>, chunks: Seq<ChunkInfo>) -> bool {
    forall|i: int|
        0 <= i < chunks.len() ==> right(
            file,
            remote,
            (#[trigger] chunks[i]).start as int,
            chunks[i].current as int,
        )
}

/// A worker stands where all before it, in its chunk, is as the links serve it,
/// and what it is about to write lies within the file.
pub open spec fn hand_right(
    file: Seq<u8>,
    remote: Seq<u8>,
    chunks: Seq<ChunkInfo>,
    hand: Hand,
) -> bool {
    &&& 0 <= hand.position < chunks.len()
    &&& chunks[hand.position].start <= hand.stream.offset
    &&& right(file, remote, chunks[hand.position].start as int, hand.stream.offset as int)
    &&& hand.to_write matches Some(n) ==> hand.stream.offset + n <= remote.len()
}

/// What holds of a download at all times: the chunks divide the file, and what
/// has been downloaded is what the links serve.
pub open spec fn faithful(d: Download, remote: Seq<u8>) -> bool {
    &&& remote.len() <= u64::MAX
    &&& d.file.len() == remote.len()
    &&& sound(d.scheduler.chunks@, remote.len() as int)
    &&& chunks_right(d.file, remote, d.scheduler.chunks@)
    &&& forall|w: nat|
        d.hands.contains_key(w) ==> hand_right(
            d.file,
            remote,
            d.scheduler.chunks@,
            #[trigger] d.hands[w],
        )
}

/// A download that begins on a file of the right length is faithful, whatever
/// the file holds.
pub proof fn law_beginnings_are_faithful(d: Download, remote: Seq<u8>, n: u32)
    requires
        remote.len() <= u64::MAX,
        remote.len() > 0 ==> n > 0,
        d.file.len() == remote.len(),
        d.scheduler.chunks@ == even_chunks(remote.len() as u64, n),
        d.hands == Map::<nat, Hand>::empty(),
    ensures
        faithful(d, remote),
{
    law_plan_divides_the_file(remote.len() as u64, n);
}

/// A byte that is as the links serve it stays so, whatever happens.
pub proof fn law_right_bytes_stay_right(
    a: Download,
    step: Step,
    b: Download,
    remote: Seq<u8>,
    at: int,
)
    requires
        faithful(a, remote),
        leads_to(a, step, b, remote),
        0 <= at < remote.len(),
        a.file[at] == remote[at],
    ensures
        b.file[at] == remote[at],
{
    if let Step::Work { worker, event } = step {
        assert(hand_right(a.file, remote, a.scheduler.chunks@, a.hands[worker]));
    }
}

/// Whatever happens to a faithful download, it stays faithful.
pub proof fn law_steps_are_faithful(a: Download, step: Step, b: Download, remote: Seq<u8>)
    requires
        faithful(a, remote),
        leads_to(a, step, b, remote),
    ensures
        faithful(b, remote),
{
    let total = remote.len() as int;
    let before = a.scheduler.chunks@;
    let after = b.scheduler.chunks@;
    match step {
        Step::GiveOut { next, worker } => {
            law_assigning_keeps_sound(a.scheduler, b.scheduler, next, total);
            lemma_giving_out_keeps_places(a.scheduler, b.scheduler, next);
            assert forall|i: int| 0 <= i < after.len() implies right(
                b.file,
                remote,
                (#[trigger] after[i]).start as int,
                after[i].current as int,
            ) by {
                if i < before.len() {
                    assert(after[i].start == before[i].start);
                    assert(right(a.file, remote, before[i].start as int, before[i].current as int));
                }
            }
            assert forall|w: nat| b.hands.contains_key(w) implies hand_right(
                b.file,
                remote,
                after,
                #[trigger] b.hands[w],
            ) by {
                if a.hands.contains_key(w) && w != worker {
                    assert(b.hands[w] == a.hands[w]);
                    assert(hand_right(a.file, remote, before, a.hands[w]));
                    assert(after[a.hands[w].position].start == before[a.hands[w].position].start);
                } else {
                    let p = next->0 as int;
                    assert(right(b.file, remote, after[p].start as int, after[p].current as int));
                }
            }
        },
        Step::Work { worker, event } => {
            lemma_work_is_faithful(a, worker, event, b, remote);
        },
        Step::Leave { worker } => {
            assert forall|w: nat| b.hands.contains_key(w) implies hand_right(
                b.file,
                remote,
                after,
                #[trigger] b.hands[w],
            ) by {
                assert(hand_right(a.file, remote, before, a.hands[w]));
            }
        },
        Step::Note { id, message, max_retries, outcome } => {
            law_failing_keeps_sound(before, after, max_retries, id, message, outcome, total);
            lemma_noting_keeps_places(before, after, max_retries, id, message, outcome);
            assert forall|i: int| 0 <= i < after.len() implies right(
                b.file,
                remote,
                (#[trigger] after[i]).start as int,
                after[i].current as int,
            ) by {
                assert(after[i].start == before[i].start);
                assert(right(a.file, remote, before[i].start as int, before[i].current as int));
            }
            assert forall|w: nat| b.hands.contains_key(w) implies hand_right(
                b.file,
                remote,
                after,
                #[trigger] b.hands[w],
            ) by {
                assert(hand_right(a.file, remote, before, a.hands[w]));
                assert(after[a.hands[w].position].start == before[a.hands[w].position].start);
            }
        },
    }
}

/// Giving out work moves no chunk that was there, and gives out a chunk that is
/// there.
proof fn lemma_giving_out_keeps_places(before: Scheduler, after: Scheduler, next: Option<usize>)
    requires
        handed_out(before, after, next),
        before.ready(),
    ensures
        after.chunks@.len() >= before.chunks@.len(),
        forall|i: int|
            0 <= i < before.chunks@.len() ==> (#[trigger] after.chunks@[i]).start
                == before.chunks@[i].start && after.chunks@[i].current == before.chunks@[i].current,
        forall|i: int|
            before.chunks@.len() <= i < after.chunks@.len() ==> (#[trigger] after.chunks@[i]).current
                == after.chunks@[i].start,
        next matches Some(p) ==> p < after.chunks@.len(),
{
    let chunks = before.chunks@;
    let least = before.min_chunk_size;
    if !any_pending(chunks) && before.dynamic_split && any_stealable(chunks, least) {
        let v = choose|v: int| is_victim(chunks, least, v);
        assert(after.chunks@ == split_at(chunks, v));
    }
}

/// Noting a failure moves no chunk.
proof fn lemma_noting_keeps_places(
    before: Seq<ChunkInfo>,
    after: Seq<ChunkInfo>,
    max_retries: u32,
    id: usize,
    message: Seq<char>,
    r: Result<(), TaskError>,
)
    requires
        failure_noted(before, after, max_retries, id, message, r),
    ensures
        after.len() == before.len(),
        forall|i: int|
            0 <= i < before.len() ==> (#[trigger] after[i]).start == before[i].start
                && after[i].current == before[i].current,
{
    if exists|i: int| crate::run::is_first_with_id(before, id, i) {
        let i = choose|i: int| crate::run::is_first_with_id(before, id, i);
        assert(crate::run::is_first_with_id(before, id, i));
    }
}

/// Whatever happens to a worker, the download stays faithful.
proof fn lemma_work_is_faithful(
    a: Download,
    worker: nat,
    event: StreamEvent,
    b: Download,
    remote: Seq<u8>,
)
    requires
        faithful(a, remote),
        leads_to(a, Step::Work { worker, event }, b, remote),
    ensures
        faithful(b, remote),
{
    let total = remote.len() as int;
    let before = a.scheduler.chunks@;
    let after = b.scheduler.chunks@;
    let hand = a.hands[worker];
    let p = hand.position;
    let (stream, chunk, action) = stream_step(hand.stream, before[p], event);
    assert(hand_right(a.file, remote, before, hand));
    law_downloading_keeps_sound(before, total, p, hand.stream, event);
    assert forall|at: int| 0 <= at < total && a.file[at] == remote[at] implies #[trigger] b.file[at]
        == remote[at] by {
        law_right_bytes_stay_right(a, Step::Work { worker, event }, b, remote, at);
    }
    assert(b.file.len() == total);
    assert(right(b.file, remote, before[p].start as int, stream.offset as int)) by {
        if let StreamEvent::Written(n) = event {
            let offset = hand.stream.offset as int;
            assert(hand.to_write == Some(n));
            assert forall|at: int|
                before[p].start <= at < stream.offset && 0 <= at < total implies #[trigger] b.file[at]
                == remote[at] by {
                if at < offset {
                    assert(a.file[at] == remote[at]);
                }
            }
        }
    }
    assert forall|i: int| 0 <= i < after.len() implies right(
        b.file,
        remote,
        (#[trigger] after[i]).start as int,
        after[i].current as int,
    ) by {
        assert(right(a.file, remote, before[i].start as int, before[i].current as int));
        if i == p && event is Written {
            assert(after[i].current == stream.offset);
        } else {
            assert(after[i].current == before[i].current);
            assert forall|at: int|
                after[i].start <= at < after[i].current && 0 <= at < total implies #[trigger] b.file[at]
                == remote[at] by {
                assert(a.file[at] == remote[at]);
            }
        }
    }
    assert forall|w: nat| b.hands.contains_key(w) implies hand_right(
        b.file,
        remote,
        after,
        #[trigger] b.hands[w],
    ) by {
        if w == worker {
            if let StreamAction::Write(n) = action {
                assert(before[p].end < total);
            }
        } else {
            let other = a.hands[w];
            assert(b.hands[w] == other);
            assert(hand_right(a.file, remote, before, other));
            assert(after[other.position].start == before[other.position].start);
            assert forall|at: int|
                before[other.position].start <= at < other.stream.offset && 0 <= at
                    < total implies #[trigger] b.file[at] == remote[at] by {
                assert(a.file[at] == remote[at]);
            }
        }
    }
}

/// When every chunk of a faithful download counts as completed, the file is the
/// one that the links serve.
pub proof fn law_completed_downloads_are_right(d: Download, remote: Seq<u8>)
    requires
        faithful(d, remote),
        all_completed(d.scheduler.chunks@),
    ensures
        d.file == remote,
{
    let chunks = d.scheduler.chunks@;
    assert forall|b: int| 0 <= b < remote.len() implies d.file[b] == remote[b] by {
        assert(covered(chunks, b));
        let i = choose|i: int| 0 <= i < chunks.len() && holds(#[trigger] chunks[i], b);
        assert(chunks[i].end < chunks[i].current);
        assert(right(d.file, remote, chunks[i].start as int, chunks[i].current as int));
    }
    assert(d.file =~= remote);
}

/// A run of a download: each state comes from the one before it by a step.
pub open spec fn is_run(states: Seq<Download>, steps: Seq<Step>, remote: Seq<u8>) -> bool {
    &&& states.len() == steps.len() + 1
    &&& forall|i: int|
        0 <= i < steps.len() ==> leads_to(states[i], #[trigger] steps[i], states[i + 1], remote)
}

/// However many workers there are and in whatever order they do what they do,
/// however often they fail and chunks are split: when a download that began
/// faithfully has completed every chunk, the file is the one that the links
/// serve. And what was right at the beginning is right at the end.
pub proof fn law_downloads_deliver(states: Seq<Download>, steps: Seq<Step>, remote: Seq<u8>)
    requires
        is_run(states, steps, remote),
        faithful(states[0], remote),
    ensures
        faithful(states.last(), remote),
        all_completed(states.last().scheduler.chunks@) ==> states.last().file == remote,
        forall|at: int|
            0 <= at < remote.len() && states[0].file[at] == remote[at] ==> (
            #[trigger] states.last().file[at]) == remote[at],
    decreases steps.len(),
{
    if steps.len() > 0 {
        let fewer = states.drop_last();
        let shorter = steps.drop_last();
        assert forall|i: int| 0 <= i < shorter.len() implies leads_to(
            fewer[i],
            #[trigger] shorter[i],
            fewer[i + 1],
            remote,
        ) by {
            assert(leads_to(states[i], steps[i], states[i + 1], remote));
        }
        law_downloads_deliver(fewer, shorter, remote);
        let n = steps.len() as int;
        let a = states[n - 1];
        let b = states[n];
        assert(fewer.last() == a && states.last() == b);
        assert(leads_to(a, steps[n - 1], b, remote));
        law_steps_are_faithful(a, steps[n - 1], b, remote);
        assert forall|at: int|
            0 <= at < remote.len() && states[0].file[at] == remote[at] implies (
        #[trigger] states.last().file[at]) == remote[at] by {
            assert(fewer.last().file[at] == remote[at]);
            law_right_bytes_stay_right(a, steps[n - 1], b, remote, at);
        }
    }
    if all_completed(states.last().scheduler.chunks@) {
        law_completed_downloads_are_right(states.last(), remote);
    }
}

/// A download that was broken off can go on from any state that was saved on the
/// way: with the chunks as they were saved, and the file as it is, in which what
/// was right when the state was saved is still right.
pub proof fn law_resumed_downloads_are_faithful(saved: Download, d: Download, remote: Seq<u8>)
    requires
        faithful(saved, remote),
        d.scheduler.chunks@ == resumed_all(saved.scheduler.chunks@),
        d.hands == Map::<nat, Hand>::empty(),
        d.file.len() == remote.len(),
        forall|at: int|
            0 <= at < remote.len() && saved.file[at] == remote[at] ==> (#[trigger] d.file[at])
                == remote[at],
    ensures
        faithful(d, remote),
{
    let before = saved.scheduler.chunks@;
    let after = d.scheduler.chunks@;
    law_resuming_keeps_progress(before, remote.len() as int);
    assert forall|i: int| 0 <= i < after.len() implies right(
        d.file,
        remote,
        (#[trigger] after[i]).start as int,
        after[i].current as int,
    ) by {
        assert(after[i].current == before[i].current && after[i].start == before[i].start);
        assert(right(saved.file, remote, before[i].start as int, before[i].current as int));
        assert forall|at: int|
            after[i].start <= at < after[i].current && 0 <= at < remote.len() implies #[trigger] d.file[at]
            == remote[at] by {
            assert(saved.file[at] == remote[at]);
        }
    }
}

// ---------------------------------------------------------------------------
// Files of unknown size
// ---------------------------------------------------------------------------
/// The pieces, one after the other.
pub open spec fn whole_data(pieces: Seq<Seq<u8>>) -> Seq<u8>
    decreases pieces.len(),
{
    if pieces.len() == 0 {
        Seq::empty()
    } else {
        pieces[0] + whole_data(pieces.drop_first())
    }
}

/// Where a worker, its chunk and the file stand after data came in the given
/// pieces, of which the worker wrote what it was told to, and then no more came.
pub open spec fn after_data(
    stream: ChunkStream,
    chunk: ChunkInfo,
    file: Seq<u8>,
    pieces: Seq<Seq<u8>>,
) -> (ChunkStream, ChunkInfo, Seq<u8>)
    decreases pieces.len(),
{
    if pieces.len() == 0 {
        let (s, c, _) = stream_step(stream, chunk, StreamEvent::End);
        (s, c, file)
    } else {
        let len = pieces[0].len() as usize;
        let (s, c, action) = stream_step(stream, chunk, StreamEvent::Data(len));
        match action {
            StreamAction::Write(n) => {
                let now = written(file, s.offset as int, pieces[0].take(n as int));
                let (s, c, action) = stream_step(s, c, StreamEvent::Written(n));
                if action is Read {
                    after_data(s, c, now, pieces.drop_first())
                } else {
                    (s, c, now)
                }
            },
            _ => (s, c, file),
        }
    }
}

/// Each piece can be held in memory.
pub open spec fn pieces_fit(pieces: Seq<Seq<u8>>) -> bool {
    forall|i: int| 0 <= i < pieces.len() ==> (#[trigger] pieces[i]).len() <= usize::MAX
}

/// A download whose size is not known delivers, too: the file ends up as it was
/// with all the data that came behind it, however the data is cut into pieces;
/// and the chunk is completed. A download that begins, on an empty file, so gets
/// exactly the data.
pub proof fn law_open_downloads_deliver(
    stream: ChunkStream,
    chunk: ChunkInfo,
    file: Seq<u8>,
    pieces: Seq<Seq<u8>>,
)
    requires
        chunk.open_ended(),
        stream.offset == chunk.current,
        file.len() == chunk.current,
        pieces_fit(pieces),
        chunk.current + whole_data(pieces).len() <= u64::MAX,
    ensures
        ({
            let (s, c, now) = after_data(stream, chunk, file, pieces);
            &&& now == file + whole_data(pieces)
            &&& c.status == ChunkStatus::Completed
            &&& c.current == now.len()
            &&& s.offset == c.current
            &&& c.start == chunk.start && c.end == chunk.end && c.id == chunk.id
        }),
    decreases pieces.len(),
{
    if pieces.len() == 0 {
        assert(file + whole_data(pieces) =~= file);
    } else {
        let piece = pieces[0];
        let rest = pieces.drop_first();
        let len = piece.len() as usize;
        assert(piece.len() <= usize::MAX);
        let (s, c, action) = stream_step(stream, chunk, StreamEvent::Data(len));
        assert(action == StreamAction::Write(len));
        let (s2, c2, action2) = stream_step(s, c, StreamEvent::Written(len));
        assert(action2 == StreamAction::Read);
        let now = written(file, s.offset as int, piece.take(len as int));
        assert(piece.take(len as int) =~= piece);
        assert(now =~= file + piece);
        assert forall|i: int| 0 <= i < rest.len() implies (#[trigger] rest[i]).len()
            <= usize::MAX by {
            assert(rest[i] == pieces[i + 1]);
        }
        law_open_downloads_deliver(s2, c2, now, rest);
        assert(file + whole_data(pieces) =~= now + whole_data(rest));
    }
}

} // verus!
