//! Why a download comes to an end: splitting does, and so does the work.
use crate::delivery::{
    faithful, hand_right, is_run, law_completed_downloads_are_right,
    law_resumed_downloads_are_faithful, law_steps_are_faithful, leads_to, Download, Hand, Step,
};
use crate::plan::{even_chunks, law_plan_divides_the_file, law_resuming_keeps_progress, resumed_all};
use crate::run::has_work;
use crate::scheduler::{
    any_pending, back_half, front_half, handed_out, is_victim, middle, split_at, stealable,
    stolen, Scheduler,
};
use crate::tiling::{all_completed, law_split_is_in_halves};
use crate::types::{ChunkInfo, ChunkStatus};
use crate::worker::{stream_step, StreamEvent};
use vstd::prelude::*;

verus! {

// ---------------------------------------------------------------------------
// Sums over chunks
// ---------------------------------------------------------------------------
/// The sum of what `f` gives for each chunk.
pub open spec fn sum_of(chunks: Seq<ChunkInfo>, f: spec_fn(ChunkInfo) -> int) -> int
    decreases chunks.len(),
{
    if chunks.len() == 0 {
        0
    } else {
        sum_of(chunks.drop_last(), f) + f(chunks.last())
    }
}

proof fn lemma_sum_update(
    chunks: Seq<ChunkInfo>,
    f: spec_fn(ChunkInfo) -> int,
    i: int,
    chunk: ChunkInfo,
)
    requires
        0 <= i < chunks.len(),
    ensures
        sum_of(chunks.update(i, chunk), f) == sum_of(chunks, f) - f(chunks[i]) + f(chunk),
    decreases chunks.len(),
{
    let now = chunks.update(i, chunk);
    if i == chunks.len() - 1 {
        assert(now.drop_last() =~= chunks.drop_last());
    } else {
        lemma_sum_update(chunks.drop_last(), f, i, chunk);
        assert(now.drop_last() =~= chunks.drop_last().update(i, chunk));
    }
}

proof fn lemma_sum_push(chunks: Seq<ChunkInfo>, f: spec_fn(ChunkInfo) -> int, chunk: ChunkInfo)
    ensures
        sum_of(chunks.push(chunk), f) == sum_of(chunks, f) + f(chunk),
{
    assert(chunks.push(chunk).drop_last() =~= chunks);
}

proof fn lemma_sum_nonnegative(chunks: Seq<ChunkInfo>, f: spec_fn(ChunkInfo) -> int)
    requires
        forall|chunk: ChunkInfo| #[trigger] f(chunk) >= 0,
    ensures
        sum_of(chunks, f) >= 0,
    decreases chunks.len(),
{
    if chunks.len() > 0 {
        lemma_sum_nonnegative(chunks.drop_last(), f);
    }
}

// ---------------------------------------------------------------------------
// Splitting
// ---------------------------------------------------------------------------
/// What a chunk can spare: the bytes that are left of it beyond the smallest
/// chunk size, while it is not completed.
pub open spec fn spare(chunk: ChunkInfo, min_chunk_size: u64) -> int {
    if chunk.status != ChunkStatus::Completed && chunk.left() > min_chunk_size {
        chunk.left() - min_chunk_size
    } else {
        0
    }
}

/// What the chunks can spare together.
pub open spec fn spare_in(chunks: Seq<ChunkInfo>, min_chunk_size: u64) -> int {
    sum_of(chunks, |chunk: ChunkInfo| spare(chunk, min_chunk_size))
}

/// The end of every chunk is known.
pub open spec fn ends_known(chunks: Seq<ChunkInfo>) -> bool {
    forall|i: int| 0 <= i < chunks.len() ==> !(#[trigger] chunks[i]).open_ended()
}

/// Each split uses up the smallest chunk size of what the chunks can spare.
pub proof fn law_splits_use_up_what_is_spare(chunks: Seq<ChunkInfo>, min_chunk_size: u64, v: int)
    requires
        0 <= v < chunks.len(),
        stealable(chunks[v], min_chunk_size),
        !chunks[v].open_ended(),
        chunks.len() <= usize::MAX,
    ensures
        spare_in(split_at(chunks, v), min_chunk_size) == spare_in(chunks, min_chunk_size)
            - min_chunk_size,
        !split_at(chunks, v)[v].open_ended(),
        !split_at(chunks, v).last().open_ended(),
{
    let f = |chunk: ChunkInfo| spare(chunk, min_chunk_size);
    let n = chunks.len() as int;
    let front = front_half(chunks[v]);
    let back = back_half(chunks[v], n);
    law_split_is_in_halves(chunks[v], min_chunk_size, n as usize);
    lemma_sum_update(chunks, f, v, front);
    lemma_sum_push(chunks.update(v, front), f, back);
    assert(chunks[v].current <= middle(chunks[v]) <= chunks[v].end);
}

/// Work was stolen.
pub open spec fn stole(before: Scheduler, after: Scheduler) -> bool {
    exists|next: Option<usize>| next is Some && #[trigger] stolen(before, after, next)
}

/// Work was stolen again and again: each scheduler comes from the one before it.
pub open spec fn keeps_stealing(states: Seq<Scheduler>) -> bool {
    forall|i: int| 0 <= i < states.len() - 1 ==> stole(#[trigger] states[i], states[i + 1])
}

/// Where no chunk waits and splitting is on, whoever asks for work steals it.
pub proof fn law_idle_workers_steal(before: Scheduler, after: Scheduler, next: Option<usize>)
    requires
        handed_out(before, after, next),
        !any_pending(before.chunks@),
        before.dynamic_split,
    ensures
        stolen(before, after, next),
        !any_pending(after.chunks@),
{
    let chunks = before.chunks@;
    if next is Some {
        let v = choose|v: int| is_victim(chunks, before.min_chunk_size, v);
        assert(is_victim(chunks, before.min_chunk_size, v));
        assert forall|i: int| 0 <= i < after.chunks@.len() implies (
        #[trigger] after.chunks@[i]).status != ChunkStatus::Pending by {
            if i < chunks.len() {
                assert(chunks[i].status != ChunkStatus::Pending);
            }
        }
    }
}

proof fn lemma_one_split(before: Scheduler, after: Scheduler, next: Option<usize>)
    requires
        stolen(before, after, next),
        next is Some,
        ends_known(before.chunks@),
    ensures
        ends_known(after.chunks@),
        after.min_chunk_size == before.min_chunk_size,
        after.chunks@.len() == before.chunks@.len() + 1,
        spare_in(after.chunks@, before.min_chunk_size) == spare_in(
            before.chunks@,
            before.min_chunk_size,
        ) - before.min_chunk_size,
        exists|v: int| #[trigger]
            is_victim(before.chunks@, before.min_chunk_size, v) && after.chunks@ == split_at(
                before.chunks@,
                v,
            ),
{
    let chunks = before.chunks@;
    let v = choose|v: int| is_victim(chunks, before.min_chunk_size, v);
    assert(is_victim(chunks, before.min_chunk_size, v));
    assert(before.chunks.len() <= usize::MAX);
    law_splits_use_up_what_is_spare(chunks, before.min_chunk_size, v);
    assert forall|i: int| 0 <= i < after.chunks@.len() implies !(
    #[trigger] after.chunks@[i]).open_ended() by {
        if i < chunks.len() && i != v {
            assert(after.chunks@[i] == chunks[i]);
        }
    }
}

/// The chunks from position `from` on have not been begun, and each has at least
/// the smallest size.
pub open spec fn large_enough(chunks: Seq<ChunkInfo>, from: int, min_chunk_size: u64) -> bool {
    forall|i: int|
        from <= i < chunks.len() ==> (#[trigger] chunks[i]).current == chunks[i].start
            && chunks[i].end - chunks[i].start + 1 >= min_chunk_size
}

/// While no worker makes progress, stealing comes to an end: it can succeed no
/// more often than there are bytes to spare. Every chunk that it adds has, then
/// and later, at least the smallest size.
pub proof fn law_splitting_ends(states: Seq<Scheduler>)
    requires
        states.len() > 0,
        keeps_stealing(states),
        ends_known(states[0].chunks@),
        states[0].min_chunk_size > 0,
    ensures
        states.len() - 1 <= spare_in(states[0].chunks@, states[0].min_chunk_size),
        ends_known(states.last().chunks@),
        states.last().min_chunk_size == states[0].min_chunk_size,
        states.last().chunks@.len() == states[0].chunks@.len() + states.len() - 1,
        large_enough(
            states.last().chunks@,
            states[0].chunks@.len() as int,
            states[0].min_chunk_size,
        ),
{
    lemma_splitting_ends(states);
    let least = states[0].min_chunk_size;
    let f = |chunk: ChunkInfo| spare(chunk, least);
    lemma_sum_nonnegative(states.last().chunks@, f);
    let n = states.len() - 1;
    assert(n <= n * least) by (nonlinear_arith)
        requires
            n >= 0,
            least >= 1,
    ;
}

proof fn lemma_splitting_ends(states: Seq<Scheduler>)
    requires
        states.len() > 0,
        keeps_stealing(states),
        ends_known(states[0].chunks@),
        states[0].min_chunk_size > 0,
    ensures
        ends_known(states.last().chunks@),
        states.last().min_chunk_size == states[0].min_chunk_size,
        states.last().chunks@.len() == states[0].chunks@.len() + states.len() - 1,
        spare_in(states.last().chunks@, states[0].min_chunk_size) == spare_in(
            states[0].chunks@,
            states[0].min_chunk_size,
        ) - (states.len() - 1) * states[0].min_chunk_size,
        large_enough(
            states.last().chunks@,
            states[0].chunks@.len() as int,
            states[0].min_chunk_size,
        ),
    decreases states.len(),
{
    let least = states[0].min_chunk_size;
    let n = states.len() - 1;
    if n == 0 {
        assert(0 * least == 0) by (nonlinear_arith);
    } else {
        let fewer = states.drop_last();
        assert forall|i: int| 0 <= i < fewer.len() - 1 implies stole(
            #[trigger] fewer[i],
            fewer[i + 1],
        ) by {
            assert(stole(states[i], states[i + 1]));
        }
        lemma_splitting_ends(fewer);
        let before = states[n - 1];
        let after = states[n];
        assert(fewer.last() == before && states.last() == after);
        assert(stole(states[n - 1], states[n - 1 + 1]));
        let next = choose|next: Option<usize>|
            next is Some && #[trigger] stolen(before, after, next);
        lemma_one_split(before, after, next);
        assert(n * least == (n - 1) * least + least) by (nonlinear_arith);
        let chunks = before.chunks@;
        let v = choose|v: int| #[trigger]
            is_victim(chunks, least, v) && after.chunks@ == split_at(chunks, v);
        law_split_is_in_halves(chunks[v], least, chunks.len() as usize);
        assert(chunks[v].current <= middle(chunks[v]) <= chunks[v].end);
        assert forall|i: int| states[0].chunks@.len() <= i < after.chunks@.len() implies (
        #[trigger] after.chunks@[i]).current == after.chunks@[i].start && after.chunks@[i].end
            - after.chunks@[i].start + 1 >= least by {
            if i < chunks.len() {
                assert(chunks[i].current == chunks[i].start);
                if i != v {
                    assert(after.chunks@[i] == chunks[i]);
                }
            }
        }
    }
}

/// Where stealing has come to an end, every chunk that a worker is on has at
/// most twice the smallest size left, and stealing changes nothing any more.
pub proof fn law_what_is_not_split_is_small(before: Scheduler, after: Scheduler)
    requires
        stolen(before, after, None),
    ensures
        forall|i: int|
            0 <= i < before.chunks@.len() && (#[trigger] before.chunks@[i]).status
                == ChunkStatus::Downloading ==> before.chunks@[i].left() <= 2
                * before.min_chunk_size,
        after.chunks@ == before.chunks@,
{
    assert forall|i: int|
        0 <= i < before.chunks@.len() && (#[trigger] before.chunks@[i]).status
            == ChunkStatus::Downloading implies before.chunks@[i].left() <= 2
        * before.min_chunk_size by {
        assert(!stealable(before.chunks@[i], before.min_chunk_size));
    }
}

// ---------------------------------------------------------------------------
// Working
// ---------------------------------------------------------------------------
/// A step of a download in which nothing fails: work is given out, bytes come,
/// are written, or have all come. The status of an answer, which is then a
/// success, is no step of its own: it changes nothing.
pub open spec fn clean(d: Download, step: Step) -> bool {
    match step {
        Step::GiveOut { next, .. } => next is Some,
        Step::Work { worker, event } => {
            let hand = d.hands[worker];
            &&& d.hands.contains_key(worker)
            &&& match event {
                StreamEvent::Data(n) => n > 0 && hand.to_write is None && hand.stream.offset
                    <= hand.stream.seen_end,
                StreamEvent::Written(_) => true,
                StreamEvent::End => hand.to_write is None && hand.stream.offset
                    > hand.stream.seen_end,
                _ => false,
            }
        },
        _ => false,
    }
}

/// A worker is on the chunk at position `i`.
pub open spec fn taken_care_of(d: Download, i: int) -> bool {
    exists|w: nat| #[trigger] d.hands.contains_key(w) && d.hands[w].position == i
}

/// A worker stands where its chunk does, and has seen no nearer end than the
/// chunk has; what it is about to write is something, and belongs to the chunk.
pub open spec fn hand_tidy(chunks: Seq<ChunkInfo>, hand: Hand) -> bool {
    let chunk = chunks[hand.position];
    &&& 0 <= hand.position < chunks.len()
    &&& chunk.status == ChunkStatus::Downloading
    &&& hand.stream.offset == chunk.current
    &&& chunk.end <= hand.stream.seen_end
    &&& hand.to_write matches Some(n) ==> n > 0 && chunk.current <= chunk.end
}

/// What holds of a download in which nothing has failed: besides being faithful,
/// it has one worker for each chunk that counts as being downloaded.
pub open spec fn tidy(d: Download, remote: Seq<u8>) -> bool {
    let chunks = d.scheduler.chunks@;
    &&& faithful(d, remote)
    &&& d.scheduler.min_chunk_size > 0
    &&& d.hands.dom().finite()
    &&& forall|w: nat|
        d.hands.contains_key(w) ==> hand_tidy(chunks, #[trigger] d.hands[w])
    &&& forall|w: nat, x: nat|
        d.hands.contains_key(w) && d.hands.contains_key(x) && w != x
            ==> (#[trigger] d.hands[w]).position != (#[trigger] d.hands[x]).position
    &&& forall|i: int|
        0 <= i < chunks.len() && (#[trigger] chunks[i]).status == ChunkStatus::Downloading
            ==> taken_care_of(d, i)
}

/// The workers that wait for data.
pub open spec fn readers(hands: Map<nat, Hand>) -> Set<nat> {
    hands.dom().filter(|w: nat| hands[w].to_write is None)
}

/// What is still to be done about a chunk.
pub open spec fn effort_on(chunk: ChunkInfo, min_chunk_size: u64) -> int {
    2 * chunk.left() + 3 * spare(chunk, min_chunk_size) + match chunk.status {
        ChunkStatus::Pending => 3int,
        ChunkStatus::Downloading => 1,
        ChunkStatus::Completed => 0,
    }
}

/// What is still to be done.
pub open spec fn effort(d: Download) -> int {
    sum_of(
        d.scheduler.chunks@,
        |chunk: ChunkInfo| effort_on(chunk, d.scheduler.min_chunk_size),
    ) + readers(d.hands).len()
}

/// A download that begins, on a file of the right length, is tidy.
pub proof fn law_beginnings_are_tidy(d: Download, remote: Seq<u8>, n: u32)
    requires
        faithful(d, remote),
        remote.len() > 0 ==> n > 0,
        d.scheduler.min_chunk_size > 0,
        d.scheduler.chunks@ == even_chunks(remote.len() as u64, n),
        d.hands == Map::<nat, Hand>::empty(),
    ensures
        tidy(d, remote),
{
    law_plan_divides_the_file(remote.len() as u64, n);
    assert(d.hands.dom() =~= Set::<nat>::empty());
}

/// A download that goes on from a saved state is tidy, and so it finishes like
/// any other.
pub proof fn law_resumed_downloads_are_tidy(saved: Download, d: Download, remote: Seq<u8>)
    requires
        faithful(saved, remote),
        d.scheduler.chunks@ == resumed_all(saved.scheduler.chunks@),
        d.scheduler.min_chunk_size > 0,
        d.hands == Map::<nat, Hand>::empty(),
        d.file.len() == remote.len(),
        forall|at: int|
            0 <= at < remote.len() && saved.file[at] == remote[at] ==> (#[trigger] d.file[at])
                == remote[at],
    ensures
        tidy(d, remote),
{
    law_resumed_downloads_are_faithful(saved, d, remote);
    law_resuming_keeps_progress(saved.scheduler.chunks@, remote.len() as int);
    assert(d.hands.dom() =~= Set::<nat>::empty());
}

proof fn lemma_readers(hands: Map<nat, Hand>, w: nat, hand: Hand)
    requires
        hands.dom().finite(),
    ensures
        readers(hands).finite(),
        hand.to_write is None ==> readers(hands.insert(w, hand)) == readers(hands).insert(w),
        hand.to_write is Some ==> readers(hands.insert(w, hand)) == readers(hands).remove(w),
        readers(hands.remove(w)) == readers(hands).remove(w),
        hands.insert(w, hand).dom().finite(),
        hands.remove(w).dom().finite(),
{
    assert(hands.insert(w, hand).dom() =~= hands.dom().insert(w));
    assert(hands.remove(w).dom() =~= hands.dom().remove(w));
    if hand.to_write is None {
        assert(readers(hands.insert(w, hand)) =~= readers(hands).insert(w));
    } else {
        assert(readers(hands.insert(w, hand)) =~= readers(hands).remove(w));
    }
    assert(readers(hands.remove(w)) =~= readers(hands).remove(w));
    assert(readers(hands).subset_of(hands.dom()));
    vstd::set_lib::lemma_len_subset(readers(hands), hands.dom());
}

/// A step of a tidy download in which nothing fails leaves it tidy, and there is
/// less to be done after it.
pub proof fn law_clean_steps_get_somewhere(
    a: Download,
    step: Step,
    b: Download,
    remote: Seq<u8>,
)
    requires
        tidy(a, remote),
        clean(a, step),
        leads_to(a, step, b, remote),
    ensures
        tidy(b, remote),
        0 <= effort(b) < effort(a),
{
    law_steps_are_faithful(a, step, b, remote);
    match step {
        Step::GiveOut { next, worker } => {
            lemma_giving_out_gets_somewhere(a, next, worker, b, remote);
        },
        Step::Work { worker, event } => {
            lemma_work_gets_somewhere(a, worker, event, b, remote);
        },
        _ => {},
    }
    let least = b.scheduler.min_chunk_size;
    let f = |chunk: ChunkInfo| effort_on(chunk, least);
    lemma_sum_nonnegative(b.scheduler.chunks@, f);
}

proof fn lemma_giving_out_gets_somewhere(
    a: Download,
    next: Option<usize>,
    worker: nat,
    b: Download,
    remote: Seq<u8>,
)
    requires
        tidy(a, remote),
        faithful(b, remote),
        next is Some,
        leads_to(a, Step::GiveOut { next, worker }, b, remote),
    ensures
        tidy(b, remote),
        effort(b) < effort(a),
{
    let chunks = a.scheduler.chunks@;
    let now = b.scheduler.chunks@;
    let least = a.scheduler.min_chunk_size;
    let p = next->0 as int;
    let f = |chunk: ChunkInfo| effort_on(chunk, least);
    let hand = b.hands[worker];
    lemma_readers(a.hands, worker, hand);
    assert(b.hands == a.hands.insert(worker, hand));
    assert(!readers(a.hands).contains(worker));
    assert(a.scheduler.chunks.len() <= usize::MAX);
    if any_pending(chunks) {
        lemma_sum_update(chunks, f, p, now[p]);
        assert forall|w: nat| a.hands.contains_key(w) implies (#[trigger] a.hands[w]).position
            != p by {
            assert(hand_tidy(chunks, a.hands[w]));
        }
    } else {
        let v = choose|v: int| is_victim(chunks, least, v);
        assert(is_victim(chunks, least, v));
        assert(chunks[v].end < remote.len());
        assert(chunks[v].current <= middle(chunks[v]) <= chunks[v].end);
        law_split_is_in_halves(chunks[v], least, chunks.len() as usize);
        lemma_sum_update(chunks, f, v, front_half(chunks[v]));
        lemma_sum_push(chunks.update(v, front_half(chunks[v])), f, now[p]);
        assert(now[p] == back_half(chunks[v], chunks.len() as int));
    }
    assert forall|w: nat| b.hands.contains_key(w) implies hand_tidy(now, #[trigger] b.hands[w]) by {
        if w != worker {
            assert(b.hands[w] == a.hands[w]);
            assert(hand_tidy(chunks, a.hands[w]));
        }
    }
    assert forall|w: nat, x: nat|
        b.hands.contains_key(w) && b.hands.contains_key(x) && w != x implies (
    #[trigger] b.hands[w]).position != (#[trigger] b.hands[x]).position by {
        if w != worker {
            assert(hand_tidy(chunks, a.hands[w]));
        }
        if x != worker {
            assert(hand_tidy(chunks, a.hands[x]));
        }
    }
    assert forall|i: int|
        0 <= i < now.len() && (#[trigger] now[i]).status
            == ChunkStatus::Downloading implies taken_care_of(b, i) by {
        if i == p {
            assert(b.hands.contains_key(worker) && b.hands[worker].position == i);
        } else {
            assert(chunks[i].status == ChunkStatus::Downloading);
            assert(taken_care_of(a, i));
            let w = choose|w: nat| #[trigger]
                a.hands.contains_key(w) && a.hands[w].position == i;
            assert(b.hands.contains_key(w) && b.hands[w].position == i);
        }
    }
}

proof fn lemma_work_gets_somewhere(
    a: Download,
    worker: nat,
    event: StreamEvent,
    b: Download,
    remote: Seq<u8>,
)
    requires
        tidy(a, remote),
        faithful(b, remote),
        clean(a, Step::Work { worker, event }),
        leads_to(a, Step::Work { worker, event }, b, remote),
    ensures
        tidy(b, remote),
        effort(b) < effort(a),
{
    let chunks = a.scheduler.chunks@;
    let now = b.scheduler.chunks@;
    let least = a.scheduler.min_chunk_size;
    let f = |chunk: ChunkInfo| effort_on(chunk, least);
    let hand = a.hands[worker];
    let p = hand.position;
    let (stream, chunk, action) = stream_step(hand.stream, chunks[p], event);
    assert(hand_tidy(chunks, hand));
    assert(hand_right(a.file, remote, chunks, hand));
    assert(chunks[p].end < remote.len());
    lemma_sum_update(chunks, f, p, chunk);
    lemma_readers(a.hands, worker, b.hands[worker]);
    assert(readers(a.hands).contains(worker) == (hand.to_write is None));
    let goes_on = action is Read || action is Write;
    if goes_on {
        assert(b.hands == a.hands.insert(worker, b.hands[worker]));
        assert(chunk.status == ChunkStatus::Downloading);
    } else {
        assert(b.hands == a.hands.remove(worker));
        assert(chunk.status == ChunkStatus::Completed);
    }
    assert forall|w: nat| b.hands.contains_key(w) implies hand_tidy(now, #[trigger] b.hands[w]) by {
        if w != worker {
            assert(b.hands[w] == a.hands[w]);
            assert(hand_tidy(chunks, a.hands[w]));
            assert(a.hands[w].position != a.hands[worker].position);
        }
    }
    assert forall|w: nat, x: nat|
        b.hands.contains_key(w) && b.hands.contains_key(x) && w != x implies (
    #[trigger] b.hands[w]).position != (#[trigger] b.hands[x]).position by {
        assert(a.hands[w].position != a.hands[x].position);
        assert(b.hands[w].position == a.hands[w].position);
        assert(b.hands[x].position == a.hands[x].position);
    }
    assert forall|i: int|
        0 <= i < now.len() && (#[trigger] now[i]).status
            == ChunkStatus::Downloading implies taken_care_of(b, i) by {
        if i == p {
            assert(goes_on);
            assert(b.hands.contains_key(worker) && b.hands[worker].position == i);
        } else {
            assert(now[i] == chunks[i]);
            assert(taken_care_of(a, i));
            let w = choose|w: nat| #[trigger]
                a.hands.contains_key(w) && a.hands[w].position == i;
            assert(b.hands.contains_key(w) && b.hands[w].position == i);
        }
    }
}

/// Some worker is at work.
pub open spec fn busy(d: Download) -> bool {
    exists|w: nat| d.hands.contains_key(w)
}

/// A tidy download does not get stuck: as long as some chunk is not completed,
/// a worker is at work or there is work to give out; and whoever is at work has
/// bytes to write, or to wait for, or has come to the end.
pub proof fn law_unfinished_downloads_go_on(d: Download, remote: Seq<u8>)
    requires
        tidy(d, remote),
    ensures
        all_completed(d.scheduler.chunks@) || busy(d) || has_work(d.scheduler),
        forall|w: nat| #[trigger]
            d.hands.contains_key(w) ==> {
                ||| d.hands[w].to_write matches Some(n) && clean(
                    d,
                    Step::Work { worker: w, event: StreamEvent::Written(n) },
                )
                ||| clean(d, Step::Work { worker: w, event: StreamEvent::Data(1) })
                ||| clean(d, Step::Work { worker: w, event: StreamEvent::End })
            },
{
    let chunks = d.scheduler.chunks@;
    if !busy(d) && !any_pending(chunks) {
        assert forall|i: int| 0 <= i < chunks.len() implies (#[trigger] chunks[i]).status
            == ChunkStatus::Completed by {
            if chunks[i].status == ChunkStatus::Downloading {
                assert(taken_care_of(d, i));
            }
        }
    }
}

/// No worker is at work, and there is no work to give out.
pub open spec fn at_rest(d: Download) -> bool {
    !busy(d) && !has_work(d.scheduler)
}

/// From servers that serve the file, a download gets it. However many workers
/// there are, however small the chunks may get and whether or not they are
/// split: as long as nothing fails, only so many steps can be taken, and when no
/// more can be, every chunk is completed and the file is the one that the links
/// serve.
pub proof fn law_clean_runs_finish(states: Seq<Download>, steps: Seq<Step>, remote: Seq<u8>)
    requires
        is_run(states, steps, remote),
        forall|i: int| 0 <= i < steps.len() ==> clean(states[i], #[trigger] steps[i]),
        tidy(states[0], remote),
    ensures
        steps.len() <= effort(states[0]),
        tidy(states.last(), remote),
        at_rest(states.last()) ==> all_completed(states.last().scheduler.chunks@)
            && states.last().file == remote,
{
    lemma_clean_runs(states, steps, remote);
    let last = states.last();
    let least = last.scheduler.min_chunk_size;
    let f = |chunk: ChunkInfo| effort_on(chunk, least);
    lemma_sum_nonnegative(last.scheduler.chunks@, f);
    law_unfinished_downloads_go_on(last, remote);
    if at_rest(last) {
        law_completed_downloads_are_right(last, remote);
    }
}

proof fn lemma_clean_runs(states: Seq<Download>, steps: Seq<Step>, remote: Seq<u8>)
    requires
        is_run(states, steps, remote),
        forall|i: int| 0 <= i < steps.len() ==> clean(states[i], #[trigger] steps[i]),
        tidy(states[0], remote),
    ensures
        tidy(states.last(), remote),
        steps.len() + effort(states.last()) <= effort(states[0]),
    decreases steps.len(),
{
    if steps.len() > 0 {
        let fewer = states.drop_last();
        let shorter = steps.drop_last();
        assert forall|i: int| 0 <= i < shorter.len() implies leads_to(
            fewer[i],
            #[trigger] shorter[i],
            fewer[i + 1],
            remote,
        ) && clean(fewer[i], shorter[i]) by {
            assert(leads_to(states[i], steps[i], states[i + 1], remote));
            assert(clean(states[i], steps[i]));
        }
        lemma_clean_runs(fewer, shorter, remote);
        let n = steps.len() as int;
        assert(fewer.last() == states[n - 1] && states.last() == states[n]);
        assert(leads_to(states[n - 1], steps[n - 1], states[n - 1 + 1], remote));
        assert(clean(states[n - 1], steps[n - 1]));
        law_clean_steps_get_somewhere(states[n - 1], steps[n - 1], states[n], remote);
    }
}

} // verus!
