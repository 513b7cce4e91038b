//! Hands chunks to workers: first those that wait, then halves of those that
//! are far from done.
use crate::types::{ChunkInfo, ChunkStatus};
use vstd::prelude::*;

verus! {

/// Some chunk waits for a worker.
pub open spec fn any_pending(chunks: Seq<ChunkInfo>) -> bool {
    exists|i: int| 0 <= i < chunks.len() && (#[trigger] chunks[i]).status == ChunkStatus::Pending
}

/// Chunk `i` is the first that waits for a worker.
pub open spec fn is_first_pending(chunks: Seq<ChunkInfo>, i: int) -> bool {
    &&& 0 <= i < chunks.len()
    &&& chunks[i].status == ChunkStatus::Pending
    &&& forall|j: int| 0 <= j < i ==> (#[trigger] chunks[j]).status != ChunkStatus::Pending
}

/// A worker is on the chunk, and more than twice the smallest size is left.
pub open spec fn stealable(chunk: ChunkInfo, min_chunk_size: u64) -> bool {
    chunk.status == ChunkStatus::Downloading && chunk.left() > 2 * min_chunk_size
}

/// Chunk `v` is the one to split: of those that may be split it has the most
/// bytes left, and it is the first with that many.
pub open spec fn is_victim(chunks: Seq<ChunkInfo>, min_chunk_size: u64, v: int) -> bool {
    &&& 0 <= v < chunks.len()
    &&& stealable(chunks[v], min_chunk_size)
    &&& forall|j: int|
        0 <= j < chunks.len() && stealable(#[trigger] chunks[j], min_chunk_size) ==> {
            ||| chunks[j].left() < chunks[v].left()
            ||| chunks[j].left() == chunks[v].left() && v <= j
        }
}

/// Some chunk may be split.
pub open spec fn any_stealable(chunks: Seq<ChunkInfo>, min_chunk_size: u64) -> bool {
    exists|i: int| 0 <= i < chunks.len() && stealable(#[trigger] chunks[i], min_chunk_size)
}

/// The last byte of the front half of what is left of a chunk.
pub open spec fn middle(chunk: ChunkInfo) -> int {
    chunk.current + (chunk.end - chunk.current) / 2
}

/// What is left of a chunk after its back half was given away.
pub open spec fn front_half(chunk: ChunkInfo) -> ChunkInfo {
    ChunkInfo { end: middle(chunk) as u64, ..chunk }
}

/// The back half of what was left of a chunk, as a chunk of its own that a
/// worker is on.
pub open spec fn back_half(chunk: ChunkInfo, id: int) -> ChunkInfo {
    ChunkInfo {
        id: id as usize,
        start: (middle(chunk) + 1) as u64,
        end: chunk.end,
        current: (middle(chunk) + 1) as u64,
        status: ChunkStatus::Downloading,
        retries: 0,
    }
}

/// The chunks after chunk `v` was split.
pub open spec fn split_at(chunks: Seq<ChunkInfo>, v: int) -> Seq<ChunkInfo> {
    chunks.update(v, front_half(chunks[v])).push(back_half(chunks[v], chunks.len() as int))
}

/// The arithmetic of a split stays in range: twice the smallest size does, and
/// the chunk to split is not an open-ended one that stands at the last offset
/// there is.
pub open spec fn split_in_range(chunks: Seq<ChunkInfo>, min_chunk_size: u64) -> bool {
    &&& (exists|i: int|
        0 <= i < chunks.len() && (#[trigger] chunks[i]).status == ChunkStatus::Downloading)
        ==> 2 * min_chunk_size <= u64::MAX
    &&& forall|v: int|
        is_victim(chunks, min_chunk_size, v) ==> (#[trigger] chunks[v]).current < u64::MAX
}

/// The chunks of a task, and how they are given out.
#[derive(Debug)]
pub struct Scheduler {
    pub chunks: Vec<ChunkInfo>,
    pub min_chunk_size: u64,
    pub dynamic_split: bool,
}

impl Scheduler {
    /// A scheduler for the given chunks.
    pub fn new(chunks: Vec<ChunkInfo>, min_chunk_size: u64, dynamic_split: bool) -> (s: Self)
        ensures
            s == (Scheduler { chunks, min_chunk_size, dynamic_split }),
    {
        Scheduler { chunks, min_chunk_size, dynamic_split }
    }

    /// A split that the next request leads to stays in range.
    pub open spec fn ready(&self) -> bool {
        !any_pending(self.chunks@) && self.dynamic_split ==> split_in_range(
            self.chunks@,
            self.min_chunk_size,
        )
    }

    /// The position of the next chunk for a worker, which is marked as being
    /// downloaded. The first chunk that waits is taken. Where none waits, and
    /// splitting is on, the chunk with the most bytes left is split and its
    /// back half is taken.
    pub fn get_next_chunk(&mut self) -> (next: Option<usize>)
        requires
            old(self).ready(),
        ensures
            handed_out(*old(self), *final(self), next),
    {
        let n: usize = self.chunks.len();
        let mut i: usize = 0;
        while i < n
            invariant
                n == self.chunks.len(),
                i <= n,
                *self == *old(self),
                forall|j: int|
                    0 <= j < i ==> (#[trigger] self.chunks@[j]).status != ChunkStatus::Pending,
            decreases n - i,
        {
            let mut chunk = self.chunks[i];
            if chunk.status == ChunkStatus::Pending {
                chunk.status = ChunkStatus::Downloading;
                self.chunks.set(i, chunk);
                assert(is_first_pending(old(self).chunks@, i as int));
                assert(old(self).chunks@[i as int].status == ChunkStatus::Pending);
                return Some(i);
            }
            i += 1;
        }
        assert(!any_pending(old(self).chunks@));
        if self.dynamic_split {
            return self.steal_work();
        }
        None
    }

    /// Splits the chunk with the most bytes left, where one may be split, and
    /// gives the position of its back half, which is marked as being downloaded.
    pub fn steal_work(&mut self) -> (next: Option<usize>)
        requires
            split_in_range(old(self).chunks@, old(self).min_chunk_size),
        ensures
            stolen(*old(self), *final(self), next),
    {
        let candidate = self.pick_victim();
        match candidate {
            Some(v) => {
                proof {
                    assert(stealable(self.chunks@[v as int], self.min_chunk_size));
                    assert forall|w: int|
                        is_victim(self.chunks@, self.min_chunk_size, w) implies w == v by {
                        assert(stealable(self.chunks@[w], self.min_chunk_size));
                    }
                }
                self.split_chunk(v)
            },
            None => None,
        }
    }

    /// The chunk to split, where one may be split.
    fn pick_victim(&self) -> (candidate: Option<usize>)
        requires
            (exists|i: int|
                0 <= i < self.chunks@.len() && (#[trigger] self.chunks@[i]).status
                    == ChunkStatus::Downloading) ==> 2 * self.min_chunk_size <= u64::MAX,
        ensures
            match candidate {
                Some(v) => is_victim(self.chunks@, self.min_chunk_size, v as int),
                None => !any_stealable(self.chunks@, self.min_chunk_size),
            },
    {
        let n: usize = self.chunks.len();
        let mut best: Option<(usize, u64)> = None;
        let mut i: usize = 0;
        while i < n
            invariant
                n == self.chunks.len(),
                i <= n,
                (exists|k: int|
                    0 <= k < self.chunks@.len() && (#[trigger] self.chunks@[k]).status
                        == ChunkStatus::Downloading) ==> 2 * self.min_chunk_size <= u64::MAX,
                match best {
                    Some((v, most)) => {
                        &&& v < i
                        &&& most == self.chunks@[v as int].left()
                        &&& is_victim(
                            self.chunks@.take(i as int),
                            self.min_chunk_size,
                            v as int,
                        )
                    },
                    None => !any_stealable(self.chunks@.take(i as int), self.min_chunk_size),
                },
            decreases n - i,
        {
            let chunk = self.chunks[i];
            let ghost seen = self.chunks@.take(i as int);
            let ghost now = self.chunks@.take(i + 1);
            assert(forall|j: int| 0 <= j < i ==> #[trigger] now[j] == seen[j]);
            assert(now[i as int] == chunk);
            let ghost before = best;
            if chunk.status == ChunkStatus::Downloading {
                assert(self.chunks@[i as int].status == ChunkStatus::Downloading);
                let remaining: u64 = chunk.remaining();
                if remaining > 2 * self.min_chunk_size {
                    match best {
                        Some((_, most)) => {
                            if remaining > most {
                                best = Some((i, remaining));
                            }
                        },
                        None => {
                            best = Some((i, remaining));
                        },
                    }
                }
            }
            proof {
                assert(stealable(now[i as int], self.min_chunk_size) == (chunk.status
                    == ChunkStatus::Downloading && chunk.left() > 2 * self.min_chunk_size));
                match best {
                    Some((v, most)) => {
                        assert forall|j: int|
                            0 <= j < now.len() && stealable(
                                #[trigger] now[j],
                                self.min_chunk_size,
                            ) implies (now[j].left() < now[v as int].left() || now[j].left()
                            == now[v as int].left() && v <= j) by {
                            if j < i {
                                assert(now[j] == seen[j]);
                            }
                        }
                        if v < i {
                            assert(now[v as int] == seen[v as int]);
                        }
                        assert(is_victim(now, self.min_chunk_size, v as int));
                    },
                    None => {
                        assert forall|j: int| 0 <= j < now.len() implies !stealable(
                            #[trigger] now[j],
                            self.min_chunk_size,
                        ) by {
                            if j < i {
                                assert(now[j] == seen[j]);
                            }
                        }
                    },
                }
            }
            i += 1;
        }
        assert(self.chunks@.take(n as int) == self.chunks@);
        match best {
            Some((v, _)) => Some(v),
            None => None,
        }
    }

    /// Splits the chunk at `position`, where it is there and may be split.
    fn split_chunk(&mut self, position: usize) -> (next: Option<usize>)
        requires
            position < old(self).chunks@.len() && old(self).chunks@[position as int].status
                == ChunkStatus::Downloading ==> 2 * old(self).min_chunk_size <= u64::MAX,
            position < old(self).chunks@.len() && stealable(
                old(self).chunks@[position as int],
                old(self).min_chunk_size,
            ) ==> old(self).chunks@[position as int].current < u64::MAX,
        ensures
            final(self).min_chunk_size == old(self).min_chunk_size,
            final(self).dynamic_split == old(self).dynamic_split,
            if position < old(self).chunks@.len() && stealable(
                old(self).chunks@[position as int],
                old(self).min_chunk_size,
            ) {
                &&& next == Some(old(self).chunks.len())
                &&& final(self).chunks@ == split_at(old(self).chunks@, position as int)
            } else {
                next is None && final(self).chunks@ == old(self).chunks@
            },
    {
        if position >= self.chunks.len() {
            return None;
        }
        let mut chunk = self.chunks[position];
        if chunk.status != ChunkStatus::Downloading {
            return None;
        }
        let remaining: u64 = chunk.remaining();
        if remaining <= 2 * self.min_chunk_size {
            return None;
        }
        let old_end: u64 = chunk.end;
        let mid: u64 = chunk.current + (old_end - chunk.current) / 2;
        chunk.end = mid;
        let new_id: usize = self.chunks.len();
        let mut new_chunk = ChunkInfo::new(new_id, mid + 1, old_end);
        new_chunk.status = ChunkStatus::Downloading;
        self.chunks.set(position, chunk);
        self.chunks.push(new_chunk);
        Some(new_id)
    }
}

/// What stealing work does. Where a chunk may be split, the one with the most
/// bytes left is split and its back half is handed out. Otherwise nothing is
/// handed out and nothing changes.
pub open spec fn stolen(before: Scheduler, after: Scheduler, next: Option<usize>) -> bool {
    let chunks = before.chunks@;
    let least = before.min_chunk_size;
    &&& after.min_chunk_size == before.min_chunk_size
    &&& after.dynamic_split == before.dynamic_split
    &&& if any_stealable(chunks, least) {
        &&& next == Some(before.chunks.len())
        &&& exists|v: int| is_victim(chunks, least, v)
        &&& forall|v: int| #[trigger]
            is_victim(chunks, least, v) ==> after.chunks@ == split_at(chunks, v)
    } else {
        next is None && after.chunks@ == chunks
    }
}

/// What a request for a chunk does. Where a chunk waits, the first such chunk is
/// handed out and marked as being downloaded. Where none waits and splitting is
/// on, work is stolen. Otherwise nothing is handed out and nothing changes.
pub open spec fn handed_out(before: Scheduler, after: Scheduler, next: Option<usize>) -> bool {
    let chunks = before.chunks@;
    &&& after.min_chunk_size == before.min_chunk_size
    &&& after.dynamic_split == before.dynamic_split
    &&& if any_pending(chunks) {
        &&& next is Some
        &&& is_first_pending(chunks, next->0 as int)
        &&& after.chunks@ == chunks.update(
            next->0 as int,
            chunks[next->0 as int].with_status(ChunkStatus::Downloading),
        )
    } else if before.dynamic_split {
        stolen(before, after, next)
    } else {
        next is None && after.chunks@ == chunks
    }
}

} // verus!
