use rurl::plan::{plan_chunks, plan_start, ProbeInfo};
use rurl::scheduler::Scheduler;
use rurl::types::{ChunkInfo, ChunkStatus, DownloadTaskConfig};

const MB: u64 = 1024 * 1024;

fn downloading(id: usize, start: u64, end: u64, current: u64) -> ChunkInfo {
    ChunkInfo { id, start, end, current, status: ChunkStatus::Downloading, retries: 0 }
}

fn config(method: &str, max_threads: u32) -> DownloadTaskConfig {
    DownloadTaskConfig {
        urls: vec!["http://example.com/file.zip".to_string()],
        file_path: "file.zip".to_string(),
        max_threads,
        min_chunk_size: MB,
        dynamic_split: true,
        limit_bps: None,
        user_agent: None,
        proxy: None,
        headers: vec![],
        checksum: None,
        max_retries: 10,
        auth: None,
        method: method.to_string(),
        body: None,
        insecure: false,
        location: false,
        compressed: false,
    }
}

#[test]
fn a_new_chunk_waits_at_its_start() {
    let chunk = ChunkInfo::new(3, 100, 199);
    assert_eq!(chunk, ChunkInfo {
        id: 3,
        start: 100,
        end: 199,
        current: 100,
        status: ChunkStatus::Pending,
        retries: 0,
    });
    assert_eq!(chunk.len(), 100);
    assert_eq!(chunk.remaining(), 100);
}

#[test]
fn lengths_of_odd_chunks() {
    assert_eq!(ChunkInfo::new(0, 0, u64::MAX).len(), u64::MAX);
    assert_eq!(ChunkInfo::new(0, 0, u64::MAX).remaining(), u64::MAX);
    assert_eq!(ChunkInfo::new(0, 7, 7).len(), 1);
    assert_eq!(ChunkInfo::new(0, 9, 7).len(), 1);
    assert_eq!(ChunkInfo::new(0, 9, 7).remaining(), 0);
    assert_eq!(downloading(0, 0, 99, 40).remaining(), 60);
    assert_eq!(downloading(0, 0, 99, 99).remaining(), 1);
    assert_eq!(downloading(0, 0, 99, 100).remaining(), 0);
    assert_eq!(downloading(0, 0, 99, 100).len(), 100);
    assert_eq!(ChunkInfo::new(0, 0, u64::MAX - 1).len(), u64::MAX);
}

#[test]
fn a_hundred_megabytes_for_four_workers() {
    let chunks = plan_chunks(100 * MB, 4);
    assert_eq!(chunks.len(), 4);
    for (i, chunk) in chunks.iter().enumerate() {
        assert_eq!(*chunk, ChunkInfo::new(i, i as u64 * 25 * MB, (i as u64 + 1) * 25 * MB - 1));
    }
}

#[test]
fn the_last_chunk_takes_the_rest() {
    let chunks = plan_chunks(10, 3);
    assert_eq!(chunks, vec![
        ChunkInfo::new(0, 0, 2),
        ChunkInfo::new(1, 3, 5),
        ChunkInfo::new(2, 6, 9),
    ]);
    assert_eq!(plan_chunks(1, 1), vec![ChunkInfo::new(0, 0, 0)]);
    assert_eq!(plan_chunks(3, 3), vec![
        ChunkInfo::new(0, 0, 0),
        ChunkInfo::new(1, 1, 1),
        ChunkInfo::new(2, 2, 2),
    ]);
}

#[test]
fn every_byte_is_planned_once() {
    for total in 1u64..40 {
        for n in 1u32..=total as u32 {
            let chunks = plan_chunks(total, n);
            for b in 0..total {
                let holders = chunks.iter().filter(|c| c.start <= b && b <= c.end).count();
                assert_eq!(holders, 1, "byte {} of {} in {}", b, total, n);
            }
        }
    }
}

#[test]
fn a_file_smaller_than_the_crowd_is_divided() {
    assert_eq!(plan_chunks(3, 4), plan_chunks(3, 3));
    assert_eq!(plan_chunks(1, u32::MAX), vec![ChunkInfo::new(0, 0, 0)]);
    assert!(plan_chunks(0, 4).is_empty());
    assert!(plan_chunks(0, 0).is_empty());
    let mut config = config("GET", 4);
    let plan = plan_start(&mut config, ProbeInfo { total_size: 3, accept_ranges: true });
    assert_eq!(plan.total_size, 3);
    assert_eq!(plan.chunks, vec![
        ChunkInfo::new(0, 0, 0),
        ChunkInfo::new(1, 1, 1),
        ChunkInfo::new(2, 2, 2),
    ]);
    assert_eq!(config.max_threads, 4);
}

#[test]
fn a_file_that_can_be_divided_is_divided() {
    let mut config = config("GET", 4);
    let plan = plan_start(&mut config, ProbeInfo { total_size: 100, accept_ranges: true });
    assert_eq!(plan.total_size, 100);
    assert_eq!(plan.chunks, plan_chunks(100, 4));
    assert_eq!(config.max_threads, 4);
    assert!(config.dynamic_split);
}

#[test]
fn without_ranges_there_is_one_worker() {
    let mut config = config("GET", 4);
    let plan = plan_start(&mut config, ProbeInfo { total_size: 100, accept_ranges: false });
    assert_eq!(plan.total_size, 100);
    assert_eq!(plan.chunks, vec![ChunkInfo::new(0, 0, 99)]);
    assert_eq!(config.max_threads, 1);
    assert!(!config.dynamic_split);
}

#[test]
fn an_empty_file_needs_no_chunks() {
    let mut config = config("GET", 0);
    let plan = plan_start(&mut config, ProbeInfo { total_size: 0, accept_ranges: true });
    assert_eq!(plan.total_size, 0);
    assert!(plan.chunks.is_empty());
}

#[test]
fn other_methods_download_in_one_piece() {
    let mut config = config("POST", 4);
    let plan = plan_start(&mut config, ProbeInfo { total_size: 100, accept_ranges: true });
    assert_eq!(plan.total_size, 0);
    assert_eq!(plan.chunks, vec![ChunkInfo::new(0, 0, u64::MAX)]);
    assert_eq!(config.max_threads, 1);
    assert!(!config.dynamic_split);
}

#[test]
fn waiting_chunks_go_first_and_in_order() {
    let mut scheduler = Scheduler::new(plan_chunks(100 * MB, 4), MB, true);
    for i in 0..4 {
        assert_eq!(scheduler.get_next_chunk(), Some(i));
        assert_eq!(scheduler.chunks[i].status, ChunkStatus::Downloading);
    }
    assert_eq!(scheduler.chunks.len(), 4);
}

#[test]
fn a_slow_worker_is_helped_with_half_its_work() {
    let mut chunks = plan_chunks(100 * MB, 4);
    for chunk in chunks.iter_mut().take(3) {
        chunk.current = chunk.end + 1;
        chunk.status = ChunkStatus::Completed;
    }
    chunks[3].current = 76 * MB;
    chunks[3].status = ChunkStatus::Downloading;
    let mut scheduler = Scheduler::new(chunks, MB, true);
    assert_eq!(scheduler.get_next_chunk(), Some(4));
    assert_eq!(scheduler.chunks[3].remaining(), 12 * MB);
    assert_eq!(scheduler.chunks[4].remaining(), 12 * MB);
    assert_eq!(scheduler.chunks[3].end, 88 * MB - 1);
    assert_eq!(scheduler.chunks[4], ChunkInfo {
        id: 4,
        start: 88 * MB,
        end: 100 * MB - 1,
        current: 88 * MB,
        status: ChunkStatus::Downloading,
        retries: 0,
    });
}

#[test]
fn the_chunk_with_the_most_left_is_split() {
    let chunks = vec![
        downloading(0, 0, 99, 50),
        downloading(1, 100, 199, 110),
        downloading(2, 200, 289, 200),
    ];
    let mut scheduler = Scheduler::new(chunks, 10, true);
    assert_eq!(scheduler.get_next_chunk(), Some(3));
    assert_eq!(scheduler.chunks[0], downloading(0, 0, 99, 50));
    assert_eq!(scheduler.chunks[1], downloading(1, 100, 154, 110));
    assert_eq!(scheduler.chunks[2], downloading(2, 200, 289, 200));
    assert_eq!(scheduler.chunks[3], downloading(3, 155, 199, 155));
}

#[test]
fn an_odd_byte_stays_with_the_front() {
    let mut scheduler = Scheduler::new(vec![downloading(0, 0, 100, 0)], 10, true);
    assert_eq!(scheduler.get_next_chunk(), Some(1));
    assert_eq!(scheduler.chunks[0].remaining(), 51);
    assert_eq!(scheduler.chunks[1].remaining(), 50);
}

#[test]
fn small_chunks_are_not_split() {
    let min = 512 * 1024;
    let mut scheduler = Scheduler::new(vec![downloading(0, 0, 2 * min - 1, 0)], min, true);
    assert_eq!(scheduler.get_next_chunk(), None);
    assert_eq!(scheduler.chunks, vec![downloading(0, 0, 2 * min - 1, 0)]);
    let mut scheduler = Scheduler::new(vec![downloading(0, 0, 2 * min, 0)], min, true);
    assert_eq!(scheduler.get_next_chunk(), Some(1));
}

#[test]
fn without_dynamic_split_nothing_is_split() {
    let mut scheduler = Scheduler::new(vec![downloading(0, 0, 100 * MB, 0)], MB, false);
    assert_eq!(scheduler.get_next_chunk(), None);
    assert_eq!(scheduler.chunks.len(), 1);
}

#[test]
fn completed_chunks_are_left_alone() {
    let mut done = downloading(0, 0, 100 * MB, 0);
    done.status = ChunkStatus::Completed;
    let mut scheduler = Scheduler::new(vec![done], MB, true);
    assert_eq!(scheduler.get_next_chunk(), None);
    let mut scheduler = Scheduler::new(vec![], MB, true);
    assert_eq!(scheduler.get_next_chunk(), None);
}

#[test]
fn a_chunk_of_unknown_length_can_be_split() {
    let mut scheduler = Scheduler::new(vec![downloading(0, 0, u64::MAX, 1001)], MB, true);
    assert_eq!(scheduler.get_next_chunk(), Some(1));
    let mid = 1001 + (u64::MAX - 1001) / 2;
    assert_eq!(scheduler.chunks[0].end, mid);
    assert_eq!(scheduler.chunks[1], downloading(1, mid + 1, u64::MAX, mid + 1));
}

#[test]
fn splitting_keeps_every_byte() {
    let mut scheduler = Scheduler::new(vec![downloading(0, 0, 999, 0)], 7, true);
    while scheduler.get_next_chunk().is_some() {}
    for b in 0..1000u64 {
        let holders = scheduler.chunks.iter().filter(|c| c.start <= b && b <= c.end).count();
        assert_eq!(holders, 1);
    }
    for (i, chunk) in scheduler.chunks.iter().enumerate() {
        assert_eq!(chunk.id, i);
        assert!(chunk.remaining() >= 7 && chunk.remaining() <= 14);
    }
}

#[test]
fn splitting_ends_within_what_is_spare() {
    for min in 1..20u64 {
        let mut scheduler = Scheduler::new(
            vec![downloading(0, 0, 499, 17), downloading(1, 500, 520, 500)],
            min,
            true,
        );
        let spare: u64 = scheduler.chunks.iter().map(|c| c.remaining().saturating_sub(min)).sum();
        let mut splits = 0;
        while scheduler.get_next_chunk().is_some() {
            splits += 1;
        }
        assert!(splits * min <= spare);
        assert!(scheduler.chunks.iter().all(|c| c.remaining() <= 2 * min));
        assert!(scheduler.chunks.iter().skip(2).all(|c| c.len() >= min));
    }
}

#[test]
fn stealing_passes_over_chunks_that_wait() {
    let mut scheduler =
        Scheduler::new(vec![ChunkInfo::new(0, 0, 99), downloading(1, 100, 179, 100)], 10, true);
    assert_eq!(scheduler.steal_work(), Some(2));
    assert_eq!(scheduler.chunks[0], ChunkInfo::new(0, 0, 99));
    assert_eq!(scheduler.chunks[1], downloading(1, 100, 139, 100));
    assert_eq!(scheduler.chunks[2], downloading(2, 140, 179, 140));
    while scheduler.steal_work().is_some() {}
    assert_eq!(scheduler.chunks[0], ChunkInfo::new(0, 0, 99));
    assert!(scheduler.chunks.iter().skip(1).all(|c| c.remaining() <= 20 && c.len() >= 10));
    let before = scheduler.chunks.clone();
    assert_eq!(scheduler.steal_work(), None);
    assert_eq!(scheduler.chunks, before);
}
