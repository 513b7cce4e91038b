use rurl::engine::TaskHandle;
use rurl::errors::WorkerError;
use rurl::headers::custom_headers;
use rurl::plan::plan_chunks;
use rurl::run::TaskRun;
use rurl::types::{default_method, ChunkInfo, ChunkStatus, DownloadTaskConfig};
use rurl::worker::{ChunkStream, StreamAction, StreamEvent, Worker};

/// A small generator of numbers, so that every run is the same.
struct Dice(u64);

impl Dice {
    fn roll(&mut self, n: u64) -> u64 {
        self.0 = self.0.wrapping_mul(6364136223846793005).wrapping_add(1442695040888963407);
        (self.0 >> 33) % n
    }
}

struct Hand {
    position: usize,
    chunk_id: usize,
    stream: ChunkStream,
    to_write: Option<usize>,
    asked: bool,
}

fn config(max_threads: u32) -> DownloadTaskConfig {
    DownloadTaskConfig {
        urls: vec!["http://a.example/f".to_string()],
        file_path: "f".to_string(),
        max_threads,
        min_chunk_size: 3,
        dynamic_split: true,
        limit_bps: None,
        user_agent: None,
        proxy: None,
        headers: vec![],
        checksum: None,
        max_retries: u32::MAX - 1,
        auth: None,
        method: default_method(),
        body: None,
        insecure: false,
        location: false,
        compressed: false,
    }
}

/// Runs a download in some order until it is finished, or for `limit` steps;
/// gives back the chunks.
fn drive(
    run: &mut TaskRun,
    file: &mut Vec<u8>,
    remote: &[u8],
    dice: &mut Dice,
    limit: usize,
) -> Vec<ChunkInfo> {
    let mut hands: Vec<Hand> = vec![];
    for _ in 0..limit {
        if run.is_finished() {
            break;
        }
        while let Some(work) = run.next_assignment() {
            let chunk = run.scheduler.chunks[work.position];
            let plan = work.worker.request(&chunk, &work.url);
            hands.push(Hand {
                position: work.position,
                chunk_id: work.chunk_id,
                stream: ChunkStream::new(&chunk),
                to_write: None,
                asked: plan.is_some(),
            });
        }
        if hands.is_empty() {
            break;
        }
        let h = dice.roll(hands.len() as u64) as usize;
        let hand = &mut hands[h];
        let event = match hand.to_write {
            Some(n) => {
                let from = hand.stream.offset as usize;
                file[from..from + n].copy_from_slice(&remote[from..from + n]);
                StreamEvent::Written(n)
            }
            None if !hand.asked => StreamEvent::End,
            None if dice.roll(20) == 0 => StreamEvent::Stalled,
            None if dice.roll(20) == 0 => StreamEvent::Failed,
            None => StreamEvent::Data(dice.roll(9) as usize),
        };
        match run.on_stream_event(hand.position, &mut hand.stream, event) {
            StreamAction::Read => hand.to_write = None,
            StreamAction::Write(n) => hand.to_write = Some(n),
            StreamAction::Done => {
                hands.remove(h);
                run.on_worker_done();
            }
            StreamAction::Fail(_) | StreamAction::Pass => {
                let id = hand.chunk_id;
                hands.remove(h);
                run.on_worker_failed(id, &WorkerError::Stalled.message()).unwrap();
            }
        }
    }
    run.scheduler.chunks.clone()
}

fn remote(len: usize) -> Vec<u8> {
    (0..len).map(|i| (i * 7 + i / 251) as u8).collect()
}

#[test]
fn a_download_delivers_the_file() {
    for seed in 0..200u64 {
        let mut dice = Dice(seed);
        let len = 1 + dice.roll(400) as usize;
        let workers = 1 + dice.roll(len.min(8) as u64) as u32;
        let remote = remote(len);
        let mut file = vec![0xee; len];
        let mut run = TaskRun::new(config(workers), plan_chunks(len as u64, workers));
        let chunks = drive(&mut run, &mut file, &remote, &mut dice, 1_000_000);
        assert!(run.is_finished());
        assert_eq!(file, remote, "seed {}", seed);
        for (i, chunk) in chunks.iter().enumerate() {
            assert_eq!(chunk.id, i);
            assert!(chunk.current > chunk.end);
        }
    }
}

#[test]
fn a_broken_download_goes_on() {
    for seed in 0..200u64 {
        let mut dice = Dice(seed);
        let len = 50 + dice.roll(400) as usize;
        let remote = remote(len);
        let mut file = vec![0xee; len];
        let mut run = TaskRun::new(config(4), plan_chunks(len as u64, 4));
        let steps = dice.roll(60) as usize;
        let saved = drive(&mut run, &mut file, &remote, &mut dice, steps);
        // The run goes on for a while after its state was saved, and breaks off.
        drive(&mut run, &mut file, &remote, &mut dice, 10);

        let mut before = TaskHandle::new(1, config(4)).metadata;
        before.note_for_saving(&saved);
        let mut now = TaskHandle::new(2, config(4)).metadata;
        assert!(now.restore(&before, true));
        let mut run = TaskRun::new(config(4), now.chunks);
        drive(&mut run, &mut file, &remote, &mut dice, 1_000_000);
        assert!(run.is_finished());
        assert_eq!(file, remote, "seed {}", seed);
    }
}

#[test]
fn a_new_configuration_counts_once() {
    let mut once = TaskHandle::new(1, config(4));
    let mut new = config(9);
    new.limit_bps = Some(7);
    once.reconfigure(&new);
    let mut twice = once.clone();
    twice.reconfigure(&new);
    assert_eq!(format!("{:?}", once), format!("{:?}", twice));
    assert_eq!(once.config.max_threads, 9);
}

#[test]
fn headers_do_not_affect_each_other() {
    let texts = ["A: 1", "broken", "B: 2", ": x", "C: 3"];
    let all: Vec<String> = texts.iter().map(|t| t.to_string()).collect();
    let show = |list: &[String]| -> Vec<String> {
        custom_headers(&list.to_vec()).iter().map(|h| format!("{}={}", h.name, h.value)).collect()
    };
    for k in 0..=all.len() {
        let mut parts = show(&all[..k]);
        parts.extend(show(&all[k..]));
        assert_eq!(parts, show(&all));
    }
}

#[test]
fn a_download_without_failures_takes_only_so_many_steps() {
    for seed in 0..100u64 {
        let mut dice = Dice(seed);
        let len = 1 + dice.roll(300) as usize;
        let workers = 1 + dice.roll(8) as u32;
        let remote = remote(len);
        let mut file = vec![0xee; len];
        let mut run = TaskRun::new(config(workers), plan_chunks(len as u64, workers));
        let effort: u64 = run
            .scheduler
            .chunks
            .iter()
            .map(|c| 2 * c.remaining() + 3 * c.remaining().saturating_sub(3) + 3)
            .sum();
        let mut steps = 0;
        let mut hands: Vec<Hand> = vec![];
        loop {
            while let Some(work) = run.next_assignment() {
                let chunk = run.scheduler.chunks[work.position];
                let asked = work.worker.request(&chunk, &work.url).is_some();
                let stream = ChunkStream::new(&chunk);
                let (position, chunk_id) = (work.position, work.chunk_id);
                hands.push(Hand { position, chunk_id, stream, to_write: None, asked });
                steps += 1;
            }
            if hands.is_empty() {
                break;
            }
            let h = dice.roll(hands.len() as u64) as usize;
            let hand = &mut hands[h];
            let event = match hand.to_write {
                Some(n) => {
                    let from = hand.stream.offset as usize;
                    file[from..from + n].copy_from_slice(&remote[from..from + n]);
                    StreamEvent::Written(n)
                }
                None if !hand.asked => StreamEvent::End,
                None => StreamEvent::Data(1 + dice.roll(9) as usize),
            };
            steps += 1;
            match run.on_stream_event(hand.position, &mut hand.stream, event) {
                StreamAction::Read => hand.to_write = None,
                StreamAction::Write(n) => hand.to_write = Some(n),
                _ => {
                    hands.remove(h);
                    run.on_worker_done();
                }
            }
        }
        assert!(run.is_finished());
        assert!(steps <= effort, "{} steps, {} expected", steps, effort);
        assert_eq!(file, remote);
    }
}

#[test]
fn a_download_of_unknown_size_delivers_what_comes() {
    for seed in 0..50u64 {
        let mut dice = Dice(seed);
        let data = remote(dice.roll(500) as usize);
        let mut chunk = ChunkInfo::new(0, 0, u64::MAX);
        chunk.status = ChunkStatus::Downloading;
        let mut stream = ChunkStream::new(&chunk);
        let mut file: Vec<u8> = vec![];
        let mut rest: &[u8] = &data;
        while !rest.is_empty() {
            let len = (1 + dice.roll(40) as usize).min(rest.len());
            let (piece, more) = rest.split_at(len);
            rest = more;
            match Worker::download_chunk(&mut stream, &mut chunk, StreamEvent::Data(len)) {
                StreamAction::Write(n) => {
                    assert_eq!(stream.offset as usize, file.len());
                    file.extend_from_slice(&piece[..n]);
                    assert_eq!(
                        Worker::download_chunk(&mut stream, &mut chunk, StreamEvent::Written(n)),
                        StreamAction::Read
                    );
                }
                other => panic!("{:?}", other),
            }
        }
        assert_eq!(
            Worker::download_chunk(&mut stream, &mut chunk, StreamEvent::End),
            StreamAction::Done
        );
        assert_eq!(file, data);
        assert_eq!(chunk.status, ChunkStatus::Completed);
        assert_eq!(chunk.current as usize, data.len());
    }
}
