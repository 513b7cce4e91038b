use rurl::progress::{
    active_chunks, chunk_bars, failure_text, keeps_bar, threads_text, time_text, total_downloaded,
    watch, ChunkBar, Meter, Watch,
};
use rurl::types::{ChunkInfo, ChunkStatus, TaskStatus};

fn chunks() -> Vec<ChunkInfo> {
    vec![
        ChunkInfo { id: 0, start: 0, end: 99, current: 100, status: ChunkStatus::Completed, retries: 0 },
        ChunkInfo { id: 1, start: 100, end: 199, current: 150, status: ChunkStatus::Downloading, retries: 0 },
        ChunkInfo { id: 2, start: 200, end: 299, current: 200, status: ChunkStatus::Pending, retries: 0 },
        ChunkInfo { id: 3, start: 300, end: 309, current: 303, status: ChunkStatus::Downloading, retries: 0 },
    ]
}

#[test]
fn what_has_been_downloaded() {
    assert_eq!(total_downloaded(&chunks()), 153);
    assert_eq!(total_downloaded(&vec![]), 0);
    let mut done = chunks();
    for chunk in done.iter_mut() {
        chunk.current = chunk.end + 1;
    }
    assert_eq!(total_downloaded(&done), 310);
}

#[test]
fn who_is_at_work() {
    assert_eq!(active_chunks(&chunks()), 2);
    assert_eq!(active_chunks(&vec![]), 0);
    assert_eq!(threads_text(2), "| 线程数: 2");
}

#[test]
fn bars_for_chunks() {
    assert_eq!(chunk_bars(&chunks()), vec![
        ChunkBar { id: 1, position: 50, length: 99 },
        ChunkBar { id: 3, position: 3, length: 9 },
    ]);
    assert!(!keeps_bar(&chunks(), 0));
    assert!(keeps_bar(&chunks(), 1));
    assert!(!keeps_bar(&chunks(), 2));
    assert!(!keeps_bar(&chunks(), 9));
}

#[test]
fn times_as_they_are_shown() {
    assert_eq!(time_text(0), "0秒");
    assert_eq!(time_text(59), "59秒");
    assert_eq!(time_text(60), "1分0秒");
    assert_eq!(time_text(3599), "59分59秒");
    assert_eq!(time_text(3600), "1时0分0秒");
    assert_eq!(time_text(100000), "27时46分40秒");
}

#[test]
fn the_speed_counts_from_the_first_sight() {
    let mut meter = Meter::new();
    meter.update(0);
    assert_eq!(meter.gained(5), Some(5));
    meter.update(100);
    meter.update(150);
    assert_eq!(meter.initial, 100);
    assert_eq!(meter.gained(150), Some(50));
    assert_eq!(meter.gained(99), None);
}

#[test]
fn what_a_status_means() {
    assert!(matches!(watch(&TaskStatus::Pending), Watch::Going));
    assert!(matches!(watch(&TaskStatus::Running), Watch::Going));
    assert!(matches!(watch(&TaskStatus::Paused), Watch::Going));
    assert!(matches!(watch(&TaskStatus::Completed), Watch::Done));
    match watch(&TaskStatus::Error("x".to_string())) {
        Watch::Failed(message) => assert_eq!(failure_text(&message), "下载失败: x"),
        other => panic!("{:?}", other),
    }
}
