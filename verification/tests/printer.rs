use ctp500::bitmap::Bitmap;
use ctp500::printer::{
    bytes_sent_after, count_chunks, print_image, JobPhase, Outcome, PrintJob, Request,
};
use ctp500::types::AppEvent;

/// Drives a job whose writes all succeed; returns what it asked for and
/// what it published, in order.
fn drive(job: &mut PrintJob) -> (Vec<Request>, Vec<AppEvent>) {
    let mut requests = Vec::new();
    let mut events = Vec::new();
    while !job.is_finished() {
        requests.push(job.request());
        events.extend(job.advance(&Outcome::Done));
    }
    (requests, events)
}

fn payload(len: usize) -> Vec<u8> {
    (0..len).map(|i| (i % 251) as u8).collect()
}

#[test]
fn chunks_are_counted_by_182_bytes() {
    assert_eq!(count_chunks(0), 0);
    assert_eq!(count_chunks(1), 1);
    assert_eq!(count_chunks(182), 1);
    assert_eq!(count_chunks(183), 2);
    assert_eq!(count_chunks(1820), 10);
    assert_eq!(count_chunks(1821), 11);
}

#[test]
fn bytes_sent_grow_by_chunk_up_to_the_length() {
    assert_eq!(bytes_sent_after(1000, 0), 182);
    assert_eq!(bytes_sent_after(1000, 4), 910);
    assert_eq!(bytes_sent_after(1000, 5), 1000);
    assert_eq!(bytes_sent_after(182, 0), 182);
    assert_eq!(bytes_sent_after(1, 0), 1);
}

#[test]
fn a_small_job_runs_the_whole_sequence() {
    let data = payload(400);
    let mut job = PrintJob::with_payload(data.clone(), 10, 20);
    let (requests, events) = drive(&mut job);
    assert_eq!(
        requests,
        vec![
            Request::Write(vec![0x1b, 0x40]),
            Request::Sleep(500),
            Request::Write(vec![0x1d, 0x49, 0xf0, 0x19]),
            Request::Sleep(500),
            Request::Write(data[0..182].to_vec()),
            Request::Write(data[182..364].to_vec()),
            Request::Write(data[364..400].to_vec()),
            Request::Sleep(500),
            Request::Write(vec![0x0a, 0x0a, 0x0a, 0x9a]),
            Request::Sleep(1000),
        ]
    );
    assert_eq!(
        events,
        vec![
            AppEvent::Log("Sent: initialize printer (ESC @)".to_string()),
            AppEvent::Log("Sent: start print sequence".to_string()),
            AppEvent::Log("Sent: image data (400 bytes, 10x20px)".to_string()),
            AppEvent::Log("Sent: end print sequence".to_string()),
            AppEvent::Log("Print complete".to_string()),
            AppEvent::PrintComplete,
        ]
    );
    assert_eq!(job.request(), Request::Nothing);
}

#[test]
fn the_chunks_make_up_the_payload() {
    for len in [0usize, 1, 181, 182, 183, 1820, 1821, 5000] {
        let data = payload(len);
        let mut job = PrintJob::with_payload(data.clone(), 1, 1);
        let (requests, _) = drive(&mut job);
        let mut sent: Vec<u8> = Vec::new();
        let mut chunks = 0;
        for request in &requests[4..requests.len() - 3] {
            match request {
                Request::Write(bytes) => {
                    assert!(bytes.len() <= 182 && !bytes.is_empty());
                    sent.extend(bytes);
                    chunks += 1;
                }
                other => panic!("{:?}", other),
            }
        }
        assert_eq!(sent, data);
        assert_eq!(chunks, count_chunks(len));
    }
}

fn progress_of(events: &[AppEvent]) -> Vec<(usize, usize)> {
    events
        .iter()
        .filter_map(|event| match event {
            AppEvent::PrintProgress { sent, total } => Some((*sent, *total)),
            _ => None,
        })
        .collect()
}

#[test]
fn ten_chunks_report_no_progress() {
    let mut job = PrintJob::with_payload(payload(1820), 1, 1);
    let (_, events) = drive(&mut job);
    assert_eq!(progress_of(&events), vec![]);
}

#[test]
fn eleven_chunks_report_after_the_first_and_the_eleventh() {
    let mut job = PrintJob::with_payload(payload(1821), 1, 1);
    let (_, events) = drive(&mut job);
    assert_eq!(progress_of(&events), vec![(182, 1821), (1821, 1821)]);
}

#[test]
fn twelve_chunks_end_their_reports_short_of_the_total() {
    let mut job = PrintJob::with_payload(payload(2184), 1, 1);
    let (_, events) = drive(&mut job);
    assert_eq!(progress_of(&events), vec![(182, 2184), (2002, 2184)]);
}

#[test]
fn progress_never_decreases_nor_exceeds_the_total() {
    for len in [1821usize, 2000, 3640, 3641, 18432 + 8, 40000] {
        let mut job = PrintJob::with_payload(payload(len), 1, 1);
        let (_, events) = drive(&mut job);
        let reports = progress_of(&events);
        assert_eq!(reports.len(), (count_chunks(len) + 9) / 10);
        let mut last = 0;
        for (sent, total) in reports {
            assert!(last <= sent && sent <= total);
            assert_eq!(total, len);
            last = sent;
        }
    }
}

#[test]
fn the_mechanism_gets_a_second_for_5000_bytes() {
    for (len, ms) in [(0usize, 500u64), (2500, 500), (2505, 501), (5000, 1000), (18440, 3688)] {
        let mut job = PrintJob::with_payload(payload(len), 1, 1);
        let (requests, _) = drive(&mut job);
        assert_eq!(requests[requests.len() - 3], Request::Sleep(ms));
    }
}

#[test]
fn a_failed_write_ends_the_job_with_an_error() {
    for good in 0..5 {
        let mut job = PrintJob::with_payload(payload(300), 1, 1);
        let mut writes = 0;
        let mut events = Vec::new();
        while !job.is_finished() {
            let outcome = match job.request() {
                Request::Write(_) if writes == good => Outcome::Failed("link lost".to_string()),
                Request::Write(_) => {
                    writes += 1;
                    Outcome::Done
                }
                _ => Outcome::Done,
            };
            events.extend(job.advance(&outcome));
        }
        assert_eq!(writes, good);
        assert_eq!(events.last(), Some(&AppEvent::Error("Print error: link lost".to_string())));
        assert!(!events.contains(&AppEvent::PrintComplete));
        assert_eq!(job.request(), Request::Nothing);
        assert_eq!(job.advance(&Outcome::Done), vec![]);
    }
}

#[test]
fn a_failure_reported_for_a_pause_changes_nothing() {
    let mut job = PrintJob::with_payload(payload(10), 1, 1);
    job.advance(&Outcome::Done);
    assert_eq!(job.phase(), JobPhase::InitPause);
    assert_eq!(job.advance(&Outcome::Failed("late".to_string())), vec![]);
    assert_eq!(job.phase(), JobPhase::InitPause);
    assert_eq!(job.request(), Request::Sleep(500));
}

#[test]
fn printing_an_image_sends_its_raster_command() {
    let img = Bitmap::from_pixel(384, 3, (0, 0, 0)).unwrap();
    let mut job = print_image(&img);
    assert_eq!(job.payload_len(), 8 + 48 * 3);
    let (requests, events) = drive(&mut job);
    let mut expected = vec![0x1d, 0x76, 0x30, 0x00, 48, 0, 3, 0];
    expected.extend(vec![0xffu8; 48 * 3]);
    assert_eq!(requests[4], Request::Write(expected));
    assert_eq!(events[2], AppEvent::Log("Sent: image data (152 bytes, 384x3px)".to_string()));
}

#[test]
fn the_log_names_the_size_of_the_image_before_scaling() {
    let img = Bitmap::from_pixel(768, 10, (255, 255, 255)).unwrap();
    let mut job = print_image(&img);
    let (_, events) = drive(&mut job);
    assert_eq!(events[2], AppEvent::Log("Sent: image data (248 bytes, 768x10px)".to_string()));
}
