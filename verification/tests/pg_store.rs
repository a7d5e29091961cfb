use eks::csb_data::CsbAction;
use eks::error::AppError;
use eks::limits::{LoggedEvent, RateLimit, RateLimits};
use eks::pg_data::PgEvent;
use eks::pg_store::{WritePlan, WriteRoute, WriteTarget};
use eks::stream::StreamId;

const NOW: i64 = 1_700_000_000_000_000;
const SECOND: i64 = 1_000_000;

fn tight_limits() -> RateLimits {
    RateLimits {
        downloads: RateLimit { max: 1, window: 60 * SECOND },
        events: RateLimit { max: 2, window: 60 * SECOND },
        events_total: 3,
    }
}

fn busy_log() -> Vec<LoggedEvent> {
    (0..5).map(|_| LoggedEvent { created_at: NOW - SECOND, is_download: true }).collect()
}

#[test]
fn paper_corrections_are_not_rate_limited() {
    let route = WriteRoute::paper_corrections(StreamId(9));
    assert_eq!(route.paper_corrections_stream_id(), Some(StreamId(9)));

    for _ in 0..10 {
        let plan = route.plan(&busy_log(), NOW, PgEvent::HideDownloadWarning).unwrap();
        match plan {
            WritePlan::ForwardToCsb { stream, action: CsbAction::PaperCorrectedUpdate(event) } => {
                assert_eq!(stream, StreamId(9));
                assert!(matches!(*event, PgEvent::HideDownloadWarning));
            },
            _ => panic!("a paper correction goes to the committee stream"),
        }
    }
}

#[test]
fn own_writes_are_held_to_the_limits_and_to_the_last_seen_event() {
    let route = WriteRoute::own(tight_limits(), 4);
    assert_eq!(route.target, WriteTarget::Own);
    assert_eq!(route.paper_corrections_stream_id(), None);

    let err = route.plan(&busy_log(), NOW, PgEvent::Login).err().unwrap();
    assert_eq!(err, AppError::EventLimitReached { max: 3 });

    match route.plan(&vec![], NOW, PgEvent::Login).ok().unwrap() {
        WritePlan::AppendOwn { expected, event } => {
            assert_eq!(expected, 4);
            assert!(matches!(event, PgEvent::Login));
        },
        _ => panic!("an own write stays on the own stream"),
    }
}

#[test]
fn own_downloads_meet_the_download_limit() {
    let route = WriteRoute::own(tight_limits(), 0);
    let log = vec![LoggedEvent { created_at: NOW - SECOND, is_download: true }];
    let download = PgEvent::DownloadFile { file_name: "a.pdf".to_string(), download_path: "/d".to_string() };

    let err = route.plan(&log, NOW, download).err().unwrap();
    assert_eq!(err, AppError::TooManyDownloads { max: 1, window: 60 * SECOND });
    assert!(route.plan(&log, NOW, PgEvent::Login).is_ok());
}

