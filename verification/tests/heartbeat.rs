use rebuilderd::heartbeat::{Beat, BeatAction, BeatEvent};

#[test]
fn job_is_pinged_once_per_interval_until_it_returns() {
    let mut beat: Beat<u32, String> = Beat::new();
    for _ in 0..3 {
        assert_eq!(beat.action(), BeatAction::Wait);
        beat.advance(BeatEvent::Elapsed);
        assert_eq!(beat.action(), BeatAction::Ping);
        beat.advance(BeatEvent::Pinged);
    }
    beat.advance(BeatEvent::Finished(Ok(7)));
    assert_eq!(beat.action(), BeatAction::Return);
    assert_eq!(beat.into_result(), Some(Ok(7)));
}

#[test]
fn failed_job_is_returned() {
    let mut beat: Beat<u32, String> = Beat::new();
    beat.advance(BeatEvent::Finished(Err("no build".to_string())));
    assert_eq!(beat.action(), BeatAction::Return);
    assert_eq!(beat.into_result(), Some(Err("no build".to_string())));
}

#[test]
fn failed_ping_ends_the_job() {
    let mut beat: Beat<u32, String> = Beat::new();
    beat.advance(BeatEvent::Elapsed);
    beat.advance(BeatEvent::PingFailed("gone".to_string()));
    assert_eq!(beat.action(), BeatAction::Fail);
    assert_eq!(beat.into_result(), Some(Err("gone".to_string())));
}

#[test]
fn running_job_has_no_result() {
    let mut beat: Beat<u32, String> = Beat::new();
    beat.advance(BeatEvent::Elapsed);
    assert_eq!(beat.into_result(), None);
}
