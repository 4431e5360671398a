use hype::batch::AliveBatch;
use hype::config::{PRINT_BATCH, TCP_PORTS};
use hype::http::{is_alive_status, probe_urls, HttpRace, RaceStep, Scheme};
use hype::ipv4::Ipv4Addr;
use hype::probe::{Stage, StagedProbe};
use hype::tcp_syn::{SynPhase, SynProbe, WaitOutcome, SOURCE_PORT_END, SOURCE_PORT_MIN};

#[test]
fn staged_probe_short_circuits_on_first_alive() {
    let ip = Ipv4Addr::new(10, 1, 2, 3);
    let mut p = StagedProbe::new();
    assert_eq!(p.next_stage(), Some(Stage::EchoRequest));
    p.record(true);
    assert_eq!(p.next_stage(), None);
    assert_eq!(p.outcome(ip), Some(ip));
}

#[test]
fn staged_probe_runs_all_stages_when_dead() {
    let ip = Ipv4Addr::new(10, 1, 2, 3);
    let mut p = StagedProbe::new();
    assert_eq!(p.next_stage(), Some(Stage::EchoRequest));
    p.record(false);
    assert_eq!(p.next_stage(), Some(Stage::TcpSyn));
    p.record(false);
    assert_eq!(p.next_stage(), None);
    assert_eq!(p.outcome(ip), None);
}

#[test]
fn staged_probe_second_stage_can_settle_alive() {
    let ip = Ipv4Addr::new(10, 1, 2, 3);
    let mut p = StagedProbe::new();
    p.record(false);
    assert_eq!(p.next_stage(), Some(Stage::TcpSyn));
    p.record(true);
    assert_eq!(p.next_stage(), None);
    assert_eq!(p.outcome(ip), Some(ip));
}

#[test]
fn alive_status_is_1xx_to_5xx() {
    assert!(!is_alive_status(99));
    assert!(is_alive_status(100));
    assert!(is_alive_status(204));
    assert!(is_alive_status(301));
    assert!(is_alive_status(404));
    assert!(is_alive_status(599));
    assert!(!is_alive_status(600));
    assert!(!is_alive_status(999));
}

#[test]
fn http_race_first_alive_wins() {
    let mut r = HttpRace::new();
    assert_eq!(r.on_result(Scheme::Https, Some(true)), RaceStep::Alive);
    let mut r = HttpRace::new();
    assert_eq!(r.on_result(Scheme::Http, None), RaceStep::Pending);
    assert!(r.done(Scheme::Http));
    assert!(!r.done(Scheme::Https));
    assert_eq!(r.on_result(Scheme::Https, Some(true)), RaceStep::Alive);
}

#[test]
fn http_race_dead_only_after_both() {
    let mut r = HttpRace::new();
    assert_eq!(r.on_result(Scheme::Http, None), RaceStep::Pending);
    assert_eq!(r.on_result(Scheme::Https, None), RaceStep::Dead);
}

#[test]
fn http_race_any_response_means_reached() {
    // a reply whose status is outside 1xx..5xx still reached the host
    let status = 600;
    let mut r = HttpRace::new();
    assert_eq!(r.on_result(Scheme::Https, Some(is_alive_status(status))), RaceStep::Alive);
    let mut r = HttpRace::new();
    assert_eq!(r.on_result(Scheme::Http, None), RaceStep::Pending);
    assert_eq!(r.on_result(Scheme::Https, Some(false)), RaceStep::Alive);
}

#[test]
fn probe_urls_name_the_host() {
    let (http, https) = probe_urls(Ipv4Addr::new(192, 168, 1, 20));
    assert_eq!(http, "http://192.168.1.20");
    assert_eq!(https, "https://192.168.1.20");
}

#[test]
fn alive_batch_flushes_every_print_batch_hosts() {
    let mut b = AliveBatch::new();
    let mut printed: Vec<Ipv4Addr> = Vec::new();
    let mut batches = 0;
    let total = 2 * PRINT_BATCH + PRINT_BATCH / 2;
    let all: Vec<Ipv4Addr> =
        (0..total).map(|i| Ipv4Addr::new(10, 0, (i / 256) as u8, (i % 256) as u8)).collect();
    for ip in &all {
        if let Some(batch) = b.push(*ip) {
            assert_eq!(batch.len(), PRINT_BATCH);
            batches += 1;
            printed.extend(batch);
        }
    }
    assert_eq!(batches, 2);
    let rest = b.finish();
    assert_eq!(rest.len(), PRINT_BATCH / 2);
    printed.extend(rest);
    assert_eq!(printed, all);
}

#[test]
fn alive_batch_finish_of_empty_is_empty() {
    assert!(AliveBatch::new().finish().is_empty());
}

#[test]
fn syn_probe_source_ports_are_ephemeral() {
    for _ in 0..2000 {
        let p = SynProbe::start();
        assert!(SOURCE_PORT_MIN <= p.sport() && p.sport() < SOURCE_PORT_END);
        assert_eq!(p.phase(), SynPhase::PortChosen);
    }
}

#[test]
fn syn_probe_verdicts() {
    let mut p = SynProbe::start();
    p.registered();
    assert_eq!(p.phase(), SynPhase::Registered);
    p.job_sent(false);
    assert_eq!(p.phase(), SynPhase::Done { alive: false });

    for (outcome, alive) in
        [(WaitOutcome::Replied, true), (WaitOutcome::Closed, false), (WaitOutcome::TimedOut, false)]
    {
        let mut p = SynProbe::start();
        let port = p.sport();
        p.registered();
        p.job_sent(true);
        assert_eq!(p.phase(), SynPhase::AwaitingReply);
        p.wait_ended(outcome);
        assert_eq!(p.phase(), SynPhase::Done { alive });
        assert_eq!(p.sport(), port);
    }
}

#[test]
fn configured_ports() {
    assert_eq!(TCP_PORTS, [80, 443, 22, 445, 3389]);
}
