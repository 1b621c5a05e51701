use blockscan::dispatcher::classify_block_response;
use blockscan::dispatcher::Completion;
use blockscan::dispatcher::Dispatcher;
use blockscan::dispatcher::Outcome;
use blockscan::twitter::RateLimit;

#[test]
fn open_gate_fires_bursts_without_delay() {
    let mut d = Dispatcher::new(10);
    let out = d.step(&vec![1, 2], false, &Vec::new(), 10);
    assert_eq!(out.fired, vec![1, 2]);
    assert!(!out.done);
    let out = d.step(&vec![3], false, &Vec::new(), 11);
    assert_eq!(out.fired, vec![3]);
}

#[test]
fn too_many_requests_recloses_the_gate_until_past_reset() {
    let mut d = Dispatcher::new(10);
    let out = d.step(&vec![1], false, &Vec::new(), 10);
    assert_eq!(out.fired, vec![1]);
    let limited = vec![Completion { id: 1, outcome: Outcome::RateLimited { reset: 20 } }];
    let out = d.step(&Vec::new(), false, &limited, 11);
    assert!(out.fired.is_empty());
    assert!(out.records.is_empty());
    assert!(!d.gate_open(20));
    assert!(d.gate_open(21));
    let out = d.step(&vec![4], false, &Vec::new(), 20);
    assert!(out.fired.is_empty());
    let out = d.step(&Vec::new(), false, &Vec::new(), 21);
    assert_eq!(out.fired, vec![1, 4]);
}

#[test]
fn requeued_id_dispatches_before_later_arrivals() {
    let mut d = Dispatcher::new(0);
    let out = d.step(&vec![5], false, &Vec::new(), 0);
    assert_eq!(out.fired, vec![5]);
    let failed = vec![Completion { id: 5, outcome: Outcome::TransportError }];
    let out = d.step(&vec![6], false, &failed, 0);
    assert_eq!(out.fired, vec![5, 6]);
}

#[test]
fn not_found_drops_the_candidate_and_the_drain_goes_on() {
    let mut d = Dispatcher::new(0);
    let out = d.step(&vec![7, 8], false, &Vec::new(), 0);
    assert_eq!(out.fired, vec![7, 8]);
    let completions = vec![
        Completion { id: 7, outcome: Outcome::NotFound },
        Completion { id: 8, outcome: Outcome::Success },
    ];
    let out = d.step(&Vec::new(), true, &completions, 0);
    assert_eq!(out.records, vec![8]);
    assert!(out.fired.is_empty());
    assert!(out.done);
}

#[test]
fn success_records_exactly_the_succeeded_ids() {
    let mut d = Dispatcher::new(0);
    d.step(&vec![1, 2, 3], false, &Vec::new(), 0);
    let completions = vec![
        Completion { id: 2, outcome: Outcome::Success },
        Completion { id: 1, outcome: Outcome::Failure },
        Completion { id: 3, outcome: Outcome::Success },
    ];
    let out = d.step(&Vec::new(), false, &completions, 0);
    assert_eq!(out.records, vec![2, 3]);
    assert_eq!(out.fired, vec![1]);
}

#[test]
fn closed_empty_dispatcher_reports_done() {
    let mut d = Dispatcher::new(0);
    let out = d.step(&Vec::new(), true, &Vec::new(), 0);
    assert!(out.done);
    assert!(d.is_done());
}

#[test]
fn drain_finishes_once_every_id_is_terminal() {
    let mut d = Dispatcher::new(0);
    let out = d.step(&vec![1, 2], true, &Vec::new(), 0);
    assert_eq!(out.fired, vec![1, 2]);
    assert!(!out.done);
    let completions = vec![
        Completion { id: 1, outcome: Outcome::Success },
        Completion { id: 2, outcome: Outcome::Success },
    ];
    let out = d.step(&Vec::new(), false, &completions, 0);
    assert_eq!(out.records, vec![1, 2]);
    assert!(out.done);
}

#[test]
fn classify_block_response_by_status() {
    assert_eq!(classify_block_response(200, &None), Outcome::Success);
    assert_eq!(classify_block_response(404, &None), Outcome::NotFound);
    let rate = Some(RateLimit { remaining: 0, reset: 900 });
    assert_eq!(classify_block_response(429, &rate), Outcome::RateLimited { reset: 900 });
    assert_eq!(classify_block_response(503, &None), Outcome::Failure);
}
