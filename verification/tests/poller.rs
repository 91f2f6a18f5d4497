use zstatus::config::{services, CHECK_SECS};
use zstatus::poller::{PollAction, Poller};
use zstatus::status::initial_records;

fn actions(services: usize, steps: usize) -> Vec<PollAction> {
    let mut poller = Poller::new();
    (0..steps).map(|_| poller.step(services)).collect()
}

#[test]
fn rounds_follow_each_other() {
    let pause = PollAction::Sleep { secs: 60 };
    let probe = |index| PollAction::Probe { index };
    assert_eq!(
        actions(3, 9),
        [probe(0), probe(1), probe(2), pause, probe(0), probe(1), probe(2), pause, probe(0)]
    );
}

#[test]
fn round_over_no_services_only_pauses() {
    assert_eq!(actions(0, 2), vec![PollAction::Sleep { secs: CHECK_SECS }; 2]);
}

#[test]
fn step_of_a_long_run_is_known_by_its_position() {
    for (step, action) in actions(5, 100).into_iter().enumerate() {
        match action {
            PollAction::Probe { index } => assert_eq!(index, step % 6),
            PollAction::Sleep { secs } => assert_eq!((secs, step % 6), (60, 5)),
        }
    }
}

#[test]
fn rounds_add_one_check_each_to_the_records() {
    let mut records = initial_records(&services());
    let mut poller = Poller::new();
    for round in 0..4u64 {
        while let PollAction::Probe { index } = poller.step(records.len()) {
            records[index].push_at(round, round % 2 == 0, Some(10 * round + index as u64));
        }
    }
    for (i, record) in records.iter().enumerate() {
        let status = record.to_status();
        assert_eq!(status.key, services()[i].key);
        let seen: Vec<(u64, bool, Option<u64>)> =
            status.checks.iter().map(|c| (c.ts, c.ok, c.ms)).collect();
        let i = i as u64;
        assert_eq!(
            seen,
            [
                (0, true, Some(i)),
                (1, false, Some(10 + i)),
                (2, true, Some(20 + i)),
                (3, false, Some(30 + i)),
            ]
        );
    }
}
