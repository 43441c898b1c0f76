use stateright::actor::register::RegisterCfg;
use stateright::actor::register::RegisterMsg;
use stateright::actor::register::response_values;
use stateright::actor::system::ActorSystem;
use stateright::actor::system::ActorSystemSnapshot;
use stateright::actor::system::Envelope;
use stateright::actor::system::LossyNetwork;
use stateright::actor::wor::clamp_client_count;
use stateright::actor::wor::wor_system;
use stateright::actor::wor::WorCfg;
use stateright::actor::wor::WorState;
use stateright::checker::CheckResult;
use stateright::checker::Property;

fn two_client_system(a: char, b: char) -> ActorSystem {
    ActorSystem {
        actors: vec![
            RegisterCfg::Server(WorCfg),
            RegisterCfg::Client { server_ids: vec![0], desired_value: a },
            RegisterCfg::Client { server_ids: vec![0], desired_value: b },
        ],
        init_network: Vec::new(),
        lossy_network: LossyNetwork::Yes,
    }
}

#[test]
fn can_model_wor() {
    let system = two_client_system('X', 'Y');
    let mut checker = system.checker(Property::UniqueResponseWithin { lo: 'X', hi: 'Y' });
    assert_eq!(checker.check(10_000), CheckResult::Pass);
    assert_eq!(checker.sources().len(), 144);
}

#[test]
fn rejecting_invariant_fails_on_initial_snapshot_with_empty_path() {
    let system = two_client_system('X', 'Y');
    let mut checker = system.checker(Property::NeverHolds);
    match checker.check(10_000) {
        CheckResult::Fail { snapshot, path } => {
            assert!(path.is_empty());
            // The offending snapshot is the initial one: a fresh server and
            // two clients whose proposals are all still in flight.
            assert_eq!(snapshot.actor_states.len(), 3);
            assert_eq!(snapshot.network.len(), 4);
        }
        other => panic!("expected an immediate failure, got {:?}", other),
    }
    assert_eq!(checker.sources().len(), 1);
}

#[test]
fn rerunning_the_same_exploration_is_deterministic() {
    let system = two_client_system('X', 'Y');
    let mut first = system.clone().checker(Property::UniqueResponseWithin { lo: 'X', hi: 'Y' });
    let mut second = system.checker(Property::UniqueResponseWithin { lo: 'X', hi: 'Y' });
    let r1 = first.check(10_000);
    let r2 = second.check(10_000);
    assert_eq!(r1, r2);
    assert_eq!(first.sources().len(), second.sources().len());
    assert_eq!(first.sources(), second.sources());
}

#[test]
fn bound_exhaustion_is_reported_distinctly() {
    let system = two_client_system('X', 'Y');
    let mut checker = system.checker(Property::UniqueResponseWithin { lo: 'X', hi: 'Y' });
    assert_eq!(checker.check(3), CheckResult::Incomplete);
}

#[test]
fn three_clients_respond_within_their_letters() {
    let system = wor_system(3);
    assert_eq!(system.actors.len(), 4);
    let mut checker = system.checker(Property::UniqueResponseWithin { lo: 'A', hi: 'C' });
    assert_eq!(checker.check(1_000_000), CheckResult::Pass);
    assert_eq!(checker.sources().len(), 1600);
}

#[test]
fn five_clients_respond_within_their_letters() {
    // The full five-client space is large; within this bound no snapshot may
    // show a response outside ['A','E'], and none shows two distinct values.
    let system = wor_system(5);
    assert_eq!(system.actors.len(), 6);
    let mut checker = system.checker(Property::UniqueResponseWithin { lo: 'A', hi: 'E' });
    assert_eq!(checker.check(600), CheckResult::Incomplete);
}

#[test]
fn requested_client_count_is_clamped() {
    assert_eq!(clamp_client_count(30), 26);
    assert_eq!(clamp_client_count(5), 5);
    assert_eq!(clamp_client_count(26), 26);
}

#[test]
fn ignored_inputs_mint_no_snapshots() {
    // A reliable network whose only envelope is a Put addressed to a client:
    // the client ignores every input, so nothing is reachable beyond the
    // initial snapshot and the checker passes after expanding it alone.
    let system = ActorSystem {
        actors: vec![
            RegisterCfg::Server(WorCfg),
            RegisterCfg::Client { server_ids: vec![], desired_value: 'Z' },
        ],
        init_network: vec![Envelope { src: 0, dst: 1, msg: RegisterMsg::Put { value: 'Z' } }],
        lossy_network: LossyNetwork::No,
    };
    let mut checker = system.checker(Property::AlwaysHolds);
    assert_eq!(checker.check(10_000), CheckResult::Pass);
    assert_eq!(checker.sources().len(), 1);
}

#[test]
fn response_values_are_sorted_and_deduplicated() {
    let respond = |src: usize, dst: usize, value: char| Envelope {
        src,
        dst,
        msg: RegisterMsg::Respond { value },
    };
    let snapshot = ActorSystemSnapshot {
        actor_states: Vec::new(),
        network: vec![
            respond(0, 1, 'Q'),
            respond(0, 2, 'B'),
            respond(0, 3, 'Q'),
            respond(0, 4, 'A'),
            Envelope { src: 1, dst: 0, msg: RegisterMsg::Get },
        ],
    };
    assert_eq!(response_values(&snapshot), vec!['A', 'B', 'Q']);
    let empty = ActorSystemSnapshot { actor_states: Vec::new(), network: Vec::new() };
    assert_eq!(response_values(&empty), Vec::<char>::new());
}

#[test]
fn reliable_network_offers_no_drop() {
    // Under a reliable network the lone Put/Get pair cannot be lost, so a
    // response is eventually pending and the singleton invariant still holds.
    let system = ActorSystem {
        actors: vec![
            RegisterCfg::Server(WorCfg),
            RegisterCfg::Client { server_ids: vec![0], desired_value: 'W' },
        ],
        init_network: Vec::new(),
        lossy_network: LossyNetwork::No,
    };
    let mut checker = system.checker(Property::UniqueResponseWithin { lo: 'W', hi: 'W' });
    assert_eq!(checker.check(10_000), CheckResult::Pass);
}

#[test]
fn failing_snapshot_carries_its_derivation() {
    // Proposals 'A' and 'C': responding with 'C' violates the window
    // ['A','A'], and the reported path must lead from the initial snapshot
    // to a predecessor of the offending one.
    let system = two_client_system('A', 'C');
    let mut checker = system.checker(Property::UniqueResponseWithin { lo: 'A', hi: 'A' });
    match checker.check(100_000) {
        CheckResult::Fail { snapshot, path } => {
            assert!(!path.is_empty());
            let values = response_values(&snapshot);
            assert_eq!(values, vec!['C']);
        }
        other => panic!("expected a violation, got {:?}", other),
    }
}
