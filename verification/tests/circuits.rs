use phinet_core::building::{
    aim_at_service, check_path_length, com_circuit_path, fetch_failure, guard_step, hop_role,
    hop_step, intro_exclusions, intro_path, place_vanguard, plan_hs_path, pool_path, pump_step,
    vanguard_outcome, BuildStep, FetchStage, PumpAction, PUMP_MAX_NANOS, PUMP_MIN_NANOS,
};
use phinet_core::cells::{
    acks_after_data, create_refused, establish_intro_data, extend_step, extension_id,
    introduce_where, may_write, on_cell, on_forward_relay, on_origin_relay, read_cell,
    rendezvous2_data, target_hop, CellCommand, CellStep, CircuitFacts, ExtendStep, IntroduceStep,
    OriginStep, Outbound, RelayCell, RelayCommand, RelayStep, CELL_LEN,
};
use phinet_core::cert::{CertBits, PhiCert};
use phinet_core::circuit::{CircuitCellMsg, LinkSpec};
use phinet_core::construction::{Construction, Progress, Stage};
use phinet_core::descriptor::{HsDescriptor, ResolvedIntro};
use phinet_core::dht::PeerInfo;
use phinet_core::directory::{ConsensusDocument, PeerEntry, PeerFlags};
use phinet_core::errors::Error;
use phinet_core::exit::{
    begin_data, exit_begin, exit_dialled, exit_policy_says, exit_read, on_window, BwTest,
    DialOutcome, ExitStep, PumpStep, ReadOutcome, Window, WindowStep, MAX_BW_TEST_BYTES,
};
use phinet_core::fetch::{
    answer_request, frame_response, parse_hs_response, request_path, HsFetchResponse,
};
use phinet_core::node::PhiNode;
use phinet_core::padding::PadDecision;
use phinet_core::peers::{writer_step, Direct, PeerConn, WriterStep};
use phinet_core::queues::CellQueues;
use phinet_core::rendezvous::{EstablishIntro, EstablishRendezvous, Introduce, Rendezvous1};
use phinet_core::session::Session;
use phinet_core::stream::EndReason;
use phinet_core::vanguards::Vanguards;
use phinet_core::visit::{way_in, Meeting, Visit, VisitEvent, VisitStep};
use rand::rngs::StdRng;
use rand::SeedableRng;

fn relay(command: RelayCommand, stream_id: u16, data: &[u8]) -> RelayCell {
    RelayCell { command, stream_id, data: data.to_vec() }
}

fn spec(id: u8, host: &str) -> LinkSpec {
    LinkSpec { host: host.into(), port: 7700, node_id: [id; 32], static_pub: [id; 32] }
}

fn consensus(n: u8) -> ConsensusDocument {
    let flags = PeerFlags::STABLE | PeerFlags::FAST | PeerFlags::GUARD | PeerFlags::EXIT
        | PeerFlags::RUNNING | PeerFlags::VALID;
    let peers = (1..=n)
        .map(|i| PeerEntry {
            node_id_hex: hex::encode([i; 32]),
            host: format!("10.{}.0.1", i),
            port: 7700,
            static_pub_hex: hex::encode([i; 32]),
            flags,
            bandwidth_kbs: 100,
            exit_policy_summary: String::new(),
            family: String::new(),
        })
        .collect();
    ConsensusDocument {
        network_id: "test".into(),
        shared_random: String::new(),
        valid_after: 0,
        valid_until: u64::MAX,
        peers,
    }
}

// ── Cells ─────────────────────────────────────────────────────────────

#[test]
fn a_cell_is_512_bytes_of_hexadecimal() {
    assert_eq!(read_cell(&"0a".repeat(CELL_LEN)).unwrap(), vec![0x0a; 512]);
    assert!(read_cell("0a").is_none());
    assert!(read_cell(&"zz".repeat(CELL_LEN)).is_none());
}

#[test]
fn own_circuits_come_first() {
    let all = CircuitFacts { origin: true, backward: true, forward: true };
    let none = CircuitFacts { origin: false, backward: false, forward: false };
    assert_eq!(on_cell(CellCommand::Relay, false, all), CellStep::Origin);
    assert_eq!(on_cell(CellCommand::Created, false, all), CellStep::OriginCreated);
    assert_eq!(on_cell(CellCommand::Created, false, none), CellStep::RelayCreated);
    assert_eq!(on_cell(CellCommand::RelayEarly, false, none), CellStep::Ignore);
    assert_eq!(on_cell(CellCommand::Create, true, none), CellStep::Ignore);
    assert_eq!(on_cell(CellCommand::Create, false, none), CellStep::AnswerCreate);
    assert_eq!(on_cell(CellCommand::Destroy, true, all), CellStep::Destroy);
    let back = CircuitFacts { origin: false, backward: true, forward: true };
    assert_eq!(on_cell(CellCommand::Relay, false, back), CellStep::Backward);
    assert!(!create_refused(None));
    assert!(create_refused(Some(false)));
    assert!(!create_refused(Some(true)));
}

#[test]
fn the_origin_tells_data_apart() {
    let data = || relay(RelayCommand::Data, 3, b"x");
    assert!(matches!(on_origin_relay(data(), false, false), OriginStep::StreamData(3, _)));
    assert!(matches!(on_origin_relay(data(), true, true), OriginStep::Collect(_)));
    assert!(matches!(on_origin_relay(data(), true, false), OriginStep::Serve(_)));
    assert!(matches!(
        on_origin_relay(relay(RelayCommand::End, 3, &[4]), false, false),
        OriginStep::StreamEnded(3, EndReason::Timeout)
    ));
    assert!(matches!(
        on_origin_relay(relay(RelayCommand::End, 3, &[]), true, false),
        OriginStep::Complete
    ));
    assert!(matches!(
        on_origin_relay(relay(RelayCommand::SendMe, 0, &[]), false, false),
        OriginStep::CircuitWindow
    ));
    assert!(matches!(
        on_origin_relay(relay(RelayCommand::SendMe, 9, &[]), false, false),
        OriginStep::StreamWindow(9)
    ));
    assert!(matches!(
        on_origin_relay(relay(RelayCommand::Begin, 1, &[]), false, false),
        OriginStep::Nothing
    ));
    assert_eq!(acks_after_data(Some(Ok(true)), true), 2);
    assert_eq!(acks_after_data(Some(Ok(false)), true), 1);
    assert_eq!(acks_after_data(Some(Err(Error::Closed)), false), 0);
    assert_eq!(acks_after_data(None, false), 0);
}

#[test]
fn an_introduction_point_takes_the_key() {
    let data = establish_intro_data([0x44; 32]);
    assert_eq!(EstablishIntro::decode(&data).unwrap().auth_key_pub, [0x44; 32]);
    match on_forward_relay(relay(RelayCommand::EstablishIntro, 0, &data)) {
        RelayStep::BeIntroPoint(key) => assert_eq!(key, [0x44; 32]),
        other => panic!("{:?}", other),
    }
    assert!(matches!(
        on_forward_relay(relay(RelayCommand::EstablishIntro, 0, &[1])),
        RelayStep::Nothing
    ));
}

#[test]
fn the_rendezvous_point_passes_the_handshake_on() {
    let er = EstablishRendezvous { cookie: [5; 20] }.encode();
    assert!(matches!(
        on_forward_relay(relay(RelayCommand::EstablishRendezvous, 0, &er)),
        RelayStep::BeRendezvousPoint(c) if c == [5; 20]
    ));
    let m = Rendezvous1 { cookie: [5; 20], server_y: [6; 32], auth: [7; 32] };
    match on_forward_relay(relay(RelayCommand::Rendezvous1, 0, &m.encode())) {
        RelayStep::Join(got) => {
            assert_eq!(got.cookie, [5; 20]);
            let mut expected = vec![6; 32];
            expected.extend_from_slice(&[7; 32]);
            assert_eq!(rendezvous2_data(&got), expected);
        }
        other => panic!("{:?}", other),
    }
}

#[test]
fn introductions_find_their_service() {
    assert!(matches!(
        introduce_where(&[1; 32], Some(([9; 32], 4)), &[1; 32]),
        IntroduceStep::Forward(p, 4) if p == [9; 32]
    ));
    assert!(matches!(introduce_where(&[1; 32], None, &[1; 32]), IntroduceStep::Own));
    assert!(matches!(introduce_where(&[1; 32], None, &[2; 32]), IntroduceStep::Unknown));
    let intro = Introduce {
        auth_key_pub: [1; 32],
        client_ntor_x: [2; 32],
        enc_payload: vec![3; 90],
        mac: [4; 32],
    };
    match on_forward_relay(relay(RelayCommand::Introduce1, 0, &intro.encode())) {
        RelayStep::Introduce(key, data) => {
            assert_eq!(key, [1; 32]);
            assert_eq!(data, intro.encode());
        }
        other => panic!("{:?}", other),
    }
}

#[test]
fn relays_extend_dial_or_drop() {
    assert_eq!(extend_step(true, None), ExtendStep::Send);
    assert_eq!(extend_step(false, None), ExtendStep::Dial);
    assert_eq!(extend_step(false, Some(true)), ExtendStep::Drop);
    assert_eq!(extend_step(true, Some(true)), ExtendStep::Send);
    assert_eq!(extend_step(false, Some(false)), ExtendStep::Drop);
    assert_ne!(extension_id(0), 0);
}

#[test]
fn the_last_hop_is_the_target() {
    assert_eq!(target_hop(Outbound::StreamOpen, Some(3)), Ok(2));
    assert_eq!(
        target_hop(Outbound::Introduce1, None),
        Err(Error::Handshake("introduce1: unknown circuit".into()))
    );
    assert_eq!(
        target_hop(Outbound::StreamRelay, Some(0)),
        Err(Error::Handshake("send_stream_relay: no hops".into()))
    );
    assert_eq!(may_write(true, Some(Ok(())), Some(Ok(()))), Ok(()));
    assert_eq!(may_write(true, Some(Err(Error::Closed)), Some(Ok(()))), Err(Error::Closed));
    assert!(may_write(false, Some(Ok(())), Some(Ok(()))).is_err());
    assert!(may_write(true, None, Some(Ok(()))).is_err());
    assert!(may_write(true, Some(Ok(())), None).is_err());
}

// ── Exits ─────────────────────────────────────────────────────────────

#[test]
fn the_exit_reads_the_target() {
    match exit_begin(&begin_data("example.com:80")) {
        ExitStep::CheckPolicy(t) => assert_eq!(t, "example.com:80"),
        other => panic!("{:?}", other),
    }
    assert!(matches!(exit_begin(&[0xff, 0xfe, 0]), ExitStep::End(EndReason::Internal)));
    assert!(matches!(exit_begin(b"bw-test:1000\0"), ExitStep::Measure(1000)));
    assert!(matches!(
        exit_begin(b"bw-test:99999999999\0"),
        ExitStep::Measure(MAX_BW_TEST_BYTES)
    ));
}

#[test]
fn the_policy_is_asked_before_the_dial() {
    assert!(matches!(
        exit_policy_says("t".into(), true),
        ExitStep::End(EndReason::ExitPolicy)
    ));
    assert!(matches!(exit_policy_says("t".into(), false), ExitStep::Dial(_)));
    assert!(matches!(
        exit_dialled("t".into(), DialOutcome::Connected { rejected: true }),
        ExitStep::End(EndReason::ExitPolicy)
    ));
    assert!(matches!(
        exit_dialled("t".into(), DialOutcome::Connected { rejected: false }),
        ExitStep::Carry(_)
    ));
    assert!(matches!(
        exit_dialled("t".into(), DialOutcome::Failed),
        ExitStep::End(EndReason::Unreachable)
    ));
    assert!(matches!(
        exit_dialled("t".into(), DialOutcome::TimedOut),
        ExitStep::End(EndReason::Timeout)
    ));
}

#[test]
fn the_exit_pumps_until_the_end() {
    assert!(matches!(exit_read(ReadOutcome::Bytes(vec![])), PumpStep::End(EndReason::Done)));
    assert!(matches!(exit_read(ReadOutcome::Bytes(vec![1])), PumpStep::Data(_)));
    assert!(matches!(exit_read(ReadOutcome::Failed), PumpStep::End(_)));
    assert_eq!(on_window(Window::Charged), WindowStep::Send);
    assert_eq!(on_window(Window::Closed), WindowStep::Wait(10));
    assert_eq!(on_window(Window::Gone), WindowStep::Stop);
}

#[test]
fn a_measurement_sends_what_was_asked() {
    let mut t = BwTest::new(3, 4, 5, 1000);
    let mut total = vec![];
    while let Some(chunk) = t.next_chunk(300) {
        assert!(chunk.len() <= 300);
        total.extend_from_slice(&chunk);
    }
    assert_eq!(total.len(), 1000);
    // The filler is one stream, however it is cut.
    let mut u = BwTest::new(3, 4, 5, 1000);
    assert_eq!(u.next_chunk(1000).unwrap(), total);
    assert!(u.next_chunk(1).is_none());
}

// ── Building circuits ─────────────────────────────────────────────────

#[test]
fn circuits_have_at_least_one_hop_and_not_too_many() {
    assert!(check_path_length(0, 8).is_err());
    assert!(check_path_length(8, 8).is_ok());
    assert!(check_path_length(9, 8).is_err());
}

#[test]
fn a_circuit_is_built_hop_by_hop() {
    assert!(matches!(hop_step(3, 0, Some(1), false), BuildStep::Extend(1)));
    assert!(matches!(hop_step(3, 1, Some(2), true), BuildStep::Extend(2)));
    assert!(matches!(hop_step(3, 2, Some(3), false), BuildStep::Finish));
    assert!(matches!(hop_step(3, 1, Some(1), false), BuildStep::Wait(50)));
    match hop_step(3, 0, None, true) {
        BuildStep::Fail(Error::Handshake(t)) => assert_eq!(t, "circuit: CREATE timed out"),
        other => panic!("{:?}", other),
    }
    match hop_step(3, 2, Some(2), true) {
        BuildStep::Fail(Error::Handshake(t)) => {
            assert_eq!(t, "circuit: EXTEND to hop 2 timed out")
        }
        other => panic!("{:?}", other),
    }
    assert_eq!(hop_role(0, 1), "single");
    assert_eq!(hop_role(0, 3), "guard");
    assert_eq!(hop_role(1, 3), "middle");
    assert_eq!(hop_role(2, 3), "exit");
}

#[test]
fn the_guard_is_dialled_unless_linked() {
    let g = spec(0xab, "10.0.0.1");
    assert!(matches!(guard_step(&g, true, None), BuildStep::Start));
    assert!(matches!(guard_step(&g, false, None), BuildStep::Dial));
    match guard_step(&g, false, Some(Err("no route".into()))) {
        BuildStep::Fail(Error::Handshake(t)) => assert_eq!(
            t,
            "build_circuit: dial guard 10.0.0.1:7700 failed: no route"
        ),
        other => panic!("{:?}", other),
    }
    match guard_step(&g, false, Some(Ok(()))) {
        BuildStep::Fail(Error::Handshake(t)) => assert_eq!(
            t,
            "build_circuit: guard abababababab (10.0.0.1:7700) answered with a different identity"
        ),
        other => panic!("{:?}", other),
    }
}

fn node() -> PhiNode {
    let cert = PhiCert { bits: CertBits::B256, j: vec![1; 32], phi: vec![2; 32], mu: 1, dr: 1 };
    PhiNode::new("127.0.0.1", 7000, cert, [0xee; 32]).unwrap()
}

fn link_to(n: &mut PhiNode, id: u8) {
    let info = PeerInfo { node_id: [id; 32], ..Default::default() };
    n.register_peer(info, Session::new(&[id; 64], true), None, 1).unwrap();
}

#[test]
fn a_circuit_is_counted_once_the_guard_took_it() {
    let mut n = node();
    link_to(&mut n, 1);
    let guard = hex::encode([1u8; 32]);
    let c = Construction::along(vec![spec(1, "a"), spec(2, "b")]);
    let (c, step) = n.build_circuit(c, Progress::Begin, 8);
    assert!(matches!(step, BuildStep::Start));
    assert_eq!(n.path_bias.stats(&guard).attempts, 0);
    let (c, step) = n.build_circuit(c, Progress::Requested(Ok(())), 8);
    assert!(matches!(step, BuildStep::Wait(0)));
    assert_eq!(n.path_bias.stats(&guard).attempts, 1);
    let (c, step) = n.build_circuit(c, Progress::Looked { hops: Some(0), late: false }, 8);
    assert!(matches!(step, BuildStep::Wait(_)));
    let (c, step) = n.build_circuit(c, Progress::Looked { hops: Some(1), late: false }, 8);
    assert!(matches!(step, BuildStep::Extend(1)));
    assert_eq!(c.stage, Stage::Extending(1));
    let (c, _) = n.build_circuit(c, Progress::Extended(Ok(())), 8);
    let (c, step) = n.build_circuit(c, Progress::Looked { hops: Some(2), late: true }, 8);
    assert!(matches!(step, BuildStep::Finish));
    assert_eq!(c.stage, Stage::Over);
    assert_eq!(n.path_bias.stats(&guard).attempts, 1);
    assert_eq!(n.path_bias.stats(&guard).successes, 1);
}

#[test]
fn an_unreachable_guard_is_not_blamed() {
    let mut n = node();
    let c = Construction::along(vec![spec(1, "a")]);
    let (c, step) = n.build_circuit(c, Progress::Begin, 8);
    assert!(matches!(step, BuildStep::Dial));
    let (c, step) = n.build_circuit(c, Progress::Dialled(Err("no route".into())), 8);
    assert!(matches!(step, BuildStep::Fail(_)));
    assert_eq!(c.stage, Stage::Over);
    assert!(n.guard_stats().is_empty());
    let (c, step) = n.build_circuit(Construction::along(vec![]), Progress::Begin, 8);
    assert!(matches!(step, BuildStep::Fail(_)));
    let (_, step) = n.build_circuit(c, Progress::Requested(Ok(())), 8);
    assert!(matches!(step, BuildStep::Wait(_)));
    assert!(n.guard_stats().is_empty());
}

fn resolved(id: u8) -> ResolvedIntro {
    ResolvedIntro {
        intro_pub: [9; 32],
        intro_host: Some("svc".into()),
        intro_port: Some(5),
        intro_node_id: [id; 32],
    }
}

#[test]
fn a_visit_goes_from_the_meeting_point_to_the_page() {
    let mut n = node();
    let c = consensus(8);
    let x = resolved(3);
    let mut rng = StdRng::seed_from_u64(3);
    let hops = vec![spec(1, "a"), spec(2, "b"), spec(4, "c")];
    let e = VisitEvent::RpBuilt(Ok((40, hops)));
    let (v, step) = n.hs_fetch(Visit::Opening, e, &x, &c, &mut rng, "/p");
    match step {
        VisitStep::Approach(specs) => {
            assert_eq!(specs.len(), 3);
            assert_eq!(specs[2].node_id, [3; 32]);
            assert!(specs[..2].iter().all(|s| s.node_id != [3; 32]));
            assert!(specs[..2].iter().all(|s| ![[1; 32], [2; 32], [4; 32]].contains(&s.node_id)));
        }
        other => panic!("{:?}", other),
    }
    let e = VisitEvent::IntroBuilt { circuit: Ok(41), rp_hop: Ok(2) };
    let (v, step) = n.hs_fetch(v, e, &x, &c, &mut rng, "/p");
    let cookie = match step {
        VisitStep::Arrange(2, data) => data,
        other => panic!("{:?}", other),
    };
    assert_eq!(n.pending_rendezvous[0].cookie.to_vec(), cookie);
    let (v, step) = n.hs_fetch(v, VisitEvent::Established(Ok(())), &x, &c, &mut rng, "/p");
    match step {
        VisitStep::Introduce(data) => {
            assert_eq!(Introduce::decode(&data).unwrap().auth_key_pub, [9; 32])
        }
        other => panic!("{:?}", other),
    }
    let (v, step) = n.hs_fetch(v, VisitEvent::Introduced(Ok(())), &x, &c, &mut rng, "/p");
    assert!(matches!(step, VisitStep::Await(41)));
    let (v, step) = n.hs_fetch(v, VisitEvent::Met(Meeting::Ready), &x, &c, &mut rng, "/p");
    match step {
        VisitStep::Ask(data) => assert_eq!(data, b"GET /p"),
        other => panic!("{:?}", other),
    }
    let page = HsFetchResponse { status: 200, content_type: "t".into(), body: vec![1] };
    let (_, step) = n.hs_fetch(v, VisitEvent::Answered(Ok(page)), &x, &c, &mut rng, "/p");
    assert!(matches!(step, VisitStep::Done(p) if p.status == 200));
}

#[test]
fn a_failed_visit_takes_its_circuits_down() {
    let mut n = node();
    let c = consensus(8);
    let x = resolved(3);
    let mut rng = StdRng::seed_from_u64(3);
    let fail = |step: VisitStep| match step {
        VisitStep::Fail { error, destroy, forget } => (error, destroy, forget),
        other => panic!("{:?}", other),
    };
    let (_, s) = n.hs_fetch(
        Visit::Opening,
        VisitEvent::RpBuilt(Err("why".into())),
        &x,
        &c,
        &mut rng,
        "/",
    );
    let (error, destroy, _) = fail(s);
    assert_eq!(error, Error::Handshake("hs_fetch: build RP circuit: why".into()));
    assert!(destroy.is_empty());

    let at = || Visit::Approaching { rp: 40, end: spec(1, "a") };
    let e = VisitEvent::IntroBuilt { circuit: Err("e".into()), rp_hop: Ok(2) };
    let (_, s) = n.hs_fetch(at(), e, &x, &c, &mut rng, "/");
    assert_eq!(fail(s).1, vec![40]);
    let e = VisitEvent::IntroBuilt { circuit: Ok(41), rp_hop: Err("e".into()) };
    let (_, s) = n.hs_fetch(at(), e, &x, &c, &mut rng, "/");
    assert_eq!(fail(s).1, vec![41, 40]);

    let v = Visit::Introducing { rp: 40, intro: 41 };
    let (_, s) = n.hs_fetch(v, VisitEvent::Introduced(Err("e".into())), &x, &c, &mut rng, "/");
    let (_, destroy, forget) = fail(s);
    assert_eq!(destroy, vec![41, 40]);
    assert_eq!(forget, Some(40));

    let e = VisitEvent::Met(Meeting::TimedOut);
    let (_, s) = n.hs_fetch(Visit::Awaiting { rp: 40 }, e, &x, &c, &mut rng, "/");
    let (_, destroy, forget) = fail(s);
    assert_eq!((destroy, forget), (vec![40], Some(40)));

    // A cookie that nobody waits with cannot be introduced.
    let v = Visit::Arranging { rp: 40, end: spec(1, "a"), intro: 41, cookie: [7; 20] };
    let (_, s) = n.hs_fetch(v, VisitEvent::Established(Ok(())), &x, &c, &mut rng, "/");
    assert_eq!(fail(s).1, vec![41, 40]);

    // A service without a way in cannot be reached.
    let e = VisitEvent::RpBuilt(Ok((40, vec![spec(1, "a")])));
    let (_, s) = n.hs_fetch(Visit::Opening, e, &resolved(0), &c, &mut rng, "/");
    assert_eq!(fail(s).1, vec![40]);

    // A circuit without hops leads to no meeting point.
    let e = VisitEvent::RpBuilt(Ok((40, Vec::new())));
    let (_, s) = n.hs_fetch(Visit::Opening, e, &x, &c, &mut rng, "/");
    assert!(fail(s).1.is_empty());

    // What is not waited for changes nothing.
    let (v, s) = n.hs_fetch(
        Visit::Opening,
        VisitEvent::Met(Meeting::Canceled),
        &x,
        &c,
        &mut rng,
        "/",
    );
    assert!(matches!(v, Visit::Opening));
    assert!(matches!(s, VisitStep::Wait));
}

#[test]
fn a_relay_without_an_identifier_is_quoted_in_the_error() {
    let mut n = node();
    let mut c = consensus(8);
    for p in c.peers.iter_mut() {
        p.static_pub_hex = "a\"b".into();
    }
    let mut rng = StdRng::seed_from_u64(3);
    let e = VisitEvent::RpBuilt(Ok((40, vec![spec(1, "a")])));
    let (_, s) = n.hs_fetch(Visit::Opening, e, &resolved(3), &c, &mut rng, "/");
    match s {
        VisitStep::Fail { error: Error::Handshake(t), .. } => assert_eq!(
            t,
            "hs_fetch: intro link specs: \
             InsufficientRelays(\"hop has malformed static_pub_hex: a\\\"b\")"
        ),
        other => panic!("{:?}", other),
    }
}

#[test]
fn strangers_have_no_way_in() {
    let d = HsDescriptor {
        hs_id: "aa".into(),
        intro_pub: String::new(),
        intro_host: None,
        intro_port: None,
        intro_node_id: String::new(),
        client_auth: true,
    };
    assert_eq!(
        way_in(&d, Ok(()), vec![Ok(None)]).unwrap_err(),
        Error::Handshake("hs_fetch: not authorized for this client-auth service".into())
    );
    assert_eq!(way_in(&d, Err(Error::AuthFailed), vec![]).unwrap_err(), Error::AuthFailed);
}

#[test]
fn the_pump_sleeps_within_bounds() {
    assert_eq!(pump_step(true, PadDecision::Now), PumpAction::Sleep(PUMP_MAX_NANOS));
    assert_eq!(pump_step(false, PadDecision::Now), PumpAction::Emit);
    assert_eq!(pump_step(false, PadDecision::Never), PumpAction::Stop);
    assert_eq!(pump_step(false, PadDecision::SleepFor(1)), PumpAction::Sleep(PUMP_MIN_NANOS));
    assert_eq!(
        pump_step(false, PadDecision::SleepFor(u64::MAX)),
        PumpAction::Sleep(PUMP_MAX_NANOS)
    );
}

#[test]
fn a_failed_fetch_clears_what_stands() {
    let f = fetch_failure(FetchStage::RpCircuit, "why");
    assert_eq!(f.error, Error::Handshake("hs_fetch: build RP circuit: why".into()));
    assert!(!f.drop_rp && !f.drop_intro && !f.drop_waiter);
    let f = fetch_failure(FetchStage::Introduce, "why");
    assert!(f.drop_rp && f.drop_intro && f.drop_waiter);
    let f = fetch_failure(FetchStage::TimedOut, "");
    assert!(f.drop_rp && !f.drop_intro && f.drop_waiter);
}

#[test]
fn the_introduction_avoids_the_service_and_ends_at_it() {
    let c = consensus(8);
    let mut rng = StdRng::seed_from_u64(11);
    let hs = hex::encode([3u8; 32]);
    for _ in 0..20 {
        let p = intro_path(&mut rng, &c, &[], &[], &hs).unwrap();
        assert_eq!(p.hops.len(), 3);
        assert!(p.hops[..2].iter().all(|h| h.node_id_hex != hs));
    }
    for _ in 0..20 {
        let p = pool_path(&mut rng, &c, &[], Some(&hs)).unwrap();
        assert!(p.hops.last().unwrap().node_id_hex != hs);
    }
    let resolved = ResolvedIntro {
        intro_pub: [9; 32],
        intro_host: Some("svc".into()),
        intro_port: Some(5),
        intro_node_id: [3; 32],
    };
    let path = aim_at_service(vec![spec(1, "a"), spec(2, "b"), spec(4, "c")], &resolved).unwrap();
    assert_eq!(path[2].node_id, [3; 32]);
    assert_eq!(path[2].static_pub, [9; 32]);
    assert_eq!(path[0].node_id, [1; 32]);
    let nowhere = ResolvedIntro { intro_node_id: [0; 32], ..resolved };
    assert!(aim_at_service(vec![spec(1, "a")], &nowhere).is_err());
    let ex = intro_exclusions("me", &[spec(1, "a")]);
    assert_eq!(ex, vec!["me".to_string(), hex::encode([1u8; 32])]);
}

#[test]
fn vanguards_take_the_middle() {
    let mut v = Vanguards::new_test();
    v.add_candidate_at(&hex::encode([7u8; 32]), "10.7.0.1", 1, &hex::encode([8u8; 32]), 100);
    let path = || vec![spec(1, "a"), spec(2, "b"), spec(3, "c")];
    let plan = plan_hs_path(&mut v, path(), &[[7; 32]], 200);
    assert_eq!(plan.path[1].node_id, [7; 32]);
    assert_eq!(plan.path[0].node_id, [1; 32]);
    assert_eq!(plan.path[2].node_id, [3; 32]);
    assert_eq!(plan.vanguard, Some(hex::encode([7u8; 32])));
    vanguard_outcome(&mut v, &hex::encode([7u8; 32]), true, 300);
    assert_eq!(v.list()[0].last_used, 300);
    // One hop has no middle.
    let short = place_vanguard(&mut v, vec![spec(1, "a")], None, &[], 200);
    assert_eq!(short.path.len(), 1);
    assert!(short.vanguard.is_none());
}

#[test]
fn mail_circuits_prefer_different_subnets() {
    let peer = |id: u8, host: &str| PeerInfo {
        node_id: [id; 32],
        host: host.into(),
        port: 1,
        cert: String::new(),
        static_pub: hex::encode([id; 32]),
    };
    let cands = vec![peer(1, "10.1.0.1"), peer(2, "10.1.0.2"), peer(3, "10.2.0.1")];
    let path = com_circuit_path(&cands, &[9; 32], 2);
    assert_eq!(path.len(), 2);
    assert_eq!(path[0].node_id, [1; 32]);
    assert_eq!(path[1].node_id, [3; 32]);
    let all = com_circuit_path(&cands, &[9; 32], 3);
    assert_eq!(all.len(), 3);
    assert!(com_circuit_path(&cands, &[1; 32], 3).iter().all(|s| s.node_id != [1; 32]));
}

// ── Links ─────────────────────────────────────────────────────────────

#[test]
fn whatever_is_served_first_each_circuit_keeps_its_order() {
    let mut q: CellQueues<u32> = CellQueues::new();
    let mut left: Vec<(u32, u32)> = Vec::new();
    for i in 0..30u32 {
        q.push(i % 3, i);
        if i % 2 == 1 {
            left.extend(q.pop_next(Some((i / 2) % 3)));
        }
    }
    while let Some(cid) = q.ready().into_iter().max() {
        left.push(q.pop_next(Some(cid)).unwrap());
    }
    assert!(q.pop_next(None).is_none());
    for cid in 0..3u32 {
        let mine: Vec<u32> = left.iter().filter(|x| x.0 == cid).map(|x| x.1).collect();
        let came: Vec<u32> = (0..30).filter(|i| i % 3 == cid).collect();
        assert_eq!(mine, came);
    }
}

#[test]
fn cells_of_a_circuit_keep_their_order() {
    let mut q: CellQueues<CircuitCellMsg> = CellQueues::default();
    let msg = |s: &str| CircuitCellMsg { data: s.into() };
    q.push(1, msg("a"));
    q.push(2, msg("b"));
    q.push(1, msg("c"));
    let mut ready = q.ready();
    ready.sort();
    assert_eq!(ready, vec![1, 2]);
    assert_eq!(q.pop_next(Some(1)).unwrap().1, msg("a"));
    assert!(matches!(
        writer_step(&mut q, Direct::Empty, Some(1)),
        WriterStep::Seal(m) if m == msg("c")
    ));
    assert!(matches!(writer_step(&mut q, Direct::Empty, Some(1)), WriterStep::Wait));
    assert!(matches!(
        writer_step(&mut q, Direct::Frame(vec![1]), Some(2)),
        WriterStep::Write(f) if f == vec![1]
    ));
    q.forget(2);
    assert!(q.ready().is_empty());
    assert!(matches!(writer_step(&mut q, Direct::Closed, None), WriterStep::Stop));
}

#[test]
fn a_link_knows_how_long_it_was_silent() {
    let info = PeerInfo::default();
    let mut p = PeerConn::new(info, Session::new(&[1; 64], true), None, 100);
    assert_eq!(p.idle_secs(130), 30);
    p.touch(120);
    assert_eq!(p.idle_secs(130), 10);
    assert_eq!(p.idle_secs(50), 0);
    p.send_circuit_msg(4, CircuitCellMsg { data: "x".into() });
    assert_eq!(p.queues.ready(), vec![4]);
}

// ── Requests ──────────────────────────────────────────────────────────

#[test]
fn answers_are_read_back() {
    let framed = frame_response(404, "text/plain", b"\x00body");
    let r = parse_hs_response(&framed).unwrap();
    assert_eq!(r.status, 404);
    assert_eq!(r.content_type, "text/plain");
    assert_eq!(r.body, b"\x00body");
    assert!(parse_hs_response(&framed[..1]).is_none());
    assert_eq!(request_path(b"GET /a HTTP"), request_path(b"GET /a"));
    assert_eq!(request_path(b"GET /a"), "/a");
    assert_eq!(request_path(b"GET"), "/");
    assert_eq!(request_path(b"GET /\xff"), "/\u{fffd}");
    let (status, _, _) = answer_request(false, None);
    assert_eq!(status, 503);
}
