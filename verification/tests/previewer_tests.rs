use ptfl_reader::previewer::{
    match_discovery_line, start_phase, step, BridgeEvent, BridgeFault, BridgePhase,
};
use ptfl_reader::text::{split, split_lines, str_eq, trim};

#[test]
fn discovery_lines_yield_addresses() {
    assert_eq!(
        match_discovery_line("Initialized IPC, listening on 127.0.0.1:14158"),
        Some(String::from("127.0.0.1:14158"))
    );
    assert_eq!(
        match_discovery_line("Connected to primary instance at localhost:14158"),
        Some(String::from("localhost:14158"))
    );
    // trailing terminal escape codes are cut off
    assert_eq!(
        match_discovery_line("Initialized IPC, listening on 127.0.0.1:1\u{1b}[0m tail"),
        Some(String::from("127.0.0.1:1"))
    );
    // the prefix may sit after other output on the line
    assert_eq!(
        match_discovery_line("[info] Initialized IPC, listening on h:1"),
        Some(String::from("h:1"))
    );
    assert_eq!(match_discovery_line("loading scene..."), None);
    assert_eq!(match_discovery_line(""), None);
}

#[test]
fn bridge_restarts_dead_sessions() {
    // no session yet: spawn at once
    assert!(matches!(start_phase(false), BridgePhase::Spawning));
    // a live session is kept
    let p = start_phase(true);
    assert!(matches!(p, BridgePhase::Checking));
    assert!(matches!(step(p, BridgeEvent::ProbeRunning), BridgePhase::Ready));
    // an exited one is replaced
    let p = step(start_phase(true), BridgeEvent::ProbeExited);
    assert!(matches!(p, BridgePhase::Spawning));
    // an unknown one is killed first; "no process" is forgiven
    let p = step(start_phase(true), BridgeEvent::ProbeUnknown);
    assert!(matches!(p, BridgePhase::Killing));
    let p2 = step(p, BridgeEvent::KillNoProcess);
    assert!(matches!(p2, BridgePhase::Spawning));
    let p = step(start_phase(true), BridgeEvent::ProbeUnknown);
    assert!(matches!(
        step(p, BridgeEvent::KillError),
        BridgePhase::Failed(BridgeFault::KillFailed)
    ));
}

#[test]
fn discovery_connects_on_a_matching_line() {
    let p = step(BridgePhase::Spawning, BridgeEvent::SpawnOk);
    assert!(matches!(p, BridgePhase::Discovering));
    let p = step(p, BridgeEvent::Line(String::from("starting up...")));
    assert!(matches!(p, BridgePhase::Discovering));
    let p = step(
        p,
        BridgeEvent::Line(String::from("Initialized IPC, listening on 127.0.0.1:9")),
    );
    match &p {
        BridgePhase::Connecting(a) => assert_eq!(a, "127.0.0.1:9"),
        other => panic!("unexpected phase: {:?}", other),
    }
    assert!(matches!(step(p, BridgeEvent::ConnectOk), BridgePhase::Ready));
}

#[test]
fn silent_stream_ends_in_discovery_failure() {
    // a subprocess that never prints a discovery line leaves the
    // bridge reading; the closed stream then fails the start instead
    // of hanging
    let mut p = step(BridgePhase::Spawning, BridgeEvent::SpawnOk);
    for noise in ["one", "two", "three", ""] {
        p = step(p, BridgeEvent::Line(String::from(noise)));
        assert!(matches!(p, BridgePhase::Discovering));
    }
    assert!(matches!(
        step(p, BridgeEvent::Eof),
        BridgePhase::Failed(BridgeFault::Discovery)
    ));
}

#[test]
fn connect_failure_is_reported() {
    let p = BridgePhase::Connecting(String::from("h:1"));
    assert!(matches!(
        step(p, BridgeEvent::ConnectError),
        BridgePhase::Failed(BridgeFault::Connect)
    ));
    assert!(matches!(
        step(BridgePhase::Spawning, BridgeEvent::SpawnError),
        BridgePhase::Failed(BridgeFault::SpawnFailed)
    ));
}

#[test]
fn text_utilities() {
    assert_eq!(trim("  a b  "), "a b");
    assert_eq!(trim("\t\r\n"), "");
    assert_eq!(trim("x"), "x");

    let parts = split("a,b,,c", ',');
    assert_eq!(parts, vec!["a", "b", "", "c"]);
    assert_eq!(split("", ','), vec![""]);

    assert_eq!(split_lines("a\nb"), vec!["a", "b"]);
    assert_eq!(split_lines("a\r\nb\n"), vec!["a", "b"]);
    assert_eq!(split_lines(""), Vec::<String>::new());
    assert_eq!(split_lines("\n\n"), vec!["", ""]);

    assert!(str_eq("abc", "abc"));
    assert!(!str_eq("abc", "abd"));
    assert!(!str_eq("abc", "ab"));
}
