//! The previewer bridge: lifecycle decisions for the external
//! live-preview process.
//!
//! The bridge keeps at most one subprocess/transport pair.  Starting
//! it proceeds in steps — probe a live session, kill one in an
//! unknown state, spawn a fresh process, read its standard output
//! until a discovery line names the `host:port` address, connect —
//! and every decision between steps is the pure transition function
//! [`step`].  The driver performs the outside work (probing, killing,
//! spawning, reading, connecting) and feeds the outcome back as a
//! [`BridgeEvent`].
//!
//! A discovery line is one that contains either fixed prefix; the
//! address is what follows it, cut at the first terminal escape
//! character.

use vstd::prelude::*;
use crate::text::char_index;

verus! {

/// The first discovery prefix the previewer prints.
pub open spec fn pattern_listening() -> Seq<char> {
    "Initialized IPC, listening on "@
}

/// The second discovery prefix, printed when joining a primary
/// instance.
pub open spec fn pattern_connected() -> Seq<char> {
    "Connected to primary instance at "@
}

/// Index of the first occurrence of `pat` in `s`, or `-1`.
pub open spec fn find_sub(s: Seq<char>, pat: Seq<char>) -> int
    decreases s.len(),
{
    if pat.len() == 0 {
        0
    } else if s.len() < pat.len() {
        -1
    } else if s.subrange(0, pat.len() as int) == pat {
        0
    } else {
        let r = find_sub(s.drop_first(), pat);
        if r == -1 {
            -1
        } else {
            1 + r
        }
    }
}

pub proof fn lemma_find_sub_is(s: Seq<char>, pat: Seq<char>, i: int)
    requires
        0 <= i,
        i + pat.len() <= s.len(),
        forall|k: int| 0 <= k < i ==> #[trigger] s.subrange(k, k + pat.len()) != pat,
        s.subrange(i, i + pat.len()) == pat,
    ensures
        find_sub(s, pat) == i,
    decreases s.len(),
{
    if pat.len() == 0 {
        if i > 0 {
            assert(s.subrange(0, 0 + pat.len() as int) =~= pat);
        }
    } else if i == 0 {
    } else {
        assert(s.subrange(0, 0 + pat.len() as int) != pat);
        assert(s.subrange(0, pat.len() as int) == s.subrange(0, 0 + pat.len() as int));
        let t = s.drop_first();
        assert forall|k: int| 0 <= k < i - 1 implies #[trigger] t.subrange(k, k + pat.len()) != pat by {
            assert(t.subrange(k, k + pat.len()) =~= s.subrange(k + 1, k + 1 + pat.len()));
        }
        assert(t.subrange(i - 1, i - 1 + pat.len()) =~= s.subrange(i, i + pat.len()));
        lemma_find_sub_is(t, pat, i - 1);
    }
}

pub proof fn lemma_find_sub_none(s: Seq<char>, pat: Seq<char>)
    requires
        forall|k: int|
            0 <= k && k + pat.len() <= s.len() ==> #[trigger] s.subrange(k, k + pat.len()) != pat,
    ensures
        find_sub(s, pat) == -1,
    decreases s.len(),
{
    if pat.len() == 0 {
        assert(s.subrange(0, 0 + pat.len() as int) =~= pat);
    } else if s.len() >= pat.len() {
        assert(s.subrange(0, 0 + pat.len() as int) != pat);
        assert(s.subrange(0, pat.len() as int) == s.subrange(0, 0 + pat.len() as int));
        let t = s.drop_first();
        assert forall|k: int| 0 <= k && k + pat.len() <= t.len() implies #[trigger] t.subrange(
            k,
            k + pat.len(),
        ) != pat by {
            assert(t.subrange(k, k + pat.len()) =~= s.subrange(k + 1, k + 1 + pat.len()));
        }
        lemma_find_sub_none(t, pat);
    }
}

/// The address a discovery line carries: what follows the first
/// occurrence of the prefix, up to the first escape character or the
/// end of the line.  The first prefix is tried first, as the
/// previewer prints exactly one of them.
pub open spec fn address_after(s: Seq<char>, pat: Seq<char>) -> Seq<char> {
    let rest = s.skip(find_sub(s, pat) + pat.len());
    rest.take(char_index(rest, '\u{1b}'))
}

/// The discovery reading of one line of previewer output.
pub open spec fn discovery_address(line: Seq<char>) -> Option<Seq<char>> {
    if find_sub(line, pattern_listening()) >= 0 {
        Some(address_after(line, pattern_listening()))
    } else if find_sub(line, pattern_connected()) >= 0 {
        Some(address_after(line, pattern_connected()))
    } else {
        None
    }
}

/// Finds the first occurrence of `pat` in `s`, by character.
fn find_str(s: &str, pat: &str) -> (r: Option<usize>)
    ensures
        match r {
            Some(i) => find_sub(s@, pat@) == i as int && i + pat@.len() <= s@.len(),
            None => find_sub(s@, pat@) == -1,
        },
{
    let n = s.unicode_len();
    let m = pat.unicode_len();
    if m > n {
        proof {
            lemma_find_sub_none(s@, pat@);
        }
        return None;
    }
    let mut i: usize = 0;
    while i <= n - m
        invariant
            0 <= i <= n - m + 1,
            m <= n,
            n == s@.len(),
            m == pat@.len(),
            forall|k: int| 0 <= k < i ==> #[trigger] s@.subrange(k, k + pat@.len()) != pat@,
        decreases n - m + 1 - i,
    {
        let mut j: usize = 0;
        let mut matched: bool = true;
        while j < m
            invariant
                0 <= j <= m,
                i + m <= n,
                n == s@.len(),
                m == pat@.len(),
                matched == (forall|t: int|
                    0 <= t < j ==> s@[i + t] == pat@[t]),
            decreases m - j,
        {
            if s.get_char(i + j) != pat.get_char(j) {
                matched = false;
                proof {
                    assert(!(forall|t: int| 0 <= t < j + 1 ==> s@[i + t] == pat@[t])) by {
                        assert(s@[i + j as int] != pat@[j as int]);
                    }
                }
                j = m;
            } else {
                j = j + 1;
            }
        }
        if matched {
            proof {
                assert(s@.subrange(i as int, i + pat@.len()) =~= pat@);
                lemma_find_sub_is(s@, pat@, i as int);
            }
            return Some(i);
        }
        proof {
            assert(s@.subrange(i as int, i + pat@.len()) != pat@) by {
                let k = choose|t: int| 0 <= t < m && s@[i + t] != pat@[t];
                assert(s@.subrange(i as int, i + pat@.len())[k] != pat@[k]);
            }
        }
        i = i + 1;
    }
    proof {
        assert forall|k: int| 0 <= k && k + pat@.len() <= s@.len() implies #[trigger] s@.subrange(
            k,
            k + pat@.len(),
        ) != pat@ by {}
        lemma_find_sub_none(s@, pat@);
    }
    None
}

/// Reads one line of previewer output as a discovery line, returning
/// the `host:port` text after the prefix, cut before any terminal
/// escape codes.
pub fn match_discovery_line(line: &str) -> (r: Option<String>)
    ensures
        match r {
            Some(a) => discovery_address(line@) == Some(a@),
            None => discovery_address(line@) is None,
        },
{
    let p1 = "Initialized IPC, listening on ";
    let p2 = "Connected to primary instance at ";
    let (start, plen) = match find_str(line, p1) {
        Some(i) => (i, p1.unicode_len()),
        None => {
            match find_str(line, p2) {
                Some(i) => (i, p2.unicode_len()),
                None => {
                    return None;
                },
            }
        },
    };
    let n = line.unicode_len();
    let from = start + plen;
    // cut at the first escape character
    let mut end: usize = from;
    while end < n && line.get_char(end) != '\u{1b}'
        invariant
            from <= end <= n == line@.len(),
            forall|k: int| from <= k < end ==> line@[k] != '\u{1b}',
        decreases n - end,
    {
        end = end + 1;
    }
    proof {
        crate::text::lemma_char_index_is(line@.skip(from as int), '\u{1b}', end - from);
        assert(line@.skip(from as int).take(end - from) =~= line@.subrange(
            from as int,
            end as int,
        ));
    }
    let piece = line.substring_char(from, end);
    Some(piece.to_owned())
}

/// What stopped the bridge from reaching a live session.
#[derive(Clone, Copy, Debug, PartialEq, Eq, Structural)]
pub enum BridgeFault {
    /// A subprocess in an unknown state could not be terminated.
    KillFailed,
    /// The previewer executable could not be spawned.
    SpawnFailed,
    /// Standard output closed before any discovery line appeared.
    Discovery,
    /// The discovered address did not accept a connection.
    Connect,
}

/// Where the bridge stands while establishing a session.  Each phase
/// names the outside action the driver owes next.
#[derive(Debug)]
pub enum BridgePhase {
    /// Probe whether the existing subprocess still runs.
    Checking,
    /// Terminate the existing subprocess.
    Killing,
    /// Spawn a fresh previewer process.
    Spawning,
    /// Read the next line of its standard output.
    Discovering,
    /// Open a TCP connection to the discovered address.
    Connecting(String),
    /// A session is live; nothing to do.
    Ready,
    /// Establishing the session failed; no session is stored.
    Failed(BridgeFault),
}

/// The mathematical image of a phase.
pub ghost enum PhaseModel {
    Checking,
    Killing,
    Spawning,
    Discovering,
    Connecting(Seq<char>),
    Ready,
    Failed(BridgeFault),
}

impl View for BridgePhase {
    type V = PhaseModel;

    open spec fn view(&self) -> PhaseModel {
        match self {
            BridgePhase::Checking => PhaseModel::Checking,
            BridgePhase::Killing => PhaseModel::Killing,
            BridgePhase::Spawning => PhaseModel::Spawning,
            BridgePhase::Discovering => PhaseModel::Discovering,
            BridgePhase::Connecting(a) => PhaseModel::Connecting(a@),
            BridgePhase::Ready => PhaseModel::Ready,
            BridgePhase::Failed(f) => PhaseModel::Failed(*f),
        }
    }
}

/// What the driver observed while performing the owed action.
#[derive(Debug)]
pub enum BridgeEvent {
    /// The probed subprocess had exited cleanly.
    ProbeExited,
    /// The probed subprocess is still running.
    ProbeRunning,
    /// Probing failed: the subprocess state is unknown.
    ProbeUnknown,
    /// The kill succeeded.
    KillOk,
    /// There was no process to kill; treated as success.
    KillNoProcess,
    /// The kill failed for another reason.
    KillError,
    /// The previewer process started.
    SpawnOk,
    /// Spawning failed.
    SpawnError,
    /// One line of the subprocess's standard output.
    Line(String),
    /// Standard output closed.
    Eof,
    /// The TCP connection opened.
    ConnectOk,
    /// The TCP connection failed.
    ConnectError,
}

/// The mathematical image of an event.
pub ghost enum EventModel {
    ProbeExited,
    ProbeRunning,
    ProbeUnknown,
    KillOk,
    KillNoProcess,
    KillError,
    SpawnOk,
    SpawnError,
    Line(Seq<char>),
    Eof,
    ConnectOk,
    ConnectError,
}

impl View for BridgeEvent {
    type V = EventModel;

    open spec fn view(&self) -> EventModel {
        match self {
            BridgeEvent::ProbeExited => EventModel::ProbeExited,
            BridgeEvent::ProbeRunning => EventModel::ProbeRunning,
            BridgeEvent::ProbeUnknown => EventModel::ProbeUnknown,
            BridgeEvent::KillOk => EventModel::KillOk,
            BridgeEvent::KillNoProcess => EventModel::KillNoProcess,
            BridgeEvent::KillError => EventModel::KillError,
            BridgeEvent::SpawnOk => EventModel::SpawnOk,
            BridgeEvent::SpawnError => EventModel::SpawnError,
            BridgeEvent::Line(l) => EventModel::Line(l@),
            BridgeEvent::Eof => EventModel::Eof,
            BridgeEvent::ConnectOk => EventModel::ConnectOk,
            BridgeEvent::ConnectError => EventModel::ConnectError,
        }
    }
}

/// The bridge's transition table.  A running subprocess keeps its
/// session; an exited one is discarded and respawned; one in an
/// unknown state is killed first, where only a "no process" failure
/// is forgiven.  During discovery every non-matching line is read
/// past, and a closed stream is a failure rather than a hang.  An
/// event that its phase does not expect changes nothing.
pub open spec fn spec_step(p: PhaseModel, e: EventModel) -> PhaseModel {
    match (p, e) {
        (PhaseModel::Checking, EventModel::ProbeExited) => PhaseModel::Spawning,
        (PhaseModel::Checking, EventModel::ProbeRunning) => PhaseModel::Ready,
        (PhaseModel::Checking, EventModel::ProbeUnknown) => PhaseModel::Killing,
        (PhaseModel::Killing, EventModel::KillOk) => PhaseModel::Spawning,
        (PhaseModel::Killing, EventModel::KillNoProcess) => PhaseModel::Spawning,
        (PhaseModel::Killing, EventModel::KillError) => PhaseModel::Failed(
            BridgeFault::KillFailed,
        ),
        (PhaseModel::Spawning, EventModel::SpawnOk) => PhaseModel::Discovering,
        (PhaseModel::Spawning, EventModel::SpawnError) => PhaseModel::Failed(
            BridgeFault::SpawnFailed,
        ),
        (PhaseModel::Discovering, EventModel::Line(l)) => {
            match discovery_address(l) {
                Option::Some(a) => PhaseModel::Connecting(a),
                Option::None => PhaseModel::Discovering,
            }
        },
        (PhaseModel::Discovering, EventModel::Eof) => PhaseModel::Failed(BridgeFault::Discovery),
        (PhaseModel::Connecting(_), EventModel::ConnectOk) => PhaseModel::Ready,
        (PhaseModel::Connecting(_), EventModel::ConnectError) => PhaseModel::Failed(
            BridgeFault::Connect,
        ),
        _ => p,
    }
}

/// The phase to start from: probe an existing session, or go straight
/// to spawning when none exists.
pub fn start_phase(has_session: bool) -> (p: BridgePhase)
    ensures
        p@ == if has_session {
            PhaseModel::Checking
        } else {
            PhaseModel::Spawning
        },
{
    if has_session {
        BridgePhase::Checking
    } else {
        BridgePhase::Spawning
    }
}

/// One decision of the bridge: exactly [`spec_step`].
pub fn step(p: BridgePhase, e: BridgeEvent) -> (r: BridgePhase)
    ensures
        r@ == spec_step(p@, e@),
{
    match (p, e) {
        (BridgePhase::Checking, BridgeEvent::ProbeExited) => BridgePhase::Spawning,
        (BridgePhase::Checking, BridgeEvent::ProbeRunning) => BridgePhase::Ready,
        (BridgePhase::Checking, BridgeEvent::ProbeUnknown) => BridgePhase::Killing,
        (BridgePhase::Killing, BridgeEvent::KillOk) => BridgePhase::Spawning,
        (BridgePhase::Killing, BridgeEvent::KillNoProcess) => BridgePhase::Spawning,
        (BridgePhase::Killing, BridgeEvent::KillError) => BridgePhase::Failed(
            BridgeFault::KillFailed,
        ),
        (BridgePhase::Spawning, BridgeEvent::SpawnOk) => BridgePhase::Discovering,
        (BridgePhase::Spawning, BridgeEvent::SpawnError) => BridgePhase::Failed(
            BridgeFault::SpawnFailed,
        ),
        (BridgePhase::Discovering, BridgeEvent::Line(l)) => {
            match match_discovery_line(l.as_str()) {
                Some(a) => BridgePhase::Connecting(a),
                None => BridgePhase::Discovering,
            }
        },
        (BridgePhase::Discovering, BridgeEvent::Eof) => BridgePhase::Failed(
            BridgeFault::Discovery,
        ),
        (BridgePhase::Connecting(_), BridgeEvent::ConnectOk) => BridgePhase::Ready,
        (BridgePhase::Connecting(_), BridgeEvent::ConnectError) => BridgePhase::Failed(
            BridgeFault::Connect,
        ),
        (other, _) => other,
    }
}

/// The phase after reading `ls` lines of output during discovery.
pub open spec fn discovery_after(ls: Seq<Seq<char>>) -> PhaseModel
    decreases ls.len(),
{
    if ls.len() == 0 {
        PhaseModel::Discovering
    } else {
        spec_step(discovery_after(ls.drop_last()), EventModel::Line(ls.last()))
    }
}

/// The no-hang law of discovery: however many lines the subprocess
/// prints, if none carries a discovery prefix the bridge is still
/// reading when the stream ends, and the end itself yields a
/// discovery failure — never a silent wait on a closed stream.
pub proof fn lemma_discovery_fails_on_close(ls: Seq<Seq<char>>)
    requires
        forall|i: int| 0 <= i < ls.len() ==> discovery_address(#[trigger] ls[i]) is None,
    ensures
        discovery_after(ls) == PhaseModel::Discovering,
        spec_step(discovery_after(ls), EventModel::Eof) == PhaseModel::Failed(
            BridgeFault::Discovery,
        ),
    decreases ls.len(),
{
    if ls.len() > 0 {
        lemma_discovery_fails_on_close(ls.drop_last());
    }
}

} // verus!
