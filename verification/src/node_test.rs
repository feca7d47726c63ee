//! The test sequence of one node: health check of the core, switching the
//! `GLOBAL` selector (retried once), latency, then either the latency-only
//! extras or NAT, TLS and the download, with cooperative stops in between.

use vstd::prelude::*;

use crate::engine::node_online;

verus! {

/// Where a node's test stands.
#[derive(Clone, Copy, PartialEq, Eq, Structural, Debug)]
pub enum TestStage {
    /// Nothing done yet.
    Start,
    /// Waiting for the core's health check.
    AwaitAlive,
    /// Waiting for the switch of the selector; `retried` after the second try.
    Switching { retried: bool },
    /// Waiting for the latency probes.
    Latency,
    /// Latency-only test: waiting for GeoIP, NAT and TLS, run together.
    Extras { latency_ok: bool },
    /// Waiting for the NAT detection.
    Nat { latency_ok: bool },
    /// Waiting for the certificate check.
    Tls { latency_ok: bool },
    /// Waiting for the download window and the GeoIP lookups.
    Download { latency_ok: bool },
    /// The test is over.
    Done,
}

/// What the last action came to.
#[derive(Clone, Copy, PartialEq, Eq, Structural, Debug)]
pub enum TestEvent {
    /// The test begins.
    Began,
    /// The core answered its health check (or could be restarted).
    Alive(bool),
    /// The selector switched to the node.
    Switched(bool),
    /// The latency probes ended; whether any of them answered.
    Latency(bool),
    /// GeoIP, NAT and TLS of a latency-only test are recorded.
    ExtrasDone,
    /// The NAT type is recorded.
    NatDone,
    /// The TLS verdict is recorded.
    TlsDone,
    /// The download window ended with this many bytes received.
    Downloaded(u64),
}

/// What the runner does next.
#[derive(Clone, Copy, PartialEq, Eq, Structural, Debug)]
pub enum TestAction {
    /// Stop without publishing more: the batch was cancelled.
    Stop,
    /// Mark the node failed (no latency, no speed, offline) and publish it.
    FailNode,
    /// Mark the node offline and publish it: it has no proxy name.
    MarkOffline,
    /// Check that the core is alive, restarting it when it is not.
    CheckAlive,
    /// Switch the `GLOBAL` selector to the node.
    SwitchProxy,
    /// Wait 200 ms, then switch again.
    RetrySwitch,
    /// Wait 200 ms for the switch to settle, then probe the latency.
    ProbeLatency,
    /// Look up GeoIP, detect NAT and check TLS together.
    GeoNatTls,
    /// Detect the NAT type.
    DetectNat,
    /// Check the TLS certificate.
    VerifyTls,
    /// Run the download window and the GeoIP lookups together.
    DownloadWithGeo,
    /// Publish the node with this online state; the test is over.
    Publish { online: bool },
}

/// Whether a tested node is online: by its latency alone in a latency-only
/// test, else also when bytes came in.
pub open spec fn online_of(ping_only: bool, latency_ok: bool, received: u64) -> bool {
    if ping_only {
        latency_ok
    } else {
        received > 0 || latency_ok
    }
}

/// The step taken on an event, given the test mode, whether the node has no
/// proxy name, and whether the batch is cancelled now.
pub open spec fn spec_single_test_step(
    stage: TestStage,
    ev: TestEvent,
    ping_only: bool,
    proxy_empty: bool,
    cancelled: bool,
) -> (TestStage, TestAction) {
    match (stage, ev) {
        (TestStage::Start, _) => if cancelled {
            (TestStage::Done, TestAction::Stop)
        } else {
            (TestStage::AwaitAlive, TestAction::CheckAlive)
        },
        (TestStage::AwaitAlive, TestEvent::Alive(alive)) => if !alive {
            (TestStage::Done, TestAction::FailNode)
        } else if proxy_empty {
            (TestStage::Done, TestAction::MarkOffline)
        } else {
            (TestStage::Switching { retried: false }, TestAction::SwitchProxy)
        },
        (TestStage::Switching { retried }, TestEvent::Switched(ok)) => if ok {
            (TestStage::Latency, TestAction::ProbeLatency)
        } else if !retried {
            (TestStage::Switching { retried: true }, TestAction::RetrySwitch)
        } else {
            (TestStage::Done, TestAction::FailNode)
        },
        (TestStage::Latency, TestEvent::Latency(ok)) => if ping_only {
            (TestStage::Extras { latency_ok: ok }, TestAction::GeoNatTls)
        } else if cancelled {
            (TestStage::Done, TestAction::Stop)
        } else {
            (TestStage::Nat { latency_ok: ok }, TestAction::DetectNat)
        },
        (TestStage::Extras { latency_ok }, TestEvent::ExtrasDone) => (
            TestStage::Done,
            TestAction::Publish { online: online_of(true, latency_ok, 0) },
        ),
        (TestStage::Nat { latency_ok }, TestEvent::NatDone) => if cancelled {
            (TestStage::Done, TestAction::Stop)
        } else {
            (TestStage::Tls { latency_ok }, TestAction::VerifyTls)
        },
        (TestStage::Tls { latency_ok }, TestEvent::TlsDone) => if cancelled {
            (TestStage::Done, TestAction::Stop)
        } else {
            (TestStage::Download { latency_ok }, TestAction::DownloadWithGeo)
        },
        (TestStage::Download { latency_ok }, TestEvent::Downloaded(received)) => (
            TestStage::Done,
            TestAction::Publish { online: online_of(false, latency_ok, received) },
        ),
        _ => (TestStage::Done, TestAction::Stop),
    }
}

/// Takes one step of a node's test.
pub fn single_test_step(stage: TestStage, ev: TestEvent, ping_only: bool, proxy_empty: bool, cancelled: bool) -> (r: (
    TestStage,
    TestAction,
))
    ensures
        r == spec_single_test_step(stage, ev, ping_only, proxy_empty, cancelled),
{
    match (stage, ev) {
        (TestStage::Start, _) => if cancelled {
            (TestStage::Done, TestAction::Stop)
        } else {
            (TestStage::AwaitAlive, TestAction::CheckAlive)
        },
        (TestStage::AwaitAlive, TestEvent::Alive(alive)) => if !alive {
            (TestStage::Done, TestAction::FailNode)
        } else if proxy_empty {
            (TestStage::Done, TestAction::MarkOffline)
        } else {
            (TestStage::Switching { retried: false }, TestAction::SwitchProxy)
        },
        (TestStage::Switching { retried }, TestEvent::Switched(ok)) => if ok {
            (TestStage::Latency, TestAction::ProbeLatency)
        } else if !retried {
            (TestStage::Switching { retried: true }, TestAction::RetrySwitch)
        } else {
            (TestStage::Done, TestAction::FailNode)
        },
        (TestStage::Latency, TestEvent::Latency(ok)) => if ping_only {
            (TestStage::Extras { latency_ok: ok }, TestAction::GeoNatTls)
        } else if cancelled {
            (TestStage::Done, TestAction::Stop)
        } else {
            (TestStage::Nat { latency_ok: ok }, TestAction::DetectNat)
        },
        (TestStage::Extras { latency_ok }, TestEvent::ExtrasDone) => (
            TestStage::Done,
            TestAction::Publish { online: node_online(true, latency_ok, 0) },
        ),
        (TestStage::Nat { latency_ok }, TestEvent::NatDone) => if cancelled {
            (TestStage::Done, TestAction::Stop)
        } else {
            (TestStage::Tls { latency_ok }, TestAction::VerifyTls)
        },
        (TestStage::Tls { latency_ok }, TestEvent::TlsDone) => if cancelled {
            (TestStage::Done, TestAction::Stop)
        } else {
            (TestStage::Download { latency_ok }, TestAction::DownloadWithGeo)
        },
        (TestStage::Download { latency_ok }, TestEvent::Downloaded(received)) => (
            TestStage::Done,
            TestAction::Publish { online: node_online(false, latency_ok, received) },
        ),
        _ => (TestStage::Done, TestAction::Stop),
    }
}

/// Steps left before a test must be over.
pub open spec fn test_rank(s: TestStage) -> int {
    match s {
        TestStage::Start => 8,
        TestStage::AwaitAlive => 7,
        TestStage::Switching { retried } => if retried { 5 } else { 6 },
        TestStage::Latency => 4,
        TestStage::Nat { .. } => 3,
        TestStage::Tls { .. } => 2,
        TestStage::Download { .. } | TestStage::Extras { .. } => 1,
        TestStage::Done => 0,
    }
}

/// Whether an action ends the test.
pub open spec fn ends_test(a: TestAction) -> bool {
    a matches TestAction::Stop || a matches TestAction::FailNode || a matches TestAction::MarkOffline
        || a matches TestAction::Publish { .. }
}

/// Every test ends: each step from a running stage lowers the rank, and the
/// stage is over exactly when the action ends the test.
pub proof fn law_single_test_ends(stage: TestStage, ev: TestEvent, ping_only: bool, proxy_empty: bool, cancelled: bool)
    requires
        stage != TestStage::Done,
    ensures
        test_rank(spec_single_test_step(stage, ev, ping_only, proxy_empty, cancelled).0) < test_rank(stage),
        (spec_single_test_step(stage, ev, ping_only, proxy_empty, cancelled).0 == TestStage::Done) == ends_test(
            spec_single_test_step(stage, ev, ping_only, proxy_empty, cancelled).1,
        ),
{
}

/// A step taken while the batch is cancelled never checks the core, detects
/// NAT, checks TLS or starts the download.
pub proof fn law_cancel_starts_no_measurement(stage: TestStage, ev: TestEvent, ping_only: bool, proxy_empty: bool)
    ensures
        ({
            let a = spec_single_test_step(stage, ev, ping_only, proxy_empty, true).1;
            &&& !(a matches TestAction::CheckAlive)
            &&& !(a matches TestAction::DetectNat)
            &&& !(a matches TestAction::VerifyTls)
            &&& !(a matches TestAction::DownloadWithGeo)
        }),
{
}

/// A finished test publishes the node online as its measurements show: in a
/// latency-only test exactly when a latency probe answered; in a full test
/// when a probe answered or any byte of the download arrived.
pub proof fn law_online_from_measurements(latency_ok: bool, received: u64, ping_only: bool, proxy_empty: bool, cancelled: bool)
    ensures
        spec_single_test_step(TestStage::Extras { latency_ok }, TestEvent::ExtrasDone, ping_only, proxy_empty, cancelled).1
            == (TestAction::Publish { online: latency_ok }),
        spec_single_test_step(TestStage::Download { latency_ok }, TestEvent::Downloaded(received), ping_only, proxy_empty, cancelled).1
            == (TestAction::Publish { online: received > 0 || latency_ok }),
{
}

/// A node whose core is down is failed, one without a proxy name is marked
/// offline, and a switch that fails twice fails the node.
pub proof fn law_failures_end_the_test(ping_only: bool, proxy_empty: bool, cancelled: bool)
    ensures
        spec_single_test_step(TestStage::AwaitAlive, TestEvent::Alive(false), ping_only, proxy_empty, cancelled)
            == (TestStage::Done, TestAction::FailNode),
        spec_single_test_step(TestStage::AwaitAlive, TestEvent::Alive(true), ping_only, true, cancelled)
            == (TestStage::Done, TestAction::MarkOffline),
        spec_single_test_step(TestStage::Switching { retried: false }, TestEvent::Switched(false), ping_only, proxy_empty, cancelled).1
            == TestAction::RetrySwitch,
        spec_single_test_step(TestStage::Switching { retried: true }, TestEvent::Switched(false), ping_only, proxy_empty, cancelled)
            == (TestStage::Done, TestAction::FailNode),
{
}

} // verus!
