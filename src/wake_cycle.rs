//! The decisions of one wake cycle: sample, buffer, and — once enough
//! readings are buffered — connect, synchronise time, upload, and clear.
//! The caller performs each returned action and reports what happened as
//! the next event.

use vstd::prelude::*;
use crate::arr_deque::{ArrDeque, overwrite_push};
use crate::line_protocol::{
    Measurement,
    decimal,
    lines,
    offset_in_range,
    immediate_body,
    records_body,
    time_offset,
};

verus! {

/// Fewest buffered readings worth a network upload.
pub const MIN_RECORDED_MEASUREMENTS: usize = 6;

/// Capacity of the persistent store of readings.
pub const MAX_RECORDED_MEASUREMENTS: usize = 1000;

/// Seconds between two wake cycles.
pub const MEASUREMENT_INTERVAL_SECS: u64 = 3600;

/// Whether readings are collected before upload or sent one at a time.
#[derive(Clone, Copy, Debug, PartialEq, Eq, Structural)]
pub enum Mode {
    Buffered,
    Immediate,
}

/// Where a wake cycle stands.
#[derive(Clone, Copy, Debug, PartialEq, Eq, Structural)]
pub enum Phase {
    Sampling,
    AwaitStart,
    AwaitConnect,
    AwaitIp,
    Syncing,
    Uploading,
    Done,
}

/// What the outside world reports to the cycle.
#[derive(Clone, Copy, Debug, PartialEq, Eq, Structural)]
pub enum Event {
    /// The sensor gave a value at device time `time`.
    Sampled { value: u16, time: u32 },
    /// A collaborator failed: the sensor, the network, or the transport.
    Failed,
    StationStarted,
    StationConnected,
    StationDisconnected,
    IpAssigned,
    SyncPending,
    /// Time synchronisation finished: wall-clock seconds `now` were read at
    /// device time `clock`.
    SyncCompleted { now: i64, clock: u32 },
    /// The upload was answered with an HTTP status.
    Response { status: u16 },
}

/// What the cycle asks the outside world to do next.
#[derive(Clone, Copy, Debug, PartialEq, Eq, Structural)]
pub enum Action {
    /// Configure the network interface and start it.
    StartNetwork,
    /// Associate with the access point.
    Connect,
    /// Keep waiting for the next notification.
    Wait,
    StartTimeSync,
    /// Wait a little and poll the time synchronisation again.
    PollTimeSync,
    /// Post the body given by [`WakeCycle::upload_body`].
    Upload,
    /// Arm the wake timer and enter retention sleep.
    PowerOff,
}

/// The state of one wake cycle.
#[derive(Clone, Copy, Debug, PartialEq, Eq, Structural)]
pub struct WakeCycle {
    pub mode: Mode,
    pub min_records: usize,
    pub phase: Phase,
    /// The value taken this cycle.
    pub sample: u16,
    /// Wall clock minus device clock, once time is synchronised.
    pub offset: i128,
}

/// Whether an HTTP status reports success.
pub open spec fn is_success(status: u16) -> bool {
    200 <= status < 300
}

/// Whether an HTTP status reports success (2xx).
pub fn is_success_status(status: u16) -> (r: bool)
    ensures
        r == is_success(status),
{
    200 <= status && status < 300
}

/// Device clock in whole seconds from a tick count of a clock running at
/// `freq` ticks per second, kept to its low 32 bits.
pub fn slow_clock_seconds(ticks: u64, freq: u64) -> (r: u32)
    requires
        freq > 0,
    ensures
        r == (ticks / freq) % 0x1_0000_0000,
{
    ((ticks / freq) % 0x1_0000_0000) as u32
}

/// `c` moved to `phase`.
pub open spec fn at(c: WakeCycle, phase: Phase) -> WakeCycle {
    WakeCycle { phase, ..c }
}

/// The next cycle state, store contents and action, when `e` arrives at
/// `c` holding `store` in a buffer of capacity `cap`. An event that the
/// phase does not wait for changes nothing and asks to keep waiting.
pub open spec fn next(c: WakeCycle, store: Seq<Measurement>, cap: nat, e: Event) -> (
    WakeCycle,
    Seq<Measurement>,
    Action,
) {
    if c.phase == Phase::Done {
        (c, store, Action::PowerOff)
    } else if e == Event::Failed {
        (at(c, Phase::Done), store, Action::PowerOff)
    } else if e == Event::StationDisconnected && (c.mode == Mode::Immediate || c.phase
        == Phase::AwaitConnect) {
        (at(c, Phase::Done), store, Action::PowerOff)
    } else {
        match c.phase {
            Phase::Sampling => match e {
                Event::Sampled { value, time } => if c.mode == Mode::Buffered {
                    let s = overwrite_push(store, Measurement { value, time }, cap);
                    if s.len() < c.min_records {
                        (at(c, Phase::Done), s, Action::PowerOff)
                    } else {
                        (at(c, Phase::AwaitStart), s, Action::StartNetwork)
                    }
                } else {
                    (
                        WakeCycle { phase: Phase::AwaitStart, sample: value, ..c },
                        store,
                        Action::StartNetwork,
                    )
                },
                _ => (c, store, Action::Wait),
            },
            Phase::AwaitStart => if e == Event::StationStarted {
                (at(c, Phase::AwaitConnect), store, Action::Connect)
            } else {
                (c, store, Action::Wait)
            },
            Phase::AwaitConnect => if e == Event::StationConnected {
                (at(c, Phase::AwaitIp), store, Action::Wait)
            } else {
                (c, store, Action::Wait)
            },
            Phase::AwaitIp => if e == Event::IpAssigned {
                if c.mode == Mode::Buffered {
                    (at(c, Phase::Syncing), store, Action::StartTimeSync)
                } else {
                    (at(c, Phase::Uploading), store, Action::Upload)
                }
            } else {
                (c, store, Action::Wait)
            },
            Phase::Syncing => match e {
                Event::SyncPending => (c, store, Action::PollTimeSync),
                Event::SyncCompleted { now, clock } => (
                    WakeCycle { phase: Phase::Uploading, offset: (now - clock) as i128, ..c },
                    store,
                    Action::Upload,
                ),
                _ => (c, store, Action::Wait),
            },
            Phase::Uploading => match e {
                Event::Response { status } => if c.mode == Mode::Buffered && is_success(status) {
                    (at(c, Phase::Done), Seq::empty(), Action::PowerOff)
                } else {
                    (at(c, Phase::Done), store, Action::PowerOff)
                },
                _ => (c, store, Action::Wait),
            },
            Phase::Done => (c, store, Action::PowerOff),
        }
    }
}

/// The actions asked for while the events `es` arrive in turn.
pub open spec fn actions(c: WakeCycle, store: Seq<Measurement>, cap: nat, es: Seq<Event>) -> Seq<
    Action,
>
    decreases es.len(),
{
    if es.len() == 0 {
        Seq::empty()
    } else {
        let (c1, s1, a) = next(c, store, cap, es[0]);
        seq![a] + actions(c1, s1, cap, es.drop_first())
    }
}

/// The store contents after the events `es` arrive in turn.
pub open spec fn final_store(c: WakeCycle, store: Seq<Measurement>, cap: nat, es: Seq<Event>) -> Seq<
    Measurement,
>
    decreases es.len(),
{
    if es.len() == 0 {
        store
    } else {
        let (c1, s1, a) = next(c, store, cap, es[0]);
        final_store(c1, s1, cap, es.drop_first())
    }
}

/// Whether `e` reports a successful upload.
pub open spec fn is_accepted(e: Event) -> bool {
    match e {
        Event::Response { status } => is_success(status),
        _ => false,
    }
}

/// Once a cycle is done, whatever arrives only asks to power off.
pub proof fn lemma_done_only_powers_off(
    c: WakeCycle,
    store: Seq<Measurement>,
    cap: nat,
    es: Seq<Event>,
)
    requires
        c.phase == Phase::Done,
    ensures
        actions(c, store, cap, es).len() == es.len(),
        forall|i: int|
            0 <= i < es.len() ==> #[trigger] actions(c, store, cap, es)[i] == Action::PowerOff,
        final_store(c, store, cap, es) == store,
    decreases es.len(),
{
    if es.len() > 0 {
        lemma_done_only_powers_off(c, store, cap, es.drop_first());
        let rest = actions(c, store, cap, es.drop_first());
        assert(actions(c, store, cap, es) == seq![Action::PowerOff] + rest);
        assert forall|i: int| 0 <= i < es.len() implies #[trigger] actions(
            c,
            store,
            cap,
            es,
        )[i] == Action::PowerOff by {
            if i > 0 {
                assert(actions(c, store, cap, es)[i] == rest[i - 1]);
            }
        }
    }
}

/// In buffered mode, a reading that leaves fewer than the minimum number
/// of records buffered ends the cycle: every action that follows, whatever
/// arrives, is to power off, so the network and the upload are never used.
pub proof fn lemma_below_threshold_stays_offline(
    c: WakeCycle,
    store: Seq<Measurement>,
    cap: nat,
    value: u16,
    time: u32,
    rest: Seq<Event>,
)
    requires
        c.phase == Phase::Sampling,
        c.mode == Mode::Buffered,
        overwrite_push(store, Measurement { value, time }, cap).len() < c.min_records,
    ensures
        ({
            let es = seq![Event::Sampled { value, time }] + rest;
            forall|i: int|
                0 <= i < es.len() ==> #[trigger] actions(c, store, cap, es)[i] == Action::PowerOff
        }),
{
    let es = seq![Event::Sampled { value, time }] + rest;
    let (c1, s1, a) = next(c, store, cap, es[0]);
    assert(es.drop_first() =~= rest);
    lemma_done_only_powers_off(c1, s1, cap, rest);
    assert forall|i: int| 0 <= i < es.len() implies #[trigger] actions(c, store, cap, es)[i]
        == Action::PowerOff by {
        if i > 0 {
            assert(actions(c, store, cap, es)[i] == actions(c1, s1, cap, rest)[i - 1]);
        }
    }
}

proof fn lemma_store_kept(c: WakeCycle, store: Seq<Measurement>, cap: nat, es: Seq<Event>)
    requires
        c.phase != Phase::Sampling,
        forall|i: int| 0 <= i < es.len() ==> !is_accepted(#[trigger] es[i]),
    ensures
        final_store(c, store, cap, es) == store,
    decreases es.len(),
{
    if es.len() > 0 {
        let (c1, s1, a) = next(c, store, cap, es[0]);
        assert(!is_accepted(es[0]));
        assert forall|i: int| 0 <= i < es.drop_first().len() implies !is_accepted(
            #[trigger] es.drop_first()[i],
        ) by {
            assert(es.drop_first()[i] == es[i + 1]);
        }
        lemma_store_kept(c1, s1, cap, es.drop_first());
    }
}

/// In buffered mode, unless an upload is answered with a success status,
/// the cycle ends with every earlier record intact and the new reading
/// appended (the oldest evicted if the store was full).
pub proof fn lemma_failed_upload_keeps_records(
    c: WakeCycle,
    store: Seq<Measurement>,
    cap: nat,
    value: u16,
    time: u32,
    rest: Seq<Event>,
)
    requires
        c.phase == Phase::Sampling,
        c.mode == Mode::Buffered,
        forall|i: int| 0 <= i < rest.len() ==> !is_accepted(#[trigger] rest[i]),
    ensures
        final_store(c, store, cap, seq![Event::Sampled { value, time }] + rest) == overwrite_push(
            store,
            Measurement { value, time },
            cap,
        ),
{
    let es = seq![Event::Sampled { value, time }] + rest;
    let (c1, s1, a) = next(c, store, cap, es[0]);
    assert(es.drop_first() =~= rest);
    lemma_store_kept(c1, s1, cap, rest);
}

/// In buffered mode, an upload answered with a success status empties the
/// store and ends the cycle, and it stays empty whatever arrives after.
pub proof fn lemma_accepted_upload_clears(
    c: WakeCycle,
    store: Seq<Measurement>,
    cap: nat,
    status: u16,
    rest: Seq<Event>,
)
    requires
        c.phase == Phase::Uploading,
        c.mode == Mode::Buffered,
        is_success(status),
    ensures
        next(c, store, cap, Event::Response { status }).1 == Seq::<Measurement>::empty(),
        next(c, store, cap, Event::Response { status }).2 == Action::PowerOff,
        final_store(c, store, cap, seq![Event::Response { status }] + rest)
            == Seq::<Measurement>::empty(),
{
    let es = seq![Event::Response { status }] + rest;
    let (c1, s1, a) = next(c, store, cap, es[0]);
    assert(es.drop_first() =~= rest);
    lemma_done_only_powers_off(c1, s1, cap, rest);
}

/// In immediate mode, a disconnection before the cycle is done ends it:
/// every action that follows is to power off, so nothing is uploaded.
pub proof fn lemma_disconnect_powers_off(
    c: WakeCycle,
    store: Seq<Measurement>,
    cap: nat,
    rest: Seq<Event>,
)
    requires
        c.mode == Mode::Immediate,
        c.phase != Phase::Done,
    ensures
        ({
            let es = seq![Event::StationDisconnected] + rest;
            forall|i: int|
                0 <= i < es.len() ==> #[trigger] actions(c, store, cap, es)[i] == Action::PowerOff
        }),
{
    let es = seq![Event::StationDisconnected] + rest;
    let (c1, s1, a) = next(c, store, cap, es[0]);
    assert(es.drop_first() =~= rest);
    lemma_done_only_powers_off(c1, s1, cap, rest);
    assert forall|i: int| 0 <= i < es.len() implies #[trigger] actions(c, store, cap, es)[i]
        == Action::PowerOff by {
        if i > 0 {
            assert(actions(c, store, cap, es)[i] == actions(c1, s1, cap, rest)[i - 1]);
        }
    }
}

impl WakeCycle {
    /// The offset is one that [`time_offset`] can give.
    pub open spec fn wf(self) -> bool {
        offset_in_range(self.offset as int)
    }

    /// A cycle that has not sampled yet.
    pub fn new(mode: Mode, min_records: usize) -> (r: WakeCycle)
        ensures
            r.wf(),
            r == (WakeCycle { mode, min_records, phase: Phase::Sampling, sample: 0, offset: 0 }),
    {
        WakeCycle { mode, min_records, phase: Phase::Sampling, sample: 0, offset: 0 }
    }

    fn finish(&mut self) -> (r: Action)
        ensures
            *final(self) == at(*old(self), Phase::Done),
            r == Action::PowerOff,
    {
        self.phase = Phase::Done;
        Action::PowerOff
    }

    /// Takes in one event: updates the cycle and the persistent store, and
    /// says what to do next.
    pub fn step<const N: usize>(&mut self, store: &mut ArrDeque<Measurement, N>, event: Event) -> (r:
        Action)
        requires
            old(self).wf(),
            old(store).wf(),
        ensures
            final(self).wf(),
            final(store).wf(),
            (*final(self), final(store)@, r) == next(*old(self), old(store)@, N as nat, event),
    {
        proof {
            store.lemma_wf_bounds();
        }
        if self.phase == Phase::Done {
            return Action::PowerOff;
        }
        match event {
            Event::Failed => {
                return self.finish();
            },
            Event::StationDisconnected => {
                if self.mode == Mode::Immediate || self.phase == Phase::AwaitConnect {
                    return self.finish();
                }
            },
            _ => {},
        }
        match self.phase {
            Phase::Sampling => match event {
                Event::Sampled { value, time } => {
                    if self.mode == Mode::Buffered {
                        store.overwriting_push_back(Measurement { value, time });
                        if store.len() < self.min_records {
                            self.finish()
                        } else {
                            self.phase = Phase::AwaitStart;
                            Action::StartNetwork
                        }
                    } else {
                        self.sample = value;
                        self.phase = Phase::AwaitStart;
                        Action::StartNetwork
                    }
                },
                _ => Action::Wait,
            },
            Phase::AwaitStart => {
                if event == Event::StationStarted {
                    self.phase = Phase::AwaitConnect;
                    Action::Connect
                } else {
                    Action::Wait
                }
            },
            Phase::AwaitConnect => {
                if event == Event::StationConnected {
                    self.phase = Phase::AwaitIp;
                }
                Action::Wait
            },
            Phase::AwaitIp => {
                if event == Event::IpAssigned {
                    if self.mode == Mode::Buffered {
                        self.phase = Phase::Syncing;
                        Action::StartTimeSync
                    } else {
                        self.phase = Phase::Uploading;
                        Action::Upload
                    }
                } else {
                    Action::Wait
                }
            },
            Phase::Syncing => match event {
                Event::SyncPending => Action::PollTimeSync,
                Event::SyncCompleted { now, clock } => {
                    self.offset = time_offset(now, clock);
                    self.phase = Phase::Uploading;
                    Action::Upload
                },
                _ => Action::Wait,
            },
            Phase::Uploading => match event {
                Event::Response { status } => {
                    if self.mode == Mode::Buffered && is_success_status(status) {
                        *store = ArrDeque::new();
                    }
                    self.finish()
                },
                _ => Action::Wait,
            },
            Phase::Done => Action::PowerOff,
        }
    }

    /// The body to post: in buffered mode one line per buffered reading,
    /// oldest first; in immediate mode the value taken this cycle.
    pub fn upload_body<const N: usize>(&self, store: &ArrDeque<Measurement, N>, prefix: &[u8]) -> (r:
        Vec<u8>)
        requires
            self.wf(),
            store.wf(),
        ensures
            self.mode == Mode::Buffered ==> r@ == lines(prefix@, store@, self.offset as int),
            self.mode == Mode::Immediate ==> r@ == prefix@ + decimal(self.sample as nat),
    {
        match self.mode {
            Mode::Buffered => records_body(store, prefix, self.offset),
            Mode::Immediate => immediate_body(prefix, self.sample),
        }
    }
}

} // verus!
