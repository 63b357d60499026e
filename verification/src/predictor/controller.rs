//! The per-output predictor/controller.
//!
//! Each tick reads one ambient sample, smooths it through the Kalman filter,
//! then either records a user brightness change into the pending slot,
//! counts a cooldown tick, commits the pending entry into the learned data,
//! or emits a brightness prediction.

use super::data::{keeps, spec_keeps, Data, Entry, MAX_ENTRIES};
use super::interpolate::{predict_brightness, spec_predict};
use super::kalman::{spec_next_p, spec_next_x, Kalman, FP_ONE};
use crate::channels::{drain_last_u64, recv_u64, recv_u64_timeout, send_u64};
use std::sync::mpsc::{Receiver, Sender};
use vstd::prelude::*;

verus! {

/// Seconds the constructor waits for the initial brightness handshake.
pub const INITIAL_BRIGHTNESS_TIMEOUT_SECS: u64 = 2;

/// Ticks without a user change that must pass before a pending entry is
/// committed.
pub const PENDING_COOLDOWN_RESET: u8 = 15;

#[derive(Clone, Copy, Debug, PartialEq, Eq)]
pub enum Error {
    /// The initial brightness value did not arrive in time.
    HandshakeTimeout,
    /// A peer thread dropped its end of a channel.
    ChannelClosed,
}

/// The part of a controller that the learning state machine acts on.
pub ghost struct PredictorState {
    pub pending: Option<Entry>,
    pub cooldown: int,
    pub entries: Seq<Entry>,
}

/// The entries that survive committing `p`, with `p` appended (unless the
/// set has reached its size bound).
pub open spec fn spec_kept(entries: Seq<Entry>, p: Entry) -> Seq<Entry> {
    entries.filter(|e: Entry| spec_keeps(e, p))
}

/// Committing the pending entry: inconsistent entries are dropped and the
/// pending entry joins the data set.
pub open spec fn spec_learn(s: PredictorState) -> PredictorState {
    match s.pending {
        Option::Some(p) => {
            let kept = spec_kept(s.entries, p);
            let entries = if kept.len() < MAX_ENTRIES {
                kept.push(p)
            } else {
                kept
            };
            PredictorState { pending: Option::None, cooldown: 0, entries }
        },
        Option::None => s,
    }
}

/// One tick of the learning state machine.  A user change freezes the
/// current conditions into the pending slot (or refreshes only the pending
/// brightness) and resets the cooldown; a quiet tick counts the cooldown
/// down, commits an expired pending entry, or leaves the state alone while a
/// prediction is emitted.
pub open spec fn spec_step(
    s: PredictorState,
    lux: u64,
    luma: Option<u8>,
    user: Option<u64>,
) -> PredictorState {
    match user {
        Option::Some(b) => PredictorState {
            pending: Option::Some(
                match s.pending {
                    Option::None => Entry { lux, luma, brightness: b },
                    Option::Some(e) => Entry { lux: e.lux, luma: e.luma, brightness: b },
                },
            ),
            cooldown: PENDING_COOLDOWN_RESET as int,
            entries: s.entries,
        },
        Option::None => {
            if s.cooldown > 0 {
                PredictorState { pending: s.pending, cooldown: s.cooldown - 1, entries: s.entries }
            } else if s.pending is Some {
                spec_learn(s)
            } else {
                s
            }
        },
    }
}

/// The prediction a tick emits: one is owed exactly on a quiet tick with no
/// cooldown running, nothing pending and at least one learned entry.
pub open spec fn spec_emits(
    s: PredictorState,
    lux: u64,
    luma: Option<u8>,
    user: Option<u64>,
) -> Option<u64> {
    if user is None && s.cooldown == 0 && s.pending is None && s.entries.len() >= 1 {
        Option::Some(spec_predict(s.entries, lux, luma) as u64)
    } else {
        Option::None
    }
}

/// Law: the conditions of a pending entry are frozen when the user first
/// touches brightness.  From a state with nothing pending, a tick observing
/// a user change at `(lux1, luma1)` freezes those conditions, and a later
/// user change under any other conditions updates only the pending
/// brightness — and starts the cooldown afresh.
pub proof fn lemma_pending_freeze(
    s: PredictorState,
    lux1: u64,
    luma1: Option<u8>,
    b1: u64,
    lux2: u64,
    luma2: Option<u8>,
    b2: u64,
)
    requires
        s.pending is None,
    ensures
        ({
            let t = spec_step(
                spec_step(s, lux1, luma1, Option::Some(b1)),
                lux2,
                luma2,
                Option::Some(b2),
            );
            &&& t.pending == Option::Some(Entry { lux: lux1, luma: luma1, brightness: b2 })
            &&& t.cooldown == PENDING_COOLDOWN_RESET as int
            &&& t.entries == s.entries
        }),
{
}

/// The state after `n` ticks in which the user does not touch brightness.
pub open spec fn spec_quiet_steps(
    s: PredictorState,
    lux: u64,
    luma: Option<u8>,
    n: nat,
) -> PredictorState
    decreases n,
{
    if n == 0 {
        s
    } else {
        spec_quiet_steps(spec_step(s, lux, luma, Option::None), lux, luma, (n - 1) as nat)
    }
}

/// While the cooldown runs, quiet ticks only count it down: the pending
/// entry and the learned data stay untouched.
pub proof fn lemma_cooldown_counts_down(s: PredictorState, lux: u64, luma: Option<u8>, n: nat)
    requires
        s.pending is Some,
        n <= s.cooldown,
    ensures
        ({
            let t = spec_quiet_steps(s, lux, luma, n);
            &&& t.pending == s.pending
            &&& t.entries == s.entries
            &&& t.cooldown == s.cooldown - n
        }),
    decreases n,
{
    if n > 0 {
        lemma_cooldown_counts_down(
            spec_step(s, lux, luma, Option::None),
            lux,
            luma,
            (n - 1) as nat,
        );
    }
}

/// Law: exactly `PENDING_COOLDOWN_RESET` quiet ticks must pass after the
/// last observed user change before anything is learned; the very next quiet
/// tick then commits the pending entry.  (Any intervening user change puts
/// the cooldown back to `PENDING_COOLDOWN_RESET`: see `spec_step` and
/// `lemma_pending_freeze`.)
pub proof fn lemma_cooldown_learns(s: PredictorState, lux: u64, luma: Option<u8>)
    requires
        s.pending is Some,
        s.cooldown == PENDING_COOLDOWN_RESET as int,
    ensures
        ({
            let rest = spec_quiet_steps(s, lux, luma, PENDING_COOLDOWN_RESET as nat);
            &&& rest.pending == s.pending
            &&& rest.entries == s.entries
            &&& rest.cooldown == 0
        }),
        spec_quiet_steps(s, lux, luma, (PENDING_COOLDOWN_RESET + 1) as nat) == spec_learn(
            spec_quiet_steps(s, lux, luma, PENDING_COOLDOWN_RESET as nat),
        ),
{
    lemma_cooldown_counts_down(s, lux, luma, PENDING_COOLDOWN_RESET as nat);
    let rest = spec_quiet_steps(s, lux, luma, PENDING_COOLDOWN_RESET as nat);
    lemma_quiet_steps_add_one(s, lux, luma, PENDING_COOLDOWN_RESET as nat);
    assert(spec_step(rest, lux, luma, Option::None) == spec_learn(rest));
}

/// Unrolling one more quiet tick from the end of a run.
proof fn lemma_quiet_steps_add_one(s: PredictorState, lux: u64, luma: Option<u8>, n: nat)
    ensures
        spec_quiet_steps(s, lux, luma, n + 1) == spec_step(
            spec_quiet_steps(s, lux, luma, n),
            lux,
            luma,
            Option::None,
        ),
    decreases n,
{
    let s1 = spec_step(s, lux, luma, Option::None);
    assert(spec_quiet_steps(s, lux, luma, n + 1) == spec_quiet_steps(s1, lux, luma, n));
    if n > 0 {
        assert(spec_quiet_steps(s, lux, luma, n) == spec_quiet_steps(s1, lux, luma, (n
            - 1) as nat));
        lemma_quiet_steps_add_one(s1, lux, luma, (n - 1) as nat);
    }
}

pub struct Controller {
    pub prediction_tx: Sender<u64>,
    pub user_rx: Receiver<u64>,
    pub als_rx: Receiver<u64>,
    pub kalman: Kalman,
    pub pending_cooldown: u8,
    pub pending: Option<Entry>,
    pub data: Data,
    pub stateful: bool,
    pub needs_save: bool,
    pub initial_brightness: Option<u64>,
}

impl Controller {
    pub open spec fn wf(self) -> bool {
        &&& self.data.wf()
        &&& self.kalman.wf()
    }

    pub open spec fn model(self) -> PredictorState {
        PredictorState {
            pending: self.pending,
            cooldown: self.pending_cooldown as int,
            entries: self.data.entries@,
        }
    }

    /// Build a controller around an already-received initial brightness
    /// value.  When no learned entries exist yet, that value is kept aside
    /// to seed the first pending entry on the next tick (the user is
    /// assumed happy with the current brightness); otherwise it is
    /// discarded.
    pub fn assemble(
        prediction_tx: Sender<u64>,
        user_rx: Receiver<u64>,
        als_rx: Receiver<u64>,
        stateful: bool,
        data: Data,
        initial: u64,
    ) -> (c: Controller)
        requires
            data.wf(),
        ensures
            c.wf(),
            c.pending is None,
            c.pending_cooldown == 0,
            c.data.entries@ == data.entries@,
            !c.kalman.initialized,
            c.kalman.q == 1 * FP_ONE,
            c.kalman.r == 20 * FP_ONE,
            c.kalman.p == 10 * FP_ONE,
            c.stateful == stateful,
            !c.needs_save,
            c.initial_brightness == (if data.entries@.len() == 0 {
                Option::Some(initial)
            } else {
                Option::<u64>::None
            }),
    {
        let initial_brightness = if data.entries.len() == 0 {
            Option::Some(initial)
        } else {
            Option::None
        };
        Controller {
            prediction_tx,
            user_rx,
            als_rx,
            kalman: Kalman::new(1, 20, 10),
            pending_cooldown: 0,
            pending: Option::None,
            data,
            stateful,
            needs_save: false,
            initial_brightness,
        }
    }

    /// Build a controller around its channels.  The brightness controller is
    /// expected to send the device's current brightness promptly; when no
    /// learned entries exist yet, that value seeds the first pending entry
    /// on the next tick.
    pub fn new(
        prediction_tx: Sender<u64>,
        user_rx: Receiver<u64>,
        als_rx: Receiver<u64>,
        stateful: bool,
        data: Data,
    ) -> (r: Result<Controller, Error>)
        requires
            data.wf(),
        ensures
            match r {
                Ok(c) => {
                    &&& c.wf()
                    &&& c.pending is None
                    &&& c.pending_cooldown == 0
                    &&& c.data.entries@ == data.entries@
                    &&& !c.kalman.initialized
                    &&& c.kalman.q == 1 * FP_ONE
                    &&& c.kalman.r == 20 * FP_ONE
                    &&& c.kalman.p == 10 * FP_ONE
                    &&& c.stateful == stateful
                    &&& !c.needs_save
                    &&& (c.initial_brightness is Some <==> data.entries@.len() == 0)
                },
                Err(e) => e == Error::HandshakeTimeout,
            },
    {
        let initial = recv_u64_timeout(&user_rx, INITIAL_BRIGHTNESS_TIMEOUT_SECS);
        match initial {
            Option::None => Err(Error::HandshakeTimeout),
            Option::Some(v) => Ok(
                Controller::assemble(prediction_tx, user_rx, als_rx, stateful, data, v),
            ),
        }
    }

    /// One tick, driven by the frame capturer: read and smooth an ambient
    /// sample, then run the state machine.  The tick on which the Kalman
    /// filter first initializes changes no learning state and emits nothing.
    pub fn adjust(&mut self, luma: Option<u8>) -> (r: Result<Option<u64>, Error>)
        requires
            old(self).wf(),
        ensures
            final(self).wf(),
            !old(self).kalman.initialized ==> {
                &&& final(self).model() == old(self).model()
                &&& !(r matches Ok(p) && p is Some)
            },
            r matches Ok(p) ==> final(self).kalman.initialized,
            old(self).kalman.initialized ==> ((*final(self) == *old(self) && r == Err::<
                Option<u64>,
                Error,
            >(Error::ChannelClosed)) || exists|raw: u64, lux: u64, user: Option<u64>|
                {
                    &&& final(self).kalman.x == spec_next_x(old(self).kalman, raw)
                    &&& final(self).kalman.p == spec_next_p(old(self).kalman)
                    &&& lux as int == spec_next_x(old(self).kalman, raw) / (FP_ONE as int)
                    &&& (user is None ==> old(self).initial_brightness is None)
                    &&& final(self).model() == spec_step(old(self).model(), lux, luma, user)
                    &&& (r matches Ok(p) ==> p == spec_emits(old(self).model(), lux, luma, user))
                }),
    {
        let raw = match recv_u64(&self.als_rx) {
            Option::Some(v) => v,
            Option::None => {
                return Err(Error::ChannelClosed);
            },
        };
        let was_initialized = self.kalman.initialized();
        let lux = self.kalman.process(raw);
        if !was_initialized {
            return Ok(Option::None);
        }
        let r = self.process(lux, luma);
        proof {
            let user = choose|user: Option<u64>|
                {
                    &&& (user is None ==> old(self).initial_brightness is None)
                    &&& self.model() == spec_step(old(self).model(), lux, luma, user)
                    &&& (r matches Ok(p) ==> p == spec_emits(old(self).model(), lux, luma, user))
                };
            assert(self.kalman.x == spec_next_x(old(self).kalman, raw));
            assert(self.kalman.p == spec_next_p(old(self).kalman));
            assert(lux as int == spec_next_x(old(self).kalman, raw) / (FP_ONE as int));
            assert(user is None ==> old(self).initial_brightness is None);
            assert(self.model() == spec_step(old(self).model(), lux, luma, user));
            assert(r matches Ok(p) ==> p == spec_emits(old(self).model(), lux, luma, user));
        }
        r
    }

    /// Drain the user-brightness channel (falling back to the initial
    /// handshake value on the very first tick) and run the state machine on
    /// the last value found, if any.
    pub fn process(&mut self, lux: u64, luma: Option<u8>) -> (r: Result<Option<u64>, Error>)
        requires
            old(self).wf(),
        ensures
            final(self).wf(),
            final(self).initial_brightness is None,
            final(self).kalman == old(self).kalman,
            final(self).stateful == old(self).stateful,
            exists|user: Option<u64>|
                {
                    &&& (user is None ==> old(self).initial_brightness is None)
                    &&& final(self).model() == spec_step(old(self).model(), lux, luma, user)
                    &&& (r matches Ok(p) ==> p == spec_emits(old(self).model(), lux, luma, user))
                    &&& (r matches Err(e) ==> e == Error::ChannelClosed)
                },
    {
        let initial = self.initial_brightness;
        self.initial_brightness = Option::None;
        let drained = drain_last_u64(&self.user_rx);
        let user = match drained {
            Option::Some(b) => Option::Some(b),
            Option::None => initial,
        };
        let r = self.step(lux, luma, user);
        proof {
            assert(final(self).model() == spec_step(old(self).model(), lux, luma, user));
        }
        r
    }

    /// Run one tick of the state machine on an already-smoothed sample and
    /// an explicit user change.
    pub fn step(&mut self, lux: u64, luma: Option<u8>, user: Option<u64>) -> (r: Result<
        Option<u64>,
        Error,
    >)
        requires
            old(self).wf(),
        ensures
            final(self).wf(),
            final(self).model() == spec_step(old(self).model(), lux, luma, user),
            r matches Ok(p) ==> p == spec_emits(old(self).model(), lux, luma, user),
            r matches Err(e) ==> e == Error::ChannelClosed && spec_emits(
                old(self).model(),
                lux,
                luma,
                user,
            ) is Some,
            final(self).kalman == old(self).kalman,
            final(self).initial_brightness == old(self).initial_brightness,
            final(self).stateful == old(self).stateful,
            final(self).needs_save == (old(self).needs_save || (old(self).stateful && user
                is None && old(self).pending_cooldown == 0 && old(self).pending is Some)),
    {
        match user {
            Option::Some(brightness) => {
                self.pending = match self.pending {
                    // The first time the user touches brightness, freeze the
                    // current conditions...
                    Option::None => Option::Some(Entry::new(lux, luma, brightness)),
                    // ...and while they keep adjusting, only follow the
                    // brightness they are heading for.
                    Option::Some(e) => Option::Some(Entry::new(e.lux, e.luma, brightness)),
                };
                self.pending_cooldown = PENDING_COOLDOWN_RESET;
                Ok(Option::None)
            },
            Option::None => {
                if self.pending_cooldown > 0 {
                    self.pending_cooldown = self.pending_cooldown - 1;
                    Ok(Option::None)
                } else if self.pending.is_some() {
                    self.learn();
                    Ok(Option::None)
                } else {
                    self.predict(lux, luma)
                }
            },
        }
    }

    /// Commit the pending entry: drop every learned entry no longer
    /// consistent with it, append it, and mark the data set for saving when
    /// the controller is stateful.  In the one unreachable-in-practice case
    /// that the pruned set still holds `MAX_ENTRIES` entries, the pending
    /// entry is dropped instead of appended, so the size bound holds.
    #[verifier::loop_isolation(false)]
    pub fn learn(&mut self)
        requires
            old(self).wf(),
            old(self).pending is Some,
        ensures
            final(self).wf(),
            final(self).model() == spec_learn(old(self).model()),
            final(self).pending is None,
            final(self).pending_cooldown == 0,
            final(self).kalman == old(self).kalman,
            final(self).initial_brightness == old(self).initial_brightness,
            final(self).stateful == old(self).stateful,
            final(self).needs_save == (old(self).needs_save || old(self).stateful),
    {
        let p = self.pending.unwrap();
        self.pending = Option::None;
        self.pending_cooldown = 0;

        let n: usize = self.data.entries.len();
        let mut kept: Vec<Entry> = Vec::new();
        proof {
            reveal(Seq::filter);
            assert(self.data.entries@.take(0) =~= Seq::<Entry>::empty());
        }
        let mut i: usize = 0;
        while i < n
            invariant
                0 <= i <= n,
                kept@ == spec_kept(self.data.entries@.take(i as int), p),
                kept@.len() <= i,
            decreases n - i,
        {
            proof {
                reveal(Seq::filter);
                assert(self.data.entries@.take(i + 1).drop_last() =~= self.data.entries@.take(
                    i as int));
                assert(self.data.entries@.take(i + 1).last() == self.data.entries@[i as int]);
            }
            let e = self.data.entries[i];
            if keeps(&e, &p) {
                kept.push(e);
            }
            i = i + 1;
        }
        proof {
            assert(self.data.entries@.take(n as int) =~= self.data.entries@);
        }
        if (kept.len() as u64) < MAX_ENTRIES {
            kept.push(p);
        }
        self.data.entries = kept;

        if self.stateful {
            self.needs_save = true;
        }
    }

    /// Emit a prediction for the current conditions; with no learned entries
    /// there is nothing to go by and nothing is emitted.
    pub fn predict(&self, lux: u64, luma: Option<u8>) -> (r: Result<Option<u64>, Error>)
        requires
            self.wf(),
        ensures
            self.data.entries@.len() == 0 ==> r == Ok::<Option<u64>, Error>(Option::None),
            self.data.entries@.len() >= 1 ==> match r {
                Ok(p) => p == Option::Some(spec_predict(self.data.entries@, lux, luma) as u64),
                Err(e) => e == Error::ChannelClosed,
            },
    {
        if self.data.entries.len() == 0 {
            return Ok(Option::None);
        }
        let v = predict_brightness(&self.data.entries, lux, luma);
        if send_u64(&self.prediction_tx, v) {
            Ok(Option::Some(v))
        } else {
            Err(Error::ChannelClosed)
        }
    }
}

} // verus!
