//! The state of one subscribed GOOSE publisher on one LAN: freshness of
//! incoming PDUs (stNum / sqNum / confRev), restart detection, and
//! time-to-live invalidation.

use vstd::prelude::*;
use crate::goose::types::{copy_values, models, IECGoosePdu};

verus! {

/// A drop of stNum by more than this, from above it, is a sender restart.
pub const RESTART_THRESHOLD: u32 = 100;

/// Without a deadline, a record older than this is stale.
pub const STALE_WITHOUT_DEADLINE_MS: u64 = 10_000;

/// A stNum drop that signals a restarted sender.
pub open spec fn is_restart(st0: u32, st1: u32) -> bool {
    st0 > RESTART_THRESHOLD && st1 < st0 && st0 - st1 > RESTART_THRESHOLD
}

/// Whether the incoming `(st1, sq1, cr1)` supersedes the stored `(st0, sq0, cr0)`.
pub open spec fn is_newer(st0: u32, sq0: u32, cr0: u32, st1: u32, sq1: u32, cr1: u32) -> bool {
    st1 > st0 || (st1 == st0 && sq1 > sq0) || cr1 != cr0 || is_restart(st0, st1)
}

/// Same state, lower sequence number, same configuration, no restart.
pub open spec fn is_sequence_error(st0: u32, sq0: u32, cr0: u32, st1: u32, sq1: u32, cr1: u32) -> bool {
    st1 == st0 && sq1 < sq0 && cr1 == cr0
}

/// Why an incoming PDU was accepted.
#[derive(Debug, Clone, Copy, PartialEq, Eq)]
pub enum AcceptKind {
    /// stNum increased: new data.
    StateChange,
    /// Same stNum, higher sqNum: a retransmission of current data.
    Sequence,
    /// confRev differs: the publisher was reconfigured.
    Reconfiguration,
    /// stNum dropped far from far above: the publisher restarted.
    Restart,
}

/// What became of an incoming PDU.
#[derive(Debug, Clone, Copy, PartialEq, Eq)]
pub enum GooseUpdate {
    /// Stored. `missed_states`: stNum jumped by more than one;
    /// `st_decreased`: stNum went down without a restart signature.
    Accepted { kind: AcceptKind, missed_states: bool, st_decreased: bool },
    /// Same stNum and sqNum as stored: dropped.
    Retransmission,
    /// Same stNum, lower sqNum: dropped, and the record marked invalid.
    SequenceError,
    /// Older than what is stored: dropped.
    Stale,
}

impl GooseUpdate {
    pub open spec fn is_accepted(self) -> bool {
        self is Accepted
    }

    /// Whether the PDU was stored.
    pub fn accepted(&self) -> (r: bool)
        ensures
            r == self.is_accepted(),
    {
        matches!(self, GooseUpdate::Accepted { .. })
    }
}

/// Classifies the incoming `(st1, sq1, cr1)` against the stored `(st0, sq0, cr0)`.
pub fn classify(st0: u32, sq0: u32, cr0: u32, st1: u32, sq1: u32, cr1: u32) -> (r: GooseUpdate)
    ensures
        r.is_accepted() == is_newer(st0, sq0, cr0, st1, sq1, cr1),
        r == GooseUpdate::SequenceError <==> (!is_newer(st0, sq0, cr0, st1, sq1, cr1) && is_sequence_error(
            st0,
            sq0,
            cr0,
            st1,
            sq1,
            cr1,
        )),
        r == GooseUpdate::Retransmission <==> (st1 == st0 && sq1 == sq0 && cr1 == cr0),
        r matches GooseUpdate::Accepted { kind, missed_states, st_decreased } ==> {
            &&& (kind == AcceptKind::StateChange <==> st1 > st0)
            &&& (kind == AcceptKind::Sequence <==> st1 == st0 && sq1 > sq0)
            &&& (kind == AcceptKind::Restart <==> is_restart(st0, st1) && cr1 == cr0)
            &&& missed_states == (st1 > st0 + 1)
            &&& st_decreased == (st1 < st0 && !is_restart(st0, st1))
        },
{
    let restart = st0 > RESTART_THRESHOLD && st1 < st0 && st0 - st1 > RESTART_THRESHOLD;
    let kind = if st1 > st0 {
        AcceptKind::StateChange
    } else if st1 == st0 && sq1 > sq0 {
        AcceptKind::Sequence
    } else if cr1 != cr0 {
        AcceptKind::Reconfiguration
    } else if restart {
        AcceptKind::Restart
    } else if st1 == st0 && sq1 == sq0 {
        return GooseUpdate::Retransmission;
    } else if st1 == st0 {
        return GooseUpdate::SequenceError;
    } else {
        return GooseUpdate::Stale;
    };
    GooseUpdate::Accepted {
        kind,
        missed_states: st1 > st0 && st1 - st0 > 1,
        st_decreased: st1 < st0 && !restart,
    }
}

/// `a + b`, or `u64::MAX` when that does not fit.
pub open spec fn sat_add(a: int, b: int) -> int {
    if a + b > u64::MAX {
        u64::MAX as int
    } else {
        a + b
    }
}

/// When a PDU accepted at `now` with time-to-live `ttl` stops being valid.
pub open spec fn deadline_after(now: u64, ttl: u32, grace: u64) -> int {
    sat_add(now as int, 2 * ttl + grace)
}

/// Run-time state of one subscribed publisher on one LAN.
#[derive(Debug)]
pub struct PcsRecord {
    pub logical_id: u16,
    /// The last accepted PDU (defaults before any).
    pub pdu: IECGoosePdu,
    /// When the last PDU was accepted, in milliseconds.
    pub last_update_ms: Option<u64>,
    /// When the record stops being valid, in milliseconds.
    pub invalidity_deadline_ms: Option<u64>,
    pub state_valid: bool,
    /// Validity as of the last sweep, to report transitions.
    pub reported_valid: bool,
    /// Setpoint feedback, as IEEE-754 single bit patterns.
    pub active_power_feedback: u32,
    pub reactive_power_feedback: u32,
    pub active_power_enable: bool,
    pub reactive_power_enable: bool,
    /// The feed line of the PCS, 0 when none is configured.
    pub feed_line_id: u16,
}

/// The scalar state of a record, as the state machine sees it.
pub struct RecordView {
    pub st_num: u32,
    pub sq_num: u32,
    pub conf_rev: u32,
    pub ttl: u32,
    pub last_update: Option<u64>,
    pub deadline: Option<u64>,
    pub state_valid: bool,
    pub reported_valid: bool,
}

impl PcsRecord {
    pub open spec fn view(&self) -> RecordView {
        RecordView {
            st_num: self.pdu.stNum,
            sq_num: self.pdu.sqNum,
            conf_rev: self.pdu.confRev,
            ttl: self.pdu.timeAllowedtoLive,
            last_update: self.last_update_ms,
            deadline: self.invalidity_deadline_ms,
            state_valid: self.state_valid,
            reported_valid: self.reported_valid,
        }
    }

    /// Fields that incoming GOOSE never touches.
    pub open spec fn same_setpoints(&self, o: &PcsRecord) -> bool {
        &&& self.logical_id == o.logical_id
        &&& self.active_power_feedback == o.active_power_feedback
        &&& self.reactive_power_feedback == o.reactive_power_feedback
        &&& self.active_power_enable == o.active_power_enable
        &&& self.reactive_power_enable == o.reactive_power_enable
        &&& self.feed_line_id == o.feed_line_id
        &&& self.pdu.gocbRef@ == o.pdu.gocbRef@
        &&& self.pdu.datSet@ == o.pdu.datSet@
        &&& self.pdu.goID@ == o.pdu.goID@
    }

    /// The PDU fields that acceptance copies agree with `p`.
    pub open spec fn holds_scalars_of(&self, p: &IECGoosePdu) -> bool {
        &&& self.pdu.stNum == p.stNum
        &&& self.pdu.sqNum == p.sqNum
        &&& self.pdu.timeAllowedtoLive == p.timeAllowedtoLive
        &&& self.pdu.t@ == p.t@
        &&& self.pdu.simulation == p.simulation
        &&& self.pdu.confRev == p.confRev
        &&& self.pdu.ndsCom == p.ndsCom
        &&& self.pdu.numDatSetEntries == p.numDatSetEntries
        &&& models(self.pdu.allData@) == models(p.allData@)
    }

    /// Applies an incoming PDU received at `now_ms`. A newer PDU is stored
    /// (scalars copied, `allData` deep-copied), stamped, given the deadline
    /// `now + 2 * TTL + grace`, and makes the record valid. A sequence error
    /// only marks the record invalid; anything else leaves it unchanged.
    pub fn apply_goose(&mut self, pdu: &IECGoosePdu, now_ms: u64, grace_ms: u64) -> (r: GooseUpdate)
        ensures
            ({
                let o = old(self)@;
                r.is_accepted() == is_newer(o.st_num, o.sq_num, o.conf_rev, pdu.stNum, pdu.sqNum, pdu.confRev)
            }),
            final(self).same_setpoints(&*old(self)),
            r.is_accepted() ==> {
                &&& final(self).holds_scalars_of(pdu)
                &&& final(self)@.last_update == Some(now_ms)
                &&& final(self)@.deadline == Some(deadline_after(now_ms, pdu.timeAllowedtoLive, grace_ms) as u64)
                &&& final(self)@.state_valid
                &&& final(self)@.reported_valid == old(self)@.reported_valid
            },
            ({
                let o = old(self)@;
                r == GooseUpdate::SequenceError <==> (!is_newer(o.st_num, o.sq_num, o.conf_rev, pdu.stNum, pdu.sqNum, pdu.confRev)
                    && is_sequence_error(o.st_num, o.sq_num, o.conf_rev, pdu.stNum, pdu.sqNum, pdu.confRev))
            }),
            r == GooseUpdate::SequenceError ==> final(self)@ == (RecordView { state_valid: false, ..old(self)@ }),
            !r.is_accepted() && r != GooseUpdate::SequenceError ==> final(self)@ == old(self)@,
            !r.is_accepted() ==> final(self).holds_scalars_of(&old(self).pdu),
    {
        let r = classify(
            self.pdu.stNum,
            self.pdu.sqNum,
            self.pdu.confRev,
            pdu.stNum,
            pdu.sqNum,
            pdu.confRev,
        );
        match r {
            GooseUpdate::Accepted { .. } => {
                self.pdu.stNum = pdu.stNum;
                self.pdu.sqNum = pdu.sqNum;
                self.pdu.timeAllowedtoLive = pdu.timeAllowedtoLive;
                self.pdu.t = pdu.t;
                self.pdu.simulation = pdu.simulation;
                self.pdu.confRev = pdu.confRev;
                self.pdu.ndsCom = pdu.ndsCom;
                self.pdu.numDatSetEntries = pdu.numDatSetEntries;
                self.pdu.allData = copy_values(&pdu.allData);
                self.last_update_ms = Some(now_ms);
                let span: u64 = 2 * (pdu.timeAllowedtoLive as u64);
                self.invalidity_deadline_ms = Some(now_ms.saturating_add(span).saturating_add(grace_ms));
                self.state_valid = true;
            },
            GooseUpdate::SequenceError => {
                self.state_valid = false;
            },
            _ => {},
        }
        r
    }
}

/// Validity as the sweep computes it at `now`: a record stays valid until its
/// deadline, or, lacking one, for ten seconds after its last update.
pub open spec fn expired(v: RecordView, now: u64) -> bool {
    match v.deadline {
        Some(d) => now >= d,
        None => match v.last_update {
            Some(t) => now > t && now - t > STALE_WITHOUT_DEADLINE_MS,
            None => false,
        },
    }
}

/// What a sweep reports for one record.
#[derive(Debug, Clone, Copy, PartialEq, Eq)]
pub enum ValidityChange {
    Unchanged,
    BecameInvalid,
    BecameValid,
}

/// The record after a sweep at `now`.
pub open spec fn swept(v: RecordView, now: u64) -> RecordView {
    let valid = v.state_valid && !expired(v, now);
    RecordView { state_valid: valid, reported_valid: valid, ..v }
}

/// The transition a sweep at `now` reports.
pub open spec fn sweep_change(v: RecordView, now: u64) -> ValidityChange {
    let valid = v.state_valid && !expired(v, now);
    if v.reported_valid && !valid {
        ValidityChange::BecameInvalid
    } else if !v.reported_valid && valid {
        ValidityChange::BecameValid
    } else {
        ValidityChange::Unchanged
    }
}

impl PcsRecord {
    /// The validity sweep for this record at `now_ms`: clears `state_valid`
    /// once expired and reports a change since the previous sweep.
    pub fn check_validity(&mut self, now_ms: u64) -> (r: ValidityChange)
        ensures
            final(self)@ == swept(old(self)@, now_ms),
            r == sweep_change(old(self)@, now_ms),
            final(self).same_setpoints(&*old(self)),
            final(self).holds_scalars_of(&old(self).pdu),
    {
        let is_expired = match self.invalidity_deadline_ms {
            Some(d) => now_ms >= d,
            None => match self.last_update_ms {
                Some(t) => now_ms > t && now_ms - t > STALE_WITHOUT_DEADLINE_MS,
                None => false,
            },
        };
        let valid = self.state_valid && !is_expired;
        let r = if self.reported_valid && !valid {
            ValidityChange::BecameInvalid
        } else if !self.reported_valid && valid {
            ValidityChange::BecameValid
        } else {
            ValidityChange::Unchanged
        };
        self.state_valid = valid;
        self.reported_valid = valid;
        r
    }
}

/// Monotone sequence: without a sender restart or reconfiguration, an
/// accepted PDU carries a strictly larger `(stNum, sqNum)`, in lexicographic
/// order, than the one stored before it.
pub proof fn lemma_accepted_is_lex_greater(st0: u32, sq0: u32, cr0: u32, st1: u32, sq1: u32, cr1: u32)
    requires
        is_newer(st0, sq0, cr0, st1, sq1, cr1),
        !is_restart(st0, st1),
        cr1 == cr0,
    ensures
        st1 > st0 || (st1 == st0 && sq1 > sq0),
{
}

/// TTL invalidation: a record that accepted a PDU with time-to-live `ttl` at
/// `t0` is invalid after any sweep at a time `t >= t0 + 2 * ttl + grace`.
pub proof fn lemma_ttl_invalidation(v: RecordView, t0: u64, ttl: u32, grace: u64, t: u64)
    requires
        v.last_update == Some(t0),
        v.deadline == Some(deadline_after(t0, ttl, grace) as u64),
        t >= t0 + 2 * ttl + grace,
    ensures
        !swept(v, t).state_valid,
        v.state_valid && v.reported_valid ==> sweep_change(v, t) == ValidityChange::BecameInvalid,
{
}

impl PcsRecord {
    /// Applies a setpoint command: the enable flags are stored, and each
    /// feedback becomes its setpoint when enabled, else 0.0.
    pub fn apply_setpoint(&mut self, active_enable: bool, reactive_enable: bool, active: u32, reactive: u32)
        ensures
            final(self).active_power_enable == active_enable,
            final(self).reactive_power_enable == reactive_enable,
            final(self).active_power_feedback == (if active_enable { active } else { 0u32 }),
            final(self).reactive_power_feedback == (if reactive_enable { reactive } else { 0u32 }),
            final(self)@ == old(self)@,
            final(self).logical_id == old(self).logical_id,
            final(self).feed_line_id == old(self).feed_line_id,
            final(self).holds_scalars_of(&old(self).pdu),
    {
        self.active_power_enable = active_enable;
        self.reactive_power_enable = reactive_enable;
        self.active_power_feedback = if active_enable { active } else { 0 };
        self.reactive_power_feedback = if reactive_enable { reactive } else { 0 };
    }
}

} // verus!
