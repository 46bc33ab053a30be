//! The IEC 61850-8-1 retransmission schedule of the publisher frames: a
//! burst that starts at 2 ms after each data change and doubles up to 5 s.
//! The decisions live here; the caller waits, signals and sends.

use vstd::prelude::*;
use crate::goose::codec::{
    completed_header, encode_goose_frame, frame_bytes, frame_ok, lemma_completed_frame_ok, pdu_fits, tag_clear,
};
use crate::goose::types::{models, same_header, EthernetHeader, IECGoosePdu};
use crate::goose::value_codec::all_wire;

verus! {

pub const T_MIN_MS: u64 = 2;

pub const T_MAX_MS: u64 = 5000;

/// The interval that follows `i` when no data change intervenes.
pub open spec fn backoff(i: u64) -> u64 {
    if 2 * i > T_MAX_MS {
        T_MAX_MS
    } else {
        (2 * i) as u64
    }
}

/// The interval after `k` retransmissions without a data change since the last reset.
pub open spec fn interval_after(k: nat) -> u64
    decreases k,
{
    if k == 0 {
        T_MIN_MS
    } else {
        backoff(interval_after((k - 1) as nat))
    }
}

pub open spec fn pow2(k: nat) -> nat
    decreases k,
{
    if k == 0 {
        1
    } else {
        2 * pow2((k - 1) as nat)
    }
}

/// Schedule of one publisher frame; times are monotonic milliseconds.
#[derive(Debug, Clone, Copy, PartialEq, Eq)]
pub struct FrameSchedule {
    pub interval_ms: u64,
    pub last_send_ms: u64,
    pub last_data_change_ms: u64,
}

/// A publisher frame with its schedule.
#[derive(Debug)]
pub struct PublisherFrame {
    pub logical_id: u16,
    pub header: EthernetHeader,
    pub pdu: IECGoosePdu,
    pub schedule: FrameSchedule,
}

/// `n` is frame `o` after an emission at `now` (header aside): after a data
/// change stNum + 1 (wrapping), sqNum 0, interval `T_MIN_MS`; otherwise the
/// same stNum, sqNum + 1 (wrapping) and the doubled interval up to
/// `T_MAX_MS`; the time stamp `t`, the time-to-live of the next interval or
/// `ttl_floor`, and every other field as it was.
pub open spec fn advanced(o: PublisherFrame, n: PublisherFrame, signalled: bool, now: u64, t: Seq<u8>, ttl_floor: u32) -> bool {
    &&& signalled ==> {
        &&& n.pdu.stNum == (if o.pdu.stNum == u32::MAX { 0 } else { (o.pdu.stNum + 1) as u32 })
        &&& n.pdu.sqNum == 0
        &&& n.schedule.interval_ms == T_MIN_MS
        &&& n.schedule.last_data_change_ms == now
    }
    &&& !signalled ==> {
        &&& n.pdu.stNum == o.pdu.stNum
        &&& n.pdu.sqNum == (if o.pdu.sqNum == u32::MAX { 0 } else { (o.pdu.sqNum + 1) as u32 })
        &&& n.schedule.interval_ms == backoff(o.schedule.interval_ms)
        &&& n.schedule.last_data_change_ms == o.schedule.last_data_change_ms
    }
    &&& n.schedule.interval_ms <= T_MAX_MS
    &&& n.schedule.last_send_ms == now
    &&& n.pdu.t@ == t
    &&& n.pdu.timeAllowedtoLive as int == (if n.schedule.interval_ms > ttl_floor as int {
        n.schedule.interval_ms as int
    } else {
        ttl_floor as int
    })
    &&& n.logical_id == o.logical_id
    &&& n.pdu.gocbRef == o.pdu.gocbRef
    &&& n.pdu.datSet == o.pdu.datSet
    &&& n.pdu.goID == o.pdu.goID
    &&& n.pdu.simulation == o.pdu.simulation
    &&& n.pdu.confRev == o.pdu.confRev
    &&& n.pdu.ndsCom == o.pdu.ndsCom
    &&& n.pdu.numDatSetEntries == o.pdu.numDatSetEntries
    &&& n.pdu.allData == o.pdu.allData
}

impl PublisherFrame {
    /// A frame at the start of its life: nothing sent yet, interval `T_MIN_MS`.
    pub fn new(logical_id: u16, header: EthernetHeader, pdu: IECGoosePdu, now_ms: u64) -> (r: PublisherFrame)
        ensures
            r.logical_id == logical_id,
            r.header == header,
            r.pdu == pdu,
            r.schedule == (FrameSchedule { interval_ms: T_MIN_MS, last_send_ms: now_ms, last_data_change_ms: now_ms }),
    {
        PublisherFrame {
            logical_id,
            header,
            pdu,
            schedule: FrameSchedule { interval_ms: T_MIN_MS, last_send_ms: now_ms, last_data_change_ms: now_ms },
        }
    }

    /// When the next retransmission is due.
    pub open spec fn deadline(&self) -> int {
        self.schedule.last_send_ms + self.schedule.interval_ms
    }

    /// Whether a retransmission is due at `now_ms`.
    pub fn is_due(&self, now_ms: u64) -> (r: bool)
        ensures
            r == (now_ms >= self.deadline()),
    {
        now_ms >= self.schedule.last_send_ms && now_ms - self.schedule.last_send_ms >= self.schedule.interval_ms
    }

    /// Prepares the next emission at `now_ms`. After a data change
    /// (`signalled`) stNum advances, wrapping, sqNum restarts at 0 and the
    /// interval restarts at `T_MIN_MS`; otherwise only sqNum advances,
    /// wrapping, and the interval doubles up to `T_MAX_MS`. The time stamp is
    /// refreshed and the time-to-live set to the next interval, or to
    /// `ttl_floor_ms` if that is longer.
    pub fn advance(&mut self, signalled: bool, now_ms: u64, t: [u8; 8], ttl_floor_ms: u32)
        requires
            old(self).schedule.interval_ms <= T_MAX_MS,
        ensures
            advanced(*old(self), *final(self), signalled, now_ms, t@, ttl_floor_ms),
            final(self).header == old(self).header,
    {
        if signalled {
            self.pdu.stNum = self.pdu.stNum.wrapping_add(1);
            self.pdu.sqNum = 0;
            self.schedule.interval_ms = T_MIN_MS;
            self.schedule.last_data_change_ms = now_ms;
        } else {
            self.pdu.sqNum = self.pdu.sqNum.wrapping_add(1);
            let doubled = self.schedule.interval_ms * 2;
            self.schedule.interval_ms = if doubled > T_MAX_MS { T_MAX_MS } else { doubled };
        }
        self.schedule.last_send_ms = now_ms;
        self.pdu.t = t;
        let next = self.schedule.interval_ms as u32;
        self.pdu.timeAllowedtoLive = if next > ttl_floor_ms { next } else { ttl_floor_ms };
    }
}

/// Milliseconds from `now` until the deadline of `f`: zero when due, and at
/// most `u64::MAX`.
pub open spec fn wait_of(f: PublisherFrame, now: u64) -> int {
    if f.deadline() <= now {
        0
    } else if f.deadline() - now > u64::MAX {
        u64::MAX as int
    } else {
        f.deadline() - now
    }
}

/// Milliseconds from `now_ms` until the earliest deadline among `frames`
/// (zero if one is overdue); `T_MAX_MS` when there are none.
pub fn sleep_target_ms(frames: &Vec<PublisherFrame>, now_ms: u64) -> (r: u64)
    ensures
        frames@.len() == 0 ==> r == T_MAX_MS,
        forall|i: int| 0 <= i < frames@.len() ==> r <= wait_of(#[trigger] frames@[i], now_ms),
        frames@.len() > 0 ==> exists|i: int| 0 <= i < frames@.len() && r == wait_of(#[trigger] frames@[i], now_ms),
{
    let mut best: u64 = T_MAX_MS;
    let mut i: usize = 0;
    while i < frames.len()
        invariant
            i <= frames@.len(),
            forall|j: int| 0 <= j < i ==> best <= wait_of(#[trigger] frames@[j], now_ms),
            i > 0 ==> exists|j: int| 0 <= j < i && best == wait_of(#[trigger] frames@[j], now_ms),
            i == 0 ==> best == T_MAX_MS,
        decreases frames@.len() - i,
    {
        let s = frames[i].schedule;
        let wait: u64 = if s.last_send_ms >= now_ms {
            if s.interval_ms > u64::MAX - (s.last_send_ms - now_ms) {
                u64::MAX
            } else {
                s.last_send_ms - now_ms + s.interval_ms
            }
        } else if now_ms - s.last_send_ms >= s.interval_ms {
            0
        } else {
            s.interval_ms - (now_ms - s.last_send_ms)
        };
        assert(wait == wait_of(frames@[i as int], now_ms));
        if i == 0 || wait < best {
            best = wait;
        }
        i = i + 1;
    }
    best
}

/// The frames that a tick at `now` emits: all of them after a data change,
/// else those whose deadline has come.
pub open spec fn emits(f: PublisherFrame, signalled: bool, now: u64) -> bool {
    signalled || now >= f.deadline()
}

/// One scheduler tick at `now_ms`: every frame that `emits` is advanced (see
/// `PublisherFrame::advance`) and encoded; the encoded frames come back in
/// frame order with their index, for the caller to send on both LANs. A
/// frame whose PDU does not fit the format is advanced but not sent.
pub fn emit_due_frames(
    frames: &mut Vec<PublisherFrame>,
    signalled: bool,
    now_ms: u64,
    t: [u8; 8],
    ttl_floor_ms: u32,
) -> (out: Vec<(usize, Vec<u8>)>)
    requires
        forall|i: int| 0 <= i < old(frames)@.len() ==> #[trigger] old(frames)@[i].schedule.interval_ms <= T_MAX_MS,
    ensures
        final(frames)@.len() == old(frames)@.len(),
        forall|i: int| 0 <= i < final(frames)@.len() ==> #[trigger] final(frames)@[i].schedule.interval_ms <= T_MAX_MS,
        forall|i: int| 0 <= i < final(frames)@.len() && !emits(#[trigger] old(frames)@[i], signalled, now_ms)
            ==> final(frames)@[i] == old(frames)@[i],
        forall|i: int| 0 <= i < final(frames)@.len() && emits(#[trigger] old(frames)@[i], signalled, now_ms)
            ==> advanced(old(frames)@[i], final(frames)@[i], signalled, now_ms, t@, ttl_floor_ms) && (final(frames)@[i].header
            == old(frames)@[i].header || same_header(
            final(frames)@[i].header,
            completed_header(old(frames)@[i].header, final(frames)@[i].pdu),
        )),
        forall|k: int| 0 <= k < out@.len() ==> {
            let (i, bytes) = #[trigger] out@[k];
            &&& i < final(frames)@.len()
            &&& emits(old(frames)@[i as int], signalled, now_ms)
            &&& bytes@ == frame_bytes(final(frames)@[i as int].header, final(frames)@[i as int].pdu)
            &&& same_header(final(frames)@[i as int].header, completed_header(old(frames)@[i as int].header, final(frames)@[i as int].pdu))
            &&& (all_wire(models(old(frames)@[i as int].pdu.allData@)) && old(frames)@[i as int].pdu.numDatSetEntries
                == old(frames)@[i as int].pdu.allData@.len() && tag_clear(old(frames)@[i as int].header)) ==> frame_ok(
                final(frames)@[i as int].header,
                final(frames)@[i as int].pdu,
            )
        },
        forall|k1: int, k2: int| 0 <= k1 < k2 < out@.len() ==> out@[k1].0 < out@[k2].0,
        forall|i: int| 0 <= i < final(frames)@.len() && emits(#[trigger] old(frames)@[i], signalled, now_ms) && pdu_fits(
            final(frames)@[i].pdu,
        ) ==> exists|k: int| 0 <= k < out@.len() && out@[k].0 == i,
{
    let mut out: Vec<(usize, Vec<u8>)> = Vec::new();
    let mut i: usize = 0;
    while i < frames.len()
        invariant
            i <= frames@.len(),
            frames@.len() == old(frames)@.len(),
            forall|j: int| i <= j < frames@.len() ==> frames@[j] == old(frames)@[j],
            forall|j: int| 0 <= j < frames@.len() ==> #[trigger] frames@[j].schedule.interval_ms <= T_MAX_MS,
            forall|j: int| 0 <= j < i && !emits(#[trigger] old(frames)@[j], signalled, now_ms) ==> frames@[j]
                == old(frames)@[j],
            forall|j: int| 0 <= j < i && emits(#[trigger] old(frames)@[j], signalled, now_ms) ==> advanced(
                old(frames)@[j],
                frames@[j],
                signalled,
                now_ms,
                t@,
                ttl_floor_ms,
            ) && (frames@[j].header == old(frames)@[j].header || same_header(
                frames@[j].header,
                completed_header(old(frames)@[j].header, frames@[j].pdu),
            )),
            forall|k: int| 0 <= k < out@.len() ==> {
                let (x, bytes) = #[trigger] out@[k];
                &&& x < i
                &&& emits(old(frames)@[x as int], signalled, now_ms)
                &&& bytes@ == frame_bytes(frames@[x as int].header, frames@[x as int].pdu)
                &&& same_header(frames@[x as int].header, completed_header(old(frames)@[x as int].header, frames@[x as int].pdu))
                &&& (all_wire(models(old(frames)@[x as int].pdu.allData@)) && old(frames)@[x as int].pdu.numDatSetEntries
                    == old(frames)@[x as int].pdu.allData@.len() && tag_clear(old(frames)@[x as int].header)) ==> frame_ok(
                    frames@[x as int].header,
                    frames@[x as int].pdu,
                )
            },
            forall|k1: int, k2: int| 0 <= k1 < k2 < out@.len() ==> out@[k1].0 < out@[k2].0,
            forall|j: int| 0 <= j < i && emits(#[trigger] old(frames)@[j], signalled, now_ms) && pdu_fits(frames@[j].pdu)
                ==> exists|k: int| 0 <= k < out@.len() && out@[k].0 == j,
        decreases frames@.len() - i,
    {
        let ghost out0 = out@;
        let ghost fr0 = frames@;
        if signalled || frames[i].is_due(now_ms) {
            let mut f = frames.remove(i);
            f.advance(signalled, now_ms, t, ttl_floor_ms);
            let mut bytes: Vec<u8> = Vec::new();
            let mut h = f.header;
            let r = encode_goose_frame(&mut h, &f.pdu, &mut bytes);
            if r.is_ok() {
                f.header = h;
            }
            frames.insert(i, f);
            if r.is_ok() {
                proof {
                    let o = old(frames)@[i as int];
                    if all_wire(models(o.pdu.allData@)) && o.pdu.numDatSetEntries == o.pdu.allData@.len() && tag_clear(o.header) {
                        lemma_completed_frame_ok(o.header, frames@[i as int].header, frames@[i as int].pdu);
                    }
                }
                out.push((i, bytes));
            }
        }
        proof {
            assert forall|j: int| 0 <= j < i + 1 && emits(#[trigger] old(frames)@[j], signalled, now_ms) && pdu_fits(frames@[j].pdu)
                implies exists|k: int| 0 <= k < out@.len() && out@[k].0 == j by {
                if j == i {
                    assert(out@[out@.len() - 1].0 == i);
                } else {
                    assert(frames@[j] == fr0[j]);
                    let k = choose|k: int| 0 <= k < out0.len() && out0[k].0 == j;
                    assert(out@[k] == out0[k]);
                }
            }
        }
        i = i + 1;
    }
    out
}

/// Backoff schedule: after a reset the interval is 2 ms, and each
/// retransmission without a data change doubles it up to 5000 ms, so the
/// intervals run 2, 4, 8, ..., 4096, 5000, 5000, ...
pub proof fn lemma_backoff_schedule(k: nat)
    ensures
        interval_after(k) as int == (if pow2(k + 1) > T_MAX_MS as int { T_MAX_MS as int } else { pow2(k + 1) as int }),
    decreases k,
{
    reveal_with_fuel(pow2, 2);
    if k > 0 {
        lemma_backoff_schedule((k - 1) as nat);
        assert(pow2(k + 1) == 2 * pow2(k));
    }
}

/// Where an encoded frame went out.
#[derive(Debug, Clone, Copy, PartialEq, Eq)]
pub enum SendOutcome {
    Both,
    Lan1Only,
    Lan2Only,
    Neither,
}

/// Frames sent on each LAN; a LAN that is down simply stays behind.
#[derive(Debug, Clone, Copy, PartialEq, Eq)]
pub struct LanSendCounters {
    pub lan1_sent: u64,
    pub lan2_sent: u64,
    pub lost: u64,
}

impl LanSendCounters {
    pub fn new() -> (r: LanSendCounters)
        ensures
            r == (LanSendCounters { lan1_sent: 0, lan2_sent: 0, lost: 0 }),
    {
        LanSendCounters { lan1_sent: 0, lan2_sent: 0, lost: 0 }
    }

    /// Counts one frame by the LANs that took it (saturating).
    pub fn record(&mut self, lan1_ok: bool, lan2_ok: bool) -> (r: SendOutcome)
        ensures
            final(self).lan1_sent == (if lan1_ok && old(self).lan1_sent < u64::MAX { (old(self).lan1_sent + 1) as u64 } else { old(self).lan1_sent }),
            final(self).lan2_sent == (if lan2_ok && old(self).lan2_sent < u64::MAX { (old(self).lan2_sent + 1) as u64 } else { old(self).lan2_sent }),
            final(self).lost == (if !lan1_ok && !lan2_ok && old(self).lost < u64::MAX { (old(self).lost + 1) as u64 } else { old(self).lost }),
            r == (if lan1_ok && lan2_ok { SendOutcome::Both } else if lan1_ok { SendOutcome::Lan1Only } else if lan2_ok { SendOutcome::Lan2Only } else { SendOutcome::Neither }),
    {
        if lan1_ok {
            self.lan1_sent = self.lan1_sent.saturating_add(1);
        }
        if lan2_ok {
            self.lan2_sent = self.lan2_sent.saturating_add(1);
        }
        if !lan1_ok && !lan2_ok {
            self.lost = self.lost.saturating_add(1);
        }
        if lan1_ok && lan2_ok {
            SendOutcome::Both
        } else if lan1_ok {
            SendOutcome::Lan1Only
        } else if lan2_ok {
            SendOutcome::Lan2Only
        } else {
            SendOutcome::Neither
        }
    }
}

/// The 8-byte IEC 61850 time stamp of `ms` milliseconds since the epoch:
/// seconds (4 bytes), the fraction of a second in units of 2^-24 (3 bytes),
/// both big-endian, and the quality byte (10 bits of accuracy).
pub open spec fn utc_time(ms: u64) -> Seq<u8> {
    let secs = (ms / 1000) as nat;
    let frac = ((ms % 1000) * 0x100_0000 / 1000) as nat;
    seq![
        ((secs / 0x100_0000) % 256) as u8,
        ((secs / 0x1_0000) % 256) as u8,
        ((secs / 0x100) % 256) as u8,
        (secs % 256) as u8,
        (frac / 0x1_0000) as u8,
        ((frac / 0x100) % 256) as u8,
        (frac % 256) as u8,
        0x0Au8,
    ]
}

pub fn utc_time_from_ms(ms: u64) -> (r: [u8; 8])
    ensures
        r@ == utc_time(ms),
{
    let secs = ms / 1000;
    let frac = (ms % 1000) * 0x100_0000 / 1000;
    assert(frac < 0x100_0000) by (nonlinear_arith)
        requires
            frac == (ms % 1000) * 0x100_0000 / 1000,
            ms % 1000 < 1000,
    ;
    let r = [
        ((secs / 0x100_0000) % 256) as u8,
        ((secs / 0x1_0000) % 256) as u8,
        ((secs / 0x100) % 256) as u8,
        (secs % 256) as u8,
        (frac / 0x1_0000) as u8,
        ((frac / 0x100) % 256) as u8,
        (frac % 256) as u8,
        0x0A,
    ];
    assert(r@ =~= utc_time(ms));
    r
}

} // verus!
