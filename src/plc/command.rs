//! PLC command datagrams (little-endian): decoding, and the command GOOSE
//! frames they fill.

use vstd::prelude::*;
use crate::goose::types::{models, DataValue, EthernetHeader, IECData, IECGoosePdu};

verus! {

broadcast use vstd::seq_lib::group_seq_properties;

/// Size of the datagram header: protocol, nanotimer, PCS count, spare.
pub const HEADER_SIZE: usize = 27;

/// Size of one PCS command: logical id, command protocol, two setpoints, spare.
pub const PCS_CMD_SIZE: usize = 27;

/// The only protocol number a command datagram may carry.
pub const COMMAND_PROTOCOL: u8 = 20;

/// One PCS command. Setpoints are IEEE-754 single bit patterns.
#[derive(Debug, Clone, Copy, PartialEq, Eq)]
pub struct StPlcCmdPub {
    pub pcs_logical_id: u16,
    pub protocol: u8,
    pub pcs_active_power: u32,
    pub pcs_reactive_power: u32,
    pub spare: [u8; 16],
}

/// A decoded command datagram.
#[derive(Debug, Clone)]
pub struct StPlcCmdAll {
    pub protocol: u8,
    pub nanotimer: u64,
    pub number_of_pcs: u16,
    pub spare: [u8; 16],
    pub pcs_cmds: Vec<StPlcCmdPub>,
}

/// Why a datagram was rejected.
#[derive(Debug, Clone, Copy, PartialEq, Eq)]
pub enum CommandError {
    /// Shorter than the header.
    TooShort { len: usize },
    /// The protocol byte is not 20.
    BadProtocol { protocol: u8 },
    /// Shorter than the header and the announced commands.
    Truncated { len: usize, expected: usize },
}

/// The little-endian number spelled by `s`.
pub open spec fn le_value(s: Seq<u8>) -> nat
    decreases s.len(),
{
    if s.len() == 0 {
        0
    } else {
        (s[0] + 256 * le_value(s.subrange(1, s.len() as int))) as nat
    }
}

pub open spec fn le_at(d: Seq<u8>, off: int, n: int) -> nat {
    le_value(d.subrange(off, off + n))
}

/// The command at byte offset `o` of datagram `d`.
pub open spec fn command_at(d: Seq<u8>, o: int, c: StPlcCmdPub) -> bool {
    &&& c.pcs_logical_id == le_at(d, o, 2)
    &&& c.protocol == d[o + 2]
    &&& c.pcs_active_power == le_at(d, o + 3, 4)
    &&& c.pcs_reactive_power == le_at(d, o + 7, 4)
    &&& c.spare@ == d.subrange(o + 11, o + 27)
}

/// The number of commands a datagram announces.
pub open spec fn announced(d: Seq<u8>) -> int {
    le_at(d, 9, 2) as int
}

/// Reads `n` little-endian bytes at `off`.
fn read_le(d: &[u8], off: usize, n: usize) -> (r: u64)
    requires
        n <= 8,
        off + n <= d@.len(),
    ensures
        r == le_at(d@, off as int, n as int),
        r < crate::goose::ber::pow256(n as nat),
{
    let mut acc: u64 = 0;
    let mut k: usize = n;
    let dl = d.len();
    proof {
        assert(d@.subrange(off + n, off + n) =~= Seq::<u8>::empty());
    }
    while k > 0
        invariant
            k <= n <= 8,
            off + n <= d@.len(),
            dl == d@.len(),
            acc == le_value(d@.subrange(off + k, off + n)),
            acc < crate::goose::ber::pow256((n - k) as nat),
        decreases k,
    {
        proof {
            let s = d@.subrange(off + k - 1, off + n);
            assert(s.subrange(1, s.len() as int) =~= d@.subrange(off + k, off + n));
            crate::goose::ber::lemma_pow256_mono((n - k) as nat, 7);
            crate::goose::ber::lemma_pow256_values();
            assert(acc < 0x100_0000_0000_0000);
            assert(crate::goose::ber::pow256((n - k + 1) as nat) == 256 * crate::goose::ber::pow256((n - k) as nat));
        }
        let b = d[off + (k - 1)] as u64;
        acc = b + 256 * acc;
        k = k - 1;
    }
    acc
}

/// Decodes a command datagram: protocol 20, nanotimer, PCS count, spare,
/// then that many 27-byte commands. Bytes past the commands are ignored.
pub fn deserialize_stplccmdall(data: &[u8]) -> (r: Result<StPlcCmdAll, CommandError>)
    ensures
        data@.len() < HEADER_SIZE <==> r == Err::<StPlcCmdAll, CommandError>(CommandError::TooShort { len: data@.len() as usize }),
        data@.len() >= HEADER_SIZE && data@[0] != COMMAND_PROTOCOL <==> r == Err::<StPlcCmdAll, CommandError>(
            CommandError::BadProtocol { protocol: data@[0] },
        ),
        r matches Err(CommandError::Truncated { len, expected }) ==> data@.len() >= HEADER_SIZE && data@[0]
            == COMMAND_PROTOCOL && data@.len() < HEADER_SIZE + PCS_CMD_SIZE * announced(data@) && len == data@.len()
            && expected == HEADER_SIZE + PCS_CMD_SIZE * announced(data@),
        r is Ok <==> data@.len() >= HEADER_SIZE && data@[0] == COMMAND_PROTOCOL && data@.len() >= HEADER_SIZE
            + PCS_CMD_SIZE * announced(data@),
        r matches Ok(c) ==> {
            &&& c.protocol == COMMAND_PROTOCOL
            &&& c.nanotimer == le_at(data@, 1, 8)
            &&& c.number_of_pcs == announced(data@)
            &&& c.spare@ == data@.subrange(11, 27)
            &&& c.pcs_cmds@.len() == announced(data@)
            &&& forall|k: int| 0 <= k < c.pcs_cmds@.len() ==> command_at(data@, 27 + 27 * k, #[trigger] c.pcs_cmds@[k])
        },
{
    if data.len() < HEADER_SIZE {
        return Err(CommandError::TooShort { len: data.len() });
    }
    let protocol = data[0];
    if protocol != COMMAND_PROTOCOL {
        return Err(CommandError::BadProtocol { protocol });
    }
    proof {
        crate::goose::ber::lemma_pow256_values();
    }
    let nanotimer = read_le(data, 1, 8);
    let number_of_pcs = read_le(data, 9, 2) as u16;
    let spare: [u8; 16] = [
        data[11], data[12], data[13], data[14], data[15], data[16], data[17], data[18],
        data[19], data[20], data[21], data[22], data[23], data[24], data[25], data[26],
    ];
    assert(spare@ =~= data@.subrange(11, 27));
    let expected = HEADER_SIZE + (number_of_pcs as usize) * PCS_CMD_SIZE;
    if data.len() < expected {
        return Err(CommandError::Truncated { len: data.len(), expected });
    }
    let mut cmds: Vec<StPlcCmdPub> = Vec::new();
    let mut k: usize = 0;
    while k < number_of_pcs as usize
        invariant
            crate::goose::ber::pow256(2) == 65536,
            crate::goose::ber::pow256(4) == 0x1_0000_0000,
            k <= number_of_pcs,
            number_of_pcs == announced(data@),
            data@.len() >= HEADER_SIZE + PCS_CMD_SIZE * number_of_pcs,
            cmds@.len() == k,
            forall|j: int| 0 <= j < k ==> command_at(data@, 27 + 27 * j, #[trigger] cmds@[j]),
        decreases number_of_pcs - k,
    {
        let o = HEADER_SIZE + k * PCS_CMD_SIZE;
        let id = read_le(data, o, 2) as u16;
        let active = read_le(data, o + 3, 4) as u32;
        let reactive = read_le(data, o + 7, 4) as u32;
        let s: [u8; 16] = [
            data[o + 11], data[o + 12], data[o + 13], data[o + 14], data[o + 15], data[o + 16], data[o + 17],
            data[o + 18], data[o + 19], data[o + 20], data[o + 21], data[o + 22], data[o + 23], data[o + 24],
            data[o + 25], data[o + 26],
        ];
        assert(s@ =~= data@.subrange(o + 11, o + 27));
        cmds.push(StPlcCmdPub { pcs_logical_id: id, protocol: data[o + 2], pcs_active_power: active, pcs_reactive_power: reactive, spare: s });
        k = k + 1;
    }
    Ok(StPlcCmdAll { protocol, nanotimer, number_of_pcs, spare, pcs_cmds: cmds })
}

/// The command flags `(active power, reactive power)` that a command
/// protocol number selects: 10 active only, 20 reactive only, 30 both,
/// anything else neither.
pub open spec fn command_flags(protocol: u8) -> (bool, bool) {
    (protocol == 10 || protocol == 30, protocol == 20 || protocol == 30)
}

pub fn flags_of(protocol: u8) -> (r: (bool, bool))
    ensures
        r == command_flags(protocol),
{
    (protocol == 10 || protocol == 30, protocol == 20 || protocol == 30)
}

/// The number of PCS a command frame carries: a quarter of its entries.
pub open spec fn frame_pcs(p: IECGoosePdu) -> int {
    p.numDatSetEntries as int / 4
}

/// The first command of frame `k`: the PCS counts of the frames before it, summed.
pub open spec fn first_command(frames: Seq<(EthernetHeader, IECGoosePdu)>, k: int) -> int
    decreases k,
{
    if k <= 0 {
        0
    } else {
        first_command(frames, k - 1) + frame_pcs(frames[k - 1].1)
    }
}

/// The data set for `e` PCS from the commands `cmds[c..c + e]`: their
/// flag pairs, then their setpoint pairs.
pub open spec fn command_data(cmds: Seq<StPlcCmdPub>, c: int, e: int) -> Seq<DataValue> {
    Seq::new(
        (4 * e) as nat,
        |k: int|
            if k < 2 * e {
                let f = command_flags(cmds[c + k / 2].protocol);
                DataValue::Boolean(if k % 2 == 0 { f.0 } else { f.1 })
            } else {
                let cmd = cmds[c + (k - 2 * e) / 2];
                DataValue::Float32(if (k - 2 * e) % 2 == 0 { cmd.pcs_active_power } else { cmd.pcs_reactive_power })
            },
    )
}

/// `p` is `o` with a new time stamp, sqNum 0 and the data set `data`.
pub open spec fn refilled(p: IECGoosePdu, o: IECGoosePdu, t: Seq<u8>, data: Seq<DataValue>) -> bool {
    &&& p.t@ == t
    &&& p.sqNum == 0
    &&& models(p.allData@) == data
    &&& p.gocbRef == o.gocbRef
    &&& p.timeAllowedtoLive == o.timeAllowedtoLive
    &&& p.datSet == o.datSet
    &&& p.goID == o.goID
    &&& p.stNum == o.stNum
    &&& p.simulation == o.simulation
    &&& p.confRev == o.confRev
    &&& p.ndsCom == o.ndsCom
    &&& p.numDatSetEntries == o.numDatSetEntries
}

proof fn lemma_first_command_grows(frames: Seq<(EthernetHeader, IECGoosePdu)>, j: int, k: int)
    requires
        0 <= j <= k,
    ensures
        first_command(frames, j) <= first_command(frames, k),
    decreases k,
{
    if j < k {
        lemma_first_command_grows(frames, j, k - 1);
    }
}

fn fill_frame(pdu: &mut IECGoosePdu, cmds: &Vec<StPlcCmdPub>, c: usize, e: usize)
    requires
        c + e <= cmds@.len(),
    ensures
        models(final(pdu).allData@) == command_data(cmds@, c as int, e as int),
        final(pdu).t == old(pdu).t,
        final(pdu).sqNum == old(pdu).sqNum,
        final(pdu).gocbRef == old(pdu).gocbRef,
        final(pdu).timeAllowedtoLive == old(pdu).timeAllowedtoLive,
        final(pdu).datSet == old(pdu).datSet,
        final(pdu).goID == old(pdu).goID,
        final(pdu).stNum == old(pdu).stNum,
        final(pdu).simulation == old(pdu).simulation,
        final(pdu).confRev == old(pdu).confRev,
        final(pdu).ndsCom == old(pdu).ndsCom,
        final(pdu).numDatSetEntries == old(pdu).numDatSetEntries,
{
    let mut data: Vec<IECData> = Vec::new();
    let n = cmds.len();
    let mut i: usize = 0;
    while i < e
        invariant
            n == cmds@.len(),
            c + e <= cmds@.len(),
            i <= e,
            data@.len() == 2 * i,
            forall|k: int| 0 <= k < 2 * i ==> #[trigger] data@[k].model() == command_data(cmds@, c as int, e as int)[k],
        decreases e - i,
    {
        let f = flags_of(cmds[c + i].protocol);
        data.push(IECData::Boolean(f.0));
        data.push(IECData::Boolean(f.1));
        proof {
            assert((2 * i) / 2 == i && (2 * i + 1) / 2 == i && (2 * i) % 2 == 0 && (2 * i + 1) % 2 == 1);
        }
        i = i + 1;
    }
    let mut i: usize = 0;
    while i < e
        invariant
            n == cmds@.len(),
            c + e <= cmds@.len(),
            i <= e,
            data@.len() == 2 * e + 2 * i,
            forall|k: int| 0 <= k < 2 * e + 2 * i ==> #[trigger] data@[k].model() == command_data(cmds@, c as int, e as int)[k],
        decreases e - i,
    {
        let cmd = cmds[c + i];
        data.push(IECData::Float32(cmd.pcs_active_power));
        data.push(IECData::Float32(cmd.pcs_reactive_power));
        proof {
            assert((2 * i) / 2 == i && (2 * i + 1) / 2 == i && (2 * i) % 2 == 0 && (2 * i + 1) % 2 == 1);
            assert(2 * e + 2 * i - 2 * e == 2 * i);
            assert(2 * e + 2 * i + 1 - 2 * e == 2 * i + 1);
        }
        i = i + 1;
    }
    proof {
        crate::goose::value_codec::lemma_models_index(data@);
        assert(models(data@) =~= command_data(cmds@, c as int, e as int));
    }
    pdu.allData = data;
}

impl StPlcCmdAll {
    /// Writes the commands into the command frames, in order: frame `k`
    /// takes the next `numDatSetEntries / 4` commands as flag pairs, then
    /// setpoint pairs, gets the time stamp `t` and sqNum 0 (the scheduler
    /// advances stNum). At the first frame for which too few commands are
    /// left, the data set is only cleared, and the frames after it are left
    /// as they were.
    pub fn assign_to_goose_frame(&self, frames: &mut Vec<(EthernetHeader, IECGoosePdu)>, t: [u8; 8])
        ensures
            final(frames)@.len() == old(frames)@.len(),
            forall|k: int| 0 <= k < final(frames)@.len() ==> #[trigger] final(frames)@[k].0 == old(frames)@[k].0,
            forall|k: int|
                0 <= k < final(frames)@.len() && first_command(old(frames)@, k + 1) <= self.pcs_cmds@.len()
                    ==> refilled(
                    #[trigger] final(frames)@[k].1,
                    old(frames)@[k].1,
                    t@,
                    command_data(self.pcs_cmds@, first_command(old(frames)@, k), frame_pcs(old(frames)@[k].1)),
                ),
            forall|k: int|
                0 <= k < final(frames)@.len() && first_command(old(frames)@, k) <= self.pcs_cmds@.len()
                    < first_command(old(frames)@, k + 1) ==> refilled(
                    #[trigger] final(frames)@[k].1,
                    old(frames)@[k].1,
                    t@,
                    Seq::empty(),
                ),
            forall|k: int|
                0 <= k < final(frames)@.len() && first_command(old(frames)@, k) > self.pcs_cmds@.len()
                    ==> #[trigger] final(frames)@[k] == old(frames)@[k],
    {
        let ghost of = frames@;
        let mut pos: usize = 0;
        let mut k: usize = 0;
        let mut cut = false;
        while k < frames.len() && !cut
            invariant
                frames@.len() == of.len(),
                k <= of.len(),
                pos == first_command(of, k as int),
                pos <= self.pcs_cmds@.len(),
                forall|j: int| k < j < of.len() ==> #[trigger] frames@[j] == of[j],
                !cut ==> k < of.len() ==> frames@[k as int] == of[k as int],
                forall|j: int| 0 <= j < of.len() ==> #[trigger] frames@[j].0 == of[j].0,
                forall|j: int| 0 <= j < k ==> refilled(
                    #[trigger] frames@[j].1,
                    of[j].1,
                    t@,
                    command_data(self.pcs_cmds@, first_command(of, j), frame_pcs(of[j].1)),
                ),
                cut ==> k < of.len() && first_command(of, k + 1) > self.pcs_cmds@.len() && refilled(
                    frames@[k as int].1,
                    of[k as int].1,
                    t@,
                    Seq::empty(),
                ),
            decreases of.len() - k, if cut { 0int } else { 1int },
        {
            let ghost fk = frames@;
            let (h, mut pdu) = frames.remove(k);
            pdu.t = t;
            pdu.sqNum = 0;
            pdu.allData = Vec::new();
            let e = (pdu.numDatSetEntries / 4) as usize;
            if e > self.pcs_cmds.len() - pos {
                proof {
                    assert(models(pdu.allData@) =~= Seq::<DataValue>::empty());
                }
                frames.insert(k, (h, pdu));
                proof {
                    assert(frames@ =~= fk.update(k as int, frames@[k as int]));
                    assert forall|j: int| 0 <= j < k implies refilled(
                        #[trigger] frames@[j].1,
                        of[j].1,
                        t@,
                        command_data(self.pcs_cmds@, first_command(of, j), frame_pcs(of[j].1)),
                    ) by {
                        assert(frames@[j] == fk[j]);
                        assert(refilled(fk[j].1, of[j].1, t@, command_data(self.pcs_cmds@, first_command(of, j), frame_pcs(of[j].1))));
                    }
                    assert(fk[k as int] == of[k as int]);
                }
                cut = true;
            } else {
                fill_frame(&mut pdu, &self.pcs_cmds, pos, e);
                frames.insert(k, (h, pdu));
                proof {
                    assert(frames@ =~= fk.update(k as int, frames@[k as int]));
                    assert(fk[k as int] == of[k as int]);
                    assert(e == frame_pcs(of[k as int].1));
                    assert(first_command(of, k + 1) == first_command(of, k as int) + frame_pcs(of[k as int].1));
                    assert(frames@[k as int].1.t@ == t@);
                    assert(refilled(frames@[k as int].1, of[k as int].1, t@, command_data(self.pcs_cmds@, first_command(of, k as int), frame_pcs(of[k as int].1))));
                    assert forall|j: int| 0 <= j < k + 1 implies refilled(
                        #[trigger] frames@[j].1,
                        of[j].1,
                        t@,
                        command_data(self.pcs_cmds@, first_command(of, j), frame_pcs(of[j].1)),
                    ) by {
                        if j < k {
                            assert(frames@[j] == fk[j]);
                            assert(refilled(fk[j].1, of[j].1, t@, command_data(self.pcs_cmds@, first_command(of, j), frame_pcs(of[j].1))));
                        }
                    }
                }
                pos = pos + e;
                k = k + 1;
            }
        }
        proof {
            assert forall|j: int| 0 <= j < of.len() && first_command(of, j) > self.pcs_cmds@.len() implies frames@[j] == of[j] by {
                if j <= k {
                    lemma_first_command_grows(of, j, k as int);
                }
            }
            assert forall|j: int| 0 <= j < of.len() && first_command(of, j) <= self.pcs_cmds@.len() < first_command(of, j + 1) implies
                refilled(frames@[j].1, of[j].1, t@, Seq::empty()) by {
                if j < k {
                    lemma_first_command_grows(of, j + 1, k as int);
                } else if j > k {
                    lemma_first_command_grows(of, k as int + 1, j);
                }
            }
            assert forall|j: int| 0 <= j < of.len() && first_command(of, j + 1) <= self.pcs_cmds@.len() implies
                refilled(frames@[j].1, of[j].1, t@, command_data(self.pcs_cmds@, first_command(of, j), frame_pcs(of[j].1))) by {
                if j >= k {
                    if cut {
                        lemma_first_command_grows(of, k as int + 1, j + 1);
                    }
                }
            }
        }
    }
}

} // verus!
