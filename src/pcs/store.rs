//! The PCS store of one LAN: a sharded concurrent map from logical id to
//! record. Each operation locks only the shard of the record it touches;
//! what it does to the record is the record's own verified logic.

use vstd::prelude::*;
use dashmap::DashMap;
use crate::goose::types::{EthernetHeader, IECGoosePdu};
use crate::pcs::index::AppIdIndex;
use crate::pcs::publisher::{update_goose_frame_data, PcsTypeMapping};
use crate::pcs::record::{sweep_change, GooseUpdate, PcsRecord, RecordView, ValidityChange};
use std::collections::HashMap;
use crate::plc::image::{info_of, pcs_info, StPCSinfo};
use crate::plc::types::StPCSDataBytePosInAllDataCfg;
use crate::pms::types::{apply_pms_command, extract_command, PmsCommand};
use crate::pcs::record::is_newer;

verus! {

#[verifier::external_type_specification]
#[verifier::external_body]
#[verifier::reject_recursive_types(K)]
#[verifier::reject_recursive_types(V)]
#[verifier::reject_recursive_types(S)]
pub struct ExDashMap<K, V, S>(DashMap<K, V, S>);

/// The frame after copying a record's feedback into it: the header, the
/// sequence numbers, the time stamp and the number of entries stay; when no
/// record was there (`found` false), nothing changes.
pub open spec fn frame_data_updated(o: (EthernetHeader, IECGoosePdu), n: (EthernetHeader, IECGoosePdu), found: bool) -> bool {
    &&& n.0 == o.0
    &&& n.1.allData@.len() == o.1.allData@.len()
    &&& n.1.stNum == o.1.stNum
    &&& n.1.sqNum == o.1.sqNum
    &&& n.1.numDatSetEntries == o.1.numDatSetEntries
    &&& n.1.t == o.1.t
    &&& !found ==> n == o
}

/// Telemetry `i` was read for `id` from some record, as `pcs_info` reads it.
pub open spec fn info_for(id: u16, cfg: Option<&(StPCSDataBytePosInAllDataCfg, Vec<u8>)>, i: StPCSinfo) -> bool {
    &&& i.logical_id == id
    &&& cfg matches Some(c) ==> exists|rec: PcsRecord| info_of(id, c.0, c.1@, rec, i)
    &&& cfg is None ==> i.is_controllable == 0 && i.pcs_realtime_active_power == 0
}

/// Relies on `DashMap::new`.
#[verifier::external_body]
fn map_new() -> DashMap<u16, PcsRecord> {
    DashMap::new()
}

/// Relies on `DashMap::insert`: stores the record under `id`.
#[verifier::external_body]
fn map_insert(m: &DashMap<u16, PcsRecord>, id: u16, record: PcsRecord) {
    m.insert(id, record);
}

/// Relies on `DashMap::iter`: the keys present while it walks the map, in
/// no particular order.
#[verifier::external_body]
fn map_keys(m: &DashMap<u16, PcsRecord>) -> (r: Vec<u16>)
    ensures
        r@.no_duplicates(),
{
    m.iter().map(|e| *e.key()).collect()
}

/// Relies on `DashMap::get_mut`: with the record of `id` locked, applies
/// `PcsRecord::apply_goose`; `None` when there is no such record.
#[verifier::external_body]
fn apply_goose_at(m: &DashMap<u16, PcsRecord>, id: u16, pdu: &IECGoosePdu, now_ms: u64, grace_ms: u64) -> Option<GooseUpdate> {
    m.get_mut(&id).map(|mut r| r.apply_goose(pdu, now_ms, grace_ms))
}

/// Relies on `DashMap::get_mut`: with the record of `id` locked, applies
/// `PcsRecord::check_validity`; `None` when there is no such record.
#[verifier::external_body]
fn check_validity_at(m: &DashMap<u16, PcsRecord>, id: u16, now_ms: u64) -> (r: Option<ValidityChange>)
    ensures
        r matches Some(c) ==> exists|v: RecordView| c == sweep_change(v, now_ms),
{
    m.get_mut(&id).map(|mut r| r.check_validity(now_ms))
}

/// Relies on `DashMap::get_mut`: with the record of `id` locked, applies
/// `PcsRecord::apply_setpoint`; false when there is no such record.
#[verifier::external_body]
fn apply_setpoint_at(m: &DashMap<u16, PcsRecord>, id: u16, p: bool, q: bool, active: u32, reactive: u32) -> bool {
    m.get_mut(&id).map(|mut r| r.apply_setpoint(p, q, active, reactive)).is_some()
}

/// Relies on `DashMap::get_mut`: with the record of `id` locked, applies
/// `apply_pms_command`; false when there is no such record.
#[verifier::external_body]
fn apply_pms_command_at(m: &DashMap<u16, PcsRecord>, id: u16, cmd: &PmsCommand) -> bool {
    m.get_mut(&id).map(|mut r| apply_pms_command(&mut r, cmd)).is_some()
}

/// Relies on `DashMap::get`: with the record of `id` locked for reading,
/// applies `update_goose_frame_data`; false when there is no such record.
#[verifier::external_body]
fn update_frame_data_at(
    m: &DashMap<u16, PcsRecord>,
    id: u16,
    frame: &mut (EthernetHeader, IECGoosePdu),
    mapping: &PcsTypeMapping,
) -> (r: bool)
    ensures
        frame_data_updated(*old(frame), *final(frame), r),
{
    m.get(&id).map(|r| update_goose_frame_data(frame, &r, mapping)).is_some()
}

/// Relies on `DashMap::get`: with the record of `id` locked for reading,
/// gives `pcs_info` of it; `None` when there is no such record.
#[verifier::external_body]
fn info_at(
    m: &DashMap<u16, PcsRecord>,
    id: u16,
    cfg: Option<&(StPCSDataBytePosInAllDataCfg, Vec<u8>)>,
) -> (r: Option<StPCSinfo>)
    ensures
        r matches Some(i) ==> info_for(id, cfg, i),
{
    m.get(&id).map(|r| pcs_info(id, cfg, &r))
}

/// The records of one LAN.
pub struct PcsStore {
    lan: u8,
    records: DashMap<u16, PcsRecord>,
}

impl PcsStore {
    /// The LAN (1 or 2) whose records this store holds.
    pub closed spec fn lan_spec(&self) -> u8 {
        self.lan
    }

    pub fn lan(&self) -> (r: u8)
        ensures
            r == self.lan_spec(),
    {
        self.lan
    }

    pub fn new(lan: u8) -> (r: PcsStore)
        ensures
            r.lan_spec() == lan,
    {
        PcsStore { lan, records: map_new() }
    }

    /// Adds or replaces the record of `record.logical_id`.
    pub fn insert(&self, record: PcsRecord) {
        map_insert(&self.records, record.logical_id, record);
    }

    /// The logical ids present, in no particular order, each once.
    pub fn logical_ids(&self) -> (r: Vec<u16>)
        ensures
            r@.no_duplicates(),
    {
        map_keys(&self.records)
    }

    /// Routes an incoming frame to the record its APPID names on this LAN
    /// and applies it there; true when the record accepted it. An APPID the
    /// index does not know changes nothing.
    pub fn update_from_goose(
        &self,
        index: &AppIdIndex,
        header: &EthernetHeader,
        pdu: &IECGoosePdu,
        now_ms: u64,
        grace_ms: u64,
    ) -> (r: bool)
        ensures
            index.lan_lookup(self.lan_spec(), crate::pcs::index::appid_of(*header)) is None ==> !r,
    {
        let appid = (header.APPID[0] as u16) * 256 + header.APPID[1] as u16;
        match index.resolve(self.lan, appid) {
            Some(id) => match apply_goose_at(&self.records, id, pdu, now_ms, grace_ms) {
                Some(u) => u.accepted(),
                None => false,
            },
            None => false,
        }
    }

    /// The validity sweep at `now_ms`: every record is checked under its own
    /// lock; gives the ids that became invalid and those that became valid,
    /// each at most once, none in both lists.
    pub fn check_validity(&self, now_ms: u64) -> (r: (Vec<u16>, Vec<u16>))
        ensures
            r.0@.no_duplicates(),
            r.1@.no_duplicates(),
            forall|x: u16| r.0@.contains(x) ==> !r.1@.contains(x),
    {
        let ids = map_keys(&self.records);
        let mut invalid: Vec<u16> = Vec::new();
        let mut valid: Vec<u16> = Vec::new();
        let mut i: usize = 0;
        while i < ids.len()
            invariant
                i <= ids@.len(),
                ids@.no_duplicates(),
                invalid@.no_duplicates(),
                valid@.no_duplicates(),
                forall|k: int| 0 <= k < invalid@.len() ==> exists|j: int| 0 <= j < i && ids@[j] == #[trigger] invalid@[k],
                forall|k: int| 0 <= k < valid@.len() ==> exists|j: int| 0 <= j < i && ids@[j] == #[trigger] valid@[k],
                forall|x: u16| invalid@.contains(x) ==> !valid@.contains(x),
            decreases ids@.len() - i,
        {
            let id = ids[i];
            let ghost inv0 = invalid@;
            let ghost val0 = valid@;
            proof {
                assert forall|k: int| 0 <= k < inv0.len() implies inv0[k] != id by {
                    let j = choose|j: int| 0 <= j < i && ids@[j] == inv0[k];
                }
                assert forall|k: int| 0 <= k < val0.len() implies val0[k] != id by {
                    let j = choose|j: int| 0 <= j < i && ids@[j] == val0[k];
                }
            }
            match check_validity_at(&self.records, id, now_ms) {
                Some(ValidityChange::BecameInvalid) => invalid.push(id),
                Some(ValidityChange::BecameValid) => valid.push(id),
                _ => {},
            }
            proof {
                assert forall|k: int| 0 <= k < invalid@.len() implies exists|j: int| 0 <= j < i + 1 && ids@[j] == #[trigger] invalid@[k] by {
                    if k < inv0.len() {
                        let j = choose|j: int| 0 <= j < i && ids@[j] == inv0[k];
                        assert(ids@[j] == invalid@[k]);
                    } else {
                        assert(ids@[i as int] == invalid@[k]);
                    }
                }
                assert forall|k: int| 0 <= k < valid@.len() implies exists|j: int| 0 <= j < i + 1 && ids@[j] == #[trigger] valid@[k] by {
                    if k < val0.len() {
                        let j = choose|j: int| 0 <= j < i && ids@[j] == val0[k];
                        assert(ids@[j] == valid@[k]);
                    } else {
                        assert(ids@[i as int] == valid@[k]);
                    }
                }
                assert forall|x: u16| invalid@.contains(x) implies !valid@.contains(x) by {
                    if invalid@.contains(x) && valid@.contains(x) {
                        let a = choose|a: int| 0 <= a < invalid@.len() && invalid@[a] == x;
                        let b = choose|b: int| 0 <= b < valid@.len() && valid@[b] == x;
                        if a < inv0.len() && b < val0.len() {
                            assert(inv0.contains(x) && val0.contains(x));
                        }
                    }
                }
            }
            i = i + 1;
        }
        (invalid, valid)
    }

    /// Applies a setpoint to the record of `id`; false when there is none.
    pub fn apply_setpoint(&self, id: u16, active_enable: bool, reactive_enable: bool, active: u32, reactive: u32) -> bool {
        apply_setpoint_at(&self.records, id, active_enable, reactive_enable, active, reactive)
    }

    /// Applies a PMS command to the record of `id`; false when there is none.
    pub fn apply_pms_command(&self, id: u16, cmd: &PmsCommand) -> bool {
        apply_pms_command_at(&self.records, id, cmd)
    }

    /// Copies the feedback of the record of `id` into a publisher frame;
    /// false when there is no such record.
    pub fn update_frame_data(&self, id: u16, frame: &mut (EthernetHeader, IECGoosePdu), mapping: &PcsTypeMapping) -> (r: bool)
        ensures
            frame_data_updated(*old(frame), *final(frame), r),
    {
        update_frame_data_at(&self.records, id, frame, mapping)
    }

    /// The telemetry of the record of `id`; `None` when there is no such record.
    pub fn info(&self, id: u16, cfg: Option<&(StPCSDataBytePosInAllDataCfg, Vec<u8>)>) -> (r: Option<StPCSinfo>)
        ensures
            r matches Some(i) ==> info_for(id, cfg, i),
    {
        info_at(&self.records, id, cfg)
    }

    /// The telemetry of every record present, one entry per logical id;
    /// `cfg_index` gives the position in `cfgs` of each PCS's type entry.
    pub fn infos(&self, cfg_index: &HashMap<u16, usize>, cfgs: &Vec<(StPCSDataBytePosInAllDataCfg, Vec<u8>)>) -> (r: Vec<StPCSinfo>)
        ensures
            forall|i: int, j: int| 0 <= i < j < r@.len() ==> r@[i].logical_id != r@[j].logical_id,
    {
        let ids = map_keys(&self.records);
        let mut out: Vec<StPCSinfo> = Vec::new();
        let mut k: usize = 0;
        while k < ids.len()
            invariant
                k <= ids@.len(),
                ids@.no_duplicates(),
                forall|a: int| 0 <= a < out@.len() ==> exists|j: int| 0 <= j < k && ids@[j] == (#[trigger] out@[a]).logical_id,
                forall|a: int, b: int| 0 <= a < b < out@.len() ==> out@[a].logical_id != out@[b].logical_id,
            decreases ids@.len() - k,
        {
            let id = ids[k];
            let cfg = match cfg_index.get(&id) {
                Some(n) => if *n < cfgs.len() { Some(&cfgs[*n]) } else { None },
                None => None,
            };
            let ghost o0 = out@;
            match info_at(&self.records, id, cfg) {
                Some(info) => {
                    proof {
                        assert forall|a: int| 0 <= a < o0.len() implies o0[a].logical_id != id by {
                            let j = choose|j: int| 0 <= j < k && ids@[j] == o0[a].logical_id;
                        }
                    }
                    out.push(info);
                },
                None => {},
            }
            proof {
                assert forall|a: int| 0 <= a < out@.len() implies exists|j: int| 0 <= j < k + 1 && ids@[j] == (#[trigger] out@[a]).logical_id by {
                    if a < o0.len() {
                        let j = choose|j: int| 0 <= j < k && ids@[j] == o0[a].logical_id;
                        assert(out@[a] == o0[a]);
                    } else {
                        assert(ids@[k as int] == out@[a].logical_id);
                    }
                }
            }
            k = k + 1;
        }
        out
    }
}

/// A PMS command frame received at `now_ms`: it is first checked for
/// freshness against the PMS subscription `sub` (see
/// `PcsRecord::apply_goose`); when accepted, the command for each PCS in
/// `controlled` (index `i`, see `extract_command`) is applied to that PCS's
/// record on both LANs. True when the frame was accepted, so that the caller
/// signals the scheduler.
pub fn apply_pms_frame(
    sub: &mut PcsRecord,
    controlled: &Vec<u16>,
    pdu: &IECGoosePdu,
    now_ms: u64,
    grace_ms: u64,
    lan1: &PcsStore,
    lan2: &PcsStore,
) -> (r: bool)
    ensures
        ({
            let o = old(sub)@;
            r == is_newer(o.st_num, o.sq_num, o.conf_rev, pdu.stNum, pdu.sqNum, pdu.confRev)
        }),
        r ==> final(sub).holds_scalars_of(pdu) && final(sub)@.state_valid && final(sub)@.last_update == Some(now_ms),
        !r ==> final(sub).holds_scalars_of(&old(sub).pdu),
        final(sub).same_setpoints(&*old(sub)),
{
    let u = sub.apply_goose(pdu, now_ms, grace_ms);
    if !u.accepted() {
        return false;
    }
    let n = controlled.len();
    if n <= usize::MAX / 4 {
        let mut i: usize = 0;
        while i < n
            invariant
                n == controlled@.len(),
                n <= usize::MAX / 4,
                i <= n,
            decreases n - i,
        {
            let cmd = extract_command(&pdu.allData, n, i);
            lan1.apply_pms_command(controlled[i], &cmd);
            lan2.apply_pms_command(controlled[i], &cmd);
            i = i + 1;
        }
    }
    true
}

} // verus!
