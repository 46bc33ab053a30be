//! PMS command subscriptions: the PCS each PMS APPID controls, and the
//! extraction of per-PCS commands from a PMS command frame.

use vstd::prelude::*;
use std::collections::HashMap;
use crate::goose::types::{models, DataValue, IECData};
use crate::pcs::nameplate::NameplateConfig;
use crate::pcs::record::PcsRecord;
use crate::plc::image::INVALID_VALUE;

verus! {

broadcast use {vstd::std_specs::hash::group_hash_axioms, vstd::seq_lib::group_seq_properties};

/// The PMS command APPIDs, ascending, and for each the logical ids of the
/// PCS it controls, ascending.
#[derive(Debug, Clone)]
pub struct PmsConfig {
    pub pms_command_appid_list: Vec<u16>,
    pub pms_command_pcs_mapping: HashMap<u16, Vec<u16>>,
}

/// The logical ids of the nameplates controlled by PMS APPID `a`, in order.
pub open spec fn controlled_ids(nps: Seq<NameplateConfig>, a: u16) -> Seq<u16>
    decreases nps.len(),
{
    if nps.len() == 0 {
        Seq::empty()
    } else {
        let rest = controlled_ids(nps.drop_last(), a);
        let n = nps.last();
        if n.pms_appid == Some(a) && n.logical_id is Some {
            rest.push(n.logical_id->Some_0)
        } else {
            rest
        }
    }
}

pub open spec fn sorted_u16(s: Seq<u16>) -> bool {
    forall|i: int, j: int| 0 <= i < j < s.len() ==> s[i] <= s[j]
}

pub open spec fn strictly_increasing(s: Seq<u16>) -> bool {
    forall|i: int, j: int| 0 <= i < j < s.len() ==> s[i] < s[j]
}

/// The values of the ascending `v`, each once.
fn dedup_sorted(v: &Vec<u16>) -> (r: Vec<u16>)
    requires
        sorted_u16(v@),
    ensures
        strictly_increasing(r@),
        forall|a: u16| r@.contains(a) <==> v@.contains(a),
{
    let mut r: Vec<u16> = Vec::new();
    let mut i: usize = 0;
    while i < v.len()
        invariant
            sorted_u16(v@),
            i <= v@.len(),
            strictly_increasing(r@),
            forall|a: u16| r@.contains(a) <==> v@.subrange(0, i as int).contains(a),
            r@.len() > 0 ==> i > 0 && r@.last() == v@[i - 1],
        decreases v@.len() - i,
    {
        let ghost r0 = r@;
        if r.len() == 0 || r[r.len() - 1] != v[i] {
            r.push(v[i]);
        }
        proof {
            assert forall|a: u16| r@.contains(a) <==> v@.subrange(0, i + 1).contains(a) by {
                let prefix = v@.subrange(0, i as int);
                let extended = v@.subrange(0, i + 1);
                assert(extended =~= prefix.push(v@[i as int]));
                if extended.contains(a) {
                    let k = choose|k: int| 0 <= k < extended.len() && extended[k] == a;
                    if k < i {
                        assert(prefix[k] == a);
                    }
                }
                if prefix.contains(a) {
                    let k = choose|k: int| 0 <= k < prefix.len() && prefix[k] == a;
                    assert(extended[k] == a);
                }
                if r@.contains(a) {
                    let k = choose|k: int| 0 <= k < r@.len() && r@[k] == a;
                    if k < r0.len() {
                        assert(r0[k] == a);
                    }
                }
                if r0.contains(a) {
                    let k = choose|k: int| 0 <= k < r0.len() && r0[k] == a;
                    assert(r@[k] == a);
                }
                if a == v@[i as int] {
                    assert(extended[i as int] == a);
                    if r0.len() > 0 && r0.last() == a {
                        assert(r@[r0.len() - 1] == a);
                    } else {
                        assert(r@[r@.len() - 1] == a);
                    }
                }
            }
        }
        i = i + 1;
    }
    assert(v@.subrange(0, v@.len() as int) =~= v@);
    r
}

/// Relies on `slice::sort`: the same values in ascending order.
#[verifier::external_body]
fn sort_ids(v: &mut Vec<u16>)
    ensures
        final(v)@.to_multiset() == old(v)@.to_multiset(),
        sorted_u16(final(v)@),
{
    v.sort()
}

impl PmsConfig {
    /// Groups the logical ids of the nameplates by their PMS APPID; a
    /// nameplate without a PMS APPID or without a logical id is left out.
    pub fn load_pms_configs(nameplate_configs: &Vec<NameplateConfig>) -> (r: PmsConfig)
        ensures
            forall|a: u16| #[trigger] r.pms_command_pcs_mapping@.contains_key(a) <==> controlled_ids(nameplate_configs@, a).len() > 0,
            forall|a: u16| #[trigger] r.pms_command_pcs_mapping@.contains_key(a) ==> {
                &&& r.pms_command_pcs_mapping@[a]@.to_multiset() == controlled_ids(nameplate_configs@, a).to_multiset()
                &&& sorted_u16(r.pms_command_pcs_mapping@[a]@)
            },
            forall|a: u16| r.pms_command_appid_list@.contains(a) <==> #[trigger] r.pms_command_pcs_mapping@.contains_key(a),
            strictly_increasing(r.pms_command_appid_list@),
    {
        let nps = nameplate_configs;
        let mut map: HashMap<u16, Vec<u16>> = HashMap::new();
        let mut appids: Vec<u16> = Vec::new();
        let mut i: usize = 0;
        proof {
            assert(nps@.subrange(0, 0) =~= Seq::<NameplateConfig>::empty());
        }
        while i < nps.len()
            invariant
                i <= nps@.len(),
                forall|a: u16| #[trigger] map@.contains_key(a) <==> controlled_ids(nps@.subrange(0, i as int), a).len() > 0,
                forall|a: u16| #[trigger] map@.contains_key(a) ==> map@[a]@ == controlled_ids(nps@.subrange(0, i as int), a),
                forall|a: u16| appids@.contains(a) <==> #[trigger] map@.contains_key(a),
                forall|k1: int, k2: int| 0 <= k1 < k2 < appids@.len() ==> appids@[k1] != appids@[k2],
            decreases nps@.len() - i,
        {
            let ghost pre = nps@.subrange(0, i + 1);
            proof {
                assert(pre.drop_last() =~= nps@.subrange(0, i as int));
            }
            let np = &nps[i];
            match (np.pms_appid, np.logical_id) {
                (Some(a), Some(l)) => {
                    let ghost m0 = map@;
                    let ghost ap0 = appids@;
                    match map.remove(&a) {
                        Some(v) => {
                            let mut v = v;
                            v.push(l);
                            map.insert(a, v);
                        },
                        None => {
                            let mut v: Vec<u16> = Vec::new();
                            v.push(l);
                            map.insert(a, v);
                            appids.push(a);
                        },
                    }
                    proof {
                        if !m0.contains_key(a) {
                            assert(!ap0.contains(a));
                            assert forall|k1: int, k2: int| 0 <= k1 < k2 < appids@.len() implies appids@[k1] != appids@[k2] by {
                                if k2 == ap0.len() {
                                    assert(appids@[k1] == ap0[k1]);
                                }
                            }
                        }
                        assert forall|b: u16| #[trigger] map@.contains_key(b) ==> map@[b]@ == controlled_ids(pre, b) by {
                            if b != a && map@.contains_key(b) {
                                assert(m0.contains_key(b));
                            }
                        }
                    }
                },
                _ => {},
            }
            i = i + 1;
        }
        proof {
            assert(nps@.subrange(0, nps@.len() as int) =~= nps@);
        }
        let ghost m1 = map@;
        let mut j: usize = 0;
        while j < appids.len()
            invariant
                j <= appids@.len(),
                forall|a: u16| appids@.contains(a) <==> #[trigger] map@.contains_key(a),
                forall|a: u16| #[trigger] map@.contains_key(a) <==> m1.contains_key(a),
                forall|a: u16| #[trigger] map@.contains_key(a) ==> map@[a]@.to_multiset() == m1[a]@.to_multiset(),
                forall|k: int| 0 <= k < j ==> sorted_u16(map@[#[trigger] appids@[k]]@),
                forall|k1: int, k2: int| 0 <= k1 < k2 < appids@.len() ==> appids@[k1] != appids@[k2],
            decreases appids@.len() - j,
        {
            let a = appids[j];
            let ghost m2 = map@;
            match map.remove(&a) {
                Some(v) => {
                    let mut v = v;
                    sort_ids(&mut v);
                    map.insert(a, v);
                },
                None => {},
            }
            proof {
                assert forall|k: int| 0 <= k < j + 1 implies sorted_u16(map@[#[trigger] appids@[k]]@) by {
                    if k < j {
                        assert(appids@[k] != a);
                        assert(m2.contains_key(appids@[k]));
                    }
                }
            }
            j = j + 1;
        }
        let ghost unsorted = appids@;
        sort_ids(&mut appids);
        proof {
            assert forall|a: u16| appids@.contains(a) <==> #[trigger] map@.contains_key(a) by {
                unsorted.to_multiset_ensures();
                appids@.to_multiset_ensures();
                assert(appids@.to_multiset().count(a) == unsorted.to_multiset().count(a));
            }
            assert forall|a: u16| #[trigger] map@.contains_key(a) implies sorted_u16(map@[a]@) by {
                unsorted.to_multiset_ensures();
                assert(unsorted.contains(a));
                let k = choose|k: int| 0 <= k < unsorted.len() && unsorted[k] == a;
            }
        }
        let list = dedup_sorted(&appids);
        PmsConfig { pms_command_appid_list: list, pms_command_pcs_mapping: map }
    }
}

/// The command for one PCS in a PMS command frame; `None` marks a position
/// that holds a value of the wrong type.
#[derive(Debug, Clone, Copy, PartialEq, Eq)]
pub struct PmsCommand {
    pub active_enable: Option<bool>,
    pub reactive_enable: Option<bool>,
    /// IEEE-754 single bit patterns.
    pub active_setpoint: Option<u32>,
    pub reactive_setpoint: Option<u32>,
}

pub open spec fn bool_at(d: Seq<DataValue>, pos: int) -> Option<bool> {
    if 0 <= pos < d.len() {
        match d[pos] {
            DataValue::Boolean(b) => Some(b),
            _ => None,
        }
    } else {
        None
    }
}

pub open spec fn float_opt_at(d: Seq<DataValue>, pos: int) -> Option<u32> {
    if 0 <= pos < d.len() {
        match d[pos] {
            DataValue::Float32(x) => Some(x),
            _ => None,
        }
    } else {
        None
    }
}

fn bool_value(data: &Vec<IECData>, pos: usize) -> (r: Option<bool>)
    ensures
        r == bool_at(models(data@), pos as int),
{
    proof {
        crate::goose::value_codec::lemma_models_index(data@);
    }
    if pos < data.len() {
        match &data[pos] {
            IECData::Boolean(b) => Some(*b),
            _ => None,
        }
    } else {
        None
    }
}

fn float_value(data: &Vec<IECData>, pos: usize) -> (r: Option<u32>)
    ensures
        r == float_opt_at(models(data@), pos as int),
{
    proof {
        crate::goose::value_codec::lemma_models_index(data@);
    }
    if pos < data.len() {
        match &data[pos] {
            IECData::Float32(x) => Some(*x),
            _ => None,
        }
    } else {
        None
    }
}

/// The command for the PCS at index `i` of the `n` a PMS frame controls:
/// its flags at `2i` and `2i + 1`, its setpoints at `2n + 2i` and `2n + 2i + 1`.
pub fn extract_command(data: &Vec<IECData>, n: usize, i: usize) -> (r: PmsCommand)
    requires
        i < n,
        n <= usize::MAX / 4,
    ensures
        r.active_enable == bool_at(models(data@), 2 * i),
        r.reactive_enable == bool_at(models(data@), 2 * i + 1),
        r.active_setpoint == float_opt_at(models(data@), 2 * n + 2 * i),
        r.reactive_setpoint == float_opt_at(models(data@), 2 * n + 2 * i + 1),
{
    PmsCommand {
        active_enable: bool_value(data, 2 * i),
        reactive_enable: bool_value(data, 2 * i + 1),
        active_setpoint: float_value(data, 2 * n + 2 * i),
        reactive_setpoint: float_value(data, 2 * n + 2 * i + 1),
    }
}

/// The feedback a flag and a setpoint give: the setpoint when enabled, 0.0
/// when disabled, `INVALID_VALUE` when either could not be read.
pub open spec fn feedback_of(enable: Option<bool>, setpoint: Option<u32>) -> u32 {
    match enable {
        Some(false) => 0,
        Some(true) => match setpoint {
            Some(v) => v,
            None => INVALID_VALUE,
        },
        None => INVALID_VALUE,
    }
}

fn feedback(enable: Option<bool>, setpoint: Option<u32>) -> (r: u32)
    ensures
        r == feedback_of(enable, setpoint),
{
    match enable {
        Some(false) => 0,
        Some(true) => match setpoint {
            Some(v) => v,
            None => INVALID_VALUE,
        },
        None => INVALID_VALUE,
    }
}

/// Applies a PMS command to a PCS record: the enable flags (unreadable ones
/// count as disabled) and the feedback values of `feedback_of`.
pub fn apply_pms_command(record: &mut PcsRecord, cmd: &PmsCommand)
    ensures
        final(record).active_power_enable == (cmd.active_enable == Some(true)),
        final(record).reactive_power_enable == (cmd.reactive_enable == Some(true)),
        final(record).active_power_feedback == feedback_of(cmd.active_enable, cmd.active_setpoint),
        final(record).reactive_power_feedback == feedback_of(cmd.reactive_enable, cmd.reactive_setpoint),
        final(record)@ == old(record)@,
        final(record).logical_id == old(record).logical_id,
        final(record).feed_line_id == old(record).feed_line_id,
{
    record.active_power_enable = cmd.active_enable == Some(true);
    record.reactive_power_enable = cmd.reactive_enable == Some(true);
    record.active_power_feedback = feedback(cmd.active_enable, cmd.active_setpoint);
    record.reactive_power_feedback = feedback(cmd.reactive_enable, cmd.reactive_setpoint);
}

} // verus!
