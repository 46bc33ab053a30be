//! Where the telemetry of each PCS type sits in its `allData`, and counts
//! of PCS by type.

use vstd::prelude::*;
use std::collections::HashMap;
use vstd::std_specs::hash::obeys_key_model;
use crate::text::{trim_str, trimmed};

verus! {

/// Positions of the telemetry fields in the `allData` of one PCS type, the
/// number of PCS of that type, and the status codes that mean "controllable".
#[derive(Debug, Clone)]
pub struct StPCSDataBytePosInAllDataCfg {
    pub pcstype: String,
    pub quantityofthistype: usize,
    pub pcs_realtime_active_power_pos: usize,
    pub pcs_realtime_reactive_power_pos: usize,
    pub pcs_maximum_charging_power_pos: usize,
    pub pcs_maximum_discharging_power_pos: usize,
    pub pcs_maximum_inductive_power_pos: usize,
    pub pcs_maximum_capacitive_power_pos: usize,
    pub pcs_soc_pos: usize,
    pub pcs_status_pos: usize,
    pub pcs_controllable_status_value: HashMap<String, u8>,
}

/// The sum of the quantities of `configs`.
pub open spec fn total_quantity(configs: Seq<StPCSDataBytePosInAllDataCfg>) -> int
    decreases configs.len(),
{
    if configs.len() == 0 {
        0
    } else {
        total_quantity(configs.drop_last()) + configs.last().quantityofthistype
    }
}

proof fn lemma_total_quantity_prefix(configs: Seq<StPCSDataBytePosInAllDataCfg>, i: int)
    requires
        0 <= i <= configs.len(),
    ensures
        0 <= total_quantity(configs.subrange(0, i)) <= total_quantity(configs),
    decreases configs.len(),
{
    if configs.len() > 0 {
        if i == configs.len() {
            assert(configs.subrange(0, i) =~= configs);
            lemma_total_quantity_prefix(configs.drop_last(), 0);
        } else {
            lemma_total_quantity_prefix(configs.drop_last(), i);
            assert(configs.drop_last().subrange(0, i) =~= configs.subrange(0, i));
        }
    } else {
        assert(configs.subrange(0, i) =~= configs);
    }
}

/// The number of PCS of all types together.
pub fn get_total_pcs_quantity(configs: &[StPCSDataBytePosInAllDataCfg]) -> (r: usize)
    requires
        total_quantity(configs@) <= usize::MAX,
    ensures
        r == total_quantity(configs@),
{
    let mut total: usize = 0;
    let mut i: usize = 0;
    proof {
        assert(configs@.subrange(0, 0) =~= Seq::<StPCSDataBytePosInAllDataCfg>::empty());
    }
    while i < configs.len()
        invariant
            i <= configs@.len(),
            total == total_quantity(configs@.subrange(0, i as int)),
            total_quantity(configs@) <= usize::MAX,
        decreases configs@.len() - i,
    {
        proof {
            assert(configs@.subrange(0, i + 1).drop_last() =~= configs@.subrange(0, i as int));
            lemma_total_quantity_prefix(configs@, i + 1);
        }
        total = total + configs[i].quantityofthistype;
        i = i + 1;
    }
    proof {
        assert(configs@.subrange(0, configs@.len() as int) =~= configs@);
    }
    total
}

/// The quantity of each PCS type; where a type repeats, its last entry counts.
pub open spec fn type_counts(configs: Seq<StPCSDataBytePosInAllDataCfg>) -> Map<String, usize>
    decreases configs.len(),
{
    if configs.len() == 0 {
        Map::empty()
    } else {
        type_counts(configs.drop_last()).insert(configs.last().pcstype, configs.last().quantityofthistype)
    }
}

/// Maps each PCS type to its quantity.
pub fn count_pcs_by_type(configs: &[StPCSDataBytePosInAllDataCfg]) -> (r: HashMap<String, usize>)
    ensures
        obeys_key_model::<String>() ==> r@ == type_counts(configs@),
{
    broadcast use vstd::std_specs::hash::group_hash_axioms;

    let mut counts: HashMap<String, usize> = HashMap::new();
    let mut i: usize = 0;
    proof {
        assert(configs@.subrange(0, 0) =~= Seq::<StPCSDataBytePosInAllDataCfg>::empty());
    }
    while i < configs.len()
        invariant
            i <= configs@.len(),
            obeys_key_model::<String>() ==> counts@ == type_counts(configs@.subrange(0, i as int)),
        decreases configs@.len() - i,
    {
        proof {
            assert(configs@.subrange(0, i + 1).drop_last() =~= configs@.subrange(0, i as int));
        }
        counts.insert(configs[i].pcstype.clone(), configs[i].quantityofthistype);
        i = i + 1;
    }
    proof {
        assert(configs@.subrange(0, configs@.len() as int) =~= configs@);
    }
    counts
}

/// What is wrong with a telemetry position entry.
#[derive(Debug, Clone, Copy, PartialEq, Eq)]
pub enum PositionIssue {
    /// The PCS type name is empty or only whitespace.
    EmptyType,
    /// The entry announces no PCS of its type.
    ZeroQuantity,
}

pub open spec fn position_issue(c: StPCSDataBytePosInAllDataCfg) -> Option<PositionIssue> {
    if trimmed(c.pcstype@).len() == 0 {
        Some(PositionIssue::EmptyType)
    } else if c.quantityofthistype == 0 {
        Some(PositionIssue::ZeroQuantity)
    } else {
        None
    }
}

/// Checks the telemetry position entries in order; the first bad one, with
/// its index, is the error.
pub fn validate_alldata_configs(configs: &[StPCSDataBytePosInAllDataCfg]) -> (r: Result<(), (usize, PositionIssue)>)
    ensures
        r is Ok <==> forall|i: int| 0 <= i < configs@.len() ==> position_issue(#[trigger] configs@[i]) is None,
        r matches Err((i, issue)) ==> i < configs@.len() && position_issue(configs@[i as int]) == Some(issue)
            && forall|j: int| 0 <= j < i ==> position_issue(#[trigger] configs@[j]) is None,
{
    let mut i: usize = 0;
    while i < configs.len()
        invariant
            i <= configs@.len(),
            forall|j: int| 0 <= j < i ==> position_issue(#[trigger] configs@[j]) is None,
        decreases configs@.len() - i,
    {
        let c = &configs[i];
        if trim_str(c.pcstype.as_str()).is_empty() {
            return Err((i, PositionIssue::EmptyType));
        }
        if c.quantityofthistype == 0 {
            return Err((i, PositionIssue::ZeroQuantity));
        }
        i = i + 1;
    }
    Ok(())
}

} // verus!
