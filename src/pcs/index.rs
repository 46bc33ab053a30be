//! The APPID index: which logical PCS, and of which type, publishes under
//! each GOOSE APPID, per LAN.

use vstd::prelude::*;
use std::collections::HashMap;
use crate::goose::types::EthernetHeader;
use crate::pcs::nameplate::NameplateConfig;

verus! {

broadcast use vstd::std_specs::hash::group_hash_axioms;

/// GOOSE APPID to `(logical id, PCS type)`, one map per LAN.
#[derive(Debug, Clone)]
pub struct AppIdIndex {
    pub appid_to_logical_lan1: HashMap<u16, (u16, String)>,
    pub appid_to_logical_lan2: HashMap<u16, (u16, String)>,
}

/// The logical id the last nameplate with APPID `a`, a logical id and a PCS
/// type gives, if any.
pub open spec fn indexed_id(nps: Seq<NameplateConfig>, a: u16) -> Option<u16>
    decreases nps.len(),
{
    if nps.len() == 0 {
        None
    } else {
        let n = nps.last();
        if n.goose_appid == Some(a) && n.logical_id is Some && n.pcs_type is Some {
            n.logical_id
        } else {
            indexed_id(nps.drop_last(), a)
        }
    }
}

/// The APPID of a header, read big-endian.
pub open spec fn appid_of(h: EthernetHeader) -> u16 {
    (h.APPID[0] as int * 256 + h.APPID[1] as int) as u16
}

impl AppIdIndex {
    /// The logical id behind `appid` on LAN `lan`, if the index holds one.
    pub open spec fn lan_lookup(&self, lan: u8, appid: u16) -> Option<u16> {
        if lan == 1 && self.appid_to_logical_lan1@.contains_key(appid) {
            Some(self.appid_to_logical_lan1@[appid].0)
        } else if lan == 2 && self.appid_to_logical_lan2@.contains_key(appid) {
            Some(self.appid_to_logical_lan2@[appid].0)
        } else {
            None
        }
    }

    /// The index of the nameplates, the same for both LANs.
    pub fn build(nameplates: &Vec<NameplateConfig>) -> (r: AppIdIndex)
        ensures
            forall|a: u16| #[trigger] r.appid_to_logical_lan1@.contains_key(a) <==> indexed_id(nameplates@, a) is Some,
            forall|a: u16| #[trigger] r.appid_to_logical_lan1@.contains_key(a) ==> Some(r.appid_to_logical_lan1@[a].0) == indexed_id(nameplates@, a),
            forall|a: u16| #[trigger] r.appid_to_logical_lan2@.contains_key(a) <==> indexed_id(nameplates@, a) is Some,
            forall|a: u16| #[trigger] r.appid_to_logical_lan2@.contains_key(a) ==> Some(r.appid_to_logical_lan2@[a].0) == indexed_id(nameplates@, a),
    {
        let mut m1: HashMap<u16, (u16, String)> = HashMap::new();
        let mut m2: HashMap<u16, (u16, String)> = HashMap::new();
        let mut i: usize = 0;
        proof {
            assert(nameplates@.subrange(0, 0) =~= Seq::<NameplateConfig>::empty());
        }
        while i < nameplates.len()
            invariant
                i <= nameplates@.len(),
                forall|a: u16| #[trigger] m1@.contains_key(a) <==> indexed_id(nameplates@.subrange(0, i as int), a) is Some,
                forall|a: u16| #[trigger] m1@.contains_key(a) ==> Some(m1@[a].0) == indexed_id(nameplates@.subrange(0, i as int), a),
                forall|a: u16| #[trigger] m2@.contains_key(a) <==> indexed_id(nameplates@.subrange(0, i as int), a) is Some,
                forall|a: u16| #[trigger] m2@.contains_key(a) ==> Some(m2@[a].0) == indexed_id(nameplates@.subrange(0, i as int), a),
            decreases nameplates@.len() - i,
        {
            proof {
                assert(nameplates@.subrange(0, i + 1).drop_last() =~= nameplates@.subrange(0, i as int));
            }
            let n = &nameplates[i];
            match (n.goose_appid, n.logical_id, &n.pcs_type) {
                (Some(a), Some(l), Some(t)) => {
                    m1.insert(a, (l, t.clone()));
                    m2.insert(a, (l, t.clone()));
                },
                _ => {},
            }
            i = i + 1;
        }
        proof {
            assert(nameplates@.subrange(0, nameplates@.len() as int) =~= nameplates@);
        }
        AppIdIndex { appid_to_logical_lan1: m1, appid_to_logical_lan2: m2 }
    }

    /// The logical id behind `appid` on LAN `lan` (1 or 2); `None` for an
    /// unknown APPID or LAN.
    pub fn resolve(&self, lan: u8, appid: u16) -> (r: Option<u16>)
        ensures
            lan == 1 ==> r == (if self.appid_to_logical_lan1@.contains_key(appid) { Some(self.appid_to_logical_lan1@[appid].0) } else { None }),
            lan == 2 ==> r == (if self.appid_to_logical_lan2@.contains_key(appid) { Some(self.appid_to_logical_lan2@[appid].0) } else { None }),
            lan != 1 && lan != 2 ==> r is None,
    {
        let m = if lan == 1 {
            &self.appid_to_logical_lan1
        } else if lan == 2 {
            &self.appid_to_logical_lan2
        } else {
            return None;
        };
        match m.get(&appid) {
            Some(v) => Some(v.0),
            None => None,
        }
    }
}

} // verus!
