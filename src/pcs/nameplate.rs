//! Nameplates: the per-PCS configuration rows, their normalisation and
//! validation.

use vstd::prelude::*;
use crate::text::{trim_str, trimmed};

verus! {

/// One PCS as configured in the nameplate table.
#[derive(Debug, Clone)]
pub struct NameplateConfig {
    pub row_number: Option<u16>,
    pub device_id: Option<String>,
    pub goose_appid: Option<u16>,
    pub goose_src_addr: Option<String>,
    pub goose_dst_addr: Option<String>,
    pub goose_tpid: Option<String>,
    pub goose_tci: Option<String>,
    pub goose_gocb_ref: Option<String>,
    pub goose_data_set: Option<String>,
    pub goose_go_id: Option<String>,
    pub goose_simulation: Option<String>,
    pub goose_conf_rev: Option<String>,
    pub goose_nds_com: Option<String>,
    pub feed_line_id: Option<u16>,
    pub feed_line_alias: Option<String>,
    pub logical_id: Option<u16>,
    pub pcs_type: Option<String>,
    pub pms_appid: Option<u16>,
}

/// A text field trimmed of whitespace, absent when nothing is left.
pub open spec fn norm_text(o: Option<String>) -> Option<Seq<char>> {
    match o {
        Some(s) => if trimmed(s@).len() == 0 { None } else { Some(trimmed(s@)) },
        None => None,
    }
}

pub open spec fn text_view(o: Option<String>) -> Option<Seq<char>> {
    match o {
        Some(s) => Some(s@),
        None => None,
    }
}

/// `n` is row `r` normalised: text fields trimmed, empty ones absent.
pub open spec fn is_normalized(n: NameplateConfig, r: NameplateConfig) -> bool {
    &&& n.row_number == r.row_number
    &&& text_view(n.device_id) == norm_text(r.device_id)
    &&& n.goose_appid == r.goose_appid
    &&& text_view(n.goose_src_addr) == norm_text(r.goose_src_addr)
    &&& text_view(n.goose_dst_addr) == norm_text(r.goose_dst_addr)
    &&& text_view(n.goose_tpid) == norm_text(r.goose_tpid)
    &&& text_view(n.goose_tci) == norm_text(r.goose_tci)
    &&& text_view(n.goose_gocb_ref) == norm_text(r.goose_gocb_ref)
    &&& text_view(n.goose_data_set) == norm_text(r.goose_data_set)
    &&& text_view(n.goose_go_id) == norm_text(r.goose_go_id)
    &&& text_view(n.goose_simulation) == norm_text(r.goose_simulation)
    &&& text_view(n.goose_conf_rev) == norm_text(r.goose_conf_rev)
    &&& text_view(n.goose_nds_com) == norm_text(r.goose_nds_com)
    &&& n.feed_line_id == r.feed_line_id
    &&& text_view(n.feed_line_alias) == norm_text(r.feed_line_alias)
    &&& n.logical_id == r.logical_id
    &&& text_view(n.pcs_type) == norm_text(r.pcs_type)
    &&& n.pms_appid == r.pms_appid
}

/// Whether row `r` is kept after the rows `kept`: the GOOSE APPID and the
/// logical id must be present, non-zero and new; the PMS APPID and feed line
/// id, where given, must not be zero; and the PCS type must be present.
pub open spec fn accepts(r: NameplateConfig, kept: Seq<NameplateConfig>) -> bool {
    &&& r.goose_appid is Some && r.goose_appid != Some(0u16)
    &&& r.logical_id is Some
    &&& !(r.goose_appid matches Some(a) && a != 0 && exists|j: int| 0 <= j < kept.len() && kept[j].goose_appid == Some(a))
    &&& r.pms_appid != Some(0u16)
    &&& r.logical_id != Some(0u16)
    &&& !(r.logical_id matches Some(l) && exists|j: int| 0 <= j < kept.len() && kept[j].logical_id == Some(l))
    &&& norm_text(r.pcs_type) is Some
    &&& r.feed_line_id != Some(0u16)
}

/// A kept row: GOOSE APPID and logical id present and non-zero, PCS type
/// present, and no zero PMS APPID or feed line id.
pub open spec fn valid_row(n: NameplateConfig) -> bool {
    &&& n.goose_appid is Some && n.goose_appid != Some(0u16)
    &&& n.logical_id is Some && n.logical_id != Some(0u16)
    &&& n.pcs_type is Some
    &&& n.pms_appid != Some(0u16)
    &&& n.feed_line_id != Some(0u16)
}

/// The indices of the rows kept, each checked against the rows kept before it.
pub open spec fn kept_indices(rows: Seq<NameplateConfig>) -> Seq<int>
    decreases rows.len(),
{
    if rows.len() == 0 {
        Seq::empty()
    } else {
        let prev = kept_indices(rows.drop_last());
        if accepts(rows.last(), prev.map_values(|k: int| rows[k])) {
            prev.push(rows.len() - 1)
        } else {
            prev
        }
    }
}

fn normalize_text(o: &Option<String>) -> (r: Option<String>)
    ensures
        text_view(r) == norm_text(*o),
{
    match o {
        Some(s) => {
            let t = trim_str(s.as_str());
            if t.is_empty() {
                None
            } else {
                Some(t.to_owned())
            }
        },
        None => None,
    }
}

fn normalize(r: &NameplateConfig) -> (n: NameplateConfig)
    ensures
        is_normalized(n, *r),
{
    NameplateConfig {
        row_number: r.row_number,
        device_id: normalize_text(&r.device_id),
        goose_appid: r.goose_appid,
        goose_src_addr: normalize_text(&r.goose_src_addr),
        goose_dst_addr: normalize_text(&r.goose_dst_addr),
        goose_tpid: normalize_text(&r.goose_tpid),
        goose_tci: normalize_text(&r.goose_tci),
        goose_gocb_ref: normalize_text(&r.goose_gocb_ref),
        goose_data_set: normalize_text(&r.goose_data_set),
        goose_go_id: normalize_text(&r.goose_go_id),
        goose_simulation: normalize_text(&r.goose_simulation),
        goose_conf_rev: normalize_text(&r.goose_conf_rev),
        goose_nds_com: normalize_text(&r.goose_nds_com),
        feed_line_id: r.feed_line_id,
        feed_line_alias: normalize_text(&r.feed_line_alias),
        logical_id: r.logical_id,
        pcs_type: normalize_text(&r.pcs_type),
        pms_appid: r.pms_appid,
    }
}

proof fn lemma_push_contains(s: Seq<u16>, x: u16, y: u16)
    ensures
        s.push(x).contains(y) <==> (s.contains(y) || x == y),
{
    if s.contains(y) {
        let i = choose|i: int| 0 <= i < s.len() && s[i] == y;
        assert(s.push(x)[i] == y);
    }
    if x == y {
        assert(s.push(x)[s.len() as int] == y);
    }
    if s.push(x).contains(y) {
        let i = choose|i: int| 0 <= i < s.len() + 1 && s.push(x)[i] == y;
        if i < s.len() {
            assert(s[i] == y);
        }
    }
}

fn contains_u16(v: &Vec<u16>, x: u16) -> (r: bool)
    ensures
        r == v@.contains(x),
{
    let mut i: usize = 0;
    while i < v.len()
        invariant
            i <= v@.len(),
            forall|j: int| 0 <= j < i ==> v@[j] != x,
        decreases v@.len() - i,
    {
        if v[i] == x {
            return true;
        }
        i = i + 1;
    }
    false
}

/// Normalises the rows and keeps, in order, those that `accepts` admits
/// against the rows kept before them; the others are skipped.
pub fn validate_nameplates(rows: &Vec<NameplateConfig>) -> (r: Vec<NameplateConfig>)
    ensures
        r@.len() == kept_indices(rows@).len(),
        forall|k: int| 0 <= k < r@.len() ==> is_normalized(#[trigger] r@[k], rows@[kept_indices(rows@)[k]]),
        forall|k: int| 0 <= k < r@.len() ==> valid_row(#[trigger] r@[k]),
        forall|k1: int, k2: int| 0 <= k1 < k2 < r@.len() ==> r@[k1].logical_id != r@[k2].logical_id
            && r@[k1].goose_appid != r@[k2].goose_appid,
{
    let mut out: Vec<NameplateConfig> = Vec::new();
    let mut seen_goose: Vec<u16> = Vec::new();
    let mut seen_logical: Vec<u16> = Vec::new();
    let ghost mut idx: Seq<int> = Seq::empty();
    let mut i: usize = 0;
    proof {
        assert(rows@.subrange(0, 0) =~= Seq::<NameplateConfig>::empty());
    }
    while i < rows.len()
        invariant
            i <= rows@.len(),
            idx == kept_indices(rows@.subrange(0, i as int)),
            forall|k: int| 0 <= k < idx.len() ==> 0 <= #[trigger] idx[k] < i,
            out@.len() == idx.len(),
            forall|k: int| 0 <= k < out@.len() ==> is_normalized(#[trigger] out@[k], rows@[idx[k]]),
            forall|k: int| 0 <= k < out@.len() ==> valid_row(#[trigger] out@[k]),
            forall|k1: int, k2: int| 0 <= k1 < k2 < out@.len() ==> out@[k1].logical_id != out@[k2].logical_id
                && out@[k1].goose_appid != out@[k2].goose_appid,
            forall|a: u16| seen_goose@.contains(a) <==> (a != 0 && exists|j: int| 0 <= j < idx.len() && #[trigger] rows@[idx[j]].goose_appid == Some(a)),
            forall|l: u16| seen_logical@.contains(l) <==> (exists|j: int| 0 <= j < idx.len() && #[trigger] rows@[idx[j]].logical_id == Some(l)),
        decreases rows@.len() - i,
    {
        let row = &rows[i];
        let ghost pre = rows@.subrange(0, i + 1);
        let ghost kept = idx.map_values(|k: int| pre[k]);
        proof {
            assert(pre.drop_last() =~= rows@.subrange(0, i as int));
            assert forall|j: int| 0 <= j < idx.len() implies #[trigger] kept[j] == rows@[idx[j]] by {
                assert(pre[idx[j]] == rows@[idx[j]]);
            }
        }
        let n = normalize(row);
        let mut bad = false;
        match row.goose_appid {
            Some(a) => {
                if a != 0 && contains_u16(&seen_goose, a) {
                    bad = true;
                }
            },
            None => {},
        }
        if row.goose_appid.is_none() || row.goose_appid == Some(0u16) || row.logical_id.is_none() {
            bad = true;
        }
        if row.pms_appid == Some(0u16) {
            bad = true;
        }
        match row.logical_id {
            Some(l) => {
                if l == 0 || contains_u16(&seen_logical, l) {
                    bad = true;
                }
            },
            None => {},
        }
        if n.pcs_type.is_none() {
            bad = true;
        }
        if row.feed_line_id == Some(0u16) {
            bad = true;
        }
        proof {
            match row.goose_appid {
                Some(a) => {
                    if a != 0 && exists|j: int| 0 <= j < kept.len() && kept[j].goose_appid == Some(a) {
                        let j = choose|j: int| 0 <= j < kept.len() && kept[j].goose_appid == Some(a);
                        assert(rows@[idx[j]].goose_appid == Some(a));
                    }
                    if a != 0 && seen_goose@.contains(a) {
                        let j = choose|j: int| 0 <= j < idx.len() && #[trigger] rows@[idx[j]].goose_appid == Some(a);
                        assert(kept[j].goose_appid == Some(a));
                    }
                },
                None => {},
            }
            match row.logical_id {
                Some(l) => {
                    if exists|j: int| 0 <= j < kept.len() && kept[j].logical_id == Some(l) {
                        let j = choose|j: int| 0 <= j < kept.len() && kept[j].logical_id == Some(l);
                        assert(rows@[idx[j]].logical_id == Some(l));
                    }
                    if seen_logical@.contains(l) {
                        let j = choose|j: int| 0 <= j < idx.len() && #[trigger] rows@[idx[j]].logical_id == Some(l);
                        assert(kept[j].logical_id == Some(l));
                    }
                },
                None => {},
            }
            assert(bad == !accepts(rows@[i as int], kept));
        }
        let ghost sg0 = seen_goose@;
        let ghost sl0 = seen_logical@;
        let ghost idx0 = idx;
        if !bad {
            match row.goose_appid {
                Some(a) => {
                    if a != 0 {
                        seen_goose.push(a);
                    }
                },
                None => {},
            }
            match row.logical_id {
                Some(l) => {
                    seen_logical.push(l);
                },
                None => {},
            }
            let ghost out0 = out@;
            proof {
                assert forall|k: int| 0 <= k < out0.len() implies out0[k].logical_id != n.logical_id
                    && out0[k].goose_appid != n.goose_appid by {
                    assert(out0[k].logical_id == rows@[idx0[k]].logical_id);
                    if out0[k].logical_id == n.logical_id {
                        assert(sl0.contains(row.logical_id->Some_0));
                    }
                    if out0[k].goose_appid == n.goose_appid {
                        assert(sg0.contains(row.goose_appid->Some_0));
                    }
                }
            }
            out.push(n);
            proof {
                assert forall|k1: int, k2: int| 0 <= k1 < k2 < out@.len() implies out@[k1].logical_id != out@[k2].logical_id
                    && out@[k1].goose_appid != out@[k2].goose_appid by {
                    if k2 < out0.len() {
                        assert(out@[k1] == out0[k1] && out@[k2] == out0[k2]);
                    } else {
                        assert(out@[k1] == out0[k1]);
                    }
                }
                idx = idx0.push(i as int);
                assert forall|a: u16| seen_goose@.contains(a) <==> (a != 0 && exists|j: int| 0 <= j < idx.len() && #[trigger] rows@[idx[j]].goose_appid == Some(a)) by {
                    match row.goose_appid {
                        Some(g) => {
                            if g != 0 {
                                assert(seen_goose@ == sg0.push(g));
                                lemma_push_contains(sg0, g, a);
                            } else {
                                assert(seen_goose@ == sg0);
                            }
                        },
                        None => {
                            assert(seen_goose@ == sg0);
                        },
                    }
                    if a != 0 && exists|j: int| 0 <= j < idx.len() && #[trigger] rows@[idx[j]].goose_appid == Some(a) {
                        let j = choose|j: int| 0 <= j < idx.len() && #[trigger] rows@[idx[j]].goose_appid == Some(a);
                        if j < idx0.len() {
                            assert(idx[j] == idx0[j]);
                        }
                    }
                    if sg0.contains(a) {
                        let j = choose|j: int| 0 <= j < idx0.len() && #[trigger] rows@[idx0[j]].goose_appid == Some(a);
                        assert(idx[j] == idx0[j]);
                    }
                    assert(idx[idx0.len() as int] == i);
                }
                assert forall|l: u16| seen_logical@.contains(l) <==> (exists|j: int| 0 <= j < idx.len() && #[trigger] rows@[idx[j]].logical_id == Some(l)) by {
                    match row.logical_id {
                        Some(g) => {
                            assert(seen_logical@ == sl0.push(g));
                            lemma_push_contains(sl0, g, l);
                        },
                        None => {
                            assert(seen_logical@ == sl0);
                        },
                    }
                    if exists|j: int| 0 <= j < idx.len() && #[trigger] rows@[idx[j]].logical_id == Some(l) {
                        let j = choose|j: int| 0 <= j < idx.len() && #[trigger] rows@[idx[j]].logical_id == Some(l);
                        if j < idx0.len() {
                            assert(idx[j] == idx0[j]);
                        }
                    }
                    if sl0.contains(l) {
                        let j = choose|j: int| 0 <= j < idx0.len() && #[trigger] rows@[idx0[j]].logical_id == Some(l);
                        assert(idx[j] == idx0[j]);
                    }
                    assert(idx[idx0.len() as int] == i);
                }
            }
        }
        proof {
            assert(pre.last() == rows@[i as int]);
            assert(kept_indices(pre) == idx);
        }
        i = i + 1;
    }
    proof {
        assert(rows@.subrange(0, rows@.len() as int) =~= rows@);
    }
    out
}

} // verus!
