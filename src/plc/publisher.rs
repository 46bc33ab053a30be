//! GOOSE publisher frames configured for PLC commands: the configuration
//! records, their conversion and validation, and frame initialisation.

use vstd::prelude::*;
use vstd::string::*;
use vstd::utf8::*;
use crate::goose::types::{models, DataValue, EthernetHeader, IECData, IECGoosePdu};
use crate::text::{decimal, mac_from_bytes, mac_of, parse_unsigned, push_decimal, unsigned_of, without_hex_prefixes};

verus! {

/// A publisher configuration entry as read from JSON: every field is text.
#[derive(Debug, Clone)]
pub struct PublisherConfigRaw {
    pub src_addr: String,
    pub dst_addr: String,
    pub tpid: String,
    pub tci: String,
    pub appid: String,
    pub gocb_ref: String,
    pub dat_set: String,
    pub goose_id: String,
    pub simulation: String,
    pub conf_rev: String,
    pub ndscom: String,
    pub number_of_pcs: String,
}

/// A publisher configuration entry with its numbers parsed.
#[derive(Debug, Clone)]
pub struct PublisherConfig {
    pub src_addr: String,
    pub dst_addr: String,
    pub tpid: u16,
    pub tci: u16,
    pub appid: u16,
    pub gocb_ref: String,
    pub dat_set: String,
    pub goose_id: String,
    pub simulation: bool,
    pub conf_rev: u32,
    pub ndscom: bool,
    pub number_of_pcs: u32,
}

/// The UTF-8 bytes of a text.
pub open spec fn bytes_of(s: Seq<char>) -> Seq<u8> {
    encode_utf8(s)
}

/// A hex field of the configuration: every leading `0x` dropped, then at most `0xFFFF`.
pub open spec fn hex_field(s: Seq<char>) -> Option<int> {
    match unsigned_of(without_hex_prefixes(bytes_of(s)), 16) {
        Some(v) => if v <= 0xFFFF { Some(v) } else { None },
        None => None,
    }
}

/// A decimal field of the configuration that fits 32 bits.
pub open spec fn u32_field(s: Seq<char>) -> Option<int> {
    match unsigned_of(bytes_of(s), 10) {
        Some(v) => if v <= u32::MAX { Some(v) } else { None },
        None => None,
    }
}

/// The text `true`, exactly.
pub open spec fn is_true_text(s: Seq<char>) -> bool {
    bytes_of(s) == seq![0x74u8, 0x72u8, 0x75u8, 0x65u8]
}

/// Whether the text is exactly `true`.
pub fn text_is_true(s: &String) -> (r: bool)
    ensures
        r == is_true_text(s@),
{
    let b = s.as_str().as_bytes();
    let r = b.len() == 4 && b[0] == 0x74 && b[1] == 0x72 && b[2] == 0x75 && b[3] == 0x65;
    proof {
        if r {
            assert(b@ =~= seq![0x74u8, 0x72u8, 0x75u8, 0x65u8]);
        }
    }
    r
}

/// Drops every leading `0x` from `b`; gives where the rest starts.
fn skip_hex_prefixes(b: &[u8]) -> (r: usize)
    ensures
        r <= b@.len(),
        b@.subrange(r as int, b@.len() as int) == without_hex_prefixes(b@),
{
    let mut i: usize = 0;
    proof {
        assert(b@.subrange(0, b@.len() as int) =~= b@);
    }
    while i < b.len() && b.len() - i >= 2 && b[i] == 0x30 && b[i + 1] == 0x78
        invariant
            i <= b@.len(),
            without_hex_prefixes(b@.subrange(i as int, b@.len() as int)) == without_hex_prefixes(b@),
        decreases b@.len() - i,
    {
        proof {
            assert(b@.subrange(i as int, b@.len() as int).subrange(2, (b@.len() - i) as int) =~= b@.subrange(
                i + 2,
                b@.len() as int,
            ));
        }
        i = i + 2;
    }
    i
}

fn parse_hex_field(s: &String) -> (r: Option<u16>)
    ensures
        r matches Some(v) ==> hex_field(s@) == Some(v as int),
        r is None ==> hex_field(s@) is None,
{
    let b = s.as_str().as_bytes();
    let start = skip_hex_prefixes(b);
    let mut rest: Vec<u8> = Vec::new();
    crate::goose::ber::append_range(&mut rest, b, start, b.len());
    assert(rest@ =~= without_hex_prefixes(bytes_of(s@)));
    let r = parse_unsigned(rest.as_slice(), 16, 0xFFFF);
    match r {
        Some(v) => Some(v as u16),
        None => None,
    }
}

fn parse_u32_field(s: &String) -> (r: Option<u32>)
    ensures
        r matches Some(v) ==> u32_field(s@) == Some(v as int),
        r is None ==> u32_field(s@) is None,
{
    let b = s.as_str().as_bytes();
    assert(b@ == bytes_of(s@));
    let r = parse_unsigned(b, 10, 0xFFFF_FFFF);
    match r {
        Some(v) => Some(v as u32),
        None => None,
    }
}

/// Which field of a raw configuration failed to parse.
#[derive(Debug, Clone, Copy, PartialEq, Eq)]
pub enum RawField {
    Tpid,
    Tci,
    Appid,
    ConfRev,
    NumberOfPcs,
}

impl RawField {
    /// The error message for this field.
    pub fn to_string(&self) -> (r: String)
        ensures
            r@ == match self {
                RawField::Tpid => "Failed to parse TPID"@,
                RawField::Tci => "Failed to parse TCI"@,
                RawField::Appid => "Failed to parse APPID"@,
                RawField::ConfRev => "Failed to parse conf_rev"@,
                RawField::NumberOfPcs => "Failed to parse number_of_pcs"@,
            },
    {
        match self {
            RawField::Tpid => String::from_str("Failed to parse TPID"),
            RawField::Tci => String::from_str("Failed to parse TCI"),
            RawField::Appid => String::from_str("Failed to parse APPID"),
            RawField::ConfRev => String::from_str("Failed to parse conf_rev"),
            RawField::NumberOfPcs => String::from_str("Failed to parse number_of_pcs"),
        }
    }
}

impl PublisherConfigRaw {
    /// Parses the numeric fields: TPID, TCI and APPID as hex (every leading
    /// `0x` dropped), confRev and the PCS count as decimal; `simulation` and
    /// `ndsCom` are set when their text is exactly `true`. The first field
    /// that does not parse, in that order, is the error.
    pub fn to_runtime(&self) -> (r: Result<PublisherConfig, RawField>)
        ensures
            r is Ok <==> (hex_field(self.tpid@) is Some && hex_field(self.tci@) is Some && hex_field(self.appid@) is Some
                && u32_field(self.conf_rev@) is Some && u32_field(self.number_of_pcs@) is Some),
            r matches Err(e) ==> e == (if hex_field(self.tpid@) is None {
                RawField::Tpid
            } else if hex_field(self.tci@) is None {
                RawField::Tci
            } else if hex_field(self.appid@) is None {
                RawField::Appid
            } else if u32_field(self.conf_rev@) is None {
                RawField::ConfRev
            } else {
                RawField::NumberOfPcs
            }),
            r matches Ok(c) ==> {
                &&& c.src_addr@ == self.src_addr@
                &&& c.dst_addr@ == self.dst_addr@
                &&& Some(c.tpid as int) == hex_field(self.tpid@)
                &&& Some(c.tci as int) == hex_field(self.tci@)
                &&& Some(c.appid as int) == hex_field(self.appid@)
                &&& c.gocb_ref@ == self.gocb_ref@
                &&& c.dat_set@ == self.dat_set@
                &&& c.goose_id@ == self.goose_id@
                &&& c.simulation == is_true_text(self.simulation@)
                &&& Some(c.conf_rev as int) == u32_field(self.conf_rev@)
                &&& c.ndscom == is_true_text(self.ndscom@)
                &&& Some(c.number_of_pcs as int) == u32_field(self.number_of_pcs@)
            },
    {
        let tpid = match parse_hex_field(&self.tpid) {
            Some(v) => v,
            None => {
                return Err(RawField::Tpid);
            },
        };
        let tci = match parse_hex_field(&self.tci) {
            Some(v) => v,
            None => {
                return Err(RawField::Tci);
            },
        };
        let appid = match parse_hex_field(&self.appid) {
            Some(v) => v,
            None => {
                return Err(RawField::Appid);
            },
        };
        let conf_rev = match parse_u32_field(&self.conf_rev) {
            Some(v) => v,
            None => {
                return Err(RawField::ConfRev);
            },
        };
        let number_of_pcs = match parse_u32_field(&self.number_of_pcs) {
            Some(v) => v,
            None => {
                return Err(RawField::NumberOfPcs);
            },
        };
        Ok(PublisherConfig {
            src_addr: self.src_addr.clone(),
            dst_addr: self.dst_addr.clone(),
            tpid,
            tci,
            appid,
            gocb_ref: self.gocb_ref.clone(),
            dat_set: self.dat_set.clone(),
            goose_id: self.goose_id.clone(),
            simulation: text_is_true(&self.simulation),
            conf_rev,
            ndscom: text_is_true(&self.ndscom),
            number_of_pcs,
        })
    }
}

/// Parses a MAC address: six two-digit hex groups separated by `:`, `-` or
/// `.`, or twelve hex digits among other characters (see `mac_of`).
pub fn parse_mac(s: &str) -> (r: Result<[u8; 6], String>)
    ensures
        r is Ok <==> mac_of(bytes_of(s@)) is Some,
        r matches Ok(m) ==> m@ == mac_of(bytes_of(s@))->Some_0,
{
    match mac_from_bytes(s.as_bytes()) {
        Some(m) => Ok(m),
        None => Err(String::from_str("invalid MAC format")),
    }
}

/// What is wrong with one publisher configuration entry.
#[derive(Debug, Clone, Copy, PartialEq, Eq)]
pub enum ConfigIssue {
    SourceMac,
    DestinationMac,
    ZeroAppid,
    ZeroPcsCount,
    TooManyPcs,
    EmptyGocbRef,
    EmptyDatSet,
    EmptyGoId,
}

/// Why no publisher frames could be built.
#[derive(Debug, Clone, Copy, PartialEq, Eq)]
pub enum FrameConfigError {
    /// No configuration entries at all.
    Empty,
    /// The first entry, by index, that is invalid, and its first problem.
    Invalid { index: usize, issue: ConfigIssue },
}

/// The first problem of a configuration entry, checked in this order.
pub open spec fn config_issue(c: PublisherConfig) -> Option<ConfigIssue> {
    if mac_of(bytes_of(c.src_addr@)) is None {
        Some(ConfigIssue::SourceMac)
    } else if mac_of(bytes_of(c.dst_addr@)) is None {
        Some(ConfigIssue::DestinationMac)
    } else if c.appid == 0 {
        Some(ConfigIssue::ZeroAppid)
    } else if c.number_of_pcs == 0 {
        Some(ConfigIssue::ZeroPcsCount)
    } else if 4 * c.number_of_pcs > u32::MAX {
        Some(ConfigIssue::TooManyPcs)
    } else if c.gocb_ref@.len() == 0 {
        Some(ConfigIssue::EmptyGocbRef)
    } else if c.dat_set@.len() == 0 {
        Some(ConfigIssue::EmptyDatSet)
    } else if c.goose_id@.len() == 0 {
        Some(ConfigIssue::EmptyGoId)
    } else {
        None
    }
}

impl ConfigIssue {
    pub open spec fn text(self) -> Seq<char> {
        match self {
            ConfigIssue::SourceMac => ": failed to parse source MAC address"@,
            ConfigIssue::DestinationMac => ": failed to parse destination MAC address"@,
            ConfigIssue::ZeroAppid => ": APPID cannot be 0"@,
            ConfigIssue::ZeroPcsCount => ": number_of_pcs cannot be 0, which leaves numDatSetEntries at 0"@,
            ConfigIssue::TooManyPcs => ": number_of_pcs is too large for numDatSetEntries"@,
            ConfigIssue::EmptyGocbRef => ": gocbRef cannot be empty"@,
            ConfigIssue::EmptyDatSet => ": datSet cannot be empty"@,
            ConfigIssue::EmptyGoId => ": goID cannot be empty"@,
        }
    }

    fn text_exec(&self) -> (r: &'static str)
        ensures
            r@ == self.text(),
    {
        match self {
            ConfigIssue::SourceMac => ": failed to parse source MAC address",
            ConfigIssue::DestinationMac => ": failed to parse destination MAC address",
            ConfigIssue::ZeroAppid => ": APPID cannot be 0",
            ConfigIssue::ZeroPcsCount => ": number_of_pcs cannot be 0, which leaves numDatSetEntries at 0",
            ConfigIssue::TooManyPcs => ": number_of_pcs is too large for numDatSetEntries",
            ConfigIssue::EmptyGocbRef => ": gocbRef cannot be empty",
            ConfigIssue::EmptyDatSet => ": datSet cannot be empty",
            ConfigIssue::EmptyGoId => ": goID cannot be empty",
        }
    }
}

impl FrameConfigError {
    /// The error message: `Config <index>: <problem>`.
    pub fn to_string(&self) -> (r: String)
        ensures
            r@ == match self {
                FrameConfigError::Empty => "Publisher configuration is empty"@,
                FrameConfigError::Invalid { index, issue } => "Config "@ + decimal(*index as nat) + issue.text(),
            },
    {
        match self {
            FrameConfigError::Empty => String::from_str("Publisher configuration is empty"),
            FrameConfigError::Invalid { index, issue } => {
                let mut m = String::from_str("Config ");
                push_decimal(&mut m, *index);
                m.append(issue.text_exec());
                m
            },
        }
    }
}

/// The big-endian bytes of a 16-bit number.
pub open spec fn be16(x: u16) -> Seq<u8> {
    seq![(x / 256) as u8, (x % 256) as u8]
}

fn be16_bytes(x: u16) -> (r: [u8; 2])
    ensures
        r@ == be16(x),
{
    let r = [(x / 256) as u8, (x % 256) as u8];
    assert(r@ =~= be16(x));
    r
}

/// The initial data set of a PLC command frame for `n` PCS: `2n` command
/// flags, then `2n` setpoints, all cleared.
pub open spec fn cleared_commands(n: nat) -> Seq<DataValue> {
    Seq::new(4 * n, |k: int| if k < 2 * n { DataValue::Boolean(false) } else { DataValue::Float32(0) })
}

/// The frame built from a valid configuration entry.
pub open spec fn frame_from_config(c: PublisherConfig, h: EthernetHeader, p: IECGoosePdu) -> bool {
    &&& h.srcAddr@ == mac_of(bytes_of(c.src_addr@))->Some_0
    &&& h.dstAddr@ == mac_of(bytes_of(c.dst_addr@))->Some_0
    &&& h.TPID@ == be16(c.tpid)
    &&& h.TCI@ == be16(c.tci)
    &&& h.etherType@ == seq![0x88u8, 0xB8u8]
    &&& h.APPID@ == be16(c.appid)
    &&& h.length@ == seq![0u8, 0u8]
    &&& p.gocbRef@ == c.gocb_ref@
    &&& p.timeAllowedtoLive == 5000
    &&& p.datSet@ == c.dat_set@
    &&& p.goID@ == c.goose_id@
    &&& p.t@ == seq![0u8; 8]
    &&& p.stNum == 0
    &&& p.sqNum == 0
    &&& p.simulation == c.simulation
    &&& p.confRev == c.conf_rev
    &&& p.ndsCom == c.ndscom
    &&& p.numDatSetEntries == 4 * c.number_of_pcs
    &&& models(p.allData@) == cleared_commands(c.number_of_pcs as nat)
}

fn issue_of(c: &PublisherConfig) -> (r: Option<ConfigIssue>)
    ensures
        r == config_issue(*c),
{
    if mac_from_bytes(c.src_addr.as_str().as_bytes()).is_none() {
        Some(ConfigIssue::SourceMac)
    } else if mac_from_bytes(c.dst_addr.as_str().as_bytes()).is_none() {
        Some(ConfigIssue::DestinationMac)
    } else if c.appid == 0 {
        Some(ConfigIssue::ZeroAppid)
    } else if c.number_of_pcs == 0 {
        Some(ConfigIssue::ZeroPcsCount)
    } else if c.number_of_pcs > u32::MAX / 4 {
        Some(ConfigIssue::TooManyPcs)
    } else if c.gocb_ref.as_str().is_empty() {
        Some(ConfigIssue::EmptyGocbRef)
    } else if c.dat_set.as_str().is_empty() {
        Some(ConfigIssue::EmptyDatSet)
    } else if c.goose_id.as_str().is_empty() {
        Some(ConfigIssue::EmptyGoId)
    } else {
        None
    }
}

fn build_frame(c: &PublisherConfig) -> (r: (EthernetHeader, IECGoosePdu))
    requires
        config_issue(*c) is None,
    ensures
        frame_from_config(*c, r.0, r.1),
{
    let src = match mac_from_bytes(c.src_addr.as_str().as_bytes()) {
        Some(m) => m,
        None => [0; 6],
    };
    let dst = match mac_from_bytes(c.dst_addr.as_str().as_bytes()) {
        Some(m) => m,
        None => [0; 6],
    };
    let h = EthernetHeader {
        srcAddr: src,
        dstAddr: dst,
        TPID: be16_bytes(c.tpid),
        TCI: be16_bytes(c.tci),
        etherType: [0x88, 0xB8],
        APPID: be16_bytes(c.appid),
        length: [0, 0],
    };
    let n = c.number_of_pcs as usize;
    let mut data: Vec<IECData> = Vec::new();
    let mut k: usize = 0;
    while k < 4 * n
        invariant
            n == c.number_of_pcs,
            4 * n <= u32::MAX,
            k <= 4 * n,
            data@.len() == k,
            forall|j: int| 0 <= j < k ==> #[trigger] data@[j].model() == cleared_commands(n as nat)[j],
        decreases 4 * n - k,
    {
        if k < 2 * n {
            data.push(IECData::Boolean(false));
        } else {
            data.push(IECData::Float32(0));
        }
        k = k + 1;
    }
    proof {
        crate::goose::value_codec::lemma_models_index(data@);
        assert(models(data@) =~= cleared_commands(n as nat));
    }
    let p = IECGoosePdu {
        gocbRef: c.gocb_ref.clone(),
        timeAllowedtoLive: 5000,
        datSet: c.dat_set.clone(),
        goID: c.goose_id.clone(),
        t: [0; 8],
        stNum: 0,
        sqNum: 0,
        simulation: c.simulation,
        confRev: c.conf_rev,
        ndsCom: c.ndscom,
        numDatSetEntries: 4 * c.number_of_pcs,
        allData: data,
    };
    assert(h.etherType@ =~= seq![0x88u8, 0xB8u8]);
    assert(h.length@ =~= seq![0u8, 0u8]);
    assert(p.t@ =~= seq![0u8; 8]);
    (h, p)
}

/// Builds one GOOSE frame per configuration entry, in order. Each carries
/// the entry's addresses, tag and identifiers, stNum and sqNum 0, a
/// time-to-live of 5000 ms and, for `n` PCS, `4n` data entries: `2n`
/// cleared command flags, then `2n` zero setpoints.
pub fn init_publisher_goose_frames(configs: &[PublisherConfig]) -> (r: Result<Vec<(EthernetHeader, IECGoosePdu)>, FrameConfigError>)
    ensures
        configs@.len() == 0 ==> r == Err::<Vec<(EthernetHeader, IECGoosePdu)>, FrameConfigError>(FrameConfigError::Empty),
        r matches Err(FrameConfigError::Invalid { index, issue }) ==> index < configs@.len() && config_issue(
            configs@[index as int],
        ) == Some(issue) && forall|j: int| 0 <= j < index ==> config_issue(#[trigger] configs@[j]) is None,
        r is Ok <==> configs@.len() > 0 && forall|j: int| 0 <= j < configs@.len() ==> config_issue(#[trigger] configs@[j]) is None,
        r matches Ok(frames) ==> frames@.len() == configs@.len() && forall|j: int| 0 <= j < configs@.len() ==> frame_from_config(
            #[trigger] configs@[j],
            frames@[j].0,
            frames@[j].1,
        ),
{
    if configs.len() == 0 {
        return Err(FrameConfigError::Empty);
    }
    let mut frames: Vec<(EthernetHeader, IECGoosePdu)> = Vec::new();
    let mut i: usize = 0;
    while i < configs.len()
        invariant
            i <= configs@.len(),
            frames@.len() == i,
            forall|j: int| 0 <= j < i ==> config_issue(#[trigger] configs@[j]) is None,
            forall|j: int| 0 <= j < i ==> frame_from_config(#[trigger] configs@[j], frames@[j].0, frames@[j].1),
        decreases configs@.len() - i,
    {
        match issue_of(&configs[i]) {
            Some(issue) => {
                return Err(FrameConfigError::Invalid { index: i, issue });
            },
            None => {},
        }
        let f = build_frame(&configs[i]);
        frames.push(f);
        i = i + 1;
    }
    Ok(frames)
}

} // verus!
