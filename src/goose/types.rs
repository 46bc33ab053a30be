//! GOOSE data values, the Ethernet header and the GOOSE PDU.
#![allow(non_snake_case)]

use vstd::prelude::*;

verus! {

/// One value of a GOOSE data set. Floating-point values are carried as their
/// IEEE-754 bit patterns, which is exactly what travels on the wire.
#[derive(Debug)]
pub enum IECData {
    Array(Vec<IECData>),
    Structure(Vec<IECData>),
    Boolean(bool),
    Int8(i8),
    Int16(i16),
    Int32(i32),
    Int64(i64),
    Int8u(u8),
    Int16u(u16),
    Int32u(u32),
    Float32(u32),
    Float64(u64),
    VisibleString(String),
    MmsString(String),
    BitString { padding: u8, val: Vec<u8> },
    OctetString(Vec<u8>),
    UtcTime([u8; 8]),
}

/// Mathematical model of a GOOSE value.
pub enum DataValue {
    Array(Seq<DataValue>),
    Structure(Seq<DataValue>),
    Boolean(bool),
    Int8(i8),
    Int16(i16),
    Int32(i32),
    Int64(i64),
    Int8u(u8),
    Int16u(u16),
    Int32u(u32),
    Float32(u32),
    Float64(u64),
    VisibleString(Seq<char>),
    MmsString(Seq<char>),
    BitString(u8, Seq<u8>),
    OctetString(Seq<u8>),
    UtcTime(Seq<u8>),
}

impl IECData {
    pub open spec fn model(self) -> DataValue
        decreases self,
    {
        match self {
            IECData::Array(v) => DataValue::Array(models(v@)),
            IECData::Structure(v) => DataValue::Structure(models(v@)),
            IECData::Boolean(b) => DataValue::Boolean(b),
            IECData::Int8(x) => DataValue::Int8(x),
            IECData::Int16(x) => DataValue::Int16(x),
            IECData::Int32(x) => DataValue::Int32(x),
            IECData::Int64(x) => DataValue::Int64(x),
            IECData::Int8u(x) => DataValue::Int8u(x),
            IECData::Int16u(x) => DataValue::Int16u(x),
            IECData::Int32u(x) => DataValue::Int32u(x),
            IECData::Float32(x) => DataValue::Float32(x),
            IECData::Float64(x) => DataValue::Float64(x),
            IECData::VisibleString(s) => DataValue::VisibleString(s@),
            IECData::MmsString(s) => DataValue::MmsString(s@),
            IECData::BitString { padding, val } => DataValue::BitString(padding, val@),
            IECData::OctetString(v) => DataValue::OctetString(v@),
            IECData::UtcTime(t) => DataValue::UtcTime(t@),
        }
    }
}

/// The models of a sequence of values, in order.
pub open spec fn models(s: Seq<IECData>) -> Seq<DataValue>
    decreases s,
{
    if s.len() == 0 {
        Seq::empty()
    } else {
        models(s.subrange(0, s.len() - 1)).push(s[s.len() - 1].model())
    }
}

/// Ethernet header of a GOOSE frame. All fields hold wire bytes, most
/// significant first; `TPID == 0x8100` marks an 802.1Q tagged frame.
#[derive(Debug, Clone, Copy)]
pub struct EthernetHeader {
    pub srcAddr: [u8; 6],
    pub dstAddr: [u8; 6],
    pub TPID: [u8; 2],
    pub TCI: [u8; 2],
    pub etherType: [u8; 2],
    pub APPID: [u8; 2],
    pub length: [u8; 2],
}

impl EthernetHeader {
    /// A header with every field zero.
    pub fn new() -> (r: EthernetHeader)
        ensures
            r.srcAddr@ == seq![0u8; 6],
            r.dstAddr@ == seq![0u8; 6],
            r.TPID@ == seq![0u8; 2],
            r.TCI@ == seq![0u8; 2],
            r.etherType@ == seq![0u8; 2],
            r.APPID@ == seq![0u8; 2],
            r.length@ == seq![0u8; 2],
    {
        let r = EthernetHeader {
            srcAddr: [0; 6],
            dstAddr: [0; 6],
            TPID: [0; 2],
            TCI: [0; 2],
            etherType: [0; 2],
            APPID: [0; 2],
            length: [0; 2],
        };
        assert(r.srcAddr@ =~= seq![0u8; 6]);
        assert(r.dstAddr@ =~= seq![0u8; 6]);
        assert(r.TPID@ =~= seq![0u8; 2]);
        assert(r.TCI@ =~= seq![0u8; 2]);
        assert(r.etherType@ =~= seq![0u8; 2]);
        assert(r.APPID@ =~= seq![0u8; 2]);
        assert(r.length@ =~= seq![0u8; 2]);
        r
    }
}

/// Two headers hold the same bytes in every field.
pub open spec fn same_header(a: EthernetHeader, b: EthernetHeader) -> bool {
    &&& a.srcAddr@ == b.srcAddr@
    &&& a.dstAddr@ == b.dstAddr@
    &&& a.TPID@ == b.TPID@
    &&& a.TCI@ == b.TCI@
    &&& a.etherType@ == b.etherType@
    &&& a.APPID@ == b.APPID@
    &&& a.length@ == b.length@
}

/// A GOOSE PDU (IEC 61850-8-1 `IECGoosePdu`).
#[derive(Debug)]
pub struct IECGoosePdu {
    pub gocbRef: String,
    pub timeAllowedtoLive: u32,
    pub datSet: String,
    pub goID: String,
    pub t: [u8; 8],
    pub stNum: u32,
    pub sqNum: u32,
    pub simulation: bool,
    pub confRev: u32,
    pub ndsCom: bool,
    pub numDatSetEntries: u32,
    pub allData: Vec<IECData>,
}

/// Two PDUs agree field for field, `allData` included (order and variants).
pub open spec fn same_pdu(a: IECGoosePdu, b: IECGoosePdu) -> bool {
    &&& a.gocbRef@ == b.gocbRef@
    &&& a.timeAllowedtoLive == b.timeAllowedtoLive
    &&& a.datSet@ == b.datSet@
    &&& a.goID@ == b.goID@
    &&& a.t@ == b.t@
    &&& a.stNum == b.stNum
    &&& a.sqNum == b.sqNum
    &&& a.simulation == b.simulation
    &&& a.confRev == b.confRev
    &&& a.ndsCom == b.ndsCom
    &&& a.numDatSetEntries == b.numDatSetEntries
    &&& models(a.allData@) == models(b.allData@)
}

/// A deep copy of `d`.
pub fn copy_value(d: &IECData) -> (r: IECData)
    ensures
        r.model() == d.model(),
    decreases d,
{
    match d {
        IECData::Array(v) => IECData::Array(copy_values(v)),
        IECData::Structure(v) => IECData::Structure(copy_values(v)),
        IECData::Boolean(x) => IECData::Boolean(*x),
        IECData::Int8(x) => IECData::Int8(*x),
        IECData::Int16(x) => IECData::Int16(*x),
        IECData::Int32(x) => IECData::Int32(*x),
        IECData::Int64(x) => IECData::Int64(*x),
        IECData::Int8u(x) => IECData::Int8u(*x),
        IECData::Int16u(x) => IECData::Int16u(*x),
        IECData::Int32u(x) => IECData::Int32u(*x),
        IECData::Float32(x) => IECData::Float32(*x),
        IECData::Float64(x) => IECData::Float64(*x),
        IECData::VisibleString(s) => IECData::VisibleString(s.clone()),
        IECData::MmsString(s) => IECData::MmsString(s.clone()),
        IECData::BitString { padding, val } => IECData::BitString { padding: *padding, val: copy_bytes(val) },
        IECData::OctetString(v) => IECData::OctetString(copy_bytes(v)),
        IECData::UtcTime(t) => IECData::UtcTime(*t),
    }
}

fn copy_bytes(v: &Vec<u8>) -> (r: Vec<u8>)
    ensures
        r@ == v@,
{
    let mut r: Vec<u8> = Vec::new();
    let mut i: usize = 0;
    while i < v.len()
        invariant
            i <= v@.len(),
            r@ == v@.subrange(0, i as int),
        decreases v@.len() - i,
    {
        r.push(v[i]);
        i = i + 1;
        assert(r@ =~= v@.subrange(0, i as int));
    }
    assert(v@.subrange(0, v@.len() as int) =~= v@);
    r
}

/// A deep copy of a sequence of values.
pub fn copy_values(v: &Vec<IECData>) -> (r: Vec<IECData>)
    ensures
        models(r@) == models(v@),
    decreases v,
{
    let mut r: Vec<IECData> = Vec::new();
    let mut i: usize = 0;
    while i < v.len()
        invariant
            i <= v@.len(),
            models(r@) == models(v@.subrange(0, i as int)),
        decreases v@.len() - i,
    {
        proof {
            assert(decreases_to!(v => v@[i as int]));
        }
        let d = copy_value(&v[i]);
        proof {
            assert(r@.push(d).subrange(0, r@.len() as int) =~= r@);
            assert(v@.subrange(0, i + 1).subrange(0, i as int) =~= v@.subrange(0, i as int));
        }
        r.push(d);
        i = i + 1;
    }
    assert(v@.subrange(0, v@.len() as int) =~= v@);
    r
}

impl IECData {
    /// The elements of an array.
    pub fn as_array(&self) -> (r: Option<&Vec<IECData>>)
        ensures
            r matches Some(v) ==> self is Array && *v == self->Array_0,
            r is None ==> !(self is Array),
    {
        match self {
            IECData::Array(v) => Some(v),
            _ => None,
        }
    }

    /// The members of a structure.
    pub fn as_structure(&self) -> (r: Option<&Vec<IECData>>)
        ensures
            r matches Some(v) ==> self is Structure && *v == self->Structure_0,
            r is None ==> !(self is Structure),
    {
        match self {
            IECData::Structure(v) => Some(v),
            _ => None,
        }
    }

    /// The value of a `Boolean`.
    pub fn as_bool(&self) -> (r: Option<bool>)
        ensures
            r == (match self {
                IECData::Boolean(x) => Some(*x),
                _ => None::<bool>,
            }),
    {
        match self {
            IECData::Boolean(x) => Some(*x),
            _ => None,
        }
    }

    /// The value of a `Int8`.
    pub fn as_i8(&self) -> (r: Option<i8>)
        ensures
            r == (match self {
                IECData::Int8(x) => Some(*x),
                _ => None::<i8>,
            }),
    {
        match self {
            IECData::Int8(x) => Some(*x),
            _ => None,
        }
    }

    /// The value of a `Int16`.
    pub fn as_i16(&self) -> (r: Option<i16>)
        ensures
            r == (match self {
                IECData::Int16(x) => Some(*x),
                _ => None::<i16>,
            }),
    {
        match self {
            IECData::Int16(x) => Some(*x),
            _ => None,
        }
    }

    /// The value of a `Int32`.
    pub fn as_i32(&self) -> (r: Option<i32>)
        ensures
            r == (match self {
                IECData::Int32(x) => Some(*x),
                _ => None::<i32>,
            }),
    {
        match self {
            IECData::Int32(x) => Some(*x),
            _ => None,
        }
    }

    /// The value of a `Int64`.
    pub fn as_i64(&self) -> (r: Option<i64>)
        ensures
            r == (match self {
                IECData::Int64(x) => Some(*x),
                _ => None::<i64>,
            }),
    {
        match self {
            IECData::Int64(x) => Some(*x),
            _ => None,
        }
    }

    /// The value of a `Int8u`.
    pub fn as_u8(&self) -> (r: Option<u8>)
        ensures
            r == (match self {
                IECData::Int8u(x) => Some(*x),
                _ => None::<u8>,
            }),
    {
        match self {
            IECData::Int8u(x) => Some(*x),
            _ => None,
        }
    }

    /// The value of a `Int16u`.
    pub fn as_u16(&self) -> (r: Option<u16>)
        ensures
            r == (match self {
                IECData::Int16u(x) => Some(*x),
                _ => None::<u16>,
            }),
    {
        match self {
            IECData::Int16u(x) => Some(*x),
            _ => None,
        }
    }

    /// The value of a `Int32u`.
    pub fn as_u32(&self) -> (r: Option<u32>)
        ensures
            r == (match self {
                IECData::Int32u(x) => Some(*x),
                _ => None::<u32>,
            }),
    {
        match self {
            IECData::Int32u(x) => Some(*x),
            _ => None,
        }
    }

    /// The bit pattern of a single-precision float.
    pub fn as_f32(&self) -> (r: Option<u32>)
        ensures
            r == (match self {
                IECData::Float32(x) => Some(*x),
                _ => None::<u32>,
            }),
    {
        match self {
            IECData::Float32(x) => Some(*x),
            _ => None,
        }
    }

    /// The bit pattern of a double-precision float.
    pub fn as_f64(&self) -> (r: Option<u64>)
        ensures
            r == (match self {
                IECData::Float64(x) => Some(*x),
                _ => None::<u64>,
            }),
    {
        match self {
            IECData::Float64(x) => Some(*x),
            _ => None,
        }
    }

    /// The text of a visible string.
    pub fn as_visible_string(&self) -> (r: Option<&String>)
        ensures
            r matches Some(v) ==> self is VisibleString && *v == self->VisibleString_0,
            r is None ==> !(self is VisibleString),
    {
        match self {
            IECData::VisibleString(v) => Some(v),
            _ => None,
        }
    }

    /// The text of an MMS string.
    pub fn as_mms_string(&self) -> (r: Option<&String>)
        ensures
            r matches Some(v) ==> self is MmsString && *v == self->MmsString_0,
            r is None ==> !(self is MmsString),
    {
        match self {
            IECData::MmsString(v) => Some(v),
            _ => None,
        }
    }

    /// The padding and bytes of a bit string.
    pub fn as_bit_string(&self) -> (r: Option<(u8, &Vec<u8>)>)
        ensures
            r matches Some(v) ==> self is BitString && v.0 == self->padding && *v.1 == self->val,
            r is None ==> !(self is BitString),
    {
        match self {
            IECData::BitString { padding, val } => Some((*padding, val)),
            _ => None,
        }
    }

    /// The bytes of an octet string.
    pub fn as_octet_string(&self) -> (r: Option<&Vec<u8>>)
        ensures
            r matches Some(v) ==> self is OctetString && *v == self->OctetString_0,
            r is None ==> !(self is OctetString),
    {
        match self {
            IECData::OctetString(v) => Some(v),
            _ => None,
        }
    }

    /// The eight bytes of a time stamp.
    pub fn as_utc_time(&self) -> (r: Option<&[u8; 8]>)
        ensures
            r matches Some(v) ==> self is UtcTime && *v == self->UtcTime_0,
            r is None ==> !(self is UtcTime),
    {
        match self {
            IECData::UtcTime(t) => Some(t),
            _ => None,
        }
    }

    pub fn is_array(&self) -> (r: bool)
        ensures
            r == self is Array,
    {
        matches!(self, IECData::Array(_))
    }

    pub fn is_structure(&self) -> (r: bool)
        ensures
            r == self is Structure,
    {
        matches!(self, IECData::Structure(_))
    }

    pub fn is_bool(&self) -> (r: bool)
        ensures
            r == self is Boolean,
    {
        matches!(self, IECData::Boolean(_))
    }

    /// Any signed or unsigned integer.
    pub fn is_integer(&self) -> (r: bool)
        ensures
            r == (self is Int8 || self is Int16 || self is Int32 || self is Int64 || self is Int8u || self is Int16u
                || self is Int32u),
    {
        matches!(
            self,
            IECData::Int8(_) | IECData::Int16(_) | IECData::Int32(_) | IECData::Int64(_) | IECData::Int8u(_)
                | IECData::Int16u(_) | IECData::Int32u(_)
        )
    }

    pub fn is_float(&self) -> (r: bool)
        ensures
            r == (self is Float32 || self is Float64),
    {
        matches!(self, IECData::Float32(_) | IECData::Float64(_))
    }

    /// A visible or an MMS string.
    pub fn is_string(&self) -> (r: bool)
        ensures
            r == (self is VisibleString || self is MmsString),
    {
        matches!(self, IECData::VisibleString(_) | IECData::MmsString(_))
    }

    pub fn is_bit_string(&self) -> (r: bool)
        ensures
            r == self is BitString,
    {
        matches!(self, IECData::BitString { .. })
    }

    pub fn is_octet_string(&self) -> (r: bool)
        ensures
            r == self is OctetString,
    {
        matches!(self, IECData::OctetString(_))
    }

    pub fn is_utc_time(&self) -> (r: bool)
        ensures
            r == self is UtcTime,
    {
        matches!(self, IECData::UtcTime(_))
    }

    /// The name of the variant, for logs.
    pub fn variant_name(&self) -> &'static str {
        match self {
            IECData::Array(_) => "array",
            IECData::Structure(_) => "structure",
            IECData::Boolean(_) => "boolean",
            IECData::Int8(_) => "int8",
            IECData::Int16(_) => "int16",
            IECData::Int32(_) => "int32",
            IECData::Int64(_) => "int64",
            IECData::Int8u(_) => "int8u",
            IECData::Int16u(_) => "int16u",
            IECData::Int32u(_) => "int32u",
            IECData::Float32(_) => "float32",
            IECData::Float64(_) => "float64",
            IECData::VisibleString(_) => "visible_string",
            IECData::MmsString(_) => "mms_string",
            IECData::BitString { .. } => "bit_string",
            IECData::OctetString(_) => "octet_string",
            IECData::UtcTime(_) => "utc_time",
        }
    }
}

} // verus!
