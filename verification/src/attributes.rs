//! Path attributes of UPDATE messages and their wire form.
use vstd::prelude::*;
use crate::nlri::{
    address_afi, all_valid, decode_mp_reach_value, decode_mp_unreach_value,
    lemma_mp_reach_value_roundtrip, lemma_mp_unreach_value_roundtrip, mp_reach_value,
    mp_unreach_body, nlri_afi, normalized, spec_mp_reach_value, spec_mp_unreach_value, Mpnlri,
    MpnlriModel, Mpunlri, MpunlriModel, Nlri,
};
use crate::net::IpAddress;
use crate::types::AddressFamily;
use crate::wire::{
    be_bytes, be_value, copy_range, lemma_be_bytes_len, lemma_be_roundtrip_small, pow256, push_all,
    push_u16, push_u32, read_u16, read_u32,
};

verus! {

/// The ORIGIN attribute value.
#[derive(Debug, PartialEq, Eq, Clone, Copy, Hash, Structural)]
pub enum OriginType {
    Igp,
    Egp,
    Incomplete,
}

/// The kind of an AS_PATH segment.
#[derive(Debug, PartialEq, Eq, Clone, Copy, Hash, Structural)]
pub enum ASPATHSegmentType {
    AsSet,
    AsSequence,
}

pub open spec fn origin_code(o: OriginType) -> u8 {
    match o {
        OriginType::Igp => 0,
        OriginType::Egp => 1,
        OriginType::Incomplete => 2,
    }
}

pub open spec fn origin_from_code(v: u8) -> Option<OriginType> {
    if v == 0 {
        Some(OriginType::Igp)
    } else if v == 1 {
        Some(OriginType::Egp)
    } else if v == 2 {
        Some(OriginType::Incomplete)
    } else {
        None
    }
}

pub open spec fn segment_type_code(t: ASPATHSegmentType) -> u8 {
    match t {
        ASPATHSegmentType::AsSet => 1,
        ASPATHSegmentType::AsSequence => 2,
    }
}

pub open spec fn segment_type_from_code(v: u8) -> Option<ASPATHSegmentType> {
    if v == 1 {
        Some(ASPATHSegmentType::AsSet)
    } else if v == 2 {
        Some(ASPATHSegmentType::AsSequence)
    } else {
        None
    }
}

impl OriginType {
    /// The ORIGIN code.
    pub fn to_u8(&self) -> (r: u8)
        ensures
            r == origin_code(*self),
    {
        match self {
            OriginType::Igp => 0,
            OriginType::Egp => 1,
            OriginType::Incomplete => 2,
        }
    }

    /// The origin with code `v`, if there is one.
    pub fn from_u8(v: u8) -> (r: Option<OriginType>)
        ensures
            r == origin_from_code(v),
    {
        if v == 0 {
            Some(OriginType::Igp)
        } else if v == 1 {
            Some(OriginType::Egp)
        } else if v == 2 {
            Some(OriginType::Incomplete)
        } else {
            None
        }
    }
}

impl ASPATHSegmentType {
    /// The segment type code.
    pub fn to_u8(&self) -> (r: u8)
        ensures
            r == segment_type_code(*self),
    {
        match self {
            ASPATHSegmentType::AsSet => 1,
            ASPATHSegmentType::AsSequence => 2,
        }
    }

    /// The segment type with code `v`, if there is one.
    pub fn from_u8(v: u8) -> (r: Option<ASPATHSegmentType>)
        ensures
            r == segment_type_from_code(v),
    {
        if v == 1 {
            Some(ASPATHSegmentType::AsSet)
        } else if v == 2 {
            Some(ASPATHSegmentType::AsSequence)
        } else {
            None
        }
    }
}

/// One segment of an AS_PATH.
#[derive(Debug, PartialEq, Eq, Clone, Hash)]
pub struct ASPATHSegment {
    pub segment_type: ASPATHSegmentType,
    pub as_list: Vec<u16>,
}

/// The model of an AS_PATH segment.
pub struct SegmentModel {
    pub segment_type: ASPATHSegmentType,
    pub as_list: Seq<u16>,
}

impl View for ASPATHSegment {
    type V = SegmentModel;

    open spec fn view(&self) -> SegmentModel {
        SegmentModel { segment_type: self.segment_type, as_list: self.as_list@ }
    }
}

/// An AS_PATH: its segments in order.
pub type Aspath = Vec<ASPATHSegment>;

/// The models of the segments of an AS_PATH.
pub open spec fn aspath_view(p: Seq<ASPATHSegment>) -> Seq<SegmentModel> {
    p.map_values(|s: ASPATHSegment| s@)
}

/// The length a segment contributes to the AS_PATH length: the number of
/// ASes of a sequence, one for a set.
pub open spec fn segment_len(s: SegmentModel) -> nat {
    match s.segment_type {
        ASPATHSegmentType::AsSequence => s.as_list.len(),
        ASPATHSegmentType::AsSet => 1,
    }
}

/// The length of an AS_PATH: the sum of its segment lengths.
pub open spec fn aspath_len(p: Seq<SegmentModel>) -> nat
    decreases p.len(),
{
    if p.len() == 0 {
        0
    } else {
        aspath_len(p.drop_last()) + segment_len(p.last())
    }
}

/// All the ASes of an AS_PATH, segment after segment.
pub open spec fn aspath_flat(p: Seq<SegmentModel>) -> Seq<u16>
    decreases p.len(),
{
    if p.len() == 0 {
        Seq::empty()
    } else {
        aspath_flat(p.drop_last()) + p.last().as_list
    }
}

/// Big-endian two-octet encoding of each number of `s`.
pub open spec fn u16s_wire(s: Seq<u16>) -> Seq<u8>
    decreases s.len(),
{
    if s.len() == 0 {
        Seq::empty()
    } else {
        u16s_wire(s.drop_last()) + be_bytes(s.last() as nat, 2)
    }
}

/// The wire form of a segment: its type, its AS count (modulo 256), then
/// each AS on two octets.
pub open spec fn segment_wire(s: SegmentModel) -> Seq<u8> {
    seq![segment_type_code(s.segment_type), (s.as_list.len() % 256) as u8] + u16s_wire(
        s.as_list,
    )
}

/// The wire forms of the segments of an AS_PATH, one after the other.
pub open spec fn aspath_wire(p: Seq<SegmentModel>) -> Seq<u8>
    decreases p.len(),
{
    if p.len() == 0 {
        Seq::empty()
    } else {
        aspath_wire(p.drop_last()) + segment_wire(p.last())
    }
}

impl ASPATHSegment {
    /// The length the segment contributes to the AS_PATH length.
    pub fn len(&self) -> (r: usize)
        ensures
            r == segment_len(self@),
    {
        match self.segment_type {
            ASPATHSegmentType::AsSequence => self.as_list.len(),
            ASPATHSegmentType::AsSet => 1,
        }
    }

    /// A copy of the segment.
    pub fn copy(&self) -> (r: ASPATHSegment)
        ensures
            r@ == self@,
    {
        ASPATHSegment { segment_type: self.segment_type, as_list: self.as_list.clone() }
    }

    /// Appends the wire form of the segment to `buf`.
    pub fn write_to(&self, buf: &mut Vec<u8>)
        ensures
            final(buf)@ == old(buf)@ + segment_wire(self@),
    {
        buf.push(self.segment_type.to_u8());
        buf.push((self.as_list.len() % 256) as u8);
        let mut i: usize = 0;
        while i < self.as_list.len()
            invariant
                i <= self.as_list.len(),
                buf@ == old(buf)@ + seq![
                    segment_type_code(self.segment_type),
                    (self.as_list@.len() % 256) as u8,
                ] + u16s_wire(self.as_list@.take(i as int)),
            decreases self.as_list.len() - i,
        {
            push_u16(buf, self.as_list[i]);
            proof {
                assert(self.as_list@.take(i + 1).drop_last() =~= self.as_list@.take(i as int));
            }
            i = i + 1;
        }
        assert(self.as_list@.take(self.as_list@.len() as int) =~= self.as_list@);
    }

    /// The wire form of the segment.
    pub fn to_bytes(&self) -> (r: Vec<u8>)
        ensures
            r@ == segment_wire(self@),
    {
        let mut buf: Vec<u8> = Vec::new();
        self.write_to(&mut buf);
        assert(buf@ =~= segment_wire(self@));
        buf
    }
}

/// Copies an AS_PATH.
pub fn copy_aspath(p: &Vec<ASPATHSegment>) -> (r: Vec<ASPATHSegment>)
    ensures
        aspath_view(r@) == aspath_view(p@),
{
    let mut r: Vec<ASPATHSegment> = Vec::new();
    let mut i: usize = 0;
    while i < p.len()
        invariant
            i <= p.len(),
            r@.len() == i,
            forall|j: int| 0 <= j < i ==> (#[trigger] r@[j])@ == p@[j]@,
        decreases p.len() - i,
    {
        r.push(p[i].copy());
        i = i + 1;
    }
    assert(aspath_view(r@) =~= aspath_view(p@));
    r
}

/// The sum of the segment lengths of an AS_PATH.
pub fn aspath_length(p: &Vec<ASPATHSegment>) -> (r: u64)
    ensures
        aspath_len(aspath_view(p@)) <= u64::MAX ==> r as nat == aspath_len(aspath_view(p@)),
        aspath_len(aspath_view(p@)) > u64::MAX ==> r == u64::MAX,
{
    let mut total: u64 = 0;
    let mut i: usize = 0;
    let mut saturated = false;
    while i < p.len()
        invariant
            i <= p.len(),
            !saturated ==> total as nat == aspath_len(aspath_view(p@.take(i as int))),
            saturated ==> aspath_len(aspath_view(p@.take(i as int))) > u64::MAX,
        decreases p.len() - i,
    {
        let l = p[i].len();
        proof {
            assert(aspath_view(p@.take(i + 1)).drop_last() =~= aspath_view(p@.take(i as int)));
        }
        if !saturated {
            if l as u64 > u64::MAX - total {
                saturated = true;
            } else {
                total = total + l as u64;
            }
        }
        i = i + 1;
    }
    assert(p@.take(p@.len() as int) =~= p@);
    if saturated {
        u64::MAX
    } else {
        total
    }
}

/// Every AS of an AS_PATH, segment after segment.
pub fn flatten_aspath(p: &Vec<ASPATHSegment>) -> (r: Vec<u16>)
    ensures
        r@ == aspath_flat(aspath_view(p@)),
{
    let mut v: Vec<u16> = Vec::new();
    let mut i: usize = 0;
    while i < p.len()
        invariant
            i <= p.len(),
            v@ == aspath_flat(aspath_view(p@.take(i as int))),
        decreases p.len() - i,
    {
        let seg = &p[i];
        let mut j: usize = 0;
        let ghost before = v@;
        while j < seg.as_list.len()
            invariant
                j <= seg.as_list.len(),
                v@ == before + seg.as_list@.take(j as int),
            decreases seg.as_list.len() - j,
        {
            v.push(seg.as_list[j]);
            j = j + 1;
            assert(v@ =~= before + seg.as_list@.take(j as int));
        }
        proof {
            assert(seg.as_list@.take(seg.as_list@.len() as int) =~= seg.as_list@);
            assert(aspath_view(p@.take(i + 1)).drop_last() =~= aspath_view(p@.take(i as int)));
        }
        i = i + 1;
    }
    assert(p@.take(p@.len() as int) =~= p@);
    v
}

/// Flattening an AS_PATH into the list of its ASes.
pub trait Flatten {
    fn flatten_aspath(&self) -> Vec<u16>;
}

impl Flatten for Vec<ASPATHSegment> {
    fn flatten_aspath(&self) -> (r: Vec<u16>)
        ensures
            r@ == aspath_flat(aspath_view(self@)),
    {
        flatten_aspath(self)
    }
}

/// The AGGREGATOR attribute value: the last AS and the aggregating router.
#[derive(Debug, PartialEq, Eq, Clone, Copy, Structural)]
pub struct AggregatorValue {
    pub last_as: u16,
    pub aggregator: u32,
}

/// The type code of a path attribute.
#[derive(Debug, PartialEq, Eq, Clone, Copy, Structural)]
pub enum PathAttributeType {
    Origin,
    AsPath,
    NextHop,
    MultiExitDisc,
    LocalPref,
    AtomicAggregate,
    Aggregator,
    Community,
    OriginatorId,
    ClusterList,
    Dpa,
    Advertiser,
    RcidPathClusterId,
    MPReachableNLRI,
    MPUnreachableNLRI,
    ExtCommunities,
}

pub open spec fn attribute_type_code(t: PathAttributeType) -> u8 {
    match t {
        PathAttributeType::Origin => 1,
        PathAttributeType::AsPath => 2,
        PathAttributeType::NextHop => 3,
        PathAttributeType::MultiExitDisc => 4,
        PathAttributeType::LocalPref => 5,
        PathAttributeType::AtomicAggregate => 6,
        PathAttributeType::Aggregator => 7,
        PathAttributeType::Community => 8,
        PathAttributeType::OriginatorId => 9,
        PathAttributeType::ClusterList => 10,
        PathAttributeType::Dpa => 11,
        PathAttributeType::Advertiser => 12,
        PathAttributeType::RcidPathClusterId => 13,
        PathAttributeType::MPReachableNLRI => 14,
        PathAttributeType::MPUnreachableNLRI => 15,
        PathAttributeType::ExtCommunities => 16,
    }
}

pub open spec fn attribute_type_from_code(v: u8) -> Option<PathAttributeType> {
    if v == 1 {
        Some(PathAttributeType::Origin)
    } else if v == 2 {
        Some(PathAttributeType::AsPath)
    } else if v == 3 {
        Some(PathAttributeType::NextHop)
    } else if v == 4 {
        Some(PathAttributeType::MultiExitDisc)
    } else if v == 5 {
        Some(PathAttributeType::LocalPref)
    } else if v == 6 {
        Some(PathAttributeType::AtomicAggregate)
    } else if v == 7 {
        Some(PathAttributeType::Aggregator)
    } else if v == 8 {
        Some(PathAttributeType::Community)
    } else if v == 9 {
        Some(PathAttributeType::OriginatorId)
    } else if v == 10 {
        Some(PathAttributeType::ClusterList)
    } else if v == 11 {
        Some(PathAttributeType::Dpa)
    } else if v == 12 {
        Some(PathAttributeType::Advertiser)
    } else if v == 13 {
        Some(PathAttributeType::RcidPathClusterId)
    } else if v == 14 {
        Some(PathAttributeType::MPReachableNLRI)
    } else if v == 15 {
        Some(PathAttributeType::MPUnreachableNLRI)
    } else if v == 16 {
        Some(PathAttributeType::ExtCommunities)
    } else {
        None
    }
}

impl PathAttributeType {
    /// The attribute type code.
    pub fn to_u8(&self) -> (r: u8)
        ensures
            r == attribute_type_code(*self),
    {
        match self {
            PathAttributeType::Origin => 1,
            PathAttributeType::AsPath => 2,
            PathAttributeType::NextHop => 3,
            PathAttributeType::MultiExitDisc => 4,
            PathAttributeType::LocalPref => 5,
            PathAttributeType::AtomicAggregate => 6,
            PathAttributeType::Aggregator => 7,
            PathAttributeType::Community => 8,
            PathAttributeType::OriginatorId => 9,
            PathAttributeType::ClusterList => 10,
            PathAttributeType::Dpa => 11,
            PathAttributeType::Advertiser => 12,
            PathAttributeType::RcidPathClusterId => 13,
            PathAttributeType::MPReachableNLRI => 14,
            PathAttributeType::MPUnreachableNLRI => 15,
            PathAttributeType::ExtCommunities => 16,
        }
    }

    /// The attribute type with code `v`, if there is one.
    pub fn from_u8(v: u8) -> (r: Option<PathAttributeType>)
        ensures
            r == attribute_type_from_code(v),
    {
        if v == 1 {
            Some(PathAttributeType::Origin)
        } else if v == 2 {
            Some(PathAttributeType::AsPath)
        } else if v == 3 {
            Some(PathAttributeType::NextHop)
        } else if v == 4 {
            Some(PathAttributeType::MultiExitDisc)
        } else if v == 5 {
            Some(PathAttributeType::LocalPref)
        } else if v == 6 {
            Some(PathAttributeType::AtomicAggregate)
        } else if v == 7 {
            Some(PathAttributeType::Aggregator)
        } else if v == 8 {
            Some(PathAttributeType::Community)
        } else if v == 9 {
            Some(PathAttributeType::OriginatorId)
        } else if v == 10 {
            Some(PathAttributeType::ClusterList)
        } else if v == 11 {
            Some(PathAttributeType::Dpa)
        } else if v == 12 {
            Some(PathAttributeType::Advertiser)
        } else if v == 13 {
            Some(PathAttributeType::RcidPathClusterId)
        } else if v == 14 {
            Some(PathAttributeType::MPReachableNLRI)
        } else if v == 15 {
            Some(PathAttributeType::MPUnreachableNLRI)
        } else if v == 16 {
            Some(PathAttributeType::ExtCommunities)
        } else {
            None
        }
    }
}

/// The value of a path attribute.
#[derive(Debug, PartialEq, Clone)]
pub enum PathAttributeValue {
    Origin(OriginType),
    AsPath(Aspath),
    NextHop(u32),
    MultiExitDisc(u32),
    LocalPref(u32),
    AtomicAggregate,
    Aggregator(AggregatorValue),
    Community,
    OriginatorId,
    ClusterList,
    Dpa,
    Advertiser,
    RcidPathClusterId,
    MPReachableNLRI(Mpnlri),
    MPUnreachableNLRI(Mpunlri),
    ExtCommunities,
}

/// The model of a path attribute value.
pub enum ValueModel {
    Origin(OriginType),
    AsPath(Seq<SegmentModel>),
    NextHop(u32),
    MultiExitDisc(u32),
    LocalPref(u32),
    AtomicAggregate,
    Aggregator(AggregatorValue),
    Community,
    OriginatorId,
    ClusterList,
    Dpa,
    Advertiser,
    RcidPathClusterId,
    MPReachableNLRI(MpnlriModel),
    MPUnreachableNLRI(MpunlriModel),
    ExtCommunities,
}

impl View for PathAttributeValue {
    type V = ValueModel;

    open spec fn view(&self) -> ValueModel {
        match self {
            PathAttributeValue::Origin(o) => ValueModel::Origin(*o),
            PathAttributeValue::AsPath(p) => ValueModel::AsPath(aspath_view(p@)),
            PathAttributeValue::NextHop(a) => ValueModel::NextHop(*a),
            PathAttributeValue::MultiExitDisc(m) => ValueModel::MultiExitDisc(*m),
            PathAttributeValue::LocalPref(l) => ValueModel::LocalPref(*l),
            PathAttributeValue::AtomicAggregate => ValueModel::AtomicAggregate,
            PathAttributeValue::Aggregator(a) => ValueModel::Aggregator(*a),
            PathAttributeValue::Community => ValueModel::Community,
            PathAttributeValue::OriginatorId => ValueModel::OriginatorId,
            PathAttributeValue::ClusterList => ValueModel::ClusterList,
            PathAttributeValue::Dpa => ValueModel::Dpa,
            PathAttributeValue::Advertiser => ValueModel::Advertiser,
            PathAttributeValue::RcidPathClusterId => ValueModel::RcidPathClusterId,
            PathAttributeValue::MPReachableNLRI(m) => ValueModel::MPReachableNLRI(m@),
            PathAttributeValue::MPUnreachableNLRI(m) => ValueModel::MPUnreachableNLRI(m@),
            PathAttributeValue::ExtCommunities => ValueModel::ExtCommunities,
        }
    }
}

/// A path attribute: its flags, type code and value.
#[derive(Debug, PartialEq, Clone)]
pub struct PathAttribute {
    pub optional: bool,
    pub transitive: bool,
    pub partial: bool,
    pub extended_length: bool,
    pub type_code: PathAttributeType,
    pub value: PathAttributeValue,
}

/// The model of a path attribute.
pub struct AttributeModel {
    pub optional: bool,
    pub transitive: bool,
    pub partial: bool,
    pub extended_length: bool,
    pub type_code: PathAttributeType,
    pub value: ValueModel,
}

impl View for PathAttribute {
    type V = AttributeModel;

    open spec fn view(&self) -> AttributeModel {
        AttributeModel {
            optional: self.optional,
            transitive: self.transitive,
            partial: self.partial,
            extended_length: self.extended_length,
            type_code: self.type_code,
            value: self.value@,
        }
    }
}

/// The models of a list of path attributes.
pub open spec fn attributes_view(s: Seq<PathAttribute>) -> Seq<AttributeModel> {
    s.map_values(|a: PathAttribute| a@)
}

/// The attribute type code written for a value.
pub open spec fn value_code(v: ValueModel) -> u8 {
    match v {
        ValueModel::Origin(_) => 1,
        ValueModel::AsPath(_) => 2,
        ValueModel::NextHop(_) => 3,
        ValueModel::MultiExitDisc(_) => 4,
        ValueModel::LocalPref(_) => 5,
        ValueModel::AtomicAggregate => 6,
        ValueModel::Aggregator(_) => 7,
        ValueModel::Community => 8,
        ValueModel::OriginatorId => 9,
        ValueModel::ClusterList => 10,
        ValueModel::Dpa => 11,
        ValueModel::Advertiser => 12,
        ValueModel::RcidPathClusterId => 13,
        ValueModel::MPReachableNLRI(_) => 14,
        ValueModel::MPUnreachableNLRI(_) => 15,
        ValueModel::ExtCommunities => 16,
    }
}

/// The octets of a value.
pub open spec fn value_wire(v: ValueModel) -> Seq<u8> {
    match v {
        ValueModel::Origin(o) => seq![origin_code(o)],
        ValueModel::AsPath(p) => aspath_wire(p),
        ValueModel::NextHop(a) => be_bytes(a as nat, 4),
        ValueModel::MultiExitDisc(m) => be_bytes(m as nat, 4),
        ValueModel::LocalPref(l) => be_bytes(l as nat, 4),
        ValueModel::Aggregator(a) => be_bytes(a.last_as as nat, 2) + be_bytes(
            a.aggregator as nat,
            4,
        ),
        ValueModel::MPReachableNLRI(m) => mp_reach_value(m),
        ValueModel::MPUnreachableNLRI(m) => mp_unreach_body(m),
        _ => Seq::empty(),
    }
}

/// The flags octet: extended length, partial, transitive and optional as
/// the bits of the high nibble, from the lowest.
pub open spec fn flags_octet(a: AttributeModel) -> u8 {
    (((if a.extended_length {
        1int
    } else {
        0
    }) + (if a.partial {
        2int
    } else {
        0
    }) + (if a.transitive {
        4int
    } else {
        0
    }) + (if a.optional {
        8int
    } else {
        0
    })) * 16) as u8
}

/// The wire form of an attribute: flags, the code of its value, the value
/// length and the value octets. The length takes two octets (modulo 65536)
/// when the attribute is flagged as having an extended length, else one
/// octet (modulo 256).
pub open spec fn attribute_wire(a: AttributeModel) -> Seq<u8> {
    if a.extended_length {
        seq![flags_octet(a), value_code(a.value)] + be_bytes(value_wire(a.value).len() % 65536, 2)
            + value_wire(a.value)
    } else {
        seq![flags_octet(a), value_code(a.value), (value_wire(a.value).len() % 256) as u8]
            + value_wire(a.value)
    }
}

/// The wire forms of a list of attributes, one after the other.
pub open spec fn attributes_wire(s: Seq<AttributeModel>) -> Seq<u8>
    decreases s.len(),
{
    if s.len() == 0 {
        Seq::empty()
    } else {
        attributes_wire(s.drop_last()) + attribute_wire(s.last())
    }
}

/// Two-octet big-endian numbers read from `s`.
pub open spec fn be_u16s(s: Seq<u8>) -> Seq<u16> {
    Seq::new(s.len() / 2, |k: int| be_value(s.subrange(2 * k, 2 * k + 2)) as u16)
}

/// Decodes AS_PATH segments from `s` at `pos`, `remaining` octets of them.
pub open spec fn parse_segments(s: Seq<u8>, pos: int, remaining: int) -> Option<Seq<SegmentModel>>
    decreases remaining,
{
    if remaining <= 0 {
        Some(Seq::empty())
    } else if pos < 0 || pos + 2 > s.len() {
        None
    } else {
        match segment_type_from_code(s[pos]) {
            None => None,
            Some(t) => {
                let n = s[pos + 1] as int;
                let e = pos + 2 + 2 * n;
                if e > s.len() || 2 + 2 * n > remaining {
                    None
                } else {
                    match parse_segments(s, e, remaining - (2 + 2 * n)) {
                        Some(rest) => Some(
                            seq![SegmentModel { segment_type: t, as_list: be_u16s(s.subrange(pos + 2, e)) }]
                                + rest,
                        ),
                        None => None,
                    }
                }
            },
        }
    }
}

/// Decodes a path attribute from its wire form.
#[verifier::opaque]
pub open spec fn spec_parse_attribute(s: Seq<u8>) -> Option<AttributeModel> {
    if s.len() < 2 {
        None
    } else {
        let mask = s[0] / 16;
        let ext = mask % 2 == 1;
        let partial = (mask / 2) % 2 == 1;
        let transitive = (mask / 4) % 2 == 1;
        let optional = (mask / 8) % 2 == 1;
        let h: int = if ext {
            4
        } else {
            3
        };
        match attribute_type_from_code(s[1]) {
            None => None,
            Some(t) => {
                let value: Option<ValueModel> = match t {
                    PathAttributeType::Origin => if s.len() < h + 1 {
                        None
                    } else {
                        match origin_from_code(s[h]) {
                            Some(o) => Some(ValueModel::Origin(o)),
                            None => None,
                        }
                    },
                    PathAttributeType::AsPath => {
                        if !ext {
                            if s.len() < 3 {
                                None
                            } else {
                                match parse_segments(s, 3, s[2] as int) {
                                    Some(p) => Some(ValueModel::AsPath(p)),
                                    None => None,
                                }
                            }
                        } else {
                            if s.len() < 4 {
                                None
                            } else {
                                match parse_segments(s, 4, be_value(s.subrange(2, 4)) as int) {
                                    Some(p) => Some(ValueModel::AsPath(p)),
                                    None => None,
                                }
                            }
                        }
                    },
                    PathAttributeType::NextHop => if s.len() < h + 4 {
                        None
                    } else {
                        Some(ValueModel::NextHop(be_value(s.subrange(h, h + 4)) as u32))
                    },
                    PathAttributeType::MultiExitDisc => if s.len() < h + 4 {
                        None
                    } else {
                        Some(ValueModel::MultiExitDisc(be_value(s.subrange(h, h + 4)) as u32))
                    },
                    PathAttributeType::LocalPref => if s.len() < h + 4 {
                        None
                    } else {
                        Some(ValueModel::LocalPref(be_value(s.subrange(h, h + 4)) as u32))
                    },
                    PathAttributeType::AtomicAggregate => Some(ValueModel::AtomicAggregate),
                    PathAttributeType::Aggregator => if s.len() < h + 6 {
                        None
                    } else {
                        Some(
                            ValueModel::Aggregator(
                                AggregatorValue {
                                    last_as: be_value(s.subrange(h, h + 2)) as u16,
                                    aggregator: be_value(s.subrange(h + 2, h + 6)) as u32,
                                },
                            ),
                        )
                    },
                    PathAttributeType::Community => Some(ValueModel::Community),
                    PathAttributeType::OriginatorId => Some(ValueModel::OriginatorId),
                    PathAttributeType::ClusterList => Some(ValueModel::ClusterList),
                    PathAttributeType::Dpa => Some(ValueModel::Dpa),
                    PathAttributeType::Advertiser => Some(ValueModel::Advertiser),
                    PathAttributeType::RcidPathClusterId => Some(ValueModel::RcidPathClusterId),
                    PathAttributeType::MPReachableNLRI => if s.len() < h {
                        None
                    } else {
                        match spec_mp_reach_value(s.subrange(h, s.len() as int)) {
                            Some(m) => Some(ValueModel::MPReachableNLRI(m)),
                            None => None,
                        }
                    },
                    PathAttributeType::MPUnreachableNLRI => if s.len() < h {
                        None
                    } else {
                        match spec_mp_unreach_value(s.subrange(h, s.len() as int)) {
                            Some(m) => Some(ValueModel::MPUnreachableNLRI(m)),
                            None => None,
                        }
                    },
                    PathAttributeType::ExtCommunities => Some(ValueModel::ExtCommunities),
                };
                match value {
                    Some(v) => Some(
                        AttributeModel {
                            optional,
                            transitive,
                            partial,
                            extended_length: ext,
                            type_code: t,
                            value: v,
                        },
                    ),
                    None => None,
                }
            },
        }
    }
}

/// Reads the two-octet numbers of `s[start..end]`.
fn read_u16s(s: &[u8], start: usize, end: usize) -> (r: Vec<u16>)
    requires
        start <= end <= s.len(),
        (end - start) % 2 == 0,
    ensures
        r@ == be_u16s(s@.subrange(start as int, end as int)),
{
    let mut r: Vec<u16> = Vec::new();
    let mut p: usize = start;
    let ghost sub = s@.subrange(start as int, end as int);
    while p < end
        invariant
            start <= p <= end <= s.len(),
            (p - start) % 2 == 0,
            (end - start) % 2 == 0,
            sub == s@.subrange(start as int, end as int),
            r@.len() == (p - start) / 2,
            forall|k: int|
                0 <= k < r@.len() ==> #[trigger] r@[k] == be_value(sub.subrange(2 * k, 2 * k + 2))
                    as u16,
        decreases end - p,
    {
        let v = read_u16(s, p);
        proof {
            let k = r@.len() as int;
            assert(2 * k == p - start);
            assert(sub.subrange(2 * k, 2 * k + 2) =~= s@.subrange(p as int, p + 2));
        }
        r.push(v);
        p = p + 2;
    }
    assert(r@ =~= be_u16s(sub));
    r
}

/// Decodes the AS_PATH segments of `s` at `pos`, `remaining` octets of them.
fn decode_segments(s: &[u8], pos: usize, remaining: usize) -> (r: Option<Vec<ASPATHSegment>>)
    ensures
        r is Some <==> parse_segments(s@, pos as int, remaining as int) is Some,
        r matches Some(v) ==> parse_segments(s@, pos as int, remaining as int) == Some(
            aspath_view(v@),
        ),
{
    let mut out: Vec<ASPATHSegment> = Vec::new();
    let mut cur = pos;
    let mut rem = remaining;
    let ghost p0 = pos as int;
    let ghost r0 = remaining as int;
    while rem > 0
        invariant
            p0 == pos as int,
            r0 == remaining as int,
            parse_segments(s@, p0, r0) is Some <==> parse_segments(
                s@,
                cur as int,
                rem as int,
            ) is Some,
            parse_segments(s@, p0, r0) is Some ==> parse_segments(s@, p0, r0) == Some(
                aspath_view(out@) + parse_segments(s@, cur as int, rem as int).unwrap(),
            ),
        decreases rem,
    {
        if cur >= s.len() || s.len() - cur < 2 {
            assert(parse_segments(s@, cur as int, rem as int) is None);
            return None;
        }
        let t = match ASPATHSegmentType::from_u8(s[cur]) {
            Some(t) => t,
            None => {
                assert(parse_segments(s@, cur as int, rem as int) is None);
                return None;
            },
        };
        let n = s[cur + 1] as usize;
        if s.len() - cur - 2 < 2 * n || rem < 2 + 2 * n {
            return None;
        }
        let e = cur + 2 + 2 * n;
        let as_list = read_u16s(s, cur + 2, e);
        let seg = ASPATHSegment { segment_type: t, as_list };
        proof {
            let rest = parse_segments(s@, e as int, rem - (2 + 2 * n));
            if rest is Some {
                assert(aspath_view(out@.push(seg)) =~= aspath_view(out@).push(seg@));
                assert(aspath_view(out@).push(seg@) + rest.unwrap() =~= aspath_view(out@) + (
                seq![seg@] + rest.unwrap()));
            }
        }
        out.push(seg);
        cur = e;
        rem = rem - (2 + 2 * n);
    }
    proof {
        assert(aspath_view(out@) + Seq::<SegmentModel>::empty() =~= aspath_view(out@));
    }
    Some(out)
}

impl PathAttribute {
    /// An ORIGIN attribute: well-known, transitive.
    pub fn origin(origin: OriginType) -> (r: Self)
        ensures
            r@ == (AttributeModel {
                optional: false,
                transitive: true,
                partial: false,
                extended_length: false,
                type_code: PathAttributeType::Origin,
                value: ValueModel::Origin(origin),
            }),
    {
        PathAttribute {
            type_code: PathAttributeType::Origin,
            value: PathAttributeValue::Origin(origin),
            optional: false,
            transitive: true,
            partial: false,
            extended_length: false,
        }
    }

    /// An AS_PATH attribute: well-known, transitive.
    pub fn aspath(aspath: Aspath) -> (r: Self)
        ensures
            r@ == (AttributeModel {
                optional: false,
                transitive: true,
                partial: false,
                extended_length: false,
                type_code: PathAttributeType::AsPath,
                value: ValueModel::AsPath(aspath_view(aspath@)),
            }),
    {
        PathAttribute {
            type_code: PathAttributeType::AsPath,
            value: PathAttributeValue::AsPath(aspath),
            optional: false,
            transitive: true,
            partial: false,
            extended_length: false,
        }
    }

    /// A NEXT_HOP attribute: well-known, transitive.
    pub fn nexthop(nh: u32) -> (r: Self)
        ensures
            r@ == (AttributeModel {
                optional: false,
                transitive: true,
                partial: false,
                extended_length: false,
                type_code: PathAttributeType::NextHop,
                value: ValueModel::NextHop(nh),
            }),
    {
        PathAttribute {
            type_code: PathAttributeType::NextHop,
            value: PathAttributeValue::NextHop(nh),
            optional: false,
            transitive: true,
            partial: false,
            extended_length: false,
        }
    }

    /// A MULTI_EXIT_DISC attribute: optional, non-transitive.
    pub fn med(med: u32) -> (r: Self)
        ensures
            r@ == (AttributeModel {
                optional: true,
                transitive: false,
                partial: false,
                extended_length: false,
                type_code: PathAttributeType::MultiExitDisc,
                value: ValueModel::MultiExitDisc(med),
            }),
    {
        PathAttribute {
            type_code: PathAttributeType::MultiExitDisc,
            value: PathAttributeValue::MultiExitDisc(med),
            optional: true,
            transitive: false,
            partial: false,
            extended_length: false,
        }
    }

    /// A LOCAL_PREF attribute: optional, non-transitive.
    pub fn local_pref(pref: u32) -> (r: Self)
        ensures
            r@ == (AttributeModel {
                optional: true,
                transitive: false,
                partial: false,
                extended_length: false,
                type_code: PathAttributeType::LocalPref,
                value: ValueModel::LocalPref(pref),
            }),
    {
        PathAttribute {
            type_code: PathAttributeType::LocalPref,
            value: PathAttributeValue::LocalPref(pref),
            optional: true,
            transitive: false,
            partial: false,
            extended_length: false,
        }
    }

    /// An AGGREGATOR attribute: optional, transitive.
    pub fn aggregator(last_as: u16, aggregator: u32) -> (r: Self)
        ensures
            r@ == (AttributeModel {
                optional: true,
                transitive: true,
                partial: false,
                extended_length: false,
                type_code: PathAttributeType::Aggregator,
                value: ValueModel::Aggregator(AggregatorValue { last_as, aggregator }),
            }),
    {
        PathAttribute {
            type_code: PathAttributeType::Aggregator,
            value: PathAttributeValue::Aggregator(AggregatorValue { last_as, aggregator }),
            optional: true,
            transitive: true,
            partial: false,
            extended_length: false,
        }
    }

    /// An MP_REACH_NLRI attribute: optional, non-transitive.
    pub fn mp_reachable(af: AddressFamily, nh: IpAddress, nlris: Vec<Nlri>) -> (r: Self)
        ensures
            r@ == (AttributeModel {
                optional: true,
                transitive: false,
                partial: false,
                extended_length: false,
                type_code: PathAttributeType::MPReachableNLRI,
                value: ValueModel::MPReachableNLRI(MpnlriModel { af, nh, nlris: nlris@ }),
            }),
    {
        PathAttribute {
            type_code: PathAttributeType::MPReachableNLRI,
            value: PathAttributeValue::MPReachableNLRI(Mpnlri { af, nh, nlris }),
            optional: true,
            transitive: false,
            partial: false,
            extended_length: false,
        }
    }

    /// An MP_UNREACH_NLRI attribute: optional, non-transitive.
    pub fn mp_unreachable(af: AddressFamily, nlris: Vec<Nlri>) -> (r: Self)
        ensures
            r@ == (AttributeModel {
                optional: true,
                transitive: false,
                partial: false,
                extended_length: false,
                type_code: PathAttributeType::MPUnreachableNLRI,
                value: ValueModel::MPUnreachableNLRI(MpunlriModel { af, nlris: nlris@ }),
            }),
    {
        PathAttribute {
            type_code: PathAttributeType::MPUnreachableNLRI,
            value: PathAttributeValue::MPUnreachableNLRI(Mpunlri { af, nlris }),
            optional: true,
            transitive: false,
            partial: false,
            extended_length: false,
        }
    }

    /// Whether the attribute is transitive.
    pub fn is_transitive(&self) -> (r: bool)
        ensures
            r == self.transitive,
    {
        self.transitive
    }

    /// The value can be written: the prefixes of multiprotocol values fit
    /// their family.
    pub open spec fn writable(self) -> bool {
        match self.value {
            PathAttributeValue::MPReachableNLRI(m) => all_valid(m.nlris@),
            PathAttributeValue::MPUnreachableNLRI(m) => all_valid(m.nlris@),
            _ => true,
        }
    }

    /// Decodes an attribute from its wire form; `None` where the form is
    /// malformed or truncated.
    pub fn parse(src: &[u8]) -> (r: Option<PathAttribute>)
        ensures
            r is Some <==> spec_parse_attribute(src@) is Some,
            r matches Some(a) ==> spec_parse_attribute(src@) == Some(a@),
    {
        proof {
            reveal(spec_parse_attribute);
        }
        if src.len() < 2 {
            return None;
        }
        let mask = src[0] >> 4;
        proof {
            let b = src@[0];
            assert(b >> 4 == b / 16) by (bit_vector);
        }
        let extended_length = (mask & 1) != 0;
        let partial = (mask & 2) != 0;
        let transitive = (mask & 4) != 0;
        let optional = (mask & 8) != 0;
        proof {
            assert((mask & 1 != 0) == (mask % 2 == 1)) by (bit_vector);
            assert((mask & 2 != 0) == ((mask / 2) % 2 == 1)) by (bit_vector);
            assert((mask & 4 != 0) == ((mask / 4) % 2 == 1)) by (bit_vector);
            assert((mask & 8 != 0) == ((mask / 8) % 2 == 1)) by (bit_vector);
        }
        let type_code = match PathAttributeType::from_u8(src[1]) {
            Some(t) => t,
            None => return None,
        };
        let len = src.len();
        let h: usize = if extended_length {
            4
        } else {
            3
        };
        let value = match type_code {
            PathAttributeType::Origin => {
                if len < h + 1 {
                    return None;
                }
                match OriginType::from_u8(src[h]) {
                    Some(o) => PathAttributeValue::Origin(o),
                    None => return None,
                }
            },
            PathAttributeType::AsPath => {
                let segs = if !extended_length {
                    if len < 3 {
                        return None;
                    }
                    decode_segments(src, 3, src[2] as usize)
                } else {
                    if len < 4 {
                        return None;
                    }
                    let total = read_u16(src, 2);
                    decode_segments(src, 4, total as usize)
                };
                match segs {
                    Some(p) => PathAttributeValue::AsPath(p),
                    None => return None,
                }
            },
            PathAttributeType::NextHop => {
                if len < h + 4 {
                    return None;
                }
                PathAttributeValue::NextHop(read_u32(src, h))
            },
            PathAttributeType::MultiExitDisc => {
                if len < h + 4 {
                    return None;
                }
                PathAttributeValue::MultiExitDisc(read_u32(src, h))
            },
            PathAttributeType::LocalPref => {
                if len < h + 4 {
                    return None;
                }
                PathAttributeValue::LocalPref(read_u32(src, h))
            },
            PathAttributeType::AtomicAggregate => PathAttributeValue::AtomicAggregate,
            PathAttributeType::Aggregator => {
                if len < h + 6 {
                    return None;
                }
                let last_as = read_u16(src, h);
                let aggregator = read_u32(src, h + 2);
                PathAttributeValue::Aggregator(AggregatorValue { last_as, aggregator })
            },
            PathAttributeType::Community => PathAttributeValue::Community,
            PathAttributeType::OriginatorId => PathAttributeValue::OriginatorId,
            PathAttributeType::ClusterList => PathAttributeValue::ClusterList,
            PathAttributeType::Dpa => PathAttributeValue::Dpa,
            PathAttributeType::Advertiser => PathAttributeValue::Advertiser,
            PathAttributeType::RcidPathClusterId => PathAttributeValue::RcidPathClusterId,
            PathAttributeType::MPReachableNLRI => {
                if len < h {
                    return None;
                }
                let v = copy_range(src, h, len);
                match decode_mp_reach_value(v.as_slice()) {
                    Ok(m) => PathAttributeValue::MPReachableNLRI(m),
                    Err(_) => return None,
                }
            },
            PathAttributeType::MPUnreachableNLRI => {
                if len < h {
                    return None;
                }
                let v = copy_range(src, h, len);
                match decode_mp_unreach_value(v.as_slice()) {
                    Ok(m) => PathAttributeValue::MPUnreachableNLRI(m),
                    Err(_) => return None,
                }
            },
            PathAttributeType::ExtCommunities => PathAttributeValue::ExtCommunities,
        };
        Some(PathAttribute { optional, transitive, partial, extended_length, type_code, value })
    }

    /// Decodes an attribute from its wire form. Malformed or truncated forms
    /// are left out.
    pub fn from_bytes(src: Vec<u8>) -> (r: PathAttribute)
        requires
            spec_parse_attribute(src@) is Some,
        ensures
            spec_parse_attribute(src@) == Some(r@),
    {
        match PathAttribute::parse(src.as_slice()) {
            Some(a) => a,
            None => {
                assert(false);
                PathAttribute::origin(OriginType::Igp)
            },
        }
    }

    /// Appends the wire form of the attribute to `buf`.
    pub fn write_to(&self, buf: &mut Vec<u8>)
        requires
            self.writable(),
        ensures
            final(buf)@ == old(buf)@ + attribute_wire(self@),
    {
        let mut mask: u8 = 0;
        if self.extended_length {
            mask = mask + 1;
        }
        if self.partial {
            mask = mask + 2;
        }
        if self.transitive {
            mask = mask + 4;
        }
        if self.optional {
            mask = mask + 8;
        }
        proof {
            assert(mask < 16);
            assert(mask < 16 ==> mask << 4 == mask * 16) by (bit_vector);
        }
        let flags = mask << 4;
        assert(flags == flags_octet(self@));
        let (val, code) = self.value_bytes();
        push_framed(buf, flags, code, self.extended_length, &val);
        proof {
            assert(buf@ =~= old(buf)@ + attribute_wire(self@));
        }
    }

    /// The octets of the value and the type code written for it.
    fn value_bytes(&self) -> (r: (Vec<u8>, u8))
        requires
            self.writable(),
        ensures
            r.0@ == value_wire(self.value@),
            r.1 == value_code(self.value@),
    {
        let mut val: Vec<u8> = Vec::new();
        let code: u8 = match &self.value {
            PathAttributeValue::Origin(o) => {
                val.push(o.to_u8());
                1
            },
            PathAttributeValue::AsPath(p) => {
                let mut i: usize = 0;
                while i < p.len()
                    invariant
                        i <= p.len(),
                        val@ == aspath_wire(aspath_view(p@.take(i as int))),
                    decreases p.len() - i,
                {
                    p[i].write_to(&mut val);
                    proof {
                        assert(aspath_view(p@.take(i + 1)).drop_last() =~= aspath_view(
                            p@.take(i as int),
                        ));
                    }
                    i = i + 1;
                }
                assert(p@.take(p@.len() as int) =~= p@);
                2
            },
            PathAttributeValue::NextHop(a) => {
                push_u32(&mut val, *a);
                3
            },
            PathAttributeValue::MultiExitDisc(m) => {
                push_u32(&mut val, *m);
                4
            },
            PathAttributeValue::LocalPref(l) => {
                push_u32(&mut val, *l);
                5
            },
            PathAttributeValue::AtomicAggregate => 6,
            PathAttributeValue::Aggregator(a) => {
                push_u16(&mut val, a.last_as);
                push_u32(&mut val, a.aggregator);
                7
            },
            PathAttributeValue::Community => 8,
            PathAttributeValue::OriginatorId => 9,
            PathAttributeValue::ClusterList => 10,
            PathAttributeValue::Dpa => 11,
            PathAttributeValue::Advertiser => 12,
            PathAttributeValue::RcidPathClusterId => 13,
            PathAttributeValue::MPReachableNLRI(m) => {
                m.write_value_to(&mut val);
                14
            },
            PathAttributeValue::MPUnreachableNLRI(m) => {
                m.write_value_to(&mut val);
                15
            },
            PathAttributeValue::ExtCommunities => 16,
        };
        proof {
            assert(val@ =~= value_wire(self.value@));
        }
        (val, code)
    }

    /// The wire form of the attribute.
    pub fn to_bytes(&self) -> (r: Vec<u8>)
        requires
            self.writable(),
        ensures
            r@ == attribute_wire(self@),
    {
        let mut buf: Vec<u8> = Vec::new();
        self.write_to(&mut buf);
        assert(buf@ =~= attribute_wire(self@));
        buf
    }
}

impl PathAttributeValue {
    /// A copy of the value.
    pub fn copy(&self) -> (r: PathAttributeValue)
        ensures
            r@ == self@,
    {
        match self {
            PathAttributeValue::Origin(o) => PathAttributeValue::Origin(*o),
            PathAttributeValue::AsPath(p) => PathAttributeValue::AsPath(copy_aspath(p)),
            PathAttributeValue::NextHop(a) => PathAttributeValue::NextHop(*a),
            PathAttributeValue::MultiExitDisc(m) => PathAttributeValue::MultiExitDisc(*m),
            PathAttributeValue::LocalPref(l) => PathAttributeValue::LocalPref(*l),
            PathAttributeValue::AtomicAggregate => PathAttributeValue::AtomicAggregate,
            PathAttributeValue::Aggregator(a) => PathAttributeValue::Aggregator(*a),
            PathAttributeValue::Community => PathAttributeValue::Community,
            PathAttributeValue::OriginatorId => PathAttributeValue::OriginatorId,
            PathAttributeValue::ClusterList => PathAttributeValue::ClusterList,
            PathAttributeValue::Dpa => PathAttributeValue::Dpa,
            PathAttributeValue::Advertiser => PathAttributeValue::Advertiser,
            PathAttributeValue::RcidPathClusterId => PathAttributeValue::RcidPathClusterId,
            PathAttributeValue::MPReachableNLRI(m) => PathAttributeValue::MPReachableNLRI(
                Mpnlri { af: m.af, nh: m.nh, nlris: m.nlris.clone() },
            ),
            PathAttributeValue::MPUnreachableNLRI(m) => PathAttributeValue::MPUnreachableNLRI(
                Mpunlri { af: m.af, nlris: m.nlris.clone() },
            ),
            PathAttributeValue::ExtCommunities => PathAttributeValue::ExtCommunities,
        }
    }
}

impl PathAttribute {
    /// A copy of the attribute.
    pub fn copy(&self) -> (r: PathAttribute)
        ensures
            r@ == self@,
            r.writable() == self.writable(),
    {
        PathAttribute {
            optional: self.optional,
            transitive: self.transitive,
            partial: self.partial,
            extended_length: self.extended_length,
            type_code: self.type_code,
            value: self.value.copy(),
        }
    }

    /// Whether the attribute can be written.
    pub fn is_writable(&self) -> (r: bool)
        ensures
            r == self.writable(),
    {
        match &self.value {
            PathAttributeValue::MPReachableNLRI(m) => crate::nlri::all_valid_nlris(&m.nlris),
            PathAttributeValue::MPUnreachableNLRI(m) => crate::nlri::all_valid_nlris(&m.nlris),
            _ => true,
        }
    }
}

proof fn lemma_u16s_wire(l: Seq<u16>)
    ensures
        u16s_wire(l).len() == 2 * l.len(),
        forall|k: int|
            0 <= k < l.len() ==> #[trigger] u16s_wire(l).subrange(2 * k, 2 * k + 2) == be_bytes(
                l[k] as nat,
                2,
            ),
    decreases l.len(),
{
    if l.len() > 0 {
        let init = l.drop_last();
        lemma_u16s_wire(init);
        lemma_be_bytes_len(l.last() as nat, 2);
        let w = u16s_wire(l);
        assert forall|k: int| 0 <= k < l.len() implies #[trigger] w.subrange(2 * k, 2 * k + 2)
            == be_bytes(l[k] as nat, 2) by {
            if k < l.len() - 1 {
                assert(w.subrange(2 * k, 2 * k + 2) =~= u16s_wire(init).subrange(2 * k, 2 * k + 2));
                assert(init[k] == l[k]);
            } else {
                assert(w.subrange(2 * k, 2 * k + 2) =~= be_bytes(l.last() as nat, 2));
            }
        }
    }
}

/// Two-octet numbers written one after the other are read back.
proof fn lemma_be_u16s_wire(l: Seq<u16>)
    ensures
        be_u16s(u16s_wire(l)) == l,
{
    lemma_u16s_wire(l);
    let w = u16s_wire(l);
    assert(pow256(2) == 65536) by {
        reveal_with_fuel(pow256, 3);
    }
    assert forall|k: int| 0 <= k < l.len() implies #[trigger] be_u16s(w)[k] == l[k] by {
        lemma_be_roundtrip_small(l[k] as nat, 2);
    }
    assert(be_u16s(w) =~= l);
}

proof fn lemma_aspath_wire_front(p: Seq<SegmentModel>)
    requires
        p.len() > 0,
    ensures
        aspath_wire(p) == segment_wire(p[0]) + aspath_wire(p.drop_first()),
    decreases p.len(),
{
    if p.len() == 1 {
        assert(p.drop_first() =~= Seq::<SegmentModel>::empty());
        assert(p.drop_last() =~= Seq::<SegmentModel>::empty());
        assert(aspath_wire(p) =~= segment_wire(p[0]) + aspath_wire(p.drop_first()));
    } else {
        lemma_aspath_wire_front(p.drop_last());
        assert(p.drop_last().drop_first() =~= p.drop_first().drop_last());
        assert(p.drop_first().last() == p.last());
        assert(p.drop_last()[0] == p[0]);
        assert(aspath_wire(p) =~= segment_wire(p[0]) + aspath_wire(p.drop_first()));
    }
}

/// Every segment holds at most 255 numbers, as its one-octet count asks.
pub open spec fn segments_short(p: Seq<SegmentModel>) -> bool {
    forall|k: int| 0 <= k < p.len() ==> (#[trigger] p[k]).as_list.len() <= 255
}

/// AS_PATH segments with short lists, written wherever they stand in `s`,
/// are read back.
/// The octets of a segment written at `pos` in `s`: its type code, its
/// count, and its numbers.
proof fn lemma_segment_at(s: Seq<u8>, pos: int, g: SegmentModel)
    requires
        0 <= pos,
        g.as_list.len() <= 255,
        pos + segment_wire(g).len() <= s.len(),
        s.subrange(pos, pos + segment_wire(g).len()) == segment_wire(g),
    ensures
        segment_wire(g).len() == 2 + 2 * g.as_list.len(),
        segment_type_from_code(s[pos]) == Some(g.segment_type),
        s[pos + 1] == g.as_list.len(),
        be_u16s(s.subrange(pos + 2, pos + 2 + 2 * g.as_list.len())) == g.as_list,
{
    let gw = segment_wire(g);
    let n = g.as_list.len() as int;
    lemma_u16s_wire(g.as_list);
    lemma_be_u16s_wire(g.as_list);
    assert(s[pos] == s.subrange(pos, pos + gw.len())[0]);
    assert(s[pos + 1] == s.subrange(pos, pos + gw.len())[1]);
    assert(s.subrange(pos + 2, pos + 2 + 2 * n) =~= gw.subrange(2, 2 + 2 * n));
    assert(gw.subrange(2, 2 + 2 * n) =~= u16s_wire(g.as_list));
}

/// AS_PATH segments with short lists, written wherever they stand in `s`,
/// are read back.
#[verifier::spinoff_prover]
proof fn lemma_parse_segments_wire(s: Seq<u8>, pos: int, p: Seq<SegmentModel>)
    requires
        0 <= pos,
        segments_short(p),
        pos + aspath_wire(p).len() <= s.len(),
        s.subrange(pos, pos + aspath_wire(p).len()) == aspath_wire(p),
    ensures
        parse_segments(s, pos, aspath_wire(p).len() as int) == Some(p),
    decreases p.len(),
{
    let w = aspath_wire(p);
    if p.len() > 0 {
        let g = p[0];
        let rest = p.drop_first();
        lemma_aspath_wire_front(p);
        let gw = segment_wire(g);
        let wr = aspath_wire(rest);
        assert(g.as_list.len() <= 255);
        assert(s.subrange(pos, pos + gw.len()) =~= w.subrange(0, gw.len() as int));
        assert(w.subrange(0, gw.len() as int) =~= gw);
        lemma_segment_at(s, pos, g);
        let e = pos + gw.len();
        assert(s.subrange(e, e + wr.len()) =~= w.subrange(gw.len() as int, w.len() as int));
        assert(w.subrange(gw.len() as int, w.len() as int) =~= wr);
        assert forall|k: int| 0 <= k < rest.len() implies (#[trigger] rest[k]).as_list.len()
            <= 255 by {
            assert(rest[k] == p[k + 1]);
        }
        lemma_parse_segments_wire(s, e, rest);
        assert(seq![SegmentModel { segment_type: g.segment_type, as_list: g.as_list }] + rest
            =~= p);
    }
}

/// The prefixes `ns` are networks of the family `afi`, each with a length
/// that fits it.
pub open spec fn family_networks(ns: Seq<Nlri>, afi: crate::types::Afi) -> bool {
    forall|k: int|
        0 <= k < ns.len() ==> (#[trigger] ns[k]).valid() && nlri_afi(ns[k]) == afi && normalized(
            ns[k],
        ) == ns[k]
}

/// An attribute is written so that it reads back: its value fits the
/// length field written for it (two octets when it is flagged as having an
/// extended length, else one), its type is that of its value, an AS_PATH's
/// segments fit their one-octet counts, and the prefixes (and next hop) of
/// a multiprotocol value are networks of its family.
pub open spec fn attribute_reads_back(a: AttributeModel) -> bool {
    &&& value_wire(a.value).len() <= if a.extended_length {
        65535int
    } else {
        255int
    }
    &&& attribute_type_code(a.type_code) == value_code(a.value)
    &&& (a.value matches ValueModel::AsPath(p) ==> segments_short(p))
    &&& (a.value matches ValueModel::MPReachableNLRI(m) ==> family_networks(m.nlris, m.af.afi)
        && address_afi(m.nh) == m.af.afi)
    &&& (a.value matches ValueModel::MPUnreachableNLRI(m) ==> family_networks(
        m.nlris,
        m.af.afi,
    ))
}

/// Where the parts of an attribute stand in its wire form: the flags, the
/// type code, the length field, then the value from offset `h` (four with
/// an extended length, else three).
pub proof fn lemma_attribute_layout(a: AttributeModel)
    requires
        value_wire(a.value).len() <= if a.extended_length {
            65535int
        } else {
            255int
        },
    ensures
        ({
            let s = attribute_wire(a);
            let v = value_wire(a.value);
            let h: int = if a.extended_length {
                4
            } else {
                3
            };
            &&& s.len() == h + v.len()
            &&& s[0] == flags_octet(a)
            &&& s[1] == value_code(a.value)
            &&& (a.extended_length ==> be_value(s.subrange(2, 4)) == v.len())
            &&& (!a.extended_length ==> s[2] == v.len())
            &&& s.subrange(h, s.len() as int) == v
        }),
{
    let s = attribute_wire(a);
    let v = value_wire(a.value);
    assert(pow256(2) == 65536) by {
        reveal_with_fuel(pow256, 3);
    }
    if a.extended_length {
        lemma_be_bytes_len(v.len() % 65536, 2);
        lemma_be_roundtrip_small(v.len(), 2);
        assert(s.subrange(2, 4) =~= be_bytes(v.len(), 2));
        assert(s.subrange(4, s.len() as int) =~= v);
    } else {
        assert(s.subrange(3, s.len() as int) =~= v);
    }
}

/// A path attribute written as [`attribute_reads_back`] asks is read back
/// whole.
#[verifier::spinoff_prover]
pub proof fn lemma_attribute_roundtrip(a: AttributeModel)
    requires
        attribute_reads_back(a),
    ensures
        spec_parse_attribute(attribute_wire(a)) == Some(a),
{
    let s = attribute_wire(a);
    let v = value_wire(a.value);
    let h: int = if a.extended_length {
        4
    } else {
        3
    };
    lemma_attribute_layout(a);
    reveal(spec_parse_attribute);
    assert(attribute_type_from_code(attribute_type_code(a.type_code)) == Some(a.type_code));
    assert(pow256(2) == 65536) by {
        reveal_with_fuel(pow256, 3);
    }
    assert(pow256(4) == 0x1_0000_0000) by {
        reveal_with_fuel(pow256, 5);
    }
    match a.value {
        ValueModel::Origin(o) => {
            assert(s[h] == v[0]);
            assert(origin_from_code(origin_code(o)) == Some(o));
        },
        ValueModel::AsPath(p) => {
            lemma_parse_segments_wire(s, h, p);
        },
        ValueModel::NextHop(x) => {
            lemma_be_bytes_len(x as nat, 4);
            lemma_be_roundtrip_small(x as nat, 4);
            assert(s.subrange(h, h + 4) =~= v);
        },
        ValueModel::MultiExitDisc(x) => {
            lemma_be_bytes_len(x as nat, 4);
            lemma_be_roundtrip_small(x as nat, 4);
            assert(s.subrange(h, h + 4) =~= v);
        },
        ValueModel::LocalPref(x) => {
            lemma_be_bytes_len(x as nat, 4);
            lemma_be_roundtrip_small(x as nat, 4);
            assert(s.subrange(h, h + 4) =~= v);
        },
        ValueModel::Aggregator(g) => {
            lemma_be_bytes_len(g.last_as as nat, 2);
            lemma_be_bytes_len(g.aggregator as nat, 4);
            lemma_be_roundtrip_small(g.last_as as nat, 2);
            lemma_be_roundtrip_small(g.aggregator as nat, 4);
            assert(s.subrange(h, h + 2) =~= be_bytes(g.last_as as nat, 2));
            assert(s.subrange(h + 2, h + 6) =~= be_bytes(g.aggregator as nat, 4));
        },
        ValueModel::MPReachableNLRI(m) => {
            lemma_mp_reach_attribute_value(a, m);
        },
        ValueModel::MPUnreachableNLRI(m) => {
            lemma_mp_unreach_attribute_value(a, m);
        },
        _ => {},
    }
}

/// The value of a multiprotocol reachable attribute written as
/// [`attribute_reads_back`] asks is read back whole from where it stands.
proof fn lemma_mp_reach_attribute_value(a: AttributeModel, m: MpnlriModel)
    requires
        attribute_reads_back(a),
        a.value == ValueModel::MPReachableNLRI(m),
    ensures
        spec_mp_reach_value(value_wire(a.value)) == Some(m),
{
    lemma_mp_reach_value_roundtrip(m);
    assert(m.nlris.map_values(|n: Nlri| normalized(n)) =~= m.nlris);
}

/// The value of a multiprotocol unreachable attribute written as
/// [`attribute_reads_back`] asks is read back whole from where it stands.
proof fn lemma_mp_unreach_attribute_value(a: AttributeModel, m: MpunlriModel)
    requires
        attribute_reads_back(a),
        a.value == ValueModel::MPUnreachableNLRI(m),
    ensures
        spec_mp_unreach_value(value_wire(a.value)) == Some(m),
{
    lemma_mp_unreach_value_roundtrip(m);
    assert(m.nlris.map_values(|n: Nlri| normalized(n)) =~= m.nlris);
}

/// Appends an attribute header (flags, type code, and the length of `val`
/// on two octets when `ext` holds, else on one) and then `val` to `buf`.
fn push_framed(buf: &mut Vec<u8>, flags: u8, code: u8, ext: bool, val: &Vec<u8>)
    ensures
        final(buf)@ == old(buf)@ + (if ext {
            seq![flags, code] + be_bytes(val@.len() % 65536, 2)
        } else {
            seq![flags, code, (val@.len() % 256) as u8]
        }) + val@,
{
    buf.push(flags);
    buf.push(code);
    if ext {
        push_u16(buf, (val.len() % 65536) as u16);
    } else {
        buf.push((val.len() % 256) as u8);
    }
    push_all(buf, val.as_slice());
    proof {
        if ext {
            assert(buf@ =~= old(buf)@ + (seq![flags, code] + be_bytes(val@.len() % 65536, 2))
                + val@);
        } else {
            assert(buf@ =~= old(buf)@ + seq![flags, code, (val@.len() % 256) as u8] + val@);
        }
    }
}

} // verus!
