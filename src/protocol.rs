use vstd::prelude::*;

verus! {

/// The failure of a decode: a read past the end of the datagram, a label
/// length byte of a reserved kind, or a chain of compression pointers that
/// exceeds the jump bound.
#[derive(Clone, Copy, Debug, PartialEq, Eq, Structural)]
pub enum DnsError {
    MalformedPacket,
}

/// The named sub-fields of the 16-bit flags word of a header.
#[derive(Clone, Copy, Debug, Default, PartialEq, Eq, Structural)]
pub struct Flags {
    /// The inverse of the response bit (bit 15).
    pub query: bool,
    /// Bits 14 to 11.
    pub opcode: u8,
    /// Bit 10.
    pub authoritative_answer: bool,
    /// Bit 9.
    pub truncated: bool,
    /// Bit 8.
    pub recursion_desired: bool,
    /// Bit 7.
    pub recursion_available: bool,
    /// Bits 6 to 4.
    pub reserved: u8,
    /// Bits 3 to 0.
    pub response_code: u8,
}

/// The fixed 12-byte header of a message.
#[derive(Clone, Copy, Debug, Default, PartialEq, Eq, Structural)]
pub struct Header {
    pub request_id: u16,
    pub flags: Flags,
    pub question_count: u16,
    pub answer_count: u16,
    pub authority_count: u16,
    pub additional_count: u16,
}

pub open spec fn flags_of_word(x: u16) -> Flags {
    Flags {
        query: x & 0x8000 == 0,
        opcode: ((x >> 11u16) & 0xF) as u8,
        authoritative_answer: x & 0x400 != 0,
        truncated: x & 0x200 != 0,
        recursion_desired: x & 0x100 != 0,
        recursion_available: x & 0x80 != 0,
        reserved: ((x >> 4u16) & 0x7) as u8,
        response_code: (x & 0xF) as u8,
    }
}

pub open spec fn bit_if(b: bool, mask: u16) -> u16 {
    if b {
        mask
    } else {
        0
    }
}

/// The flags word of `f`; bits of a field beyond its width are dropped.
pub open spec fn word_of_flags(f: Flags) -> u16 {
    bit_if(!f.query, 0x8000) | (((f.opcode as u16) & 0xF) << 11u16) | bit_if(
        f.authoritative_answer,
        0x400,
    ) | bit_if(f.truncated, 0x200) | bit_if(f.recursion_desired, 0x100) | bit_if(
        f.recursion_available,
        0x80,
    ) | (((f.reserved as u16) & 0x7) << 4u16) | ((f.response_code as u16) & 0xF)
}

/// Decoding a flags word and encoding the result gives back the same word,
/// for every 16-bit value.
pub proof fn lemma_flags_round_trip(x: u16)
    ensures
        word_of_flags(flags_of_word(x)) == x,
{
    let f = flags_of_word(x);
    assert((((x >> 11u16) & 0xF) as u8) as u16 == (x >> 11u16) & 0xF) by (bit_vector);
    assert((((x >> 4u16) & 0x7) as u8) as u16 == (x >> 4u16) & 0x7) by (bit_vector);
    assert(((x & 0xF) as u8) as u16 == x & 0xF) by (bit_vector);
    assert(x & 0x8000 == 0 || x & 0x8000 == 0x8000) by (bit_vector);
    assert(x & 0x400 == 0 || x & 0x400 == 0x400) by (bit_vector);
    assert(x & 0x200 == 0 || x & 0x200 == 0x200) by (bit_vector);
    assert(x & 0x100 == 0 || x & 0x100 == 0x100) by (bit_vector);
    assert(x & 0x80 == 0 || x & 0x80 == 0x80) by (bit_vector);
    assert(bit_if(!f.query, 0x8000) == x & 0x8000);
    assert(bit_if(f.authoritative_answer, 0x400) == x & 0x400);
    assert(bit_if(f.truncated, 0x200) == x & 0x200);
    assert(bit_if(f.recursion_desired, 0x100) == x & 0x100);
    assert(bit_if(f.recursion_available, 0x80) == x & 0x80);
    assert((x & 0x8000) | ((((x >> 11u16) & 0xF) & 0xF) << 11u16) | (x & 0x400) | (x & 0x200) | (
    x & 0x100) | (x & 0x80) | ((((x >> 4u16) & 0x7) & 0x7) << 4u16) | ((x & 0xF) & 0xF) == x)
        by (bit_vector);
}

impl From<u16> for Flags {
    fn from(x: u16) -> (r: Flags) {
        Flags {
            query: x & 0x8000 == 0,
            opcode: ((x >> 11u16) & 0xF) as u8,
            authoritative_answer: x & 0x400 != 0,
            truncated: x & 0x200 != 0,
            recursion_desired: x & 0x100 != 0,
            recursion_available: x & 0x80 != 0,
            reserved: ((x >> 4u16) & 0x7) as u8,
            response_code: (x & 0xF) as u8,
        }
    }
}

impl vstd::std_specs::convert::FromSpecImpl<u16> for Flags {
    open spec fn obeys_from_spec() -> bool {
        true
    }

    open spec fn from_spec(x: u16) -> Flags {
        flags_of_word(x)
    }
}

fn bit_of(b: bool, mask: u16) -> (r: u16)
    ensures
        r == bit_if(b, mask),
{
    if b {
        mask
    } else {
        0
    }
}

impl From<Flags> for u16 {
    fn from(f: Flags) -> (r: u16) {
        bit_of(!f.query, 0x8000) | (((f.opcode as u16) & 0xF) << 11u16) | bit_of(
            f.authoritative_answer,
            0x400,
        ) | bit_of(f.truncated, 0x200) | bit_of(f.recursion_desired, 0x100) | bit_of(
            f.recursion_available,
            0x80,
        ) | (((f.reserved as u16) & 0x7) << 4u16) | ((f.response_code as u16) & 0xF)
    }
}

impl vstd::std_specs::convert::FromSpecImpl<Flags> for u16 {
    open spec fn obeys_from_spec() -> bool {
        true
    }

    open spec fn from_spec(f: Flags) -> u16 {
        word_of_flags(f)
    }
}

/// The 16-bit big-endian value of the bytes `a`, `b`.
pub open spec fn word16(a: u8, b: u8) -> u16 {
    (a as int * 256 + b as int) as u16
}

pub open spec fn high_byte(x: u16) -> u8 {
    (x / 256) as u8
}

pub open spec fn low_byte(x: u16) -> u8 {
    (x % 256) as u8
}

pub proof fn lemma_word16_bytes(a: u8, b: u8)
    ensures
        high_byte(word16(a, b)) == a,
        low_byte(word16(a, b)) == b,
{
}

/// The header that the 12 bytes `b` encode.
pub open spec fn header_of_bytes(b: Seq<u8>) -> Header {
    Header {
        request_id: word16(b[0], b[1]),
        flags: flags_of_word(word16(b[2], b[3])),
        question_count: word16(b[4], b[5]),
        answer_count: word16(b[6], b[7]),
        authority_count: word16(b[8], b[9]),
        additional_count: word16(b[10], b[11]),
    }
}

pub open spec fn word_bytes(x: u16) -> Seq<u8> {
    seq![high_byte(x), low_byte(x)]
}

/// The 12 bytes that encode `h`.
pub open spec fn header_bytes(h: Header) -> Seq<u8> {
    word_bytes(h.request_id) + word_bytes(word_of_flags(h.flags)) + word_bytes(h.question_count)
        + word_bytes(h.answer_count) + word_bytes(h.authority_count) + word_bytes(
        h.additional_count,
    )
}

/// Decoding 12 header bytes and encoding the result gives back the same bytes.
pub proof fn lemma_header_round_trip(b: Seq<u8>)
    requires
        b.len() == 12,
    ensures
        header_bytes(header_of_bytes(b)) == b,
{
    let h = header_of_bytes(b);
    lemma_flags_round_trip(word16(b[2], b[3]));
    lemma_word16_bytes(b[0], b[1]);
    lemma_word16_bytes(b[2], b[3]);
    lemma_word16_bytes(b[4], b[5]);
    lemma_word16_bytes(b[6], b[7]);
    lemma_word16_bytes(b[8], b[9]);
    lemma_word16_bytes(b[10], b[11]);
    assert(header_bytes(h) =~= b);
}

fn word_to_bytes(x: u16) -> (r: (u8, u8))
    ensures
        r.0 == high_byte(x),
        r.1 == low_byte(x),
{
    ((x / 256) as u8, (x % 256) as u8)
}

impl Header {
    /// The 12-byte wire form of this header.
    pub fn to_bytes(&self) -> (r: [u8; 12])
        ensures
            r@ == header_bytes(*self),
    {
        let id = word_to_bytes(self.request_id);
        let fl = word_to_bytes(u16::from(self.flags));
        let qd = word_to_bytes(self.question_count);
        let an = word_to_bytes(self.answer_count);
        let ns = word_to_bytes(self.authority_count);
        let ar = word_to_bytes(self.additional_count);
        let r = [id.0, id.1, fl.0, fl.1, qd.0, qd.1, an.0, an.1, ns.0, ns.1, ar.0, ar.1];
        assert(r@ =~= header_bytes(*self));
        r
    }
}

impl From<Header> for [u8; 12] {
    fn from(h: Header) -> (r: [u8; 12]) {
        let r = h.to_bytes();
        proof {
            let c = choose|a: [u8; 12]| a@ == header_bytes(h);
            assert(c =~= r);
        }
        r
    }
}

impl vstd::std_specs::convert::FromSpecImpl<Header> for [u8; 12] {
    open spec fn obeys_from_spec() -> bool {
        true
    }

    open spec fn from_spec(h: Header) -> [u8; 12] {
        choose|a: [u8; 12]| a@ == header_bytes(h)
    }
}

/// The type of a resource record. Every 16-bit value has a variant: the
/// values without a name of their own are kept in `Other`.
#[derive(Clone, Copy, Debug, PartialEq, Eq, Structural)]
pub enum RecordType {
    A,
    NS,
    MD,
    MF,
    CNAME,
    SOA,
    MB,
    MG,
    MR,
    NULL,
    WKS,
    PTR,
    HINFO,
    MINFO,
    MX,
    TXT,
    AXFR,
    MAILB,
    MAILA,
    ANY,
    URI,
    Other(u16),
}

pub open spec fn record_type_of(v: u16) -> RecordType {
    match v {
        1 => RecordType::A,
        2 => RecordType::NS,
        3 => RecordType::MD,
        4 => RecordType::MF,
        5 => RecordType::CNAME,
        6 => RecordType::SOA,
        7 => RecordType::MB,
        8 => RecordType::MG,
        9 => RecordType::MR,
        10 => RecordType::NULL,
        11 => RecordType::WKS,
        12 => RecordType::PTR,
        13 => RecordType::HINFO,
        14 => RecordType::MINFO,
        15 => RecordType::MX,
        16 => RecordType::TXT,
        252 => RecordType::AXFR,
        253 => RecordType::MAILB,
        254 => RecordType::MAILA,
        255 => RecordType::ANY,
        256 => RecordType::URI,
        _ => RecordType::Other(v),
    }
}

impl From<u16> for RecordType {
    fn from(v: u16) -> (r: RecordType) {
        match v {
            1 => RecordType::A,
            2 => RecordType::NS,
            3 => RecordType::MD,
            4 => RecordType::MF,
            5 => RecordType::CNAME,
            6 => RecordType::SOA,
            7 => RecordType::MB,
            8 => RecordType::MG,
            9 => RecordType::MR,
            10 => RecordType::NULL,
            11 => RecordType::WKS,
            12 => RecordType::PTR,
            13 => RecordType::HINFO,
            14 => RecordType::MINFO,
            15 => RecordType::MX,
            16 => RecordType::TXT,
            252 => RecordType::AXFR,
            253 => RecordType::MAILB,
            254 => RecordType::MAILA,
            255 => RecordType::ANY,
            256 => RecordType::URI,
            _ => RecordType::Other(v),
        }
    }
}

impl vstd::std_specs::convert::FromSpecImpl<u16> for RecordType {
    open spec fn obeys_from_spec() -> bool {
        true
    }

    open spec fn from_spec(v: u16) -> RecordType {
        record_type_of(v)
    }
}

/// A question: the name asked about, its type and its class.
#[derive(Clone, Debug, PartialEq, Eq)]
pub struct Question {
    pub domain_name: String,
    pub record_type: u16,
    pub class: u16,
}

pub struct QuestionModel {
    pub domain_name: Seq<char>,
    pub record_type: u16,
    pub class: u16,
}

impl View for Question {
    type V = QuestionModel;

    open spec fn view(&self) -> QuestionModel {
        QuestionModel {
            domain_name: self.domain_name@,
            record_type: self.record_type,
            class: self.class,
        }
    }
}

/// What every resource record carries besides its payload.
#[derive(Clone, Debug, PartialEq, Eq)]
pub struct AnswerMeta {
    pub name: String,
    pub class: u16,
    /// The declared length of the payload.
    pub len: u16,
    pub ttl: u32,
    pub record_type: RecordType,
}

pub struct AnswerMetaModel {
    pub name: Seq<char>,
    pub class: u16,
    pub len: u16,
    pub ttl: u32,
    pub record_type: RecordType,
}

impl View for AnswerMeta {
    type V = AnswerMetaModel;

    open spec fn view(&self) -> AnswerMetaModel {
        AnswerMetaModel {
            name: self.name@,
            class: self.class,
            len: self.len,
            ttl: self.ttl,
            record_type: self.record_type,
        }
    }
}

/// A resource record. A and CNAME records have their payload decoded; every
/// other type keeps the payload's raw bytes.
#[derive(Clone, Debug, PartialEq, Eq)]
pub enum Answer {
    A { meta: AnswerMeta, ipv4: [u8; 4] },
    CNAME { meta: AnswerMeta, cname: String },
    Other { meta: AnswerMeta, data: Vec<u8> },
}

pub enum AnswerModel {
    A { meta: AnswerMetaModel, ipv4: Seq<u8> },
    CNAME { meta: AnswerMetaModel, cname: Seq<char> },
    Other { meta: AnswerMetaModel, data: Seq<u8> },
}

impl View for Answer {
    type V = AnswerModel;

    open spec fn view(&self) -> AnswerModel {
        match self {
            Answer::A { meta, ipv4 } => AnswerModel::A { meta: meta@, ipv4: ipv4@ },
            Answer::CNAME { meta, cname } => AnswerModel::CNAME { meta: meta@, cname: cname@ },
            Answer::Other { meta, data } => AnswerModel::Other { meta: meta@, data: data@ },
        }
    }
}

} // verus!
