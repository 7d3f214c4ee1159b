use vstd::prelude::*;

use crate::parser::{answers_view, header_at, message_at, question_at, DnsParser};
use crate::protocol::{high_byte, low_byte, Answer, DnsError, Question};
use vstd::string::StringSliceAdditionalSpecFns;

verus! {

/// The transaction ID of a query built without one.
pub const DEFAULT_REQUEST_ID: u16 = 0x1001;

/// The wire form of one label: its length byte, then its bytes. An empty
/// segment has none.
pub open spec fn label_field(seg: Seq<u8>) -> Seq<u8> {
    if seg.len() == 0 {
        Seq::empty()
    } else {
        seq![seg.len() as u8] + seg
    }
}

/// The wire form of the dotted text `s`, whose current segment so far is
/// `seg`: each non-empty segment as a label, then a zero byte.
pub open spec fn encode_from(s: Seq<u8>, seg: Seq<u8>) -> Seq<u8>
    decreases s.len(),
{
    if s.len() == 0 {
        label_field(seg) + seq![0u8]
    } else if s[0] == 46 {
        label_field(seg) + encode_from(s.drop_first(), Seq::empty())
    } else {
        encode_from(s.drop_first(), seg.push(s[0]))
    }
}

/// The wire form of the dotted name whose bytes are `s`.
pub open spec fn encoded_name(s: Seq<u8>) -> Seq<u8> {
    encode_from(s, Seq::empty())
}

/// The query for A records of class IN for the name whose bytes are `name`.
pub open spec fn request_bytes(name: Seq<u8>, id: Option<u16>) -> Seq<u8> {
    let i = match id {
        Some(v) => v,
        None => DEFAULT_REQUEST_ID,
    };
    seq![high_byte(i), low_byte(i), 0x01u8, 0x00u8, 0x00u8, 0x01u8, 0u8, 0u8, 0u8, 0u8, 0u8, 0u8]
        + encoded_name(name) + seq![0u8, 1u8, 0u8, 1u8]
}

fn push_label_field(out: &mut Vec<u8>, b: &[u8], from: usize, to: usize)
    requires
        from <= to <= b@.len(),
    ensures
        final(out)@ == old(out)@ + label_field(b@.subrange(from as int, to as int)),
{
    if from == to {
        assert(old(out)@ + label_field(b@.subrange(from as int, to as int)) =~= old(out)@);
        return;
    }
    out.push((to - from) as u8);
    let ghost head = out@;
    let mut i: usize = from;
    while i < to
        invariant
            from <= i <= to <= b@.len(),
            out@ == head + b@.subrange(from as int, i as int),
        decreases to - i,
    {
        out.push(b[i]);
        assert(b@.subrange(from as int, i + 1) =~= b@.subrange(from as int, i as int).push(
            b@[i as int],
        ));
        i = i + 1;
    }
    assert(out@ =~= old(out)@ + label_field(b@.subrange(from as int, to as int)));
}

/// The wire form of a dotted name: each non-empty segment as a length byte
/// and its bytes, then a zero byte. No compression is used.
pub fn encode_domain_name(domain_name: &str) -> (r: Vec<u8>)
    ensures
        r@ == encoded_name(domain_name.spec_bytes()),
{
    let bytes = domain_name.as_bytes();
    let ghost s = bytes@;
    let mut out: Vec<u8> = Vec::new();
    let mut seg_start: usize = 0;
    let mut i: usize = 0;
    assert(s.subrange(0, 0) =~= Seq::<u8>::empty());
    assert(s.subrange(0, s.len() as int) =~= s);
    assert(out@ + encoded_name(s) =~= encoded_name(s));
    while i < bytes.len()
        invariant
            s == bytes@,
            s == domain_name.spec_bytes(),
            seg_start <= i <= s.len(),
            out@ + encode_from(s.subrange(i as int, s.len() as int), s.subrange(
                seg_start as int,
                i as int,
            )) == encoded_name(s),
        decreases s.len() - i,
    {
        let ghost rest = s.subrange(i as int, s.len() as int);
        assert(rest.drop_first() =~= s.subrange(i + 1, s.len() as int));
        assert(rest[0] == s[i as int]);
        if bytes[i] == 46 {
            let ghost before = out@;
            let ghost cur = s.subrange(seg_start as int, i as int);
            push_label_field(&mut out, bytes, seg_start, i);
            seg_start = i + 1;
            assert(s.subrange(seg_start as int, i + 1) =~= Seq::<u8>::empty());
            assert(encode_from(rest, cur) == label_field(cur) + encode_from(
                rest.drop_first(),
                Seq::empty(),
            ));
            assert(before + (label_field(cur) + encode_from(rest.drop_first(), Seq::empty()))
                =~= out@ + encode_from(rest.drop_first(), Seq::empty()));
        } else {
            assert(s.subrange(seg_start as int, i + 1) =~= s.subrange(
                seg_start as int,
                i as int,
            ).push(s[i as int]));
        }
        i = i + 1;
    }
    let ghost before = out@;
    push_label_field(&mut out, bytes, seg_start, i);
    out.push(0);
    assert(s.subrange(i as int, s.len() as int) =~= Seq::<u8>::empty());
    assert(out@ =~= before + (label_field(s.subrange(seg_start as int, i as int)) + seq![0u8]));
    out
}

/// A query for the A records of class IN of `domain`: a header with the
/// given transaction ID (`DEFAULT_REQUEST_ID` when none is given), flags word
/// `0x0100` and one question, then that question.
pub fn generate_request(domain: &str, id: Option<u16>) -> (r: Vec<u8>)
    ensures
        r@ == request_bytes(domain.spec_bytes(), id),
{
    let n: u16 = match id {
        Some(v) => v,
        None => DEFAULT_REQUEST_ID,
    };
    let mut request: Vec<u8> = Vec::new();
    request.push((n / 256) as u8);
    request.push((n % 256) as u8);
    request.push(0x01);
    request.push(0x00);
    request.push(0x00);
    request.push(0x01);
    request.push(0x00);
    request.push(0x00);
    request.push(0x00);
    request.push(0x00);
    request.push(0x00);
    request.push(0x00);
    let mut name = encode_domain_name(domain);
    request.append(&mut name);
    request.push(0x00);
    request.push(0x01);
    request.push(0x00);
    request.push(0x01);
    assert(request@ =~= request_bytes(domain.spec_bytes(), id));
    request
}

/// Decodes a whole response datagram and hands back its records together
/// with the datagram itself.
pub fn parse_answers(buffer: Vec<u8>) -> (r: Result<(Vec<Answer>, Vec<u8>), DnsError>)
    ensures
        match message_at(buffer@, 0) {
            Some(m) => r is Ok && answers_view(r->Ok_0.0@) == m.answers && r->Ok_0.1@ == buffer@,
            None => r is Err,
        },
{
    let answers = DnsParser::new(buffer.as_slice()).parse_answers();
    match answers {
        Ok(a) => Ok((a, buffer)),
        Err(e) => Err(e),
    }
}

/// The transaction ID and the first question of a datagram, for matching a
/// response to the request it answers.
pub fn extract_query_id_and_domain(buf: [u8; 512]) -> (r: Result<(u16, Question), DnsError>)
    ensures
        match header_at(buf@, 0) {
            Some(h) => match question_at(buf@, h.1) {
                Some(q) => r is Ok && r->Ok_0.0 == h.0.request_id && r->Ok_0.1@ == q.0,
                None => r is Err,
            },
            None => r is Err,
        },
{
    let mut parser = DnsParser::new(buf.as_slice());
    let header = match parser.parse_header() {
        Ok(h) => h,
        Err(e) => return Err(e),
    };
    match parser.parse_question() {
        Ok(q) => Ok((header.request_id, q)),
        Err(e) => Err(e),
    }
}

/// The transaction ID and the first question of a query datagram.
pub fn parse_query(buf: [u8; 512]) -> (r: Result<(u16, Question), DnsError>)
    ensures
        match header_at(buf@, 0) {
            Some(h) => match question_at(buf@, h.1) {
                Some(q) => r is Ok && r->Ok_0.0 == h.0.request_id && r->Ok_0.1@ == q.0,
                None => r is Err,
            },
            None => r is Err,
        },
{
    extract_query_id_and_domain(buf)
}

} // verus!
