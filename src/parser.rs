use vstd::prelude::*;

use crate::collate::{lemma_be_value_four, lemma_be_value_two, Collate};
use crate::protocol::{
    header_of_bytes, record_type_of, word16, Answer, AnswerMeta, AnswerMetaModel, AnswerModel,
    DnsError, Flags, Header, Question, QuestionModel, RecordType,
};
use vstd::slice::slice_to_vec;

verus! {

/// A read cursor over one datagram.
#[derive(Debug)]
pub struct DnsParser<'a> {
    pub buf: &'a [u8],
    position: usize,
}

/// Relies on `String::push`: appends one character at the end.
#[verifier::external_body]
fn push_char(s: &mut String, c: char)
    ensures
        final(s)@ == old(s)@.push(c),
{
    s.push(c)
}

/// The characters of `s`, one for each byte.
pub open spec fn chars_of(s: Seq<u8>) -> Seq<char> {
    s.map_values(|b: u8| b as char)
}

impl<'a> DnsParser<'a> {
    /// The datagram being read.
    pub closed spec fn bytes(&self) -> Seq<u8> {
        self.buf@
    }

    /// The cursor's offset from the start of the datagram.
    pub closed spec fn pos(&self) -> int {
        self.position as int
    }

    pub fn new(buf: &'a [u8]) -> (r: Self)
        ensures
            r.bytes() == buf@,
            r.pos() == 0,
    {
        DnsParser { buf, position: 0 }
    }

    /// The offset of the next byte to read.
    pub fn position(&self) -> (r: usize)
        ensures
            r as int == self.pos(),
    {
        self.position
    }

    /// The next `n` bytes, without moving the cursor.
    pub fn peek(&self, n: usize) -> (r: Result<&'a [u8], DnsError>)
        ensures
            match r {
                Ok(s) => self.pos() + n <= self.bytes().len() <= usize::MAX && s@ == self.bytes().subrange(
                    self.pos(),
                    self.pos() + n,
                ),
                Err(_) => self.pos() + n > self.bytes().len(),
            },
    {
        if n <= self.buf.len() && self.position <= self.buf.len() - n {
            let buf: &'a [u8] = self.buf;
            Ok(&buf[self.position..self.position + n])
        } else {
            Err(DnsError::MalformedPacket)
        }
    }

    /// The next `N` bytes as an array, without moving the cursor.
    pub fn peek_n<const N: usize>(&self) -> (r: Result<[u8; N], DnsError>)
        ensures
            match r {
                Ok(a) => self.pos() + N <= self.bytes().len() <= usize::MAX && a@ == self.bytes().subrange(
                    self.pos(),
                    self.pos() + N,
                ),
                Err(_) => self.pos() + N > self.bytes().len(),
            },
    {
        match self.peek(N) {
            Ok(s) => {
                let mut out = [0u8; N];
                let mut i: usize = 0;
                while i < N
                    invariant
                        i <= N,
                        s@.len() == N,
                        forall|k: int| 0 <= k < i ==> out@[k] == s@[k],
                    decreases N - i,
                {
                    out[i] = s[i];
                    i = i + 1;
                }
                assert(out@ =~= s@);
                Ok(out)
            },
            Err(e) => Err(e),
        }
    }

    /// The next `n` bytes; the cursor moves past them. On failure the cursor
    /// stays where it was.
    pub fn advance(&mut self, n: usize) -> (r: Result<&'a [u8], DnsError>)
        ensures
            final(self).bytes() == old(self).bytes(),
            match r {
                Ok(s) => old(self).pos() + n <= old(self).bytes().len() && s@ == old(
                    self,
                ).bytes().subrange(old(self).pos(), old(self).pos() + n) && final(self).pos()
                    == old(self).pos() + n,
                Err(_) => old(self).pos() + n > old(self).bytes().len() && final(self).pos() == old(
                    self,
                ).pos(),
            },
    {
        match self.peek(n) {
            Ok(s) => {
                self.position = self.position + n;
                Ok(s)
            },
            Err(e) => Err(e),
        }
    }

    /// The next `N` bytes as an array; the cursor moves past them. On failure
    /// the cursor stays where it was.
    pub fn advance_n<const N: usize>(&mut self) -> (r: Result<[u8; N], DnsError>)
        ensures
            final(self).bytes() == old(self).bytes(),
            match r {
                Ok(a) => old(self).pos() + N <= old(self).bytes().len() && a@ == old(
                    self,
                ).bytes().subrange(old(self).pos(), old(self).pos() + N) && final(self).pos()
                    == old(self).pos() + N,
                Err(_) => old(self).pos() + N > old(self).bytes().len() && final(self).pos() == old(
                    self,
                ).pos(),
            },
    {
        match self.peek_n::<N>() {
            Ok(s) => {
                self.position = self.position + N;
                Ok(s)
            },
            Err(e) => Err(e),
        }
    }
}


/// The most compression pointers followed while decoding one name.
pub const MAX_POINTER_JUMPS: usize = 128;

/// The offset that the pointer bytes `a`, `b` lead to: the low 14 bits.
pub open spec fn pointer_target(a: u8, b: u8) -> int {
    (a as int - 0xC0) * 256 + b as int
}

/// The labels of the name that starts at `pos`, and the offset just past the
/// name where it starts (past its zero byte, or past its first pointer),
/// following at most `jumps` pointers. `None` where the name runs off the
/// buffer, holds a reserved length byte, or needs more jumps.
pub open spec fn name_at(buf: Seq<u8>, pos: int, jumps: nat) -> Option<(Seq<Seq<u8>>, int)>
    decreases jumps, buf.len() - pos,
{
    if pos < 0 || pos >= buf.len() {
        None
    } else if buf[pos] == 0 {
        Some((Seq::empty(), pos + 1))
    } else if buf[pos] >= 0xC0 {
        if pos + 2 > buf.len() || jumps == 0 {
            None
        } else {
            match name_at(buf, pointer_target(buf[pos], buf[pos + 1]), (jumps - 1) as nat) {
                Some(r) => Some((r.0, pos + 2)),
                None => None,
            }
        }
    } else if buf[pos] >= 0x40 {
        None
    } else if pos + 1 + buf[pos] > buf.len() {
        None
    } else {
        let l = buf[pos] as int;
        match name_at(buf, pos + 1 + l, jumps) {
            Some(r) => Some((seq![buf.subrange(pos + 1, pos + 1 + l)] + r.0, r.1)),
            None => None,
        }
    }
}

/// The labels joined by dots.
pub open spec fn dotted(ls: Seq<Seq<u8>>) -> Seq<u8>
    decreases ls.len(),
{
    if ls.len() == 0 {
        Seq::empty()
    } else if ls.len() == 1 {
        ls[0]
    } else {
        dotted(ls.drop_last()) + seq![46u8] + ls.last()
    }
}

/// The dotted name that starts at `pos` and the offset just past it.
pub open spec fn domain_at(buf: Seq<u8>, pos: int) -> Option<(Seq<char>, int)> {
    match name_at(buf, pos, MAX_POINTER_JUMPS as nat) {
        Some(r) => Some((chars_of(dotted(r.0)), r.1)),
        None => None,
    }
}

/// What a decode yields when it has already read the labels `acc`, has
/// `rest` still to read, and had jumped from a pointer that ends at `resume`.
pub open spec fn name_so_far(
    acc: Seq<Seq<u8>>,
    rest: Option<(Seq<Seq<u8>>, int)>,
    resume: Option<usize>,
) -> Option<(Seq<char>, int)> {
    match rest {
        Some(r) => Some(
            (
                chars_of(dotted(acc + r.0)),
                match resume {
                    Some(p) => p as int,
                    None => r.1,
                },
            ),
        ),
        None => None,
    }
}

proof fn lemma_chars_of_add(a: Seq<u8>, b: Seq<u8>)
    ensures
        chars_of(a + b) == chars_of(a) + chars_of(b),
{
    assert(chars_of(a + b) =~= chars_of(a) + chars_of(b));
}

fn push_label(name: &mut String, label: &[u8], first: bool, Ghost(acc): Ghost<Seq<Seq<u8>>>)
    requires
        old(name)@ == chars_of(dotted(acc)),
        first == (acc.len() == 0),
    ensures
        final(name)@ == chars_of(dotted(acc.push(label@))),
{
    let ghost start = name@;
    if !first {
        push_char(name, 46u8 as char);
    }
    let ghost sep = name@;
    let mut i: usize = 0;
    while i < label.len()
        invariant
            i <= label@.len(),
            name@ == sep + chars_of(label@.subrange(0, i as int)),
        decreases label@.len() - i,
    {
        push_char(name, label[i] as char);
        proof {
            assert(label@.subrange(0, i + 1) =~= label@.subrange(0, i as int).push(label@[i as int]));
            lemma_chars_of_add(label@.subrange(0, i as int), seq![label@[i as int]]);
            assert(chars_of(seq![label@[i as int]]) =~= seq![label@[i as int] as char]);
        }
        i = i + 1;
    }
    proof {
        assert(label@.subrange(0, i as int) =~= label@);
        let ls = acc.push(label@);
        if first {
            assert(ls =~= seq![label@]);
            assert(sep == start);
            assert(start =~= Seq::<char>::empty());
        } else {
            assert(ls.drop_last() =~= acc);
            lemma_chars_of_add(dotted(acc) + seq![46u8], label@);
            lemma_chars_of_add(dotted(acc), seq![46u8]);
            assert(chars_of(seq![46u8]) =~= seq![46u8 as char]);
        }
    }
}

impl<'a> DnsParser<'a> {
    /// Decodes the name at the cursor, following compression pointers (at
    /// most `MAX_POINTER_JUMPS` of them), and leaves the cursor just past the
    /// name where it started: past its zero byte, or past its first pointer.
    pub fn parse_domain_name(&mut self) -> (r: Result<String, DnsError>)
        ensures
            final(self).bytes() == old(self).bytes(),
            match domain_at(old(self).bytes(), old(self).pos()) {
                Some(d) => r is Ok && r->Ok_0@ == d.0 && final(self).pos() == d.1,
                None => r is Err,
            },
    {
        let ghost buf = self.bytes();
        let ghost start = self.pos();
        let mut name = String::new();
        let ghost mut acc: Seq<Seq<u8>> = Seq::empty();
        let mut first = true;
        let mut jumps: usize = MAX_POINTER_JUMPS;
        let mut resume: Option<usize> = None;
        proof {
            if let Some(r) = name_at(buf, start, jumps as nat) {
                assert(acc + r.0 =~= r.0);
            }
        }
        if self.position >= self.buf.len() {
            return Err(DnsError::MalformedPacket);
        }
        loop
            invariant
                self.bytes() == buf,
                buf == old(self).bytes(),
                start == old(self).pos(),
                buf.len() == self.buf.len(),
                self.pos() <= buf.len(),
                jumps <= MAX_POINTER_JUMPS,
                name@ == chars_of(dotted(acc)),
                first == (acc.len() == 0),
                match resume {
                    Some(p) => p <= buf.len(),
                    None => true,
                },
                domain_at(buf, start) == name_so_far(acc, name_at(buf, self.pos(), jumps as nat), resume),
            decreases jumps, buf.len() - self.pos(),
        {
            if self.position >= self.buf.len() {
                return Err(DnsError::MalformedPacket);
            }
            let head: u8 = self.buf[self.position];
            if head == 0 {
                self.position = self.position + 1;
                proof {
                    assert(acc + Seq::<Seq<u8>>::empty() =~= acc);
                }
                if let Some(p) = resume {
                    self.position = p;
                }
                return Ok(name);
            } else if head >= 0xC0 {
                if jumps == 0 {
                    return Err(DnsError::MalformedPacket);
                }
                let ghost at = self.pos();
                let pair = match self.advance_n::<2>() {
                    Ok(p) => p,
                    Err(e) => return Err(e),
                };
                proof {
                    assert(pair@ =~= seq![pair[0], pair[1]]);
                    lemma_be_value_two(pair[0], pair[1]);
                    assert(pair[0] == head);
                }
                let target: usize = pair.collate() - 0xC000;
                assert(target == pointer_target(buf[at], buf[at + 1]));
                if target >= self.buf.len() {
                    assert(name_at(buf, target as int, (jumps - 1) as nat) is None);
                    assert(name_at(buf, at, jumps as nat) is None);
                    return Err(DnsError::MalformedPacket);
                }
                if resume.is_none() {
                    resume = Some(self.position);
                }
                self.position = target;
                jumps = jumps - 1;
            } else if head >= 0x40 {
                return Err(DnsError::MalformedPacket);
            } else {
                let ghost at = self.pos();
                self.position = self.position + 1;
                let label = match self.advance(head as usize) {
                    Ok(l) => l,
                    Err(e) => return Err(e),
                };
                push_label(&mut name, label, first, Ghost(acc));
                proof {
                    if let Some(r) = name_at(buf, self.pos(), jumps as nat) {
                        assert(acc + (seq![label@] + r.0) =~= acc.push(label@) + r.0);
                    }
                    acc = acc.push(label@);
                }
                first = false;
            }
        }
    }
}

/// The 16-bit big-endian field at `pos` and the offset past it.
pub open spec fn u16_at(buf: Seq<u8>, pos: int) -> Option<(u16, int)> {
    if 0 <= pos && pos + 2 <= buf.len() {
        Some((word16(buf[pos], buf[pos + 1]), pos + 2))
    } else {
        None
    }
}

/// The 32-bit big-endian field at `pos` and the offset past it.
pub open spec fn u32_at(buf: Seq<u8>, pos: int) -> Option<(u32, int)> {
    if 0 <= pos && pos + 4 <= buf.len() {
        Some(
            (
                (((buf[pos] as int * 256 + buf[pos + 1] as int) * 256 + buf[pos + 2] as int) * 256
                    + buf[pos + 3] as int) as u32,
                pos + 4,
            ),
        )
    } else {
        None
    }
}

/// The header at `pos` and the offset past it.
pub open spec fn header_at(buf: Seq<u8>, pos: int) -> Option<(Header, int)> {
    if 0 <= pos && pos + 12 <= buf.len() {
        Some((header_of_bytes(buf.subrange(pos, pos + 12)), pos + 12))
    } else {
        None
    }
}

/// The question at `pos` and the offset past it.
pub open spec fn question_at(buf: Seq<u8>, pos: int) -> Option<(QuestionModel, int)> {
    match domain_at(buf, pos) {
        Some(n) => match u16_at(buf, n.1) {
            Some(t) => match u16_at(buf, t.1) {
                Some(c) => Some(
                    (QuestionModel { domain_name: n.0, record_type: t.0, class: c.0 }, c.1),
                ),
                None => None,
            },
            None => None,
        },
        None => None,
    }
}

/// The metadata of the record at `pos` and the offset of its payload.
pub open spec fn answer_meta_at(buf: Seq<u8>, pos: int) -> Option<(AnswerMetaModel, int)> {
    match domain_at(buf, pos) {
        Some(n) => match u16_at(buf, n.1) {
            Some(t) => match u16_at(buf, t.1) {
                Some(c) => match u32_at(buf, c.1) {
                    Some(ttl) => match u16_at(buf, ttl.1) {
                        Some(len) => Some(
                            (
                                AnswerMetaModel {
                                    name: n.0,
                                    class: c.0,
                                    len: len.0,
                                    ttl: ttl.0,
                                    record_type: record_type_of(t.0),
                                },
                                len.1,
                            ),
                        ),
                        None => None,
                    },
                    None => None,
                },
                None => None,
            },
            None => None,
        },
        None => None,
    }
}

/// The payload of a record with metadata `meta` that starts at `start`. An A
/// payload is the four bytes at `start`; a CNAME payload is the name there;
/// any other is the `meta.len` raw bytes.
pub open spec fn payload_at(buf: Seq<u8>, meta: AnswerMetaModel, start: int) -> Option<
    AnswerModel,
> {
    match meta.record_type {
        RecordType::A => if start + 4 <= buf.len() {
            Some(AnswerModel::A { meta, ipv4: buf.subrange(start, start + 4) })
        } else {
            None
        },
        RecordType::CNAME => match domain_at(buf, start) {
            Some(c) => Some(AnswerModel::CNAME { meta, cname: c.0 }),
            None => None,
        },
        _ => Some(AnswerModel::Other { meta, data: buf.subrange(start, start + meta.len) }),
    }
}

/// The record at `pos` and the offset of the next one: the payload's start
/// plus its declared length, which must lie within the buffer.
pub open spec fn answer_at(buf: Seq<u8>, pos: int) -> Option<(AnswerModel, int)> {
    match answer_meta_at(buf, pos) {
        Some(m) => if m.1 + m.0.len > buf.len() {
            None
        } else {
            match payload_at(buf, m.0, m.1) {
                Some(a) => Some((a, m.1 + m.0.len)),
                None => None,
            }
        },
        None => None,
    }
}

impl<'a> DnsParser<'a> {
    fn read_u16(&mut self) -> (r: Result<u16, DnsError>)
        ensures
            final(self).bytes() == old(self).bytes(),
            match u16_at(old(self).bytes(), old(self).pos()) {
                Some(v) => r == Ok::<u16, DnsError>(v.0) && final(self).pos() == v.1,
                None => r is Err,
            },
    {
        match self.advance_n::<2>() {
            Ok(b) => {
                proof {
                    assert(b@ =~= seq![b[0], b[1]]);
                    lemma_be_value_two(b[0], b[1]);
                }
                Ok(b.collate() as u16)
            },
            Err(e) => Err(e),
        }
    }

    fn read_u32(&mut self) -> (r: Result<u32, DnsError>)
        ensures
            final(self).bytes() == old(self).bytes(),
            match u32_at(old(self).bytes(), old(self).pos()) {
                Some(v) => r == Ok::<u32, DnsError>(v.0) && final(self).pos() == v.1,
                None => r is Err,
            },
    {
        match self.advance_n::<4>() {
            Ok(b) => {
                proof {
                    assert(b@ =~= seq![b[0], b[1], b[2], b[3]]);
                    lemma_be_value_four(b[0], b[1], b[2], b[3]);
                }
                Ok(b.collate() as u32)
            },
            Err(e) => Err(e),
        }
    }

    /// Decodes the 12-byte header at the cursor.
    pub fn parse_header(&mut self) -> (r: Result<Header, DnsError>)
        ensures
            final(self).bytes() == old(self).bytes(),
            match header_at(old(self).bytes(), old(self).pos()) {
                Some(h) => r == Ok::<Header, DnsError>(h.0) && final(self).pos() == h.1,
                None => r is Err,
            },
    {
        let ghost buf = self.bytes();
        let ghost p = self.pos();
        if self.position >= self.buf.len() || self.buf.len() - self.position < 12 {
            return Err(DnsError::MalformedPacket);
        }
        let request_id = match self.read_u16() {
            Ok(v) => v,
            Err(e) => return Err(e),
        };
        let flags = match self.read_u16() {
            Ok(v) => Flags::from(v),
            Err(e) => return Err(e),
        };
        let question_count = match self.read_u16() {
            Ok(v) => v,
            Err(e) => return Err(e),
        };
        let answer_count = match self.read_u16() {
            Ok(v) => v,
            Err(e) => return Err(e),
        };
        let authority_count = match self.read_u16() {
            Ok(v) => v,
            Err(e) => return Err(e),
        };
        let additional_count = match self.read_u16() {
            Ok(v) => v,
            Err(e) => return Err(e),
        };
        let h = Header {
            request_id,
            flags,
            question_count,
            answer_count,
            authority_count,
            additional_count,
        };
        assert(h == header_of_bytes(buf.subrange(p, p + 12)));
        Ok(h)
    }

    /// Decodes the question at the cursor: a name, its type and its class.
    pub fn parse_question(&mut self) -> (r: Result<Question, DnsError>)
        ensures
            final(self).bytes() == old(self).bytes(),
            match question_at(old(self).bytes(), old(self).pos()) {
                Some(q) => r is Ok && r->Ok_0@ == q.0 && final(self).pos() == q.1,
                None => r is Err,
            },
    {
        let domain_name = match self.parse_domain_name() {
            Ok(n) => n,
            Err(e) => return Err(e),
        };
        let record_type = match self.read_u16() {
            Ok(v) => v,
            Err(e) => return Err(e),
        };
        let class = match self.read_u16() {
            Ok(v) => v,
            Err(e) => return Err(e),
        };
        Ok(Question { domain_name, record_type, class })
    }

    /// Decodes the resource record at the cursor and leaves the cursor at the
    /// start of the next one, as the record's declared length gives it.
    pub fn parse_answer(&mut self) -> (r: Result<Answer, DnsError>)
        ensures
            final(self).bytes() == old(self).bytes(),
            match answer_at(old(self).bytes(), old(self).pos()) {
                Some(a) => r is Ok && r->Ok_0@ == a.0 && final(self).pos() == a.1,
                None => r is Err,
            },
    {
        let name = match self.parse_domain_name() {
            Ok(n) => n,
            Err(e) => return Err(e),
        };
        let code = match self.read_u16() {
            Ok(v) => v,
            Err(e) => return Err(e),
        };
        let class = match self.read_u16() {
            Ok(v) => v,
            Err(e) => return Err(e),
        };
        let ttl = match self.read_u32() {
            Ok(v) => v,
            Err(e) => return Err(e),
        };
        let len = match self.read_u16() {
            Ok(v) => v,
            Err(e) => return Err(e),
        };
        let start: usize = self.position;
        if len as usize > self.buf.len() - start {
            return Err(DnsError::MalformedPacket);
        }
        let meta = AnswerMeta { name, class, len, ttl, record_type: RecordType::from(code) };
        let answer = match meta.record_type {
            RecordType::A => match self.peek_n::<4>() {
                Ok(ipv4) => Answer::A { meta, ipv4 },
                Err(e) => return Err(e),
            },
            RecordType::CNAME => match self.parse_domain_name() {
                Ok(cname) => Answer::CNAME { meta, cname },
                Err(e) => return Err(e),
            },
            _ => match self.peek(len as usize) {
                Ok(data) => Answer::Other { meta, data: slice_to_vec(data) },
                Err(e) => return Err(e),
            },
        };
        self.position = start + len as usize;
        Ok(answer)
    }
}

/// The first `n` questions from `pos` on and the offset past them.
pub open spec fn questions_at(buf: Seq<u8>, pos: int, n: nat) -> Option<(Seq<QuestionModel>, int)>
    decreases n,
{
    if n == 0 {
        Some((Seq::empty(), pos))
    } else {
        match questions_at(buf, pos, (n - 1) as nat) {
            Some(qs) => match question_at(buf, qs.1) {
                Some(q) => Some((qs.0.push(q.0), q.1)),
                None => None,
            },
            None => None,
        }
    }
}

/// The first `n` records from `pos` on and the offset past them.
pub open spec fn answers_at(buf: Seq<u8>, pos: int, n: nat) -> Option<(Seq<AnswerModel>, int)>
    decreases n,
{
    if n == 0 {
        Some((Seq::empty(), pos))
    } else {
        match answers_at(buf, pos, (n - 1) as nat) {
            Some(rs) => match answer_at(buf, rs.1) {
                Some(a) => Some((rs.0.push(a.0), a.1)),
                None => None,
            },
            None => None,
        }
    }
}

/// A decoded message: its header, as many questions and records as the
/// header counts, and the offset past the last record.
pub struct MessageModel {
    pub header: Header,
    pub questions: Seq<QuestionModel>,
    pub answers: Seq<AnswerModel>,
    pub end: int,
}

/// The message that starts at `pos`.
pub open spec fn message_at(buf: Seq<u8>, pos: int) -> Option<MessageModel> {
    match header_at(buf, pos) {
        Some(h) => match questions_at(buf, h.1, h.0.question_count as nat) {
            Some(qs) => match answers_at(buf, qs.1, h.0.answer_count as nat) {
                Some(rs) => Some(
                    MessageModel { header: h.0, questions: qs.0, answers: rs.0, end: rs.1 },
                ),
                None => None,
            },
            None => None,
        },
        None => None,
    }
}

pub open spec fn questions_view(v: Seq<Question>) -> Seq<QuestionModel> {
    v.map_values(|q: Question| q@)
}

pub open spec fn answers_view(v: Seq<Answer>) -> Seq<AnswerModel> {
    v.map_values(|a: Answer| a@)
}

impl<'a> DnsParser<'a> {
    fn parse_questions(&mut self, n: u16) -> (r: Result<Vec<Question>, DnsError>)
        ensures
            final(self).bytes() == old(self).bytes(),
            match questions_at(old(self).bytes(), old(self).pos(), n as nat) {
                Some(qs) => r is Ok && questions_view(r->Ok_0@) == qs.0 && final(self).pos()
                    == qs.1,
                None => r is Err,
            },
    {
        let ghost buf = self.bytes();
        let ghost start = self.pos();
        let mut out: Vec<Question> = Vec::new();
        let mut i: u16 = 0;
        while i < n
            invariant
                i <= n,
                self.bytes() == buf,
                buf == old(self).bytes(),
                start == old(self).pos(),
                questions_at(buf, start, i as nat) == Some((questions_view(out@), self.pos())),
            decreases n - i,
        {
            proof {
                if questions_at(buf, start, n as nat) is Some {
                    lemma_questions_prefix(buf, start, (i + 1) as nat, n as nat);
                }
            }
            match self.parse_question() {
                Ok(q) => {
                    let ghost before = out@;
                    out.push(q);
                    assert(questions_view(out@) =~= questions_view(before).push(q@));
                },
                Err(e) => return Err(e),
            }
            i = i + 1;
        }
        Ok(out)
    }

    fn parse_records(&mut self, n: u16) -> (r: Result<Vec<Answer>, DnsError>)
        ensures
            final(self).bytes() == old(self).bytes(),
            match answers_at(old(self).bytes(), old(self).pos(), n as nat) {
                Some(rs) => r is Ok && answers_view(r->Ok_0@) == rs.0 && final(self).pos()
                    == rs.1,
                None => r is Err,
            },
    {
        let ghost buf = self.bytes();
        let ghost start = self.pos();
        let mut out: Vec<Answer> = Vec::new();
        let mut i: u16 = 0;
        while i < n
            invariant
                i <= n,
                self.bytes() == buf,
                buf == old(self).bytes(),
                start == old(self).pos(),
                answers_at(buf, start, i as nat) == Some((answers_view(out@), self.pos())),
            decreases n - i,
        {
            proof {
                if answers_at(buf, start, n as nat) is Some {
                    lemma_answers_prefix(buf, start, (i + 1) as nat, n as nat);
                }
            }
            match self.parse_answer() {
                Ok(a) => {
                    let ghost before = out@;
                    out.push(a);
                    assert(answers_view(out@) =~= answers_view(before).push(a@));
                },
                Err(e) => return Err(e),
            }
            i = i + 1;
        }
        Ok(out)
    }

    /// Decodes the whole message at the cursor: the header, then exactly as
    /// many questions and records as the header counts. The cursor ends just
    /// past the last record.
    pub fn parse_message(&mut self) -> (r: Result<(Header, Vec<Question>, Vec<Answer>), DnsError>)
        ensures
            final(self).bytes() == old(self).bytes(),
            match message_at(old(self).bytes(), old(self).pos()) {
                Some(m) => r is Ok && r->Ok_0.0 == m.header && questions_view(r->Ok_0.1@)
                    == m.questions && answers_view(r->Ok_0.2@) == m.answers && final(self).pos()
                    == m.end,
                None => r is Err,
            },
    {
        let header = match self.parse_header() {
            Ok(h) => h,
            Err(e) => return Err(e),
        };
        let questions = match self.parse_questions(header.question_count) {
            Ok(q) => q,
            Err(e) => return Err(e),
        };
        let answers = match self.parse_records(header.answer_count) {
            Ok(a) => a,
            Err(e) => return Err(e),
        };
        Ok((header, questions, answers))
    }

    /// Decodes the message at the cursor and returns its records.
    pub fn parse_answers(self) -> (r: Result<Vec<Answer>, DnsError>)
        ensures
            match message_at(self.bytes(), self.pos()) {
                Some(m) => r is Ok && answers_view(r->Ok_0@) == m.answers,
                None => r is Err,
            },
    {
        let mut parser = self;
        match parser.parse_message() {
            Ok(m) => Ok(m.2),
            Err(e) => Err(e),
        }
    }

    /// The transaction ID and the first question of the message, read from
    /// the start of the datagram whatever the cursor's position.
    pub fn get_relay_information(&mut self) -> (r: Result<(u16, Question), DnsError>)
        ensures
            final(self).bytes() == old(self).bytes(),
            match header_at(old(self).bytes(), 0) {
                Some(h) => match question_at(old(self).bytes(), h.1) {
                    Some(q) => r is Ok && r->Ok_0.0 == h.0.request_id && r->Ok_0.1@ == q.0
                        && final(self).pos() == q.1,
                    None => r is Err,
                },
                None => r is Err,
            },
    {
        self.position = 0;
        let header = match self.parse_header() {
            Ok(h) => h,
            Err(e) => return Err(e),
        };
        match self.parse_question() {
            Ok(q) => Ok((header.request_id, q)),
            Err(e) => Err(e),
        }
    }
}

proof fn lemma_questions_prefix(buf: Seq<u8>, pos: int, i: nat, n: nat)
    requires
        i <= n,
        questions_at(buf, pos, n) is Some,
    ensures
        questions_at(buf, pos, i) is Some,
    decreases n - i,
{
    if i < n {
        lemma_questions_prefix(buf, pos, i + 1, n);
    }
}

proof fn lemma_answers_prefix(buf: Seq<u8>, pos: int, i: nat, n: nat)
    requires
        i <= n,
        answers_at(buf, pos, n) is Some,
    ensures
        answers_at(buf, pos, i) is Some,
    decreases n - i,
{
    if i < n {
        lemma_answers_prefix(buf, pos, i + 1, n);
    }
}

} // verus!
