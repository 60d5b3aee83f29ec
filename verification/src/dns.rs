//! DNS packets: reading queries and building responses.
//!
//! What is here is the header, one question, a domain name without compression,
//! and A records. The module knows of bytes on the wire and of nothing else.

use vstd::prelude::*;
use crate::addr::Ipv4Addr;
use crate::text;

verus! {

/// QTYPE A: an IPv4 address record.
pub const TYPE_A: u16 = 1;

/// QCLASS IN: the Internet.
pub const CLASS_IN: u16 = 1;

/// RCODE: no error.
pub const RCODE_NOERROR: u8 = 0;

/// RCODE: the query could not be interpreted.
pub const RCODE_FORMERR: u8 = 1;

/// RCODE: the server failed.
pub const RCODE_SERVFAIL: u8 = 2;

/// RCODE: the name does not exist.
pub const RCODE_NXDOMAIN: u8 = 3;

/// RCODE: not implemented.
pub const RCODE_NOTIMP: u8 = 4;

/// The bit AA (authoritative answer) of the header's flags.
pub const FLAG_AA: u16 = 0x0400;

/// Why a packet could not be read. None of these is fatal: a bad packet is skipped.
#[derive(Debug, Clone, Copy, PartialEq, Eq, Structural)]
pub enum DnsError {
    /// The packet is shorter than a header.
    TooShort,
    /// The data ends in the middle of something.
    UnexpectedEof,
    /// The name is too long, is compressed, or holds a bad label.
    BadName,
    /// The packet holds no question.
    NoQuestion,
}

/// The header of a DNS packet.
#[derive(Debug, Clone, Copy, PartialEq, Eq, Structural)]
pub struct Header {
    pub id: u16,
    pub flags: u16,
    pub qdcount: u16,
    pub ancount: u16,
    pub nscount: u16,
    pub arcount: u16,
}

/// A question: name, type and class.
#[derive(Debug, Clone)]
pub struct Question {
    /// The name in lower case, its labels separated by dots: `router.lan`.
    pub name: String,
    pub qtype: u16,
    pub qclass: u16,
}

/// A query: the header and the first question.
#[derive(Debug, Clone)]
pub struct Query {
    pub header: Header,
    pub question: Question,
}

/// What a [`Question`] holds.
pub struct QuestionView {
    pub name: Seq<char>,
    pub qtype: u16,
    pub qclass: u16,
}

/// What a [`Query`] holds.
pub struct QueryView {
    pub header: Header,
    pub question: QuestionView,
}

impl View for Question {
    type V = QuestionView;

    open spec fn view(&self) -> QuestionView {
        QuestionView { name: self.name@, qtype: self.qtype, qclass: self.qclass }
    }
}

impl View for Query {
    type V = QueryView;

    open spec fn view(&self) -> QueryView {
        QueryView { header: self.header, question: self.question@ }
    }
}

impl DnsError {
    /// The error in words.
    pub open spec fn text(self) -> Seq<char> {
        match self {
            DnsError::TooShort => "пакет короче заголовка DNS"@,
            DnsError::UnexpectedEof => "неожиданный конец пакета"@,
            DnsError::BadName => "некорректное доменное имя"@,
            DnsError::NoQuestion => "в пакете нет question"@,
        }
    }

    /// The error in words.
    pub fn message(&self) -> (r: &'static str)
        ensures
            r@ == self.text(),
    {
        match self {
            DnsError::TooShort => "пакет короче заголовка DNS",
            DnsError::UnexpectedEof => "неожиданный конец пакета",
            DnsError::BadName => "некорректное доменное имя",
            DnsError::NoQuestion => "в пакете нет question",
        }
    }
}

// ---------------------------------------------------------------------------
// Numbers on the wire
// ---------------------------------------------------------------------------

/// The two octets of a number, the high one first.
pub open spec fn be16(x: u16) -> Seq<u8> {
    seq![(x / 256) as u8, (x % 256) as u8]
}

/// The four octets of a number, the high one first.
pub open spec fn be32(x: u32) -> Seq<u8> {
    seq![
        (x / 0x100_0000) as u8,
        (x / 0x1_0000 % 256) as u8,
        (x / 256 % 256) as u8,
        (x % 256) as u8,
    ]
}

/// The number in the two octets at `i`.
pub open spec fn u16_at(b: Seq<u8>, i: int) -> u16 {
    (b[i] * 256 + b[i + 1]) as u16
}

/// Read the number in the two octets at `i`.
fn read_u16(b: &[u8], i: usize) -> (r: u16)
    requires
        i + 1 < b@.len(),
    ensures
        r == u16_at(b@, i as int),
{
    b[i] as u16 * 256 + b[i + 1] as u16
}

/// Append a number in two octets.
fn push_u16(out: &mut Vec<u8>, x: u16)
    ensures
        final(out)@ == old(out)@ + be16(x),
{
    out.push((x / 256) as u8);
    out.push((x % 256) as u8);
    assert(out@ =~= old(out)@ + be16(x));
}

/// Append a number in four octets.
fn push_u32(out: &mut Vec<u8>, x: u32)
    ensures
        final(out)@ == old(out)@ + be32(x),
{
    out.push((x / 0x100_0000) as u8);
    out.push((x / 0x1_0000 % 256) as u8);
    out.push((x / 256 % 256) as u8);
    out.push((x % 256) as u8);
    assert(out@ =~= old(out)@ + be32(x));
}

// ---------------------------------------------------------------------------
// The header
// ---------------------------------------------------------------------------

impl Header {
    /// Whether the packet is a query: the bit QR, the highest of the flags, is 0.
    pub open spec fn spec_is_query(self) -> bool {
        self.flags < 0x8000
    }

    /// The field OPCODE: the four bits below QR.
    pub open spec fn spec_opcode(self) -> nat {
        (self.flags as nat / 0x800) % 16
    }

    /// Whether the packet is a query (QR = 0) rather than a response (QR = 1).
    pub fn is_query(&self) -> (r: bool)
        ensures
            r == self.spec_is_query(),
    {
        let flags = self.flags;
        assert((flags & 0x8000 == 0) == (flags < 0x8000)) by (bit_vector);
        flags & 0x8000 == 0
    }

    /// The OPCODE; 0 is a standard query.
    pub fn opcode(&self) -> (r: u8)
        ensures
            r as nat == self.spec_opcode(),
    {
        let flags = self.flags;
        assert((flags >> 11) & 0x0F == (flags / 0x800) % 16) by (bit_vector);
        ((flags >> 11) & 0x0F) as u8
    }
}

/// The header at the start of a packet.
pub open spec fn header_of(b: Seq<u8>) -> Header {
    Header {
        id: u16_at(b, 0),
        flags: u16_at(b, 2),
        qdcount: u16_at(b, 4),
        ancount: u16_at(b, 6),
        nscount: u16_at(b, 8),
        arcount: u16_at(b, 10),
    }
}

/// Read the header at the start of a packet.
pub fn parse_header(buf: &[u8]) -> (r: Result<Header, DnsError>)
    ensures
        buf@.len() < 12 ==> r == Err::<Header, DnsError>(DnsError::TooShort),
        buf@.len() >= 12 ==> r == Ok::<Header, DnsError>(header_of(buf@)),
{
    if buf.len() < 12 {
        return Err(DnsError::TooShort);
    }
    Ok(
        Header {
            id: read_u16(buf, 0),
            flags: read_u16(buf, 2),
            qdcount: read_u16(buf, 4),
            ancount: read_u16(buf, 6),
            nscount: read_u16(buf, 8),
            arcount: read_u16(buf, 10),
        },
    )
}

// ---------------------------------------------------------------------------
// Names
// ---------------------------------------------------------------------------

/// The characters that a label is made of.
pub open spec fn is_label_char(c: char) -> bool {
    'a' <= c <= 'z' || '0' <= c <= '9' || c == '-' || c == '_'
}

/// A label of a host name: 1 to 63 of the characters above, no hyphen at either end.
pub open spec fn valid_label(l: Seq<char>) -> bool {
    &&& 1 <= l.len() <= 63
    &&& l[0] != '-'
    &&& l.last() != '-'
    &&& forall|i: int| 0 <= i < l.len() ==> is_label_char(#[trigger] l[i])
}

/// Octets read as characters, letters in lower case.
pub open spec fn label_text(raw: Seq<u8>) -> Seq<char> {
    raw.map_values(|b: u8| text::lower_char(b as char))
}

/// Labels with dots between them.
pub open spec fn join_dots(ls: Seq<Seq<char>>) -> Seq<char>
    decreases ls.len(),
{
    if ls.len() == 0 {
        seq![]
    } else if ls.len() == 1 {
        ls[0]
    } else {
        join_dots(ls.drop_last()).push('.') + ls.last()
    }
}

/// The labels of the name at `pos` and the position behind it, or why there is
/// no name there. `used` octets of the name are already behind.
pub open spec fn labels_at(b: Seq<u8>, pos: int, used: int) -> Result<
    (Seq<Seq<char>>, int),
    DnsError,
>
    decreases b.len() - pos,
{
    if pos < 0 || pos >= b.len() {
        Err(DnsError::UnexpectedEof)
    } else {
        let n = b[pos] as int;
        let next = pos + 1 + n;
        if n == 0 {
            Ok((seq![], pos + 1))
        } else if n > 63 || used + n + 1 > 255 {
            Err(DnsError::BadName)
        } else if next > b.len() {
            Err(DnsError::UnexpectedEof)
        } else {
            let label = label_text(b.subrange(pos + 1, next));
            if !valid_label(label) {
                Err(DnsError::BadName)
            } else {
                match labels_at(b, next, used + n + 1) {
                    Ok((rest, end)) => Ok((seq![label] + rest, end)),
                    Err(e) => Err(e),
                }
            }
        }
    }
}

/// The name at `pos` and the position behind it, or why there is no name there.
pub open spec fn name_at(b: Seq<u8>, pos: int) -> Result<(Seq<char>, int), DnsError> {
    match labels_at(b, pos, 0) {
        Ok((labels, end)) => Ok((join_dots(labels), end)),
        Err(e) => Err(e),
    }
}

/// Whether `label` may stand in a host name: only `a-z 0-9 - _`, and no hyphen
/// at either end.
pub fn is_valid_label(label: &str) -> (r: bool)
    ensures
        r == valid_label(label@),
{
    let l = text::chars_of(label);
    if l.len() == 0 || l.len() > 63 {
        return false;
    }
    if l[0] == '-' || l[l.len() - 1] == '-' {
        return false;
    }
    for i in 0..l.len()
        invariant
            l@ == label@,
            forall|j: int| 0 <= j < i ==> is_label_char(#[trigger] l@[j]),
    {
        let c = l[i];
        if !(('a' <= c && c <= 'z') || ('0' <= c && c <= '9') || c == '-' || c == '_') {
            assert(!is_label_char(label@[i as int]));
            return false;
        }
    }
    true
}

/// The label in the octets from `from` up to `to`, letters in lower case.
fn read_label(b: &[u8], from: usize, to: usize) -> (r: String)
    requires
        from <= to <= b@.len(),
    ensures
        r@ == label_text(b@.subrange(from as int, to as int)),
{
    let mut label = String::new();
    for i in from..to
        invariant
            from <= to <= b@.len(),
            label@ == label_text(b@.subrange(from as int, i as int)),
    {
        label.push(text::to_lower_char(b[i] as char));
        assert(b@.subrange(from as int, i + 1) =~= b@.subrange(from as int, i as int).push(
            b@[i as int],
        ));
    }
    label
}

/// Read the domain name at `pos`, which may not be compressed.
///
/// Returns the name in lower case and the position behind it.
pub fn parse_name(buf: &[u8], pos: usize) -> (r: Result<(String, usize), DnsError>)
    ensures
        match r {
            Ok((name, end)) => name_at(buf@, pos as int) == Ok::<(Seq<char>, int), DnsError>(
                (name@, end as int),
            ),
            Err(e) => name_at(buf@, pos as int) == Err::<(Seq<char>, int), DnsError>(e),
        },
        r matches Ok((_, end)) ==> end <= buf@.len(),
{
    let mut name = String::new();
    let mut at: usize = pos;
    let mut total: usize = 0;
    let ghost mut done: Seq<Seq<char>> = seq![];
    assert(forall|s: Seq<Seq<char>>| Seq::<Seq<char>>::empty() + s =~= s);
    loop
        invariant
            total <= 255,
            name@ == join_dots(done),
            total == 0 <==> done.len() == 0,
            labels_at(buf@, pos as int, 0) == (match labels_at(buf@, at as int, total as int) {
                Ok((rest, end)) => Ok((done + rest, end)),
                Err(e) => Err(e),
            }),
        decreases buf@.len() - at,
    {
        if at >= buf.len() {
            return Err(DnsError::UnexpectedEof);
        }
        let len = buf[at] as usize;
        if len == 0 {
            assert(done + Seq::<Seq<char>>::empty() =~= done);
            return Ok((name, at + 1));
        }
        // A label has at most 63 octets; what is above marks a compressed name.
        if len > 63 {
            return Err(DnsError::BadName);
        }
        // The whole name has at most 255.
        if total + len + 1 > 255 {
            return Err(DnsError::BadName);
        }
        if buf.len() - at - 1 < len {
            return Err(DnsError::UnexpectedEof);
        }
        let end: usize = at + 1 + len;
        let label = read_label(buf, at + 1, end);
        if !is_valid_label(label.as_str()) {
            return Err(DnsError::BadName);
        }
        if total > 0 {
            name.push('.');
        }
        name.append(label.as_str());
        proof {
            let before = done;
            done = done.push(label@);
            assert(done.drop_last() =~= before);
            assert(forall|s: Seq<Seq<char>>| before + (seq![label@] + s) =~= done + s);
        }
        total = total + len + 1;
        at = end;
    }
}

// ---------------------------------------------------------------------------
// Queries
// ---------------------------------------------------------------------------

/// The query that a packet holds, or why it holds none.
pub open spec fn query_of(b: Seq<u8>) -> Result<QueryView, DnsError> {
    if b.len() < 12 {
        Err(DnsError::TooShort)
    } else if header_of(b).qdcount == 0 {
        Err(DnsError::NoQuestion)
    } else {
        match name_at(b, 12) {
            Ok((name, end)) => if end + 4 > b.len() {
                Err(DnsError::UnexpectedEof)
            } else {
                Ok(
                    QueryView {
                        header: header_of(b),
                        question: QuestionView {
                            name,
                            qtype: u16_at(b, end),
                            qclass: u16_at(b, end + 2),
                        },
                    },
                )
            },
            Err(e) => Err(e),
        }
    }
}

/// Read a whole query: the header and the first question.
pub fn parse_query(buf: &[u8]) -> (r: Result<Query, DnsError>)
    ensures
        match r {
            Ok(q) => query_of(buf@) == Ok::<QueryView, DnsError>(q@),
            Err(e) => query_of(buf@) == Err::<QueryView, DnsError>(e),
        },
{
    let header = match parse_header(buf) {
        Ok(h) => h,
        Err(e) => return Err(e),
    };
    if header.qdcount == 0 {
        return Err(DnsError::NoQuestion);
    }
    let (name, pos) = match parse_name(buf, 12) {
        Ok(v) => v,
        Err(e) => return Err(e),
    };
    if buf.len() - pos < 4 {
        return Err(DnsError::UnexpectedEof);
    }
    let qtype = read_u16(buf, pos);
    let qclass = read_u16(buf, pos + 2);
    Ok(Query { header, question: Question { name, qtype, qclass } })
}

// ---------------------------------------------------------------------------
// Responses
// ---------------------------------------------------------------------------

/// A label on the wire: its length in octets, modulo 256, and its octets. An
/// empty label is left out.
pub open spec fn encoded_label(l: Seq<char>) -> Seq<u8> {
    if l.len() == 0 {
        seq![]
    } else {
        let octets = vstd::utf8::encode_utf8(l);
        seq![(octets.len() % 256) as u8] + octets
    }
}

/// Labels on the wire, one after the other.
pub open spec fn encoded_labels(ls: Seq<Seq<char>>) -> Seq<u8>
    decreases ls.len(),
{
    if ls.len() == 0 {
        seq![]
    } else {
        encoded_labels(ls.drop_last()) + encoded_label(ls.last())
    }
}

/// A name on the wire: its labels and a zero.
pub open spec fn encoded_name(name: Seq<char>) -> Seq<u8> {
    encoded_labels(text::split(name, '.')).push(0)
}

/// A header on the wire.
pub open spec fn encoded_header(h: Header) -> Seq<u8> {
    be16(h.id) + be16(h.flags) + be16(h.qdcount) + be16(h.ancount) + be16(h.nscount) + be16(
        h.arcount,
    )
}

/// A question on the wire.
pub open spec fn encoded_question(q: QuestionView) -> Seq<u8> {
    encoded_name(q.name) + be16(q.qtype) + be16(q.qclass)
}

/// The flags of a response: QR and RA set, RD as in the query, AA as given, and
/// the low four bits of the response code.
pub open spec fn response_flags(query_flags: u16, authoritative: bool, rcode: u8) -> u16 {
    let rd: int = if (query_flags / 0x100) % 2 == 1 {
        0x100
    } else {
        0
    };
    let aa: int = if authoritative {
        0x400
    } else {
        0
    };
    (0x8000 + aa + rd + 0x80 + rcode % 16) as u16
}

/// The start of a response: the header, with the id of the query, and its question.
pub open spec fn response_head(q: QueryView, answers: u16, rcode: u8, authoritative: bool) -> Seq<
    u8,
> {
    encoded_header(
        Header {
            id: q.header.id,
            flags: response_flags(q.header.flags, authoritative, rcode),
            qdcount: 1,
            ancount: answers,
            nscount: 0,
            arcount: 0,
        },
    ) + encoded_question(q.question)
}

/// An A record for the name of the question, which stands at offset 12.
pub open spec fn encoded_a_record(ip: Ipv4Addr, ttl: u32) -> Seq<u8> {
    seq![0xC0u8, 0x0Cu8] + be16(TYPE_A) + be16(CLASS_IN) + be32(ttl) + be16(4) + ip.bytes()
}

/// The response with one A record.
pub open spec fn a_response(q: QueryView, ip: Ipv4Addr, ttl: u32, authoritative: bool) -> Seq<u8> {
    response_head(q, 1, RCODE_NOERROR, authoritative) + encoded_a_record(ip, ttl)
}

/// The response with a response code and no record.
pub open spec fn error_response(q: QueryView, rcode: u8, authoritative: bool) -> Seq<u8> {
    response_head(q, 0, rcode, authoritative)
}

/// Append a domain name as labels, each behind its length, and a zero.
pub fn encode_name(name: &str, out: &mut Vec<u8>)
    ensures
        final(out)@ == old(out)@ + encoded_name(name@),
{
    let chars = text::chars_of(name);
    let parts = text::split_at_char(chars.as_slice(), '.');
    let ghost labels = text::split(name@, '.');
    assert(labels.take(0) =~= seq![]);
    for i in 0..parts.len()
        invariant
            text::views(parts@) == labels,
            out@ == old(out)@ + encoded_labels(labels.take(i as int)),
    {
        assert(labels[i as int] == parts@[i as int]@);
        assert(labels.take(i + 1).drop_last() =~= labels.take(i as int));
        if parts[i].len() != 0 {
            let label = text::string_of(parts[i]);
            let octets = label.as_str().as_bytes();
            out.push((octets.len() % 256) as u8);
            out.extend_from_slice(octets);
        }
        assert(out@ =~= old(out)@ + encoded_labels(labels.take(i + 1)));
    }
    assert(labels.take(labels.len() as int) =~= labels);
    out.push(0);
    assert(out@ =~= old(out)@ + encoded_name(name@));
}

/// Append the start of a response to `query`.
fn push_response_head(
    out: &mut Vec<u8>,
    query: &Query,
    answers: u16,
    rcode: u8,
    authoritative: bool,
)
    ensures
        final(out)@ == old(out)@ + response_head(query@, answers, rcode, authoritative),
{
    let query_flags = query.header.flags;
    let rd = query_flags & 0x0100;
    let aa: u16 = if authoritative {
        FLAG_AA
    } else {
        0
    };
    let code = rcode as u16 & 0x0F;
    let flags: u16 = 0x8000 | aa | rd | 0x0080 | code;
    proof {
        let wide = rcode as u16;
        assert(query_flags & 0x0100 == if (query_flags / 0x100) % 2 == 1 {
            0x100u16
        } else {
            0u16
        }) by (bit_vector);
        assert(wide & 0x0F == wide % 16) by (bit_vector);
        assert(0x8000 | aa | rd | 0x0080 | code == 0x8000 + aa + rd + 0x0080 + code) by (bit_vector)
            requires
                aa == 0 || aa == 0x0400,
                rd == 0 || rd == 0x0100,
                code < 16,
        ;
    }
    push_u16(out, query.header.id);
    push_u16(out, flags);
    push_u16(out, 1);
    push_u16(out, answers);
    push_u16(out, 0);
    push_u16(out, 0);
    encode_name(query.question.name.as_str(), out);
    push_u16(out, query.question.qtype);
    push_u16(out, query.question.qclass);
    assert(out@ =~= old(out)@ + response_head(query@, answers, rcode, authoritative));
}

/// Build the response with one A record.
///
/// `ttl` is the record's time to live in seconds; `authoritative` sets AA.
pub fn build_a_response(query: &Query, ip: Ipv4Addr, ttl: u32, authoritative: bool) -> (r: Vec<u8>)
    ensures
        r@ == a_response(query@, ip, ttl, authoritative),
{
    let mut out: Vec<u8> = Vec::with_capacity(64);
    push_response_head(&mut out, query, 1, RCODE_NOERROR, authoritative);
    out.push(0xC0);
    out.push(0x0C);
    push_u16(&mut out, TYPE_A);
    push_u16(&mut out, CLASS_IN);
    push_u32(&mut out, ttl);
    push_u16(&mut out, 4);
    let octets = ip.octets();
    out.push(octets[0]);
    out.push(octets[1]);
    out.push(octets[2]);
    out.push(octets[3]);
    assert(out@ =~= a_response(query@, ip, ttl, authoritative));
    out
}

/// Build the response with a response code and no record.
///
/// `authoritative` sets AA.
pub fn build_error_response(query: &Query, rcode: u8, authoritative: bool) -> (r: Vec<u8>)
    ensures
        r@ == error_response(query@, rcode, authoritative),
{
    let mut out: Vec<u8> = Vec::with_capacity(32);
    push_response_head(&mut out, query, 0, rcode, authoritative);
    assert(out@ =~= error_response(query@, rcode, authoritative));
    out
}

} // verus!
