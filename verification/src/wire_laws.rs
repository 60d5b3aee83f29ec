//! What packets are, octet by octet: which are read, as what, which are refused,
//! and what the responses hold.

use vstd::prelude::*;
use crate::addr::Ipv4Addr;
use crate::dns::{DnsError, Header, QueryView, QuestionView};
use crate::dns;
use crate::dns_laws;
use crate::server::Rejection;
use crate::server;
use crate::text;
use crate::text_laws;

verus! {

/// Whether octets are a label of a host name: 1 to 63 letters, digits, hyphens and
/// underscores, with no hyphen at either end.
pub open spec fn is_label(l: Seq<u8>) -> bool {
    &&& 1 <= l.len() <= 63
    &&& l[0] != 45
    &&& l[l.len() - 1] != 45
    &&& forall|i: int| 0 <= i < l.len() ==> is_label_octet(#[trigger] l[i])
}

/// Whether an octet is a letter, a digit, a hyphen or an underscore.
pub open spec fn is_label_octet(x: u8) -> bool {
    65 <= x <= 90 || 97 <= x <= 122 || 48 <= x <= 57 || x == 45 || x == 95
}

/// Labels on the wire: each behind an octet with its length.
pub open spec fn wire(labels: Seq<Seq<u8>>) -> Seq<u8>
    decreases labels.len(),
{
    if labels.len() == 0 {
        seq![]
    } else {
        seq![labels[0].len() as u8] + labels[0] + wire(labels.skip(1))
    }
}

/// An octet as it is in lower case.
pub open spec fn low_octet(x: u8) -> u8 {
    if 65 <= x <= 90 {
        (x + 32) as u8
    } else {
        x
    }
}

/// Labels with their letters in lower case.
pub open spec fn low_labels(labels: Seq<Seq<u8>>) -> Seq<Seq<u8>> {
    labels.map_values(|l: Seq<u8>| l.map_values(|x: u8| low_octet(x)))
}

/// The characters that octets are.
pub open spec fn chars(l: Seq<u8>) -> Seq<char> {
    l.map_values(|x: u8| x as char)
}

/// The texts of labels.
pub open spec fn texts(labels: Seq<Seq<u8>>) -> Seq<Seq<char>> {
    labels.map_values(|l: Seq<u8>| chars(l))
}

/// The name that labels make up: their texts, with dots between them.
pub open spec fn name_of(labels: Seq<Seq<u8>>) -> Seq<char> {
    text_laws::joined(texts(labels), '.')
}

/// Whether all labels are labels of a host name.
pub open spec fn all_labels(labels: Seq<Seq<u8>>) -> bool {
    forall|i: int| 0 <= i < labels.len() ==> is_label(#[trigger] labels[i])
}

// ---------------------------------------------------------------------------
// Names
// ---------------------------------------------------------------------------

/// The label that is read from octets, and whether it is taken.
proof fn lemma_label(l: Seq<u8>)
    ensures
        dns::label_text(l) == texts(low_labels(seq![l]))[0],
        dns::valid_label(dns::label_text(l)) == is_label(l),
{
    let t = dns::label_text(l);
    assert(low_labels(seq![l])[0] == l.map_values(|x: u8| low_octet(x)));
    assert(t =~= texts(low_labels(seq![l]))[0]);
    assert forall|i: int| 0 <= i < l.len() implies dns::is_label_char(#[trigger] t[i])
        == is_label_octet(l[i]) by {
        assert(t[i] == text::lower_char(l[i] as char));
    }
    if is_label(l) {
        assert(is_label_octet(l[0]) && is_label_octet(l[l.len() - 1]));
        assert forall|i: int| 0 <= i < t.len() implies dns::is_label_char(#[trigger] t[i]) by {
            assert(is_label_octet(l[i]));
        }
    }
    if dns::valid_label(t) {
        assert forall|i: int| 0 <= i < l.len() implies is_label_octet(#[trigger] l[i]) by {
            assert(dns::is_label_char(t[i]));
        }
    }
}

/// Reading goes over labels one by one.
proof fn lemma_over_labels(pre: Seq<u8>, labels: Seq<Seq<u8>>, rest: Seq<u8>, used: int)
    requires
        all_labels(labels),
        0 <= used,
        used + wire(labels).len() <= 255,
    ensures
        dns::labels_at(pre + wire(labels) + rest, pre.len() as int, used) == (match dns::labels_at(
            pre + wire(labels) + rest,
            (pre.len() + wire(labels).len()) as int,
            used + wire(labels).len(),
        ) {
            Ok((ls, end)) => Ok((texts(low_labels(labels)) + ls, end)),
            Err(e) => Err::<(Seq<Seq<char>>, int), DnsError>(e),
        }),
    decreases labels.len(),
{
    let b = pre + wire(labels) + rest;
    let pos = pre.len() as int;
    if labels.len() == 0 {
        assert(forall|ls: Seq<Seq<char>>| texts(low_labels(labels)) + ls =~= ls);
    } else {
        let l = labels[0];
        let more = labels.skip(1);
        assert(is_label(labels[0]));
        let pre2 = pre + (seq![l.len() as u8] + l);
        assert(b =~= pre2 + wire(more) + rest);
        assert(b[pos] == l.len());
        assert(b.subrange(pos + 1, pos + 1 + l.len()) =~= l);
        lemma_label(l);
        assert(all_labels(more)) by {
            assert forall|i: int| 0 <= i < more.len() implies is_label(#[trigger] more[i]) by {
                assert(more[i] == labels[i + 1]);
            }
        }
        lemma_over_labels(pre2, more, rest, used + l.len() + 1);
        let t = dns::label_text(l);
        assert(texts(low_labels(labels)) =~= seq![t] + texts(low_labels(more))) by {
            assert(texts(low_labels(labels))[0] == texts(low_labels(seq![l]))[0]);
        }
        assert(forall|ls: Seq<Seq<char>>|
            seq![t] + (texts(low_labels(more)) + ls) =~= texts(low_labels(labels)) + ls);
    }
}

/// Joining is joining.
proof fn lemma_join_dots(ls: Seq<Seq<char>>)
    ensures
        dns::join_dots(ls) == text_laws::joined(ls, '.'),
    decreases ls.len(),
{
    if ls.len() > 1 {
        lemma_join_dots(ls.drop_last());
        assert(dns::join_dots(ls) =~= text_laws::joined(ls, '.'));
    }
}

/// Every host name on the wire is read, wherever it stands and whatever surrounds
/// it: in lower case, up to the zero that ends it.
pub proof fn law_names_are_read(pre: Seq<u8>, labels: Seq<Seq<u8>>, post: Seq<u8>)
    requires
        all_labels(labels),
        wire(labels).len() <= 255,
    ensures
        dns::name_at(pre + wire(labels) + seq![0u8] + post, pre.len() as int) == Ok::<
            (Seq<char>, int),
            DnsError,
        >((name_of(low_labels(labels)), (pre.len() + wire(labels).len() + 1) as int)),
{
    let rest = seq![0u8] + post;
    let b = pre + wire(labels) + rest;
    assert(pre + wire(labels) + seq![0u8] + post =~= b);
    lemma_over_labels(pre, labels, rest, 0);
    assert(b[(pre.len() + wire(labels).len()) as int] == 0);
    let none: Seq<Seq<char>> = seq![];
    assert(texts(low_labels(labels)) + none =~= texts(low_labels(labels)));
    lemma_join_dots(texts(low_labels(labels)));
}

/// No other name is read. Behind labels that are in order, `rest` is refused where
/// it does not go on with a label that is in order, or with the end: it is over; it
/// is compressed, or too long a label; the name becomes too long; the label runs
/// over the end; or it holds something that a host name does not.
pub proof fn law_other_names_are_refused(pre: Seq<u8>, labels: Seq<Seq<u8>>, rest: Seq<u8>)
    requires
        all_labels(labels),
        wire(labels).len() <= 255,
    ensures
        ({
            let read = dns::name_at(pre + wire(labels) + rest, pre.len() as int);
            let eof = Err::<(Seq<char>, int), DnsError>(DnsError::UnexpectedEof);
            let bad = Err::<(Seq<char>, int), DnsError>(DnsError::BadName);
            let n = rest[0] as int;
            let all = wire(labels).len() + n + 1;
            &&& rest.len() == 0 ==> read == eof
            &&& rest.len() > 0 && n >= 64 ==> read == bad
            &&& rest.len() > 0 && n > 0 && all > 255 ==> read == bad
            &&& rest.len() > 0 && 0 < n < 64 && all <= 255 && rest.len() < n + 1 ==> read == eof
            &&& rest.len() > 0 && 0 < n < 64 && all <= 255 && rest.len() >= n + 1 && !is_label(
                rest.subrange(1, n + 1),
            ) ==> read == bad
        }),
{
    let b = pre + wire(labels) + rest;
    let p = (pre.len() + wire(labels).len()) as int;
    lemma_over_labels(pre, labels, rest, 0);
    if rest.len() > 0 {
        let n = rest[0] as int;
        assert(b[p] == rest[0]);
        if rest.len() >= n + 1 {
            assert(b.subrange(p + 1, p + 1 + n) =~= rest.subrange(1, n + 1));
            lemma_label(rest.subrange(1, n + 1));
        }
    }
}

// ---------------------------------------------------------------------------
// Queries
// ---------------------------------------------------------------------------

/// A packet: a header, a name, a type and a class in two octets each, and whatever
/// follows.
pub open spec fn packet(
    head: Seq<u8>,
    labels: Seq<Seq<u8>>,
    qtype: (u8, u8),
    qclass: (u8, u8),
    tail: Seq<u8>,
) -> Seq<u8> {
    head + wire(labels) + seq![0u8] + seq![qtype.0, qtype.1, qclass.0, qclass.1] + tail
}

/// The query that such a packet holds: each number is the first octet times 256 and
/// the second.
pub open spec fn query_in(
    head: Seq<u8>,
    labels: Seq<Seq<u8>>,
    qtype: (u8, u8),
    qclass: (u8, u8),
) -> QueryView {
    QueryView {
        header: Header {
            id: (head[0] * 256 + head[1]) as u16,
            flags: (head[2] * 256 + head[3]) as u16,
            qdcount: (head[4] * 256 + head[5]) as u16,
            ancount: (head[6] * 256 + head[7]) as u16,
            nscount: (head[8] * 256 + head[9]) as u16,
            arcount: (head[10] * 256 + head[11]) as u16,
        },
        question: QuestionView {
            name: name_of(low_labels(labels)),
            qtype: (qtype.0 * 256 + qtype.1) as u16,
            qclass: (qclass.0 * 256 + qclass.1) as u16,
        },
    }
}

/// Every packet with a question is read, whatever it counts of other records and
/// whatever follows the first question: it gives its own header, the name in lower
/// case, the type and the class.
pub proof fn law_queries_are_read(
    head: Seq<u8>,
    labels: Seq<Seq<u8>>,
    qtype: (u8, u8),
    qclass: (u8, u8),
    tail: Seq<u8>,
)
    requires
        head.len() == 12,
        head[4] != 0 || head[5] != 0,
        all_labels(labels),
        wire(labels).len() <= 255,
    ensures
        dns::query_of(packet(head, labels, qtype, qclass, tail)) == Ok::<QueryView, DnsError>(
            query_in(head, labels, qtype, qclass),
        ),
{
    let b = packet(head, labels, qtype, qclass, tail);
    let four = seq![qtype.0, qtype.1, qclass.0, qclass.1];
    let post = four + tail;
    assert(b =~= head + wire(labels) + seq![0u8] + post);
    law_names_are_read(head, labels, post);
    let end = (12 + wire(labels).len() + 1) as int;
    assert(b[end] == four[0]);
    assert(b[end + 1] == four[1]);
    assert(b[end + 2] == four[2]);
    assert(b[end + 3] == four[3]);
    assert(forall|i: int| 0 <= i < 12 ==> b[i] == head[i]);
    assert(dns::u16_at(b, 4) != 0);
}

/// A packet is refused where it is shorter than a header, where it counts no
/// question, where its name is refused, and where the question ends too early.
pub proof fn law_other_packets_are_refused(b: Seq<u8>, labels: Seq<Seq<u8>>, rest: Seq<u8>)
    ensures
        b.len() < 12 ==> dns::query_of(b) == Err::<QueryView, DnsError>(DnsError::TooShort),
        b.len() >= 12 && b[4] == 0 && b[5] == 0 ==> dns::query_of(b) == Err::<QueryView, DnsError>(
            DnsError::NoQuestion,
        ),
        b.len() >= 12 && (b[4] != 0 || b[5] != 0) ==> (dns::name_at(b, 12) matches Err(e)
            ==> dns::query_of(b) == Err::<QueryView, DnsError>(e)),
        b.len() == 12 && (b[4] != 0 || b[5] != 0) && all_labels(labels) && wire(labels).len() <= 255
            && rest.len() < 4 ==> dns::query_of(b + wire(labels) + seq![0u8] + rest) == Err::<
            QueryView,
            DnsError,
        >(DnsError::UnexpectedEof),
{
    if b.len() >= 12 {
        assert(b[4] != 0 || b[5] != 0 ==> dns::u16_at(b, 4) != 0);
        assert(b[4] == 0 && b[5] == 0 ==> dns::u16_at(b, 4) == 0);
    }
    if b.len() == 12 && (b[4] != 0 || b[5] != 0) && all_labels(labels) && wire(labels).len() <= 255
        && rest.len() < 4 {
        let all = b + wire(labels) + seq![0u8] + rest;
        law_names_are_read(b, labels, rest);
        assert(forall|i: int| 0 <= i < 12 ==> all[i] == b[i]);
        assert(dns::u16_at(all, 4) != 0);
    }
}

/// What the flags say: the highest of their sixteen bits that it is a response, the
/// next four the kind of query.
pub proof fn law_flags_say_what_a_packet_is(h: Header, kind: nat, rest: nat)
    requires
        kind < 16,
        rest < 2048,
    ensures
        h.flags == kind * 2048 + rest ==> h.spec_is_query() && h.spec_opcode() == kind,
        h.flags == 32768 + kind * 2048 + rest ==> !h.spec_is_query() && h.spec_opcode() == kind,
{
}

/// A text is a label of a host name where its characters are.
pub proof fn law_labels_of_host_names(l: Seq<char>)
    ensures
        dns::valid_label(l) <==> {
            &&& 1 <= l.len() <= 63
            &&& l[0] as int != 45
            &&& l[l.len() - 1] as int != 45
            &&& forall|i: int|
                0 <= i < l.len() ==> {
                    let code = (#[trigger] l[i]) as int;
                    97 <= code <= 122 || 48 <= code <= 57 || code == 45 || code == 95
                }
        },
{
    if dns::valid_label(l) {
        assert forall|i: int| 0 <= i < l.len() implies ({
            let code = (#[trigger] l[i]) as int;
            97 <= code <= 122 || 48 <= code <= 57 || code == 45 || code == 95
        }) by {
            assert(dns::is_label_char(l[i]));
        }
    } else if 1 <= l.len() <= 63 && l[0] != '-' && l.last() != '-' {
        let i = choose|i: int| 0 <= i < l.len() && !dns::is_label_char(#[trigger] l[i]);
        assert(!dns::is_label_char(l[i]));
    }
}

/// Of the packets that can be read, the server works on those whose third octet
/// says that they are standard queries: the upper five bits are 0.
pub proof fn law_standard_queries_are_admitted(
    head: Seq<u8>,
    labels: Seq<Seq<u8>>,
    qtype: (u8, u8),
    qclass: (u8, u8),
    tail: Seq<u8>,
)
    requires
        head.len() == 12,
        head[4] != 0 || head[5] != 0,
        all_labels(labels),
        wire(labels).len() <= 255,
    ensures
        server::admitted(packet(head, labels, qtype, qclass, tail)) == if head[2] < 8 {
            Ok::<QueryView, Rejection>(query_in(head, labels, qtype, qclass))
        } else {
            Err::<QueryView, Rejection>(Rejection::NotAQuery)
        },
{
    law_queries_are_read(head, labels, qtype, qclass, tail);
}

/// A packet that cannot be read is rejected for that reason.
pub proof fn law_unreadable_packets_are_rejected(b: Seq<u8>)
    ensures
        dns::query_of(b) matches Err(e) ==> server::admitted(b) == Err::<QueryView, Rejection>(
            Rejection::Malformed(e),
        ),
{
}

// ---------------------------------------------------------------------------
// Responses
// ---------------------------------------------------------------------------

/// Whether octets can be written as a label and stay what they are: ASCII, without
/// a dot, and few enough to be counted in one octet.
pub open spec fn is_plain(l: Seq<u8>) -> bool {
    &&& 1 <= l.len() <= 255
    &&& forall|i: int| 0 <= i < l.len() ==> (#[trigger] l[i]) < 128 && l[i] != 46
}

/// Whether all labels can.
pub open spec fn all_plain(labels: Seq<Seq<u8>>) -> bool {
    forall|i: int| 0 <= i < labels.len() ==> is_plain(#[trigger] labels[i])
}

/// The sixteen octets of an A record behind a question: a pointer to offset 12, the
/// type and the class 1, the time to live, and the four octets of the address.
pub open spec fn answer_octets(ip: Ipv4Addr, ttl: u32) -> Seq<u8> {
    seq![
        0xC0u8,
        0x0Cu8,
        0u8,
        1u8,
        0u8,
        1u8,
        (ttl / 0x100_0000) as u8,
        (ttl / 0x1_0000 % 256) as u8,
        (ttl / 0x100 % 256) as u8,
        (ttl % 256) as u8,
        0u8,
        4u8,
        ip.a,
        ip.b,
        ip.c,
        ip.d,
    ]
}

/// The octets of a response up to its answers.
pub open spec fn head_octets(
    q: QueryView,
    labels: Seq<Seq<u8>>,
    answers: u8,
    rcode: u8,
    authoritative: bool,
) -> Seq<u8> {
    seq![
        (q.header.id / 256) as u8,
        (q.header.id % 256) as u8,
        (0x80 + (if authoritative {
            4int
        } else {
            0int
        }) + q.header.flags / 256 % 2) as u8,
        (0x80 + rcode % 16) as u8,
        0u8,
        1u8,
        0u8,
        answers,
        0u8,
        0u8,
        0u8,
        0u8,
    ] + wire(labels) + seq![
        0u8,
        (q.question.qtype / 256) as u8,
        (q.question.qtype % 256) as u8,
        (q.question.qclass / 256) as u8,
        (q.question.qclass % 256) as u8,
    ]
}

/// Texts of labels are written as the labels.
proof fn lemma_written(labels: Seq<Seq<u8>>)
    requires
        all_plain(labels),
    ensures
        dns::encoded_labels(texts(labels)) == wire(labels),
    decreases labels.len(),
{
    if labels.len() > 0 {
        let l = labels[0];
        let more = labels.skip(1);
        assert(is_plain(labels[0]));
        assert(all_plain(more)) by {
            assert forall|i: int| 0 <= i < more.len() implies is_plain(#[trigger] more[i]) by {
                assert(more[i] == labels[i + 1]);
            }
        }
        lemma_written(more);
        assert(texts(labels) =~= seq![chars(l)] + texts(more));
        dns_laws::lemma_encoded_cons(chars(l), texts(more));
        let c = chars(l);
        assert forall|i: int| 0 <= i < c.len() implies '\0' <= #[trigger] c[i] <= '\u{7f}' by {
            assert(l[i] < 128);
        }
        vstd::utf8::is_ascii_chars_encode_utf8(c);
        let octets = vstd::utf8::encode_utf8(c);
        assert(octets =~= l) by {
            assert forall|i: int| 0 <= i < l.len() implies octets[i] == l[i] by {
                assert(c[i] == l[i] as char);
                assert(l[i] < 128);
            }
        }
        assert(dns::encoded_label(c) =~= seq![l.len() as u8] + l);
        assert(wire(labels) =~= dns::encoded_label(c) + wire(more));
    }
}

/// The name that labels make up is written as the labels and a zero.
proof fn lemma_name_written(labels: Seq<Seq<u8>>)
    requires
        all_plain(labels),
    ensures
        dns::encoded_name(name_of(labels)) == wire(labels).push(0),
{
    let ts = texts(labels);
    if labels.len() > 0 {
        assert forall|i: int| 0 <= i < ts.len() implies text_laws::lacks(#[trigger] ts[i], '.') by {
            assert(is_plain(labels[i]));
            assert forall|k: int| 0 <= k < ts[i].len() implies #[trigger] ts[i][k] != '.' by {
                assert(labels[i][k] != 46);
                assert(ts[i][k] == labels[i][k] as char);
            }
        }
        text_laws::law_splitting(ts, '.');
        lemma_written(labels);
    } else {
        reveal_with_fuel(dns::encoded_labels, 2);
        let none: Seq<char> = seq![];
        assert(name_of(labels) =~= none);
        assert(text::split(none, '.') =~= seq![none]);
        assert(seq![none].drop_last() =~= seq![]);
        assert(dns::encoded_labels(seq![none]) =~= seq![]);
        assert(wire(labels) =~= seq![]);
    }
}

/// Any name is written part by part: each that is not empty behind an octet that
/// counts its own octets, modulo 256; an empty one is left out; a zero at the end.
pub proof fn law_names_are_written_part_by_part(
    parts: Seq<Seq<char>>,
    more: Seq<Seq<char>>,
    l: Seq<char>,
)
    ensures
        parts.len() > 0 && (forall|i: int|
            0 <= i < parts.len() ==> text_laws::lacks(#[trigger] parts[i], '.'))
            ==> dns::encoded_name(text_laws::joined(parts, '.')) == dns::encoded_labels(parts)
            + seq![0u8],
        dns::encoded_labels(parts + more) == dns::encoded_labels(parts) + dns::encoded_labels(more),
        dns::encoded_labels(seq![l]) == if l.len() == 0 {
            seq![]
        } else {
            seq![(vstd::utf8::encode_utf8(l).len() % 256) as u8] + vstd::utf8::encode_utf8(l)
        },
{
    if parts.len() > 0 && forall|i: int|
        0 <= i < parts.len() ==> text_laws::lacks(#[trigger] parts[i], '.') {
        text_laws::law_splitting(parts, '.');
        assert(dns::encoded_labels(parts).push(0) =~= dns::encoded_labels(parts) + seq![0u8]);
    }
    lemma_written_both(parts, more);
    reveal_with_fuel(dns::encoded_labels, 2);
    assert(seq![l].drop_last() =~= seq![]);
    assert(dns::encoded_labels(seq![l]) =~= dns::encoded_label(l));
}

/// Labels behind labels.
proof fn lemma_written_both(a: Seq<Seq<char>>, b: Seq<Seq<char>>)
    ensures
        dns::encoded_labels(a + b) == dns::encoded_labels(a) + dns::encoded_labels(b),
    decreases b.len(),
{
    if b.len() == 0 {
        assert(a + b =~= a);
        assert(dns::encoded_labels(a) + dns::encoded_labels(b) =~= dns::encoded_labels(a));
    } else {
        assert((a + b).drop_last() =~= a + b.drop_last());
        assert((a + b).last() == b.last());
        lemma_written_both(a, b.drop_last());
        assert(dns::encoded_labels(a + b) =~= dns::encoded_labels(a) + dns::encoded_labels(b));
    }
}

/// A response, octet by octet: the id of the query; QR and RA set, RD as in the
/// query, AA as asked for, the response code, and no other flag; one question, as
/// many answers as there are and no other records; the question; and the A record
/// directly behind it, where there is one.
pub proof fn law_responses_octet_by_octet(
    q: QueryView,
    labels: Seq<Seq<u8>>,
    ip: Ipv4Addr,
    ttl: u32,
    rcode: u8,
    authoritative: bool,
)
    requires
        all_plain(labels),
        q.question.name == name_of(labels),
    ensures
        dns::error_response(q, rcode, authoritative) == head_octets(
            q,
            labels,
            0,
            rcode,
            authoritative,
        ),
        dns::a_response(q, ip, ttl, authoritative) == head_octets(q, labels, 1, 0, authoritative)
            + answer_octets(ip, ttl),
{
    lemma_name_written(labels);
    lemma_flag_octets(q.header.flags, authoritative, rcode);
    lemma_flag_octets(q.header.flags, authoritative, 0);
    assert(dns::be16(1) =~= seq![0u8, 1u8]);
    assert(dns::be16(0) =~= seq![0u8, 0u8]);
    assert(dns::error_response(q, rcode, authoritative) =~= head_octets(
        q,
        labels,
        0,
        rcode,
        authoritative,
    ));
    assert(dns::response_head(q, 1, 0, authoritative) =~= head_octets(
        q,
        labels,
        1,
        0,
        authoritative,
    ));
    assert(dns::encoded_a_record(ip, ttl) =~= answer_octets(ip, ttl));
}

/// The two octets of the flags.
proof fn lemma_flag_octets(query_flags: u16, authoritative: bool, rcode: u8)
    ensures
        ({
            let flags = dns::response_flags(query_flags, authoritative, rcode);
            let aa: int = if authoritative {
                4
            } else {
                0
            };
            &&& flags / 256 == 0x80 + aa + query_flags / 256 % 2
            &&& flags % 256 == 0x80 + rcode % 16
        }),
{
}

/// The A record of every response, whatever the name: sixteen octets, directly
/// behind what is the same, but for the count of answers, in the response without
/// an answer to the same query; and that one ends with the type and the class of
/// the question.
pub proof fn law_answers_stand_behind_the_question(
    q: QueryView,
    ip: Ipv4Addr,
    ttl: u32,
    authoritative: bool,
)
    ensures
        ({
            let with = dns::a_response(q, ip, ttl, authoritative);
            let without = dns::error_response(q, 0, authoritative);
            let n = without.len() as int;
            &&& n >= 17
            &&& with.len() == n + 16
            &&& with.skip(n) == answer_octets(ip, ttl)
            &&& with[7] == 1
            &&& without[7] == 0
            &&& forall|i: int| 0 <= i < n && i != 7 ==> #[trigger] with[i] == without[i]
            &&& without[n - 4] * 256 + without[n - 3] == q.question.qtype
            &&& without[n - 2] * 256 + without[n - 1] == q.question.qclass
        }),
{
    let with = dns::a_response(q, ip, ttl, authoritative);
    let without = dns::error_response(q, 0, authoritative);
    let n = without.len() as int;
    assert(dns::encoded_a_record(ip, ttl) =~= answer_octets(ip, ttl));
    assert(with.skip(n) =~= answer_octets(ip, ttl));
    assert(dns::encoded_header(dns_laws::response_header(q, 0, 0, authoritative)).len() == 12);
    assert(without[n - 4] == dns::be16(q.question.qtype)[0]);
    assert(without[n - 3] == dns::be16(q.question.qtype)[1]);
    assert(without[n - 2] == dns::be16(q.question.qclass)[0]);
    assert(without[n - 1] == dns::be16(q.question.qclass)[1]);
}

/// A response to a packet repeats its question octet for octet, in lower case, under
/// its id, and with its bit RD.
pub proof fn law_responses_to_packets(
    head: Seq<u8>,
    labels: Seq<Seq<u8>>,
    qtype: (u8, u8),
    qclass: (u8, u8),
    ip: Ipv4Addr,
    ttl: u32,
    rcode: u8,
    authoritative: bool,
)
    requires
        head.len() == 12,
        all_labels(labels),
    ensures
        ({
            let q = query_in(head, labels, qtype, qclass);
            let aa: int = if authoritative {
                4
            } else {
                0
            };
            let third = (0x80 + aa + head[2] % 2) as u8;
            let question = wire(low_labels(labels)) + seq![
                0u8,
                qtype.0,
                qtype.1,
                qclass.0,
                qclass.1,
            ];
            &&& dns::a_response(q, ip, ttl, authoritative) == seq![
                head[0],
                head[1],
                third,
                0x80u8,
                0u8,
                1u8,
                0u8,
                1u8,
                0u8,
                0u8,
                0u8,
                0u8,
            ] + question + answer_octets(ip, ttl)
            &&& dns::error_response(q, rcode, authoritative) == seq![
                head[0],
                head[1],
                third,
                (0x80 + rcode % 16) as u8,
                0u8,
                1u8,
                0u8,
                0u8,
                0u8,
                0u8,
                0u8,
                0u8,
            ] + question
        }),
{
    let q = query_in(head, labels, qtype, qclass);
    let low = low_labels(labels);
    assert(all_plain(low)) by {
        assert forall|i: int| 0 <= i < low.len() implies is_plain(#[trigger] low[i]) by {
            assert(is_label(labels[i]));
            assert forall|k: int| 0 <= k < low[i].len() implies (#[trigger] low[i][k]) < 128
                && low[i][k] != 46 by {
                assert(is_label_octet(labels[i][k]));
                assert(low[i][k] == low_octet(labels[i][k]));
            }
        }
    }
    law_responses_octet_by_octet(q, low, ip, ttl, rcode, authoritative);
    assert(dns::a_response(q, ip, ttl, authoritative) =~= head_octets(q, low, 1, 0, authoritative)
        + answer_octets(ip, ttl));
    assert(head_octets(q, low, 0, rcode, authoritative).len() == 17 + wire(low).len());
}

} // verus!
