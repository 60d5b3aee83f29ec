//! What holds of names and packets as a whole: a name that is written is read
//! back, and a response carries the id and the question of its query.

use vstd::prelude::*;
use crate::addr::Ipv4Addr;
use crate::dns::{DnsError, Header, QueryView, QuestionView};
use crate::dns;
use crate::text;

verus! {

/// A name as it comes out of a packet: the root, or valid labels between single
/// dots, 254 characters at most.
pub open spec fn is_host_name(n: Seq<char>) -> bool {
    n.len() == 0 || (n.len() <= 254 && all_valid(text::split(n, '.')))
}

/// Whether every label may stand in a host name.
pub open spec fn all_valid(ls: Seq<Seq<char>>) -> bool {
    forall|i: int| 0 <= i < ls.len() ==> dns::valid_label(#[trigger] ls[i])
}

/// The labels with their letters in lower case.
pub open spec fn lower_all(ls: Seq<Seq<char>>) -> Seq<Seq<char>> {
    ls.map_values(|l: Seq<char>| text::lower(l))
}

// ---------------------------------------------------------------------------
// Labels and names
// ---------------------------------------------------------------------------

/// A valid label holds no dot and no upper-case letter.
proof fn lemma_valid_label(l: Seq<char>)
    requires
        dns::valid_label(l),
    ensures
        forall|i: int| 0 <= i < l.len() ==> l[i] != '.',
        text::lower(l) == l,
{
    assert forall|i: int| 0 <= i < l.len() implies l[i] != '.' && text::lower_char(l[i])
        == l[i] by {
        assert(dns::is_label_char(l[i]));
    }
    assert(text::lower(l) =~= l);
}

/// Valid labels come back when the name that joins them is split.
proof fn lemma_split_join(ls: Seq<Seq<char>>)
    requires
        ls.len() > 0,
        all_valid(ls),
    ensures
        text::split(dns::join_dots(ls), '.') == ls,
    decreases ls.len(),
{
    let last = ls.last();
    lemma_valid_label(last);
    if ls.len() == 1 {
        text::lemma_first_at_is(last, '.', last.len() as int);
        assert(text::split(last, '.') =~= ls);
    } else {
        let init = ls.drop_last();
        assert(all_valid(init)) by {
            assert forall|i: int| 0 <= i < init.len() implies dns::valid_label(
                #[trigger] init[i],
            ) by {
                assert(init[i] == ls[i]);
            }
        }
        lemma_split_join(init);
        text::lemma_split_last(dns::join_dots(init), '.', last);
        assert(init.push(last) =~= ls);
    }
}

/// The labels between the dots of a name join to it.
proof fn lemma_join_split(n: Seq<char>)
    ensures
        dns::join_dots(text::split(n, '.')) == n,
    decreases n.len(),
{
    text::lemma_first_at(n, '.');
    let i = text::first_at(n, '.');
    if i < n.len() {
        let rest = n.skip(i + 1);
        lemma_join_split(rest);
        text::lemma_split_nonempty(rest, '.');
        lemma_join_cons(n.take(i), text::split(rest, '.'));
        assert(n =~= n.take(i).push('.') + rest);
    }
}

/// Joining from the left: the first label, a dot, and the others joined.
proof fn lemma_join_cons(l: Seq<char>, ls: Seq<Seq<char>>)
    requires
        ls.len() > 0,
    ensures
        dns::join_dots(seq![l] + ls) == l.push('.') + dns::join_dots(ls),
    decreases ls.len(),
{
    reveal_with_fuel(dns::join_dots, 2);
    let all = seq![l] + ls;
    assert(all.last() == ls.last());
    if ls.len() == 1 {
        assert(all.drop_last() =~= seq![l]);
        assert(dns::join_dots(all) =~= l.push('.') + dns::join_dots(ls));
    } else {
        assert(all.drop_last() =~= seq![l] + ls.drop_last());
        lemma_join_cons(l, ls.drop_last());
        assert(dns::join_dots(all) =~= l.push('.') + dns::join_dots(ls));
    }
}

/// The labels that are read are valid, fill the octets that were read, and do
/// not exceed what a name may hold.
proof fn lemma_labels_at(b: Seq<u8>, pos: int, used: int)
    requires
        dns::labels_at(b, pos, used) is Ok,
        0 <= used <= 255,
    ensures
        ({
            let (ls, end) = dns::labels_at(b, pos, used).unwrap();
            &&& all_valid(ls)
            &&& 0 <= pos < end <= b.len()
            &&& end == pos + text::spread(ls) + 1
            &&& used + text::spread(ls) <= 255
        }),
    decreases b.len() - pos,
{
    let n = b[pos] as int;
    let next = pos + 1 + n;
    if n > 0 {
        let label = dns::label_text(b.subrange(pos + 1, next));
        lemma_labels_at(b, next, used + n + 1);
        let (rest, end) = dns::labels_at(b, next, used + n + 1).unwrap();
        let ls = seq![label] + rest;
        assert(ls.skip(1) =~= rest);
        assert forall|i: int| 0 <= i < ls.len() implies dns::valid_label(#[trigger] ls[i]) by {
            if i > 0 {
                assert(ls[i] == rest[i - 1]);
            }
        }
    }
}

/// Joined labels are one character shorter than the labels with a dot each.
proof fn lemma_join_len(ls: Seq<Seq<char>>)
    requires
        ls.len() > 0,
        all_valid(ls),
    ensures
        dns::join_dots(ls).len() + 1 == text::spread(ls),
{
    lemma_split_join(ls);
    text::lemma_spread_split(dns::join_dots(ls), '.');
}

/// Whatever name is read from a packet is a host name in lower case, and lies
/// within the packet.
pub proof fn law_read_names_are_host_names(b: Seq<u8>, pos: int)
    ensures
        dns::name_at(b, pos) matches Ok((name, end)) ==> {
            &&& is_host_name(name)
            &&& text::lower(name) == name
            &&& 0 <= pos < end <= b.len()
        },
{
    if let Ok((ls, end)) = dns::labels_at(b, pos, 0) {
        lemma_labels_at(b, pos, 0);
        let name = dns::join_dots(ls);
        if ls.len() > 0 {
            lemma_split_join(ls);
            lemma_join_len(ls);
        }
        lemma_host_name_is_lower(name);
    }
}

/// A host name has no upper-case letter.
proof fn lemma_host_name_is_lower(n: Seq<char>)
    requires
        is_host_name(n),
    ensures
        text::lower(n) == n,
{
    if n.len() > 0 {
        let ls = text::split(n, '.');
        text::lemma_lower_split(n, '.');
        assert forall|i: int| 0 <= i < ls.len() implies lower_all(ls)[i] == #[trigger] ls[i] by {
            lemma_valid_label(ls[i]);
        }
        assert(lower_all(ls) =~= ls);
        lemma_join_split(n);
        lemma_join_split(text::lower(n));
    } else {
        assert(text::lower(n) =~= n);
    }
}

// ---------------------------------------------------------------------------
// Names that are written are read back
// ---------------------------------------------------------------------------

/// On the wire, a label that is valid in lower case is its length and one octet
/// for each character.
proof fn lemma_encoded_label(l: Seq<char>)
    requires
        dns::valid_label(text::lower(l)),
    ensures
        dns::encoded_label(l).len() == l.len() + 1,
        dns::encoded_label(l)[0] == l.len(),
        dns::label_text(dns::encoded_label(l).skip(1)) == text::lower(l),
{
    let low = text::lower(l);
    assert forall|i: int| 0 <= i < l.len() implies '\0' <= #[trigger] l[i] <= '\u{7f}' by {
        assert(dns::is_label_char(low[i]));
        assert(low[i] == text::lower_char(l[i]));
    }
    vstd::utf8::is_ascii_chars_encode_utf8(l);
    let octets = vstd::utf8::encode_utf8(l);
    assert(dns::encoded_label(l).skip(1) =~= octets);
    assert(dns::label_text(octets) =~= low);
}

/// Writing labels from the left: the first one, and the others.
pub proof fn lemma_encoded_cons(l: Seq<char>, ls: Seq<Seq<char>>)
    ensures
        dns::encoded_labels(seq![l] + ls) == dns::encoded_label(l) + dns::encoded_labels(ls),
    decreases ls.len(),
{
    reveal_with_fuel(dns::encoded_labels, 2);
    let all = seq![l] + ls;
    if ls.len() == 0 {
        assert(all.drop_last() =~= ls);
        assert(dns::encoded_labels(all) =~= dns::encoded_label(l) + dns::encoded_labels(ls));
    } else {
        assert(all.drop_last() =~= seq![l] + ls.drop_last());
        lemma_encoded_cons(l, ls.drop_last());
        assert(dns::encoded_labels(all) =~= dns::encoded_label(l) + dns::encoded_labels(ls));
    }
}

/// Labels that are written between other octets are read back in lower case.
proof fn lemma_labels_read_back(pre: Seq<u8>, ls: Seq<Seq<char>>, post: Seq<u8>, used: int)
    requires
        all_valid(lower_all(ls)),
        0 <= used,
        used + text::spread(ls) <= 255,
    ensures
        dns::labels_at(pre + dns::encoded_labels(ls).push(0) + post, pre.len() as int, used) == Ok::<
            (Seq<Seq<char>>, int),
            DnsError,
        >((lower_all(ls), (pre.len() + dns::encoded_labels(ls).len() + 1) as int)),
    decreases ls.len(),
{
    let b = pre + dns::encoded_labels(ls).push(0) + post;
    let pos = pre.len() as int;
    if ls.len() == 0 {
        assert(b[pos] == 0);
        assert(lower_all(ls) =~= seq![]);
    } else {
        let l = ls[0];
        let rest = ls.skip(1);
        assert(ls =~= seq![l] + rest);
        lemma_encoded_cons(l, rest);
        assert(dns::valid_label(lower_all(ls)[0]));
        lemma_encoded_label(l);
        let e = dns::encoded_label(l);
        let pre2 = pre + e;
        assert(b =~= pre2 + dns::encoded_labels(rest).push(0) + post);
        assert(b[pos] == e[0]);
        assert(b.subrange(pos + 1, pos + 1 + l.len()) =~= e.skip(1));
        assert(all_valid(lower_all(rest))) by {
            assert forall|i: int| 0 <= i < rest.len() implies dns::valid_label(
                #[trigger] lower_all(rest)[i],
            ) by {
                assert(lower_all(rest)[i] == lower_all(ls)[i + 1]);
            }
        }
        assert(text::spread(rest) >= 0) by {
            text::lemma_spread_nonneg(rest);
        }
        lemma_labels_read_back(pre2, rest, post, used + l.len() + 1);
        assert(lower_all(ls) =~= seq![text::lower(l)] + lower_all(rest));
    }
}

/// A name that is written is read back: where `name`, in lower case, is a host
/// name, and stands encoded between other octets, reading there gives it in
/// lower case, and the position behind it.
pub proof fn law_written_names_are_read_back(pre: Seq<u8>, name: Seq<char>, post: Seq<u8>)
    requires
        is_host_name(text::lower(name)),
    ensures
        dns::name_at(pre + dns::encoded_name(name) + post, pre.len() as int) == Ok::<
            (Seq<char>, int),
            DnsError,
        >((text::lower(name), (pre.len() + dns::encoded_name(name).len()) as int)),
{
    let ls = text::split(name, '.');
    text::lemma_lower_split(name, '.');
    if name.len() > 0 {
        assert(lower_all(ls) =~= text::split(text::lower(name), '.'));
        text::lemma_spread_split(name, '.');
        lemma_labels_read_back(pre, ls, post, 0);
        lemma_join_split(text::lower(name));
    } else {
        reveal_with_fuel(dns::encoded_labels, 2);
        let none: Seq<Seq<char>> = seq![];
        assert(text::lower(name) =~= seq![]);
        assert(ls =~= seq![name]);
        assert(ls.drop_last() =~= none);
        assert(dns::encoded_labels(ls) =~= dns::encoded_labels(none));
        assert(lower_all(none) =~= none);
        lemma_labels_read_back(pre, none, post, 0);
    }
}

// ---------------------------------------------------------------------------
// Responses
// ---------------------------------------------------------------------------

/// Two octets written are the number read.
proof fn lemma_u16_read_back(b: Seq<u8>, i: int, x: u16)
    requires
        0 <= i,
        i + 2 <= b.len(),
        b.subrange(i, i + 2) == dns::be16(x),
    ensures
        dns::u16_at(b, i) == x,
{
    assert(b[i] == b.subrange(i, i + 2)[0]);
    assert(b[i + 1] == b.subrange(i, i + 2)[1]);
}

/// The flags of a response: it is marked as a response of opcode 0 with
/// recursion available, AA is set exactly where it was asked for, RD is that of
/// the query, and the low four bits are those of the response code.
pub proof fn law_response_flags(query_flags: u16, authoritative: bool, rcode: u8)
    ensures
        ({
            let flags = dns::response_flags(query_flags, authoritative, rcode);
            &&& flags >= 0x8000
            &&& flags / 0x800 % 16 == 0
            &&& (flags / 0x400 % 2 == 1) == authoritative
            &&& flags / 0x100 % 2 == query_flags / 0x100 % 2
            &&& flags / 0x80 % 2 == 1
            &&& flags % 16 == rcode % 16
        }),
{
}

/// The header that a response to `q` starts with.
pub open spec fn response_header(
    q: QueryView,
    answers: u16,
    rcode: u8,
    authoritative: bool,
) -> Header {
    Header {
        id: q.header.id,
        flags: dns::response_flags(q.header.flags, authoritative, rcode),
        qdcount: 1,
        ancount: answers,
        nscount: 0,
        arcount: 0,
    }
}

/// What follows the start of a response does not hide it: read as a packet, it
/// holds the header of the response and the question of the query.
proof fn lemma_head_read_back(
    q: QueryView,
    answers: u16,
    rcode: u8,
    authoritative: bool,
    tail: Seq<u8>,
)
    requires
        is_host_name(text::lower(q.question.name)),
    ensures
        dns::query_of(dns::response_head(q, answers, rcode, authoritative) + tail) == Ok::<
            QueryView,
            DnsError,
        >(
            QueryView {
                header: response_header(q, answers, rcode, authoritative),
                question: QuestionView {
                    name: text::lower(q.question.name),
                    qtype: q.question.qtype,
                    qclass: q.question.qclass,
                },
            },
        ),
{
    let h = response_header(q, answers, rcode, authoritative);
    let head = dns::encoded_header(h);
    let b = dns::response_head(q, answers, rcode, authoritative) + tail;
    let name = dns::encoded_name(q.question.name);
    let post = dns::be16(q.question.qtype) + dns::be16(q.question.qclass) + tail;
    assert(b =~= head + name + post);
    assert(b.subrange(0, 2) =~= dns::be16(h.id));
    assert(b.subrange(2, 4) =~= dns::be16(h.flags));
    assert(b.subrange(4, 6) =~= dns::be16(h.qdcount));
    assert(b.subrange(6, 8) =~= dns::be16(h.ancount));
    assert(b.subrange(8, 10) =~= dns::be16(h.nscount));
    assert(b.subrange(10, 12) =~= dns::be16(h.arcount));
    lemma_u16_read_back(b, 0, h.id);
    lemma_u16_read_back(b, 2, h.flags);
    lemma_u16_read_back(b, 4, h.qdcount);
    lemma_u16_read_back(b, 6, h.ancount);
    lemma_u16_read_back(b, 8, h.nscount);
    lemma_u16_read_back(b, 10, h.arcount);
    law_written_names_are_read_back(head, q.question.name, post);
    let end = 12 + name.len() as int;
    assert(b.subrange(end, end + 2) =~= dns::be16(q.question.qtype));
    assert(b.subrange(end + 2, end + 4) =~= dns::be16(q.question.qclass));
    lemma_u16_read_back(b, end, q.question.qtype);
    lemma_u16_read_back(b, end + 2, q.question.qclass);
}

/// A response carries the id and the question of its query, whatever it
/// answers: read as a packet, it holds them, one answer in the response with an
/// A record and none in the response with an error code. The name comes back in
/// lower case.
pub proof fn law_responses_echo_the_query(
    q: QueryView,
    ip: Ipv4Addr,
    ttl: u32,
    rcode: u8,
    authoritative: bool,
)
    requires
        is_host_name(text::lower(q.question.name)),
    ensures
        ({
            let question = QuestionView {
                name: text::lower(q.question.name),
                qtype: q.question.qtype,
                qclass: q.question.qclass,
            };
            &&& dns::query_of(dns::a_response(q, ip, ttl, authoritative)) == Ok::<
                QueryView,
                DnsError,
            >(QueryView { header: response_header(q, 1, dns::RCODE_NOERROR, authoritative), question })
            &&& dns::query_of(dns::error_response(q, rcode, authoritative)) == Ok::<
                QueryView,
                DnsError,
            >(QueryView { header: response_header(q, 0, rcode, authoritative), question })
        }),
{
    lemma_head_read_back(q, 1, dns::RCODE_NOERROR, authoritative, dns::encoded_a_record(ip, ttl));
    let none: Seq<u8> = seq![];
    lemma_head_read_back(q, 0, rcode, authoritative, none);
    assert(dns::error_response(q, rcode, authoritative) + none =~= dns::error_response(
        q,
        rcode,
        authoritative,
    ));
}

/// The same of a query that came out of a packet: its name is already in lower
/// case, so the response holds the very question that was asked.
pub proof fn law_answers_to_packets_echo_the_question(
    b: Seq<u8>,
    ip: Ipv4Addr,
    ttl: u32,
    rcode: u8,
    authoritative: bool,
)
    ensures
        dns::query_of(b) matches Ok(q) ==> {
            &&& dns::query_of(dns::a_response(q, ip, ttl, authoritative)) == Ok::<
                QueryView,
                DnsError,
            >(
                QueryView {
                    header: response_header(q, 1, dns::RCODE_NOERROR, authoritative),
                    question: q.question,
                },
            )
            &&& dns::query_of(dns::error_response(q, rcode, authoritative)) == Ok::<
                QueryView,
                DnsError,
            >(
                QueryView {
                    header: response_header(q, 0, rcode, authoritative),
                    question: q.question,
                },
            )
        },
{
    if let Ok(q) = dns::query_of(b) {
        law_read_names_are_host_names(b, 12);
        law_responses_echo_the_query(q, ip, ttl, rcode, authoritative);
    }
}

/// The response with an A record ends with the octets of the address, behind
/// the four octets of the time to live and the length of the address.
pub proof fn law_a_response_ends_with_the_address(
    q: QueryView,
    ip: Ipv4Addr,
    ttl: u32,
    authoritative: bool,
)
    ensures
        ({
            let b = dns::a_response(q, ip, ttl, authoritative);
            let n = b.len();
            &&& n >= 16
            &&& b.subrange(n - 4, n as int) == ip.bytes()
            &&& b.subrange(n - 6, n - 4) == dns::be16(4)
            &&& b.subrange(n - 10, n - 6) == dns::be32(ttl)
        }),
{
    let b = dns::a_response(q, ip, ttl, authoritative);
    let n = b.len();
    assert(b.subrange(n - 4, n as int) =~= ip.bytes());
    assert(b.subrange(n - 6, n - 4) =~= dns::be16(4));
    assert(b.subrange(n - 10, n - 6) =~= dns::be32(ttl));
}

} // verus!
