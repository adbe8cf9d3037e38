//! DNS messages: reading a query and building its answer.
//!
//! Only standard queries with exactly one question are read; names are bounded,
//! and compression pointers are followed a bounded number of times. An answer
//! repeats the question byte for byte.

use crate::bytes::{be16_bytes, be_u16, copy_range, get_be_u16, put_be_u16, put_be_u32, put_bytes};
use crate::ipv4::Ipv4Addr;
use crate::text::{chars_of, lower, lowered, push_chars, text_from_utf8, text_of};
use vstd::prelude::*;
use vstd::utf8::{decode_utf8, valid_utf8};

verus! {

/// Question type: IPv4 address.
pub const QTYPE_A: u16 = 1;

/// Question type: IPv6 address.
pub const QTYPE_AAAA: u16 = 28;

/// Question class: internet.
pub const QCLASS_IN: u16 = 1;

/// Longest name, counted as on the wire without the final zero.
pub const MAX_NAME_LEN: usize = 255;

/// How many compression pointers are followed.
pub const MAX_JUMPS: usize = 16;

/// A query with its one question.
#[derive(Debug, Clone, PartialEq, Eq)]
pub struct DnsQuery {
    pub id: u16,
    pub recursion_desired: bool,
    /// The name in lower case, labels joined by dots.
    pub name: String,
    pub qtype: u16,
    pub qclass: u16,
    /// The question as it came.
    pub question_wire: Vec<u8>,
}

/// What a query says.
#[verifier::ext_equal]
pub struct QueryView {
    pub id: u16,
    pub recursion_desired: bool,
    pub name: Seq<char>,
    pub qtype: u16,
    pub qclass: u16,
    pub question: Seq<u8>,
}

impl View for DnsQuery {
    type V = QueryView;

    open spec fn view(&self) -> QueryView {
        QueryView {
            id: self.id,
            recursion_desired: self.recursion_desired,
            name: self.name@,
            qtype: self.qtype,
            qclass: self.qclass,
            question: self.question_wire@,
        }
    }
}

/// What to answer.
pub enum DnsAnswer {
    /// These addresses; none of them is an answer too.
    Addrs(Vec<Ipv4Addr>),
    /// The name does not exist.
    NxDomain,
}

/// The labels of the name at `pos`, in lower case, when `jumps` pointers have been
/// followed and `total` bytes of labels have gone by. A name that runs out of the
/// message, is too long, follows too many pointers, uses a reserved label type or
/// holds a label that is not text is no name.
pub open spec fn labels_from(buf: Seq<u8>, pos: int, jumps: int, total: int) -> Option<
    Seq<Seq<char>>,
>
    decreases 17 - jumps, buf.len() - pos,
{
    if pos < 0 || pos >= buf.len() || jumps > 16 || jumps < 0 {
        None
    } else {
        let len = buf[pos] as int;
        if len >= 0xC0 {
            if pos + 1 >= buf.len() || jumps + 1 > 16 {
                None
            } else {
                labels_from(buf, (len - 0xC0) * 0x100 + buf[pos + 1], jumps + 1, total)
            }
        } else if len >= 0x40 {
            None
        } else if len == 0 {
            Some(Seq::empty())
        } else {
            let end = pos + 1 + len;
            if end > buf.len() || total + len + 1 > 255 || !valid_utf8(buf.subrange(pos + 1, end)) {
                None
            } else {
                match labels_from(buf, end, jumps, total + len + 1) {
                    Some(rest) => Some(
                        seq![lower(decode_utf8(buf.subrange(pos + 1, end)))] + rest,
                    ),
                    None => None,
                }
            }
        }
    }
}

/// Where the name at `pos` ends in the message itself: after its zero or its first
/// pointer.
pub open spec fn inline_end(buf: Seq<u8>, pos: int) -> int
    decreases buf.len() - pos,
{
    if pos < 0 || pos >= buf.len() {
        pos
    } else {
        let len = buf[pos] as int;
        if len >= 0xC0 {
            pos + 2
        } else if len == 0 {
            pos + 1
        } else if pos + 1 + len > buf.len() {
            pos
        } else {
            inline_end(buf, pos + 1 + len)
        }
    }
}

/// Labels joined by dots.
pub open spec fn joined(labels: Seq<Seq<char>>) -> Seq<char>
    decreases labels.len(),
{
    if labels.len() == 0 {
        Seq::empty()
    } else if labels.len() == 1 {
        labels[0]
    } else {
        joined(labels.drop_last()).push('.') + labels.last()
    }
}

/// The query in a message, if it holds one.
pub open spec fn query_of(payload: Seq<u8>) -> Option<QueryView> {
    let flags = be_u16(payload, 2);
    if payload.len() < 12 || flags >= 0x8000 || flags / 0x800 % 16 != 0 || be_u16(payload, 4) != 1 {
        None
    } else {
        match labels_from(payload, 12, 0, 0) {
            None => None,
            Some(labels) => {
                let end = inline_end(payload, 12);
                if end + 4 > payload.len() {
                    None
                } else {
                    Some(
                        QueryView {
                            id: be_u16(payload, 0),
                            recursion_desired: flags / 0x100 % 2 == 1,
                            name: joined(labels),
                            qtype: be_u16(payload, end),
                            qclass: be_u16(payload, end + 2),
                            question: payload.subrange(12, end + 4),
                        },
                    )
                }
            },
        }
    }
}

/// One answer record: a pointer to the question's name, type A, class IN, sixty
/// seconds, four bytes of address.
pub open spec fn answer_record(ip: Ipv4Addr) -> Seq<u8> {
    seq![0xC0u8, 0x0C, 0, 1, 0, 1, 0, 0, 0, 60, 0, 4] + ip.bytes()
}

/// The answer records of a list of addresses.
pub open spec fn answer_records(addrs: Seq<Ipv4Addr>) -> Seq<u8>
    decreases addrs.len(),
{
    if addrs.len() == 0 {
        Seq::empty()
    } else {
        answer_records(addrs.drop_last()) + answer_record(addrs.last())
    }
}

/// The flags of an answer: a response, authoritative, recursion available, the
/// recursion-desired bit of the query, the result code.
pub open spec fn answer_flags(recursion_desired: bool, rcode: int) -> u16 {
    (0x8480 + (if recursion_desired {
        0x100int
    } else {
        0
    }) + rcode) as u16
}

/// The answer to `query` with result code `rcode` and these addresses.
pub open spec fn response_bytes(query: QueryView, rcode: int, addrs: Seq<Ipv4Addr>) -> Seq<u8> {
    be16_bytes(query.id) + be16_bytes(answer_flags(query.recursion_desired, rcode)) + be16_bytes(1)
        + be16_bytes((addrs.len() % 0x1_0000) as u16) + seq![0u8, 0, 0, 0] + query.question
        + answer_records(addrs)
}

/// The message for an answer.
pub open spec fn response_of(query: QueryView, answer: DnsAnswer) -> Seq<u8> {
    match answer {
        DnsAnswer::Addrs(addrs) => response_bytes(query, 0, addrs@),
        DnsAnswer::NxDomain => response_bytes(query, 3, Seq::empty()),
    }
}

/// Reads the query in a message. Anything that is not a well-formed standard query
/// with one question gives nothing.
pub fn parse_query(payload: &[u8]) -> (query: Option<DnsQuery>)
    ensures
        match query {
            Some(q) => query_of(payload@) == Some(q@),
            None => query_of(payload@) is None,
        },
{
    let n: usize = payload.len();
    if n < 12 {
        return None;
    }
    let id: u16 = get_be_u16(payload, 0);
    let flags: u16 = get_be_u16(payload, 2);
    if flags >= 0x8000 {
        return None;
    }
    if flags / 0x800 % 16 != 0 {
        return None;
    }
    if get_be_u16(payload, 4) != 1 {
        return None;
    }
    let (name, end) = match parse_name(payload, 12) {
        None => {
            return None;
        },
        Some(parsed) => parsed,
    };
    if end > n || n - end < 4 {
        return None;
    }
    let qtype: u16 = get_be_u16(payload, end);
    let qclass: u16 = get_be_u16(payload, end + 2);
    let question_wire: Vec<u8> = copy_range(payload, 12, end + 4);
    Some(
        DnsQuery {
            id,
            recursion_desired: flags / 0x100 % 2 == 1,
            name: text_of(name.as_slice()),
            qtype,
            qclass,
            question_wire,
        },
    )
}

/// What is found when `rest` follows the labels `before`.
spec fn following(before: Seq<Seq<char>>, rest: Option<Seq<Seq<char>>>) -> Option<Seq<Seq<char>>> {
    match rest {
        Some(labels) => Some(before + labels),
        None => None,
    }
}

fn parse_name(buf: &[u8], start: usize) -> (r: Option<(Vec<char>, usize)>)
    requires
        start <= 12,
    ensures
        match r {
            Some(parsed) => match labels_from(buf@, start as int, 0, 0) {
                Some(labels) => parsed.0@ == joined(labels) && parsed.1 == inline_end(
                    buf@,
                    start as int,
                ) && parsed.1 >= start,
                None => false,
            },
            None => labels_from(buf@, start as int, 0, 0) is None,
        },
{
    let n: usize = buf.len();
    let mut name: Vec<char> = Vec::new();
    let mut pos: usize = start;
    let mut after: Option<usize> = None;
    let mut jumps: usize = 0;
    let mut total: usize = 0;
    let ghost mut labels = Seq::<Seq<char>>::empty();
    assert(labels_from(buf@, start as int, 0, 0) == following(
        labels,
        labels_from(buf@, start as int, 0, 0),
    )) by {
        if let Some(l) = labels_from(buf@, start as int, 0, 0) {
            assert(labels + l == l);
        }
    }
    loop
        invariant
            n == buf@.len(),
            jumps <= 16,
            total <= 255,
            pos <= 0x4000 || pos <= n,
            start <= 12,
            name@ == joined(labels),
            total == 0 <==> labels.len() == 0,
            labels_from(buf@, start as int, 0, 0) == following(
                labels,
                labels_from(buf@, pos as int, jumps as int, total as int),
            ),
            match after {
                Some(x) => inline_end(buf@, start as int) == x && x >= start,
                None => inline_end(buf@, start as int) == inline_end(buf@, pos as int) && pos
                    >= start,
            },
        decreases 17 - jumps, n - pos,
    {
        if pos >= n {
            return None;
        }
        let len: usize = buf[pos] as usize;
        if len >= 0xC0 {
            if pos + 1 >= n {
                return None;
            }
            let low: usize = buf[pos + 1] as usize;
            if after.is_none() {
                after = Some(pos + 2);
            }
            if jumps + 1 > MAX_JUMPS {
                return None;
            }
            jumps = jumps + 1;
            pos = (len - 0xC0) * 0x100 + low;
            continue ;
        }
        if len >= 0x40 {
            return None;
        }
        if len == 0 {
            let end: usize = match after {
                Some(x) => x,
                None => pos + 1,
            };
            assert(labels + Seq::<Seq<char>>::empty() == labels);
            return Some((name, end));
        }
        if len > n - pos - 1 {
            return None;
        }
        let end: usize = pos + 1 + len;
        if total + len + 1 > MAX_NAME_LEN {
            return None;
        }
        let wire: Vec<u8> = copy_range(buf, pos + 1, end);
        let text: String = match text_from_utf8(wire.as_slice()) {
            None => {
                return None;
            },
            Some(t) => t,
        };
        let raw: Vec<char> = chars_of(text.as_str());
        let label: Vec<char> = lowered(raw.as_slice());
        let ghost was = name@;
        if total > 0 {
            name.push('.');
        }
        push_chars(&mut name, label.as_slice());
        assert(total == 0 ==> name@ == label@);
        assert(total > 0 ==> name@ == was.push('.') + label@);
        total = total + len + 1;
        pos = end;
        proof {
            lemma_following_push(
                labels,
                label@,
                labels_from(buf@, pos as int, jumps as int, total as int),
            );
            lemma_joined_push(labels, label@);
            labels = labels.push(label@);
        }
    }
}

proof fn lemma_following_push(
    before: Seq<Seq<char>>,
    label: Seq<char>,
    rest: Option<Seq<Seq<char>>>,
)
    ensures
        following(before.push(label), rest) == following(
            before,
            match rest {
                Some(labels) => Some(seq![label] + labels),
                None => None,
            },
        ),
{
    if let Some(labels) = rest {
        assert(before.push(label) + labels == before + (seq![label] + labels));
    }
}

proof fn lemma_joined_push(labels: Seq<Seq<char>>, label: Seq<char>)
    ensures
        joined(labels.push(label)) == (if labels.len() == 0 {
            label
        } else {
            joined(labels).push('.') + label
        }),
{
    assert(labels.push(label).drop_last() == labels);
}

/// Builds the answer to `query`.
pub fn build_response(query: &DnsQuery, answer: DnsAnswer) -> (out: Vec<u8>)
    ensures
        out@ == response_of(query@, answer),
{
    let ghost asked = answer;
    let (rcode, addrs): (u16, Vec<Ipv4Addr>) = match answer {
        DnsAnswer::Addrs(addrs) => (0, addrs),
        DnsAnswer::NxDomain => (3, Vec::new()),
    };
    assert(rcode == 3 ==> addrs@ == Seq::<Ipv4Addr>::empty());
    let mut flags: u16 = 0x8480 + rcode;
    if query.recursion_desired {
        flags = flags + 0x100;
    }
    let mut out: Vec<u8> = Vec::new();
    put_be_u16(&mut out, query.id);
    put_be_u16(&mut out, flags);
    put_be_u16(&mut out, 1);
    put_be_u16(&mut out, (addrs.len() as u64 % 0x1_0000) as u16);
    out.push(0);
    out.push(0);
    out.push(0);
    out.push(0);
    put_bytes(&mut out, query.question_wire.as_slice());
    let ghost head = out@;
    assert(head == be16_bytes(query@.id) + be16_bytes(flags) + be16_bytes(1) + be16_bytes(
        (addrs@.len() % 0x1_0000) as u16,
    ) + seq![0u8, 0, 0, 0] + query@.question);
    let mut i: usize = 0;
    assert(addrs@.take(0).len() == 0);
    assert(head + answer_records(addrs@.take(0)) == head);
    while i < addrs.len()
        invariant
            i <= addrs@.len(),
            out@ == head + answer_records(addrs@.take(i as int)),
        decreases addrs@.len() - i,
    {
        let ip: Ipv4Addr = addrs[i];
        let ghost before = out@;
        out.push(0xC0);
        out.push(0x0C);
        put_be_u16(&mut out, QTYPE_A);
        put_be_u16(&mut out, QCLASS_IN);
        put_be_u32(&mut out, 60);
        put_be_u16(&mut out, 4);
        out.push(ip.a);
        out.push(ip.b);
        out.push(ip.c);
        out.push(ip.d);
        assert(out@ == before + answer_record(ip));
        assert(addrs@.take(i + 1).drop_last() == addrs@.take(i as int));
        assert(addrs@.take(i + 1).last() == ip);
        assert(head + answer_records(addrs@.take(i as int)) + answer_record(ip) == head + (
        answer_records(addrs@.take(i as int)) + answer_record(ip)));
        i = i + 1;
    }
    assert(addrs@.take(addrs@.len() as int) == addrs@);
    out
}

/// An answer starts with the identifier of the query, says that it is a response,
/// and holds the question byte for byte behind its header.
pub proof fn law_answer_echoes_query(query: QueryView, answer: DnsAnswer)
    ensures
        ({
            let out = response_of(query, answer);
            &&& out.len() >= 12 + query.question.len()
            &&& be_u16(out, 0) == query.id
            &&& be_u16(out, 2) >= 0x8000
            &&& be_u16(out, 2) % 16 == (if answer is NxDomain {
                3
            } else {
                0int
            })
            &&& be_u16(out, 4) == 1
            &&& out.subrange(12, 12 + query.question.len() as int) == query.question
        }),
{
    let out = response_of(query, answer);
    let (rcode, addrs) = match answer {
        DnsAnswer::Addrs(addrs) => (0int, addrs@),
        DnsAnswer::NxDomain => (3int, Seq::empty()),
    };
    let flags = answer_flags(query.recursion_desired, rcode);
    assert(out == response_bytes(query, rcode, addrs));
    assert(out[0] == be16_bytes(query.id)[0] && out[1] == be16_bytes(query.id)[1]);
    assert(out[2] == be16_bytes(flags)[0] && out[3] == be16_bytes(flags)[1]);
    assert(out[4] == 0 && out[5] == 1);
    assert(out.subrange(12, 12 + query.question.len() as int) == query.question);
}

/// No answer is ever taken for a query.
pub proof fn law_answer_is_no_query(query: QueryView, answer: DnsAnswer)
    ensures
        query_of(response_of(query, answer)) is None,
{
    law_answer_echoes_query(query, answer);
}

/// Labels as they stand in a message, each with its length in front, and the zero
/// that ends the name.
pub open spec fn name_wire(labels: Seq<Seq<u8>>) -> Seq<u8>
    decreases labels.len(),
{
    if labels.len() == 0 {
        seq![0u8]
    } else {
        seq![labels[0].len() as u8] + labels[0] + name_wire(labels.drop_first())
    }
}

/// The bytes that labels take up, their lengths included.
pub open spec fn wire_total(labels: Seq<Seq<u8>>) -> int
    decreases labels.len(),
{
    if labels.len() == 0 {
        0
    } else {
        labels[0].len() + 1 + wire_total(labels.drop_first())
    }
}

/// Labels as text, in lower case.
pub open spec fn label_texts(labels: Seq<Seq<u8>>) -> Seq<Seq<char>> {
    Seq::new(labels.len(), |i: int| lower(decode_utf8(labels[i])))
}

/// A label that can stand in a name: one to 63 bytes of text.
pub open spec fn is_label(label: Seq<u8>) -> bool {
    1 <= label.len() <= 63 && valid_utf8(label)
}

/// A name written without pointers, of at most 255 bytes, is read back label by
/// label, wherever it stands in a message, and its end is found.
pub proof fn law_name_reads_back(
    head: Seq<u8>,
    labels: Seq<Seq<u8>>,
    tail: Seq<u8>,
    total: int,
)
    requires
        forall|i: int| 0 <= i < labels.len() ==> is_label(#[trigger] labels[i]),
        0 <= total,
        total + wire_total(labels) <= 255,
    ensures
        labels_from(head + name_wire(labels) + tail, head.len() as int, 0, total) == Some(
            label_texts(labels),
        ),
        inline_end(head + name_wire(labels) + tail, head.len() as int) == head.len()
            + name_wire(labels).len(),
    decreases labels.len(),
{
    let buf = head + name_wire(labels) + tail;
    let pos = head.len() as int;
    if labels.len() == 0 {
        assert(buf[pos] == 0);
        assert(label_texts(labels) == Seq::<Seq<char>>::empty());
    } else {
        let first = labels[0];
        let rest = labels.drop_first();
        assert(is_label(labels[0]));
        lemma_wire_total(rest);
        let end = pos + 1 + first.len();
        assert(buf[pos] == first.len());
        assert(buf.subrange(pos + 1, end) == first);
        let head2 = head + seq![first.len() as u8] + first;
        assert(head2 + name_wire(rest) + tail == buf);
        assert forall|i: int| 0 <= i < rest.len() implies is_label(#[trigger] rest[i]) by {
            assert(is_label(labels[i + 1]));
        }
        law_name_reads_back(head2, rest, tail, total + first.len() + 1);
        assert(head2.len() == end);
        assert(seq![lower(decode_utf8(first))] + label_texts(rest) == label_texts(labels));
    }
}

proof fn lemma_wire_total(labels: Seq<Seq<u8>>)
    ensures
        wire_total(labels) >= 0,
        name_wire(labels).len() == wire_total(labels) + 1,
    decreases labels.len(),
{
    if labels.len() > 0 {
        lemma_wire_total(labels.drop_first());
    }
}

/// A pointer to itself is no name, however many pointers have been followed.
pub proof fn law_pointer_loop_is_no_name(buf: Seq<u8>, pos: int, jumps: int, total: int)
    requires
        0 <= pos < buf.len(),
        pos < 0x4000,
        0 <= jumps <= 16,
        pos + 1 < buf.len(),
        buf[pos] == 0xC0 + pos / 0x100,
        buf[pos + 1] == pos % 0x100,
    ensures
        labels_from(buf, pos, jumps, total) is None,
    decreases 16 - jumps,
{
    if jumps < 16 {
        law_pointer_loop_is_no_name(buf, pos, jumps + 1, total);
    }
}

/// A standard query with one question is read as what it says: its identifier, whether it
/// wants recursion, the name in its labels, and the type and class behind the name.
pub proof fn law_query_reads_back(
    head: Seq<u8>,
    labels: Seq<Seq<u8>>,
    qtype: u16,
    qclass: u16,
    tail: Seq<u8>,
)
    requires
        head.len() == 12,
        head[2] / 8 == 0,
        head[4] == 0 && head[5] == 1,
        forall|i: int| 0 <= i < labels.len() ==> is_label(#[trigger] labels[i]),
        wire_total(labels) <= 255,
        tail.len() >= 4,
        256 * tail[0] + tail[1] == qtype,
        256 * tail[2] + tail[3] == qclass,
    ensures
        query_of(head + name_wire(labels) + tail) == Some(
            QueryView {
                id: (256 * head[0] + head[1]) as u16,
                recursion_desired: head[2] % 2 == 1,
                name: joined(label_texts(labels)),
                qtype,
                qclass,
                question: name_wire(labels) + tail.take(4),
            },
        ),
{
    let payload = head + name_wire(labels) + tail;
    law_name_reads_back(head, labels, tail, 0);
    let end = 12 + name_wire(labels).len() as int;
    assert(payload[0] == head[0] && payload[1] == head[1] && payload[2] == head[2] && payload[3]
        == head[3] && payload[4] == head[4] && payload[5] == head[5]);
    assert(payload[end] == tail[0] && payload[end + 1] == tail[1] && payload[end + 2]
        == tail[2] && payload[end + 3] == tail[3]);
    assert(payload.subrange(12, end + 4) =~= name_wire(labels) + tail.take(4));
    lemma_query_flags(head[2], head[3]);
}

proof fn lemma_query_flags(hi: u8, lo: u8)
    ensures
        hi / 8 == 0 ==> 0x100 * hi + lo < 0x800,
        (0x100 * hi + lo) / 0x100 == hi,
{
}

/// A response, a query of another kind, and a message with no question or with several
/// is no query.
pub proof fn law_other_messages_are_no_queries(payload: Seq<u8>)
    requires
        payload.len() < 12 || payload[2] / 8 != 0 || payload[4] != 0 || payload[5] != 1,
    ensures
        query_of(payload) is None,
{
    if payload.len() >= 12 {
        let flags = 0x100 * payload[2] + payload[3];
        assert(flags / 0x800 == payload[2] / 8);
        assert(flags < 0x8000 ==> flags / 0x800 % 16 == flags / 0x800);
    }
}

/// The name of a query holds its labels in lower case with a dot between them, and no
/// dot at either end.
pub proof fn law_labels_are_joined_by_dots(first: Seq<char>, second: Seq<char>, rest: Seq<Seq<char>>)
    ensures
        joined(Seq::empty()) == Seq::<char>::empty(),
        joined(seq![first]) == first,
        joined(seq![first, second]) == first + seq!['.'] + second,
        rest.len() > 0 ==> joined(rest.push(first)) == joined(rest) + seq!['.'] + first,
{
    let two = seq![first, second];
    assert(two.drop_last() == seq![first]);
    assert(joined(seq![first]).push('.') + second =~= first + seq!['.'] + second);
    lemma_joined_push(rest, first);
    assert(joined(rest).push('.') + first =~= joined(rest) + seq!['.'] + first);
}

/// A compression pointer stands for the labels that it points to.
pub proof fn law_pointer_is_followed(buf: Seq<u8>, pos: int, target: int, jumps: int, total: int)
    requires
        0 <= pos,
        pos + 1 < buf.len(),
        0 <= target < 0x4000,
        0 <= jumps < 16,
        buf[pos] == 0xC0 + target / 0x100,
        buf[pos + 1] == target % 0x100,
    ensures
        labels_from(buf, pos, jumps, total) == labels_from(buf, target, jumps + 1, total),
        inline_end(buf, pos) == pos + 2,
{
}

/// An answer, byte by byte: the identifier, the flags of an authoritative response to a
/// standard query that offers recursion and repeats whether it was wanted, the result
/// code, one question, as many answers as there are addresses, nothing else; then the
/// question, and for each address in turn a record of sixteen bytes that points to the
/// question's name and gives the address for sixty seconds.
pub proof fn law_answer_layout(query: QueryView, rcode: int, addrs: Seq<Ipv4Addr>, k: int)
    requires
        0 <= rcode < 16,
        addrs.len() < 0x1_0000,
        0 <= k < addrs.len(),
    ensures
        ({
            let out = response_bytes(query, rcode, addrs);
            let at = 12 + query.question.len() + 16 * k;
            &&& out.len() == 12 + query.question.len() + 16 * addrs.len()
            &&& 256 * out[0] + out[1] == query.id
            &&& out[2] == (if query.recursion_desired {
                0x85
            } else {
                0x84int
            })
            &&& out[3] == 0x80 + rcode
            &&& out[4] == 0 && out[5] == 1
            &&& 256 * out[6] + out[7] == addrs.len()
            &&& out[8] == 0 && out[9] == 0 && out[10] == 0 && out[11] == 0
            &&& out.subrange(12, 12 + query.question.len() as int) == query.question
            &&& out.subrange(at, at + 16) == seq![
                0xC0u8,
                12,
                0,
                1,
                0,
                1,
                0,
                0,
                0,
                60,
                0,
                4,
                addrs[k].a,
                addrs[k].b,
                addrs[k].c,
                addrs[k].d,
            ]
        }),
{
    let out = response_bytes(query, rcode, addrs);
    let recs = answer_records(addrs);
    lemma_records_layout(addrs, k);
    let q = query.question;
    lemma_response_head(query, rcode, addrs);
    assert(out.subrange(12, 12 + q.len() as int) =~= q);
    let at = 12 + q.len() + 16 * k;
    assert(out.subrange(at, at + 16) =~= recs.subrange(16 * k, 16 * k + 16));
    assert(answer_record(addrs[k]) =~= seq![
        0xC0u8,
        12,
        0,
        1,
        0,
        1,
        0,
        0,
        0,
        60,
        0,
        4,
        addrs[k].a,
        addrs[k].b,
        addrs[k].c,
        addrs[k].d,
    ]);
}

/// An answer without addresses is its header and the question.
pub proof fn law_empty_answer_layout(query: QueryView, rcode: int)
    requires
        0 <= rcode < 16,
    ensures
        ({
            let out = response_bytes(query, rcode, Seq::empty());
            &&& out.len() == 12 + query.question.len()
            &&& 256 * out[0] + out[1] == query.id
            &&& out[2] == (if query.recursion_desired {
                0x85
            } else {
                0x84int
            })
            &&& out[3] == 0x80 + rcode
            &&& out[4] == 0 && out[5] == 1 && out[6] == 0 && out[7] == 0
            &&& out[8] == 0 && out[9] == 0 && out[10] == 0 && out[11] == 0
            &&& out.skip(12) == query.question
        }),
{
    let out = response_bytes(query, rcode, Seq::empty());
    lemma_response_head(query, rcode, Seq::empty());
    assert(out.skip(12) =~= query.question);
}

proof fn lemma_response_head(query: QueryView, rcode: int, addrs: Seq<Ipv4Addr>)
    requires
        0 <= rcode < 16,
        addrs.len() < 0x1_0000,
    ensures
        ({
            let out = response_bytes(query, rcode, addrs);
            &&& out.len() == 12 + query.question.len() + answer_records(addrs).len()
            &&& 256 * out[0] + out[1] == query.id
            &&& out[2] == (if query.recursion_desired {
                0x85
            } else {
                0x84int
            })
            &&& out[3] == 0x80 + rcode
            &&& out[4] == 0 && out[5] == 1
            &&& 256 * out[6] + out[7] == addrs.len()
            &&& out[8] == 0 && out[9] == 0 && out[10] == 0 && out[11] == 0
        }),
{
    let out = response_bytes(query, rcode, addrs);
    let flags = answer_flags(query.recursion_desired, rcode);
    assert(out[0] == be16_bytes(query.id)[0] && out[1] == be16_bytes(query.id)[1]);
    assert(out[2] == be16_bytes(flags)[0] && out[3] == be16_bytes(flags)[1]);
    assert(out[4] == be16_bytes(1)[0] && out[5] == be16_bytes(1)[1]);
    assert(out[6] == be16_bytes(addrs.len() as u16)[0] && out[7] == be16_bytes(
        addrs.len() as u16,
    )[1]);
}

proof fn lemma_records_layout(addrs: Seq<Ipv4Addr>, k: int)
    requires
        0 <= k < addrs.len(),
    ensures
        answer_records(addrs).len() == 16 * addrs.len(),
        answer_records(addrs).subrange(16 * k, 16 * k + 16) == answer_record(addrs[k]),
    decreases addrs.len(),
{
    let shorter = addrs.drop_last();
    let before = answer_records(shorter);
    let all = answer_records(addrs);
    if shorter.len() > 0 {
        lemma_records_layout(shorter, if k < shorter.len() { k } else { 0 });
    }
    assert(before.len() == 16 * shorter.len());
    if k < shorter.len() {
        assert(all.subrange(16 * k, 16 * k + 16) =~= before.subrange(16 * k, 16 * k + 16));
    } else {
        assert(all.subrange(16 * k, 16 * k + 16) =~= answer_record(addrs[k]));
    }
}

/// What is no name: one that starts outside the message or runs out of it, one with a label of
/// a reserved type, one that is longer than 255 bytes, one with a label that is no text, and
/// one that follows more than 16 pointers.
pub proof fn law_bad_names(buf: Seq<u8>, pos: int, jumps: int, total: int)
    requires
        0 <= pos,
        0 <= jumps <= 16,
    ensures
        pos >= buf.len() ==> labels_from(buf, pos, jumps, total) is None,
        pos < buf.len() && 0x40 <= buf[pos] <= 0xBF ==> labels_from(buf, pos, jumps, total) is None,
        pos < buf.len() && buf[pos] >= 0xC0 && (jumps == 16 || pos + 1 == buf.len())
            ==> labels_from(buf, pos, jumps, total) is None,
        pos < buf.len() && 1 <= buf[pos] <= 0x3F ==> {
            let end = pos + 1 + buf[pos];
            &&& end > buf.len() ==> labels_from(buf, pos, jumps, total) is None
            &&& total + 1 + buf[pos] > 255 ==> labels_from(buf, pos, jumps, total) is None
            &&& end <= buf.len() && !valid_utf8(buf.subrange(pos + 1, end)) ==> labels_from(
                buf,
                pos,
                jumps,
                total,
            ) is None
        },
        pos < buf.len() && buf[pos] == 0 ==> labels_from(buf, pos, jumps, total) == Some(
            Seq::<Seq<char>>::empty(),
        ),
{
}

} // verus!
