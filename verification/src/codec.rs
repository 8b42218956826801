use vstd::prelude::*;
use vstd::bytes::spec_u64_from_le_bytes;
use vstd::bytes::spec_u64_to_le_bytes;
use vstd::bytes::lemma_auto_spec_u64_to_from_le_bytes;
use vstd::bytes::u64_from_le_bytes;
use vstd::bytes::u64_to_le_bytes;
use vstd::slice::slice_subrange;
use vstd::slice::slice_to_vec;
use vstd::string::*;
use vstd::utf8::valid_utf8;
use vstd::utf8::decode_utf8;
use vstd::utf8::encode_utf8;

use crate::types::MetaMap;
use crate::types::Payload;
use crate::types::ResponseStatus;

verus! {

/// Where the peer transport finds its certificate and key; the
/// optional CA path turns on client authentication. The files
/// themselves are read outside the bus.
#[derive(Debug, Clone)]
pub struct TlsConfig {
    pub cert_path: String,
    pub key_path: String,
    pub ca_path: Option<String>,
}

/// A frame crossing the peer transport: a request, a response, a
/// published message, or a heartbeat. The wire form is a one-byte
/// type tag followed by the length-prefixed fields.
#[derive(Debug)]
pub enum TransportMessage {
    Request { path: String, data: Payload, metadata: MetaMap, sender_id: String },
    Response { data: Payload, metadata: MetaMap, status: ResponseStatus },
    PubMessage { topic: String, data: Payload, metadata: MetaMap, sender_id: String, timestamp: u64 },
    Heartbeat,
    HeartbeatAck,
}

/// Mathematical image of a payload.
pub enum PayV {
    Empty,
    Text(Seq<char>),
    Flag(bool),
    Number(u64),
}

/// Mathematical image of a frame.
pub enum TmV {
    Request { path: Seq<char>, data: PayV, metadata: Map<Seq<char>, Seq<char>>, sender_id: Seq<char> },
    Response { data: PayV, metadata: Map<Seq<char>, Seq<char>>, status: ResponseStatus },
    PubMessage {
        topic: Seq<char>,
        data: PayV,
        metadata: Map<Seq<char>, Seq<char>>,
        sender_id: Seq<char>,
        timestamp: u64,
    },
    Heartbeat,
    HeartbeatAck,
}

/// The view of a payload.
pub open spec fn payload_view(p: Payload) -> PayV {
    match p {
        Payload::Empty => PayV::Empty,
        Payload::Text(s) => PayV::Text(s@),
        Payload::Flag(b) => PayV::Flag(b),
        Payload::Number(n) => PayV::Number(n),
    }
}

/// The view of a frame.
pub open spec fn tm_view(m: TransportMessage) -> TmV {
    match m {
        TransportMessage::Request { path, data, metadata, sender_id } => TmV::Request {
            path: path@,
            data: payload_view(data),
            metadata: metadata@,
            sender_id: sender_id@,
        },
        TransportMessage::Response { data, metadata, status } => TmV::Response {
            data: payload_view(data),
            metadata: metadata@,
            status,
        },
        TransportMessage::PubMessage { topic, data, metadata, sender_id, timestamp } => TmV::PubMessage {
            topic: topic@,
            data: payload_view(data),
            metadata: metadata@,
            sender_id: sender_id@,
            timestamp,
        },
        TransportMessage::Heartbeat => TmV::Heartbeat,
        TransportMessage::HeartbeatAck => TmV::HeartbeatAck,
    }
}

/// The wire form of a number: eight little-endian bytes.
pub open spec fn spec_ser_u64(n: u64) -> Seq<u8> {
    spec_u64_to_le_bytes(n)
}

/// The wire form of a string: its UTF-8 byte length, then its UTF-8
/// bytes.
pub open spec fn spec_ser_string(s: Seq<char>) -> Seq<u8> {
    spec_ser_u64(encode_utf8(s).len() as u64) + encode_utf8(s)
}

/// The wire form of a run of metadata pairs, in table order.
pub open spec fn spec_ser_pairs(s: Seq<(String, String)>) -> Seq<u8>
    decreases s.len(),
{
    if s.len() == 0 {
        Seq::empty()
    } else {
        spec_ser_string(s[0].0@) + spec_ser_string(s[0].1@) + spec_ser_pairs(s.drop_first())
    }
}

/// The wire form of a metadata table: its pair count, then the pairs.
pub open spec fn spec_ser_meta(s: Seq<(String, String)>) -> Seq<u8> {
    spec_ser_u64(s.len() as u64) + spec_ser_pairs(s)
}

/// The wire form of a payload: its tag, then its contents.
pub open spec fn spec_ser_payload(p: Payload) -> Seq<u8> {
    match p {
        Payload::Empty => seq![0u8],
        Payload::Text(s) => seq![1u8] + spec_ser_string(s@),
        Payload::Flag(b) => seq![2u8, (if b { 1u8 } else { 0u8 })],
        Payload::Number(n) => seq![3u8] + spec_ser_u64(n),
    }
}

/// The wire byte of a response status.
pub open spec fn status_byte(s: ResponseStatus) -> u8 {
    match s {
        ResponseStatus::Success => 0,
        ResponseStatus::NotFound => 1,
        ResponseStatus::Error => 2,
        ResponseStatus::Intercepted => 3,
        ResponseStatus::Approximated => 4,
    }
}

/// The wire form of a frame: type tag 1 for a request, 2 for a
/// response, 3 for a published message, 10 and 11 for heartbeat
/// request and acknowledgement, then the fields in order.
pub open spec fn spec_serialize(m: TransportMessage) -> Seq<u8> {
    match m {
        TransportMessage::Request { path, data, metadata, sender_id } => seq![1u8]
            + spec_ser_string(path@) + spec_ser_payload(data) + spec_ser_meta(
            metadata.spec_pairs(),
        ) + spec_ser_string(sender_id@),
        TransportMessage::Response { data, metadata, status } => seq![2u8] + spec_ser_payload(
            data,
        ) + spec_ser_meta(metadata.spec_pairs()) + seq![status_byte(status)],
        TransportMessage::PubMessage { topic, data, metadata, sender_id, timestamp } => seq![3u8]
            + spec_ser_string(topic@) + spec_ser_payload(data) + spec_ser_meta(
            metadata.spec_pairs(),
        ) + spec_ser_string(sender_id@) + spec_ser_u64(timestamp),
        TransportMessage::Heartbeat => seq![10u8],
        TransportMessage::HeartbeatAck => seq![11u8],
    }
}

fn ser_u64(out: &mut Vec<u8>, n: u64)
    ensures
        final(out)@ == old(out)@ + spec_ser_u64(n),
{
    let mut bytes = u64_to_le_bytes(n);
    out.append(&mut bytes);
}

fn ser_string(out: &mut Vec<u8>, s: &String)
    ensures
        final(out)@ == old(out)@ + spec_ser_string(s@),
{
    let bytes = s.as_str().as_bytes_vec();
    ser_u64(out, bytes.len() as u64);
    let mut bytes = bytes;
    out.append(&mut bytes);
    proof {
        assert(final(out)@ =~= old(out)@ + spec_ser_string(s@));
    }
}

fn ser_meta(out: &mut Vec<u8>, m: &MetaMap)
    ensures
        final(out)@ == old(out)@ + spec_ser_meta(m.spec_pairs()),
{
    let n = m.pair_count();
    ser_u64(out, n as u64);
    let ghost pairs = m.spec_pairs();
    let mut i: usize = 0;
    proof {
        assert(pairs.skip(0) =~= pairs);
        assert(old(out)@ + spec_ser_meta(pairs) =~= out@ + spec_ser_pairs(pairs));
    }
    while i < n
        invariant
            n == m.spec_pairs().len(),
            pairs == m.spec_pairs(),
            i <= n,
            old(out)@ + spec_ser_meta(pairs) == out@ + spec_ser_pairs(pairs.skip(i as int)),
        decreases n - i,
    {
        let ghost rest = pairs.skip(i as int);
        proof {
            assert(rest[0] == pairs[i as int]);
        }
        let pair = m.pair_at(i);
        ser_string(out, &pair.0);
        ser_string(out, &pair.1);
        proof {
            assert(rest.drop_first() =~= pairs.skip(i + 1));
            assert(out@ + spec_ser_pairs(pairs.skip(i + 1)) =~= old(out)@ + spec_ser_meta(
                pairs,
            ));
        }
        i = i + 1;
    }
    proof {
        assert(pairs.skip(n as int) =~= Seq::<(String, String)>::empty());
        assert(out@ + spec_ser_pairs(pairs.skip(n as int)) =~= out@);
    }
}

fn ser_payload(out: &mut Vec<u8>, p: &Payload)
    ensures
        final(out)@ == old(out)@ + spec_ser_payload(*p),
{
    match p {
        Payload::Empty => {
            out.push(0);
            proof {
                assert(final(out)@ =~= old(out)@ + spec_ser_payload(*p));
            }
        },
        Payload::Text(s) => {
            out.push(1);
            ser_string(out, s);
            proof {
                assert(final(out)@ =~= old(out)@ + spec_ser_payload(*p));
            }
        },
        Payload::Flag(b) => {
            out.push(2);
            out.push(if *b {
                1
            } else {
                0
            });
            proof {
                assert(final(out)@ =~= old(out)@ + spec_ser_payload(*p));
            }
        },
        Payload::Number(n) => {
            out.push(3);
            ser_u64(out, *n);
            proof {
                assert(final(out)@ =~= old(out)@ + spec_ser_payload(*p));
            }
        },
    }
}

/// Encode a frame for the peer transport.
pub fn serialize(m: &TransportMessage) -> (out: Vec<u8>)
    ensures
        out@ == spec_serialize(*m),
{
    let mut out: Vec<u8> = Vec::new();
    match m {
        TransportMessage::Request { path, data, metadata, sender_id } => {
            out.push(1);
            ser_string(&mut out, path);
            ser_payload(&mut out, data);
            ser_meta(&mut out, metadata);
            ser_string(&mut out, sender_id);
        },
        TransportMessage::Response { data, metadata, status } => {
            out.push(2);
            ser_payload(&mut out, data);
            ser_meta(&mut out, metadata);
            let b = match status {
                ResponseStatus::Success => 0,
                ResponseStatus::NotFound => 1,
                ResponseStatus::Error => 2,
                ResponseStatus::Intercepted => 3,
                ResponseStatus::Approximated => 4,
            };
            out.push(b);
        },
        TransportMessage::PubMessage { topic, data, metadata, sender_id, timestamp } => {
            out.push(3);
            ser_string(&mut out, topic);
            ser_payload(&mut out, data);
            ser_meta(&mut out, metadata);
            ser_string(&mut out, sender_id);
            ser_u64(&mut out, *timestamp);
        },
        TransportMessage::Heartbeat => {
            out.push(10);
        },
        TransportMessage::HeartbeatAck => {
            out.push(11);
        },
    }
    proof {
        assert(out@ =~= spec_serialize(*m));
    }
    out
}

/// Encode a bare payload, as the transport does for opaque values.
pub fn serialize_any(p: &Payload) -> (out: Vec<u8>)
    ensures
        out@ == spec_ser_payload(*p),
{
    let mut out: Vec<u8> = Vec::new();
    ser_payload(&mut out, p);
    proof {
        assert(out@ =~= spec_ser_payload(*p));
    }
    out
}

/// Reading a number at `pos`: eight little-endian bytes.
pub open spec fn spec_parse_u64(b: Seq<u8>, pos: int) -> Option<(u64, int)> {
    if 0 <= pos && pos + 8 <= b.len() {
        Some((spec_u64_from_le_bytes(b.subrange(pos, pos + 8)), pos + 8))
    } else {
        None
    }
}

/// Reading a string at `pos`: a byte length, then that many bytes of
/// valid UTF-8.
pub open spec fn spec_parse_string(b: Seq<u8>, pos: int) -> Option<(Seq<char>, int)> {
    match spec_parse_u64(b, pos) {
        Some((n, p1)) => {
            if p1 + n <= b.len() && valid_utf8(b.subrange(p1, p1 + n as int)) {
                Some((decode_utf8(b.subrange(p1, p1 + n as int)), p1 + n as int))
            } else {
                None
            }
        },
        None => None,
    }
}

/// Reading `count` metadata pairs at `pos`.
pub open spec fn spec_parse_pairs(b: Seq<u8>, pos: int, count: nat) -> Option<
    (Seq<(Seq<char>, Seq<char>)>, int),
>
    decreases count,
{
    if count == 0 {
        Some((Seq::empty(), pos))
    } else {
        match spec_parse_string(b, pos) {
            Some((k, p1)) => match spec_parse_string(b, p1) {
                Some((v, p2)) => match spec_parse_pairs(b, p2, (count - 1) as nat) {
                    Some((rest, p3)) => Some((seq![(k, v)] + rest, p3)),
                    None => None,
                },
                None => None,
            },
            None => None,
        }
    }
}

/// The map a run of parsed pairs denotes; later pairs win.
pub open spec fn views_to_map(s: Seq<(Seq<char>, Seq<char>)>) -> Map<Seq<char>, Seq<char>>
    decreases s.len(),
{
    if s.len() == 0 {
        Map::empty()
    } else {
        views_to_map(s.drop_last()).insert(s.last().0, s.last().1)
    }
}

/// Inserting a run of pairs into `acc`, first pair first.
pub open spec fn accum_map(
    acc: Map<Seq<char>, Seq<char>>,
    s: Seq<(Seq<char>, Seq<char>)>,
) -> Map<Seq<char>, Seq<char>>
    decreases s.len(),
{
    if s.len() == 0 {
        acc
    } else {
        accum_map(acc.insert(s[0].0, s[0].1), s.drop_first())
    }
}

proof fn lemma_accum_push(acc: Map<Seq<char>, Seq<char>>, s: Seq<(Seq<char>, Seq<char>)>, p: (Seq<char>, Seq<char>))
    ensures
        accum_map(acc, s.push(p)) == accum_map(acc, s).insert(p.0, p.1),
    decreases s.len(),
{
    if s.len() == 0 {
        assert(s.push(p).drop_first() =~= Seq::<(Seq<char>, Seq<char>)>::empty());
        assert(s.push(p)[0] == p);
        assert(accum_map(acc, s.push(p)) == accum_map(
            acc.insert(p.0, p.1),
            s.push(p).drop_first(),
        ));
        assert(accum_map(acc, s) == acc);
    } else {
        assert(s.push(p)[0] == s[0]);
        assert(s.push(p).drop_first() =~= s.drop_first().push(p));
        assert(accum_map(acc, s.push(p)) == accum_map(
            acc.insert(s[0].0, s[0].1),
            s.drop_first().push(p),
        ));
        lemma_accum_push(acc.insert(s[0].0, s[0].1), s.drop_first(), p);
        assert(accum_map(acc, s) == accum_map(acc.insert(s[0].0, s[0].1), s.drop_first()));
    }
}

proof fn lemma_views_accum(s: Seq<(Seq<char>, Seq<char>)>)
    ensures
        views_to_map(s) == accum_map(Map::empty(), s),
    decreases s.len(),
{
    if s.len() > 0 {
        lemma_views_accum(s.drop_last());
        lemma_accum_push(Map::empty(), s.drop_last(), s.last());
        assert(s.drop_last().push(s.last()) =~= s);
    }
}

/// Reading a metadata table at `pos`: a pair count, then the pairs.
pub open spec fn spec_parse_meta(b: Seq<u8>, pos: int) -> Option<
    (Map<Seq<char>, Seq<char>>, int),
> {
    match spec_parse_u64(b, pos) {
        Some((n, p1)) => match spec_parse_pairs(b, p1, n as nat) {
            Some((pairs, p2)) => Some((views_to_map(pairs), p2)),
            None => None,
        },
        None => None,
    }
}

/// Reading a payload at `pos`: a variant tag, then its contents.
pub open spec fn spec_parse_payload(b: Seq<u8>, pos: int) -> Option<(PayV, int)> {
    if !(0 <= pos < b.len()) {
        None
    } else if b[pos] == 0 {
        Some((PayV::Empty, pos + 1))
    } else if b[pos] == 1 {
        match spec_parse_string(b, pos + 1) {
            Some((s, p1)) => Some((PayV::Text(s), p1)),
            None => None,
        }
    } else if b[pos] == 2 {
        if pos + 2 <= b.len() && (b[pos + 1] == 0 || b[pos + 1] == 1) {
            Some((PayV::Flag(b[pos + 1] == 1), pos + 2))
        } else {
            None
        }
    } else if b[pos] == 3 {
        match spec_parse_u64(b, pos + 1) {
            Some((n, p1)) => Some((PayV::Number(n), p1)),
            None => None,
        }
    } else {
        None
    }
}

/// The status a wire byte denotes; unknown bytes mean `Error`, as a
/// peer speaking a newer dialect may send one.
pub open spec fn byte_status(x: u8) -> ResponseStatus {
    if x == 0 {
        ResponseStatus::Success
    } else if x == 1 {
        ResponseStatus::NotFound
    } else if x == 2 {
        ResponseStatus::Error
    } else if x == 3 {
        ResponseStatus::Intercepted
    } else if x == 4 {
        ResponseStatus::Approximated
    } else {
        ResponseStatus::Error
    }
}

/// Reading a whole frame: the type tag, the fields in order, and
/// nothing left over.
pub open spec fn spec_parse_message(b: Seq<u8>) -> Option<TmV> {
    if b.len() < 1 {
        None
    } else if b[0] == 1 {
        match spec_parse_string(b, 1) {
            Some((path, p1)) => match spec_parse_payload(b, p1) {
                Some((data, p2)) => match spec_parse_meta(b, p2) {
                    Some((metadata, p3)) => match spec_parse_string(b, p3) {
                        Some((sender_id, p4)) => {
                            if p4 == b.len() {
                                Some(TmV::Request { path, data, metadata, sender_id })
                            } else {
                                None
                            }
                        },
                        None => None,
                    },
                    None => None,
                },
                None => None,
            },
            None => None,
        }
    } else if b[0] == 2 {
        match spec_parse_payload(b, 1) {
            Some((data, p1)) => match spec_parse_meta(b, p1) {
                Some((metadata, p2)) => {
                    if p2 + 1 == b.len() {
                        Some(TmV::Response { data, metadata, status: byte_status(b[p2]) })
                    } else {
                        None
                    }
                },
                None => None,
            },
            None => None,
        }
    } else if b[0] == 3 {
        match spec_parse_string(b, 1) {
            Some((topic, p1)) => match spec_parse_payload(b, p1) {
                Some((data, p2)) => match spec_parse_meta(b, p2) {
                    Some((metadata, p3)) => match spec_parse_string(b, p3) {
                        Some((sender_id, p4)) => match spec_parse_u64(b, p4) {
                            Some((timestamp, p5)) => {
                                if p5 == b.len() {
                                    Some(
                                        TmV::PubMessage {
                                            topic,
                                            data,
                                            metadata,
                                            sender_id,
                                            timestamp,
                                        },
                                    )
                                } else {
                                    None
                                }
                            },
                            None => None,
                        },
                        None => None,
                    },
                    None => None,
                },
                None => None,
            },
            None => None,
        }
    } else if b[0] == 10 {
        if b.len() == 1 {
            Some(TmV::Heartbeat)
        } else {
            None
        }
    } else if b[0] == 11 {
        if b.len() == 1 {
            Some(TmV::HeartbeatAck)
        } else {
            None
        }
    } else {
        None
    }
}

/// Relies on std's `String::from_utf8`: it succeeds exactly on valid
/// UTF-8 input and returns the string those bytes spell.
#[verifier::external_body]
fn string_from_utf8(v: Vec<u8>) -> (r: Option<String>)
    ensures
        r is Some <==> valid_utf8(v@),
        (match r {
            Some(s) => s@ == decode_utf8(v@),
            None => true,
        }),
{
    match String::from_utf8(v) {
        Ok(s) => Some(s),
        Err(_) => None,
    }
}

fn parse_u64(b: &Vec<u8>, pos: usize) -> (r: Option<(u64, usize)>)
    ensures
        (match r {
            Some(x) => spec_parse_u64(b@, pos as int) == Some((x.0, x.1 as int)),
            None => spec_parse_u64(b@, pos as int) is None,
        }),
{
    if pos <= b.len() && b.len() - pos >= 8 {
        let s = slice_subrange(b.as_slice(), pos, pos + 8);
        let n = u64_from_le_bytes(s);
        Some((n, pos + 8))
    } else {
        None
    }
}

fn parse_string(b: &Vec<u8>, pos: usize) -> (r: Option<(String, usize)>)
    ensures
        (match r {
            Some(x) => spec_parse_string(b@, pos as int) == Some((x.0@, x.1 as int)),
            None => spec_parse_string(b@, pos as int) is None,
        }),
{
    match parse_u64(b, pos) {
        Some((n, p1)) => {
            if n <= (b.len() - p1) as u64 {
                let end = p1 + (n as usize);
                let bytes = slice_to_vec(slice_subrange(b.as_slice(), p1, end));
                match string_from_utf8(bytes) {
                    Some(s) => Some((s, end)),
                    None => None,
                }
            } else {
                None
            }
        },
        None => None,
    }
}

fn parse_meta(b: &Vec<u8>, pos: usize) -> (r: Option<(MetaMap, usize)>)
    ensures
        (match r {
            Some(x) => spec_parse_meta(b@, pos as int) == Some((x.0@, x.1 as int)) && x.0.wf(),
            None => spec_parse_meta(b@, pos as int) is None,
        }),
{
    match parse_u64(b, pos) {
        Some((n, p1)) => {
            let mut m = MetaMap::new();
            let mut i: u64 = 0;
            let mut cur = p1;
            let ghost target = spec_parse_pairs(b@, p1 as int, n as nat);
            proof {
                if target is Some {
                    let whole = target->0;
                    lemma_views_accum(whole.0);
                }
            }
            while i < n
                invariant
                    m.wf(),
                    i <= n,
                    spec_parse_u64(b@, pos as int) == Some((n, p1 as int)),
                    target == spec_parse_pairs(b@, p1 as int, n as nat),
                    (match spec_parse_pairs(b@, cur as int, (n - i) as nat) {
                        Some(rem) => target matches Some(whole) && accum_map(m@, rem.0)
                            == views_to_map(whole.0) && whole.1 == rem.1,
                        None => target is None,
                    }),
                decreases n - i,
            {
                let ghost rem0 = spec_parse_pairs(b@, cur as int, (n - i) as nat);
                match parse_string(b, cur) {
                    Some((k, p2)) => {
                        match parse_string(b, p2) {
                            Some((v, p3)) => {
                                proof {
                                    if rem0 is Some {
                                        let rem = rem0->0;
                                        let rest = spec_parse_pairs(b@, p3 as int, (n - i
                                            - 1) as nat);
                                        assert(rest is Some);
                                        let restv = rest->0;
                                        assert(rem.0 == seq![(k@, v@)] + restv.0);
                                        assert((seq![(k@, v@)] + restv.0).drop_first()
                                            =~= restv.0);
                                        assert(accum_map(m@, rem.0) == accum_map(
                                            m@.insert(k@, v@),
                                            restv.0,
                                        ));
                                    }
                                }
                                m.insert(k, v);
                                cur = p3;
                            },
                            None => {
                                return None;
                            },
                        }
                    },
                    None => {
                        return None;
                    },
                }
                i = i + 1;
            }
            Some((m, cur))
        },
        None => None,
    }
}


fn parse_payload(b: &Vec<u8>, pos: usize) -> (r: Option<(Payload, usize)>)
    ensures
        (match r {
            Some(x) => spec_parse_payload(b@, pos as int) == Some((payload_view(x.0), x.1 as int)),
            None => spec_parse_payload(b@, pos as int) is None,
        }),
{
    if pos >= b.len() {
        return None;
    }
    let tag = b[pos];
    if tag == 0 {
        Some((Payload::Empty, pos + 1))
    } else if tag == 1 {
        match parse_string(b, pos + 1) {
            Some((s, p1)) => Some((Payload::Text(s), p1)),
            None => None,
        }
    } else if tag == 2 {
        if b.len() - pos >= 2 {
            let fb = b[pos + 1];
            if fb == 0 || fb == 1 {
                Some((Payload::Flag(fb == 1), pos + 2))
            } else {
                None
            }
        } else {
            None
        }
    } else if tag == 3 {
        match parse_u64(b, pos + 1) {
            Some((n, p1)) => Some((Payload::Number(n), p1)),
            None => None,
        }
    } else {
        None
    }
}

/// Whether a frame's metadata tables are well-formed.
pub open spec fn tm_wf(m: TransportMessage) -> bool {
    match m {
        TransportMessage::Request { path, data, metadata, sender_id } => metadata.wf(),
        TransportMessage::Response { data, metadata, status } => metadata.wf(),
        TransportMessage::PubMessage { topic, data, metadata, sender_id, timestamp } => metadata.wf(),
        TransportMessage::Heartbeat => true,
        TransportMessage::HeartbeatAck => true,
    }
}

/// Decode a frame from the peer transport. Exactly the byte strings
/// `spec_parse_message` accepts decode, to the frame it denotes.
pub fn deserialize(bytes: &Vec<u8>) -> (r: Option<TransportMessage>)
    ensures
        (match r {
            Some(m) => spec_parse_message(bytes@) == Some(tm_view(m)) && tm_wf(m),
            None => spec_parse_message(bytes@) is None,
        }),
{
    if bytes.len() < 1 {
        return None;
    }
    let tag = bytes[0];
    if tag == 1 {
        match parse_string(bytes, 1) {
            Some((path, p1)) => match parse_payload(bytes, p1) {
                Some((data, p2)) => match parse_meta(bytes, p2) {
                    Some((metadata, p3)) => match parse_string(bytes, p3) {
                        Some((sender_id, p4)) => {
                            if p4 == bytes.len() {
                                Some(TransportMessage::Request { path, data, metadata, sender_id })
                            } else {
                                None
                            }
                        },
                        None => None,
                    },
                    None => None,
                },
                None => None,
            },
            None => None,
        }
    } else if tag == 2 {
        match parse_payload(bytes, 1) {
            Some((data, p1)) => match parse_meta(bytes, p1) {
                Some((metadata, p2)) => {
                    if p2 < bytes.len() && p2 + 1 == bytes.len() {
                        let sb = bytes[p2];
                        let status = if sb == 0 {
                            ResponseStatus::Success
                        } else if sb == 1 {
                            ResponseStatus::NotFound
                        } else if sb == 2 {
                            ResponseStatus::Error
                        } else if sb == 3 {
                            ResponseStatus::Intercepted
                        } else if sb == 4 {
                            ResponseStatus::Approximated
                        } else {
                            ResponseStatus::Error
                        };
                        Some(TransportMessage::Response { data, metadata, status })
                    } else {
                        None
                    }
                },
                None => None,
            },
            None => None,
        }
    } else if tag == 3 {
        match parse_string(bytes, 1) {
            Some((topic, p1)) => match parse_payload(bytes, p1) {
                Some((data, p2)) => match parse_meta(bytes, p2) {
                    Some((metadata, p3)) => match parse_string(bytes, p3) {
                        Some((sender_id, p4)) => match parse_u64(bytes, p4) {
                            Some((timestamp, p5)) => {
                                if p5 == bytes.len() {
                                    Some(
                                        TransportMessage::PubMessage {
                                            topic,
                                            data,
                                            metadata,
                                            sender_id,
                                            timestamp,
                                        },
                                    )
                                } else {
                                    None
                                }
                            },
                            None => None,
                        },
                        None => None,
                    },
                    None => None,
                },
                None => None,
            },
            None => None,
        }
    } else if tag == 10 {
        if bytes.len() == 1 {
            Some(TransportMessage::Heartbeat)
        } else {
            None
        }
    } else if tag == 11 {
        if bytes.len() == 1 {
            Some(TransportMessage::HeartbeatAck)
        } else {
            None
        }
    } else {
        None
    }
}

/// A bare payload that spans exactly the given bytes.
pub open spec fn spec_parse_any(b: Seq<u8>) -> Option<PayV> {
    match spec_parse_payload(b, 0) {
        Some(x) => {
            if x.1 == b.len() {
                Some(x.0)
            } else {
                None
            }
        },
        None => None,
    }
}

/// Decode a bare payload, as the transport does for opaque values.
pub fn deserialize_any(bytes: &Vec<u8>) -> (r: Option<Payload>)
    ensures
        (match r {
            Some(p) => spec_parse_any(bytes@) == Some(payload_view(p)),
            None => spec_parse_any(bytes@) is None,
        }),
{
    match parse_payload(bytes, 0) {
        Some((p, end)) => {
            if end == bytes.len() {
                Some(p)
            } else {
                None
            }
        },
        None => None,
    }
}

/// A string whose UTF-8 form has a length the wire can carry.
pub open spec fn str_bounded(s: Seq<char>) -> bool {
    encode_utf8(s).len() <= u64::MAX
}

/// A payload the wire can carry.
pub open spec fn payload_bounded(p: Payload) -> bool {
    match p {
        Payload::Text(s) => str_bounded(s@),
        _ => true,
    }
}

/// A metadata table the wire can carry.
pub open spec fn pairs_bounded(s: Seq<(String, String)>) -> bool {
    &&& s.len() <= u64::MAX
    &&& forall|i: int|
        0 <= i < s.len() ==> str_bounded((#[trigger] s[i]).0@) && str_bounded(s[i].1@)
}

/// A frame the wire can carry: every length fits its prefix. Every
/// frame built from executable values is bounded.
pub open spec fn tm_bounded(m: TransportMessage) -> bool {
    match m {
        TransportMessage::Request { path, data, metadata, sender_id } => str_bounded(path@)
            && payload_bounded(data) && pairs_bounded(metadata.spec_pairs()) && str_bounded(
            sender_id@,
        ),
        TransportMessage::Response { data, metadata, status } => payload_bounded(data)
            && pairs_bounded(metadata.spec_pairs()),
        TransportMessage::PubMessage { topic, data, metadata, sender_id, timestamp } => str_bounded(
            topic@,
        ) && payload_bounded(data) && pairs_bounded(metadata.spec_pairs()) && str_bounded(
            sender_id@,
        ),
        TransportMessage::Heartbeat => true,
        TransportMessage::HeartbeatAck => true,
    }
}

proof fn lemma_parse_u64_frame(pre: Seq<u8>, n: u64, post: Seq<u8>)
    ensures
        spec_ser_u64(n).len() == 8,
        spec_parse_u64(pre + spec_ser_u64(n) + post, pre.len() as int) == Some(
            (n, pre.len() as int + 8),
        ),
{
    lemma_auto_spec_u64_to_from_le_bytes();
    let b = pre + spec_ser_u64(n) + post;
    assert(b.subrange(pre.len() as int, pre.len() as int + 8) =~= spec_ser_u64(n));
}

proof fn lemma_parse_string_frame(pre: Seq<u8>, s: Seq<char>, post: Seq<u8>)
    requires
        str_bounded(s),
    ensures
        spec_parse_string(pre + spec_ser_string(s) + post, pre.len() as int) == Some(
            (s, pre.len() as int + spec_ser_string(s).len() as int),
        ),
{
    let enc = encode_utf8(s);
    let b = pre + spec_ser_string(s) + post;
    assert(b =~= pre + spec_ser_u64(enc.len() as u64) + (enc + post));
    lemma_parse_u64_frame(pre, enc.len() as u64, enc + post);
    let p1 = pre.len() as int + 8;
    assert(b.subrange(p1, p1 + enc.len() as int) =~= enc);
    vstd::utf8::encode_utf8_valid_utf8(s);
    vstd::utf8::encode_utf8_decode_utf8(s);
}

proof fn lemma_views_pairs_map(s: Seq<(String, String)>)
    ensures
        views_to_map(s.map_values(|p: (String, String)| (p.0@, p.1@)))
            == crate::types::pairs_to_map(s),
    decreases s.len(),
{
    let mapped = s.map_values(|p: (String, String)| (p.0@, p.1@));
    if s.len() == 0 {
        assert(mapped.len() == 0);
    } else {
        lemma_views_pairs_map(s.drop_last());
        assert(mapped.drop_last() =~= s.drop_last().map_values(
            |p: (String, String)| (p.0@, p.1@),
        ));
        assert(mapped.last() == (s.last().0@, s.last().1@));
    }
}

proof fn lemma_parse_pairs_frame(pre: Seq<u8>, pairs: Seq<(String, String)>, post: Seq<u8>)
    requires
        pairs_bounded(pairs),
    ensures
        spec_parse_pairs(pre + spec_ser_pairs(pairs) + post, pre.len() as int, pairs.len())
            == Some(
            (
                pairs.map_values(|p: (String, String)| (p.0@, p.1@)),
                pre.len() as int + spec_ser_pairs(pairs).len() as int,
            ),
        ),
    decreases pairs.len(),
{
    let b = pre + spec_ser_pairs(pairs) + post;
    if pairs.len() == 0 {
        assert(pairs.map_values(|p: (String, String)| (p.0@, p.1@)) =~= Seq::<
            (Seq<char>, Seq<char>),
        >::empty());
        assert(spec_ser_pairs(pairs).len() == 0);
    } else {
        let k = pairs[0].0@;
        let v = pairs[0].1@;
        let rest = pairs.drop_first();
        let sk = spec_ser_string(k);
        let sv = spec_ser_string(v);
        let sr = spec_ser_pairs(rest);
        assert(spec_ser_pairs(pairs) == sk + sv + sr);
        assert(b =~= pre + sk + (sv + sr + post));
        lemma_parse_string_frame(pre, k, sv + sr + post);
        let p1 = pre.len() + sk.len();
        assert(b =~= (pre + sk) + sv + (sr + post));
        lemma_parse_string_frame(pre + sk, v, sr + post);
        assert((pre + sk).len() == p1);
        let p2 = p1 + sv.len();
        assert(b =~= (pre + sk + sv) + sr + post);
        assert((pre + sk + sv).len() == p2);
        lemma_parse_pairs_frame(pre + sk + sv, rest, post);
        assert(pairs.map_values(|p: (String, String)| (p.0@, p.1@)) =~= seq![(k, v)]
            + rest.map_values(|p: (String, String)| (p.0@, p.1@)));
        assert(p2 + sr.len() == pre.len() + spec_ser_pairs(pairs).len());
    }
}

proof fn lemma_parse_meta_frame(pre: Seq<u8>, pairs: Seq<(String, String)>, post: Seq<u8>)
    requires
        pairs_bounded(pairs),
    ensures
        spec_parse_meta(pre + spec_ser_meta(pairs) + post, pre.len() as int) == Some(
            (crate::types::pairs_to_map(pairs), pre.len() as int + spec_ser_meta(pairs).len() as int),
        ),
{
    let b = pre + spec_ser_meta(pairs) + post;
    assert(b =~= pre + spec_ser_u64(pairs.len() as u64) + (spec_ser_pairs(pairs) + post));
    lemma_parse_u64_frame(pre, pairs.len() as u64, spec_ser_pairs(pairs) + post);
    assert(b =~= (pre + spec_ser_u64(pairs.len() as u64)) + spec_ser_pairs(pairs) + post);
    lemma_parse_pairs_frame(pre + spec_ser_u64(pairs.len() as u64), pairs, post);
    lemma_views_pairs_map(pairs);
}

proof fn lemma_parse_payload_frame(pre: Seq<u8>, p: Payload, post: Seq<u8>)
    requires
        payload_bounded(p),
    ensures
        spec_parse_payload(pre + spec_ser_payload(p) + post, pre.len() as int) == Some(
            (payload_view(p), pre.len() as int + spec_ser_payload(p).len() as int),
        ),
{
    let b = pre + spec_ser_payload(p) + post;
    match p {
        Payload::Empty => {
            assert(b[pre.len() as int] == 0);
        },
        Payload::Text(s) => {
            assert(b[pre.len() as int] == 1);
            assert(b =~= (pre + seq![1u8]) + spec_ser_string(s@) + post);
            lemma_parse_string_frame(pre + seq![1u8], s@, post);
        },
        Payload::Flag(fl) => {
            assert(b[pre.len() as int] == 2);
            assert(b[pre.len() as int + 1] == (if fl {
                1u8
            } else {
                0u8
            }));
        },
        Payload::Number(n) => {
            assert(b[pre.len() as int] == 3);
            assert(b =~= (pre + seq![3u8]) + spec_ser_u64(n) + post);
            lemma_parse_u64_frame(pre + seq![3u8], n, post);
        },
    }
}

/// Law: the codec round-trips. Any frame the wire can carry parses
/// back, from its own serialization, to exactly the frame it was.
#[verifier::spinoff_prover]
#[verifier::rlimit(100)]
pub proof fn lemma_codec_round_trip(m: TransportMessage)
    requires
        tm_bounded(m),
    ensures
        spec_parse_message(spec_serialize(m)) == Some(tm_view(m)),
{
    let b = spec_serialize(m);
    match m {
        TransportMessage::Request { path, data, metadata, sender_id } => {
            crate::types::lemma_meta_view(metadata);
            let s1 = spec_ser_string(path@);
            let s2 = spec_ser_payload(data);
            let s3 = spec_ser_meta(metadata.spec_pairs());
            let s4 = spec_ser_string(sender_id@);
            assert(b[0] == 1);
            assert(b =~= seq![1u8] + s1 + (s2 + s3 + s4));
            lemma_parse_string_frame(seq![1u8], path@, s2 + s3 + s4);
            assert(b =~= (seq![1u8] + s1) + s2 + (s3 + s4));
            lemma_parse_payload_frame(seq![1u8] + s1, data, s3 + s4);
            assert(b =~= (seq![1u8] + s1 + s2) + s3 + s4);
            lemma_parse_meta_frame(seq![1u8] + s1 + s2, metadata.spec_pairs(), s4);
            assert(b =~= (seq![1u8] + s1 + s2 + s3) + s4 + Seq::<u8>::empty());
            lemma_parse_string_frame(seq![1u8] + s1 + s2 + s3, sender_id@, Seq::empty());
            assert((seq![1u8] + s1 + s2 + s3).len() + s4.len() == b.len());
        },
        TransportMessage::Response { data, metadata, status } => {
            crate::types::lemma_meta_view(metadata);
            let s1 = spec_ser_payload(data);
            let s2 = spec_ser_meta(metadata.spec_pairs());
            assert(b[0] == 2);
            assert(b =~= seq![2u8] + s1 + (s2 + seq![status_byte(status)]));
            lemma_parse_payload_frame(seq![2u8], data, s2 + seq![status_byte(status)]);
            assert(b =~= (seq![2u8] + s1) + s2 + seq![status_byte(status)]);
            lemma_parse_meta_frame(seq![2u8] + s1, metadata.spec_pairs(), seq![
                status_byte(status),
            ]);
            assert(b[(seq![2u8] + s1 + s2).len() as int] == status_byte(status));
            assert(byte_status(status_byte(status)) == status);
        },
        TransportMessage::PubMessage { topic, data, metadata, sender_id, timestamp } => {
            crate::types::lemma_meta_view(metadata);
            let s1 = spec_ser_string(topic@);
            let s2 = spec_ser_payload(data);
            let s3 = spec_ser_meta(metadata.spec_pairs());
            let s4 = spec_ser_string(sender_id@);
            let s5 = spec_ser_u64(timestamp);
            assert(b[0] == 3);
            assert(b =~= seq![3u8] + s1 + (s2 + s3 + s4 + s5));
            lemma_parse_string_frame(seq![3u8], topic@, s2 + s3 + s4 + s5);
            assert(b =~= (seq![3u8] + s1) + s2 + (s3 + s4 + s5));
            lemma_parse_payload_frame(seq![3u8] + s1, data, s3 + s4 + s5);
            assert(b =~= (seq![3u8] + s1 + s2) + s3 + (s4 + s5));
            lemma_parse_meta_frame(seq![3u8] + s1 + s2, metadata.spec_pairs(), s4 + s5);
            assert(b =~= (seq![3u8] + s1 + s2 + s3) + s4 + s5);
            lemma_parse_string_frame(seq![3u8] + s1 + s2 + s3, sender_id@, s5);
            assert(b =~= (seq![3u8] + s1 + s2 + s3 + s4) + s5 + Seq::<u8>::empty());
            lemma_parse_u64_frame(seq![3u8] + s1 + s2 + s3 + s4, timestamp, Seq::empty());
            assert((seq![3u8] + s1 + s2 + s3 + s4).len() + 8 == b.len());
        },
        TransportMessage::Heartbeat => {
            assert(b[0] == 10);
        },
        TransportMessage::HeartbeatAck => {
            assert(b[0] == 11);
        },
    }
}

} // verus!
