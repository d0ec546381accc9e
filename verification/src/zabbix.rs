//! The Zabbix sender protocol: request framing and reply decoding.
//!
//! A frame is the header `ZBXD` followed by the flag byte 1, the payload length
//! as a little-endian 32-bit number, four reserved bytes, and the payload.

use vstd::prelude::*;
use vstd::utf8::{decode_utf8, valid_utf8};

use crate::bus::{lemma_split_join, lemma_split_single};
use crate::text::{fields, split_on};

verus! {

/// A Zabbix trapper endpoint, given as `host:port`.
#[derive(Debug, Clone)]
pub struct ZabbixSender {
    pub addr: String,
}

impl ZabbixSender {
    /// A sender for the endpoint `addr`.
    pub fn new(addr: String) -> (r: Self)
        ensures
            r.addr == addr,
    {
        Self { addr: addr }
    }
}

/// What a Zabbix server can answer besides an accepted reply.
#[derive(Debug)]
pub enum ZabbixError {
    /// The requested item is not supported.
    NotSupported(String),
    /// The server refused the data; the text is its reason.
    SenderError(String),
}

impl ZabbixError {
    /// The human-readable text of the error.
    pub fn message(&self) -> (r: String)
        ensures
            r@ == (match self {
                ZabbixError::NotSupported(e) => "ZabbixNotSupported ("@ + e@ + ")"@,
                ZabbixError::SenderError(e) => "ZabbixSenderError ("@ + e@ + ")"@,
            }),
    {
        let (mut r, e) = match self {
            ZabbixError::NotSupported(e) => (String::from_str("ZabbixNotSupported ("), e),
            ZabbixError::SenderError(e) => (String::from_str("ZabbixSenderError ("), e),
        };
        r.append(e.as_str());
        r.append(")");
        r
    }
}

/// The bytes that open every frame: `ZBXD` and the protocol flag 1.
pub open spec fn frame_header() -> Seq<u8> {
    seq![90u8, 66u8, 88u8, 68u8, 1u8]
}

/// `x` as four little-endian bytes, for `x < 2^32`.
pub open spec fn le32(x: nat) -> Seq<u8> {
    seq![
        (x % 256) as u8,
        ((x / 256) % 256) as u8,
        ((x / 65536) % 256) as u8,
        ((x / 16777216) % 256) as u8,
    ]
}

/// The number that four little-endian bytes spell.
pub open spec fn le32_value(b: Seq<u8>) -> nat {
    (b[0] + 256 * b[1] + 65536 * b[2] + 16777216 * b[3]) as nat
}

/// The frame that carries `data` to a Zabbix server; the length field holds the
/// payload length modulo 2^32.
pub open spec fn request_frame(data: Seq<u8>) -> Seq<u8> {
    frame_header() + le32(data.len() % 4294967296) + le32(0) + data
}

/// The payload length that a received frame announces.
pub open spec fn reply_len(buf: Seq<u8>) -> nat {
    le32_value(buf.subrange(5, 9))
}

/// A received frame has the header, and holds as many payload bytes as it announces.
pub open spec fn reply_well_formed(buf: Seq<u8>) -> bool {
    &&& buf.len() >= 9
    &&& buf.take(5) == frame_header()
    &&& 13 + reply_len(buf) <= buf.len()
}

/// The payload of a well-formed received frame.
pub open spec fn reply_payload(buf: Seq<u8>) -> Seq<u8> {
    buf.subrange(13, 13 + reply_len(buf) as int)
}

/// The characters that open a refusal: `ZBX_NOTSUPPORTED` and a NUL.
pub open spec fn refusal_prefix() -> Seq<char> {
    seq!['Z', 'B', 'X', '_', 'N', 'O', 'T', 'S', 'U', 'P', 'P', 'O', 'R', 'T', 'E', 'D', '\0']
}

/// What a reply text means: a refusal carries the text between the first and
/// second NUL as its reason, any other text is the accepted answer.
pub open spec fn reply_outcome(text: Seq<char>) -> Result<Seq<char>, Seq<char>> {
    if text.len() >= 17 && text.take(17) == refusal_prefix() {
        let parts = split_on(text, '\0');
        Err(if parts.len() >= 2 { parts[1] } else { Seq::empty() })
    } else {
        Ok(text)
    }
}

/// Little-endian bytes of `x`.
fn push_le32(out: &mut Vec<u8>, x: u64)
    requires
        x < 4294967296,
    ensures
        final(out)@ == old(out)@ + le32(x as nat),
{
    out.push((x % 256) as u8);
    out.push(((x / 256) % 256) as u8);
    out.push(((x / 65536) % 256) as u8);
    out.push(((x / 16777216) % 256) as u8);
    proof {
        assert(final(out)@ =~= old(out)@ + le32(x as nat));
    }
}

/// The frame that sends `data` to a Zabbix server.
pub fn frame_request(data: &[u8]) -> (r: Vec<u8>)
    ensures
        r@ == request_frame(data@),
{
    let mut out: Vec<u8> = Vec::new();
    out.push(90u8);
    out.push(66u8);
    out.push(88u8);
    out.push(68u8);
    out.push(1u8);
    let n: u64 = (data.len() as u64) % 4294967296;
    push_le32(&mut out, n);
    push_le32(&mut out, 0);
    let ghost head = out@;
    let mut i: usize = 0;
    while i < data.len()
        invariant
            i <= data@.len(),
            out@ == head + data@.take(i as int),
        decreases data@.len() - i,
    {
        out.push(data[i]);
        proof {
            assert(data@.take(i + 1) =~= data@.take(i as int).push(data@[i as int]));
        }
        i += 1;
    }
    proof {
        assert(data@.take(data@.len() as int) =~= data@);
        assert(head =~= frame_header() + le32(data@.len() % 4294967296) + le32(0));
    }
    out
}

/// Whether a received frame can be read: it has the header and its full payload.
pub fn reply_is_well_formed(buf: &[u8]) -> (r: bool)
    ensures
        r == reply_well_formed(buf@),
{
    if buf.len() < 9 {
        return false;
    }
    let head_ok = buf[0] == 90u8 && buf[1] == 66u8 && buf[2] == 88u8 && buf[3] == 68u8 && buf[4]
        == 1u8;
    proof {
        if head_ok {
            assert(buf@.take(5) =~= frame_header());
        } else if buf@.take(5) == frame_header() {
            assert(buf@.take(5)[0] == buf@[0]);
            assert(buf@.take(5)[1] == buf@[1]);
            assert(buf@.take(5)[2] == buf@[2]);
            assert(buf@.take(5)[3] == buf@[3]);
            assert(buf@.take(5)[4] == buf@[4]);
        }
    }
    if !head_ok {
        return false;
    }
    let len = read_len(buf);
    len <= (buf.len() as u64) && (buf.len() as u64) - len >= 13
}

/// The payload length announced by a frame.
fn read_len(buf: &[u8]) -> (r: u64)
    requires
        buf@.len() >= 9,
    ensures
        r == reply_len(buf@),
{
    let r = (buf[5] as u64) + 256 * (buf[6] as u64) + 65536 * (buf[7] as u64) + 16777216 * (
    buf[8] as u64);
    proof {
        let b = buf@.subrange(5, 9);
        assert(b[0] == buf@[5]);
        assert(b[1] == buf@[6]);
        assert(b[2] == buf@[7]);
        assert(b[3] == buf@[8]);
    }
    r
}

/// The payload of a well-formed received frame.
pub fn reply_payload_bytes(buf: &[u8]) -> (r: Vec<u8>)
    requires
        reply_well_formed(buf@),
    ensures
        r@ == reply_payload(buf@),
{
    let len64 = read_len(buf);
    let total = buf.len();
    assert(len64 + 13 <= total);
    let end: usize = 13 + (len64 as usize);
    let mut out: Vec<u8> = Vec::new();
    let mut i: usize = 13;
    while i < end
        invariant
            reply_well_formed(buf@),
            end == 13 + reply_len(buf@),
            13 <= i <= end,
            out@ == buf@.subrange(13, i as int),
        decreases end - i,
    {
        out.push(buf[i]);
        proof {
            assert(buf@.subrange(13, i + 1) =~= buf@.subrange(13, i as int).push(buf@[i as int]));
        }
        i += 1;
    }
    out
}

/// The text `String::from_utf8_lossy` makes of `bytes`.
pub uninterp spec fn lossy_text(bytes: Seq<u8>) -> Seq<char>;

/// Calls `String::from_utf8_lossy`. Claimed: the result is a function of the bytes
/// alone, and for valid UTF-8 it is the decoded text. How invalid sequences are
/// replaced is left unsaid.
#[verifier::external_body]
fn utf8_lossy(bytes: &[u8]) -> (s: String)
    ensures
        s@ == lossy_text(bytes@),
        valid_utf8(bytes@) ==> s@ == decode_utf8(bytes@),
{
    String::from_utf8_lossy(bytes).into_owned()
}

/// Reads a reply text: a refusal becomes `SenderError` with its reason, anything else is
/// returned as it is.
pub fn decode_reply(text: String) -> (r: Result<String, ZabbixError>)
    ensures
        match (r, reply_outcome(text@)) {
            (Ok(s), Ok(t)) => s@ == t,
            (Err(ZabbixError::SenderError(e)), Err(t)) => e@ == t,
            _ => false,
        },
{
    let prefix: [char; 17] = [
        'Z',
        'B',
        'X',
        '_',
        'N',
        'O',
        'T',
        'S',
        'U',
        'P',
        'P',
        'O',
        'R',
        'T',
        'E',
        'D',
        '\0',
    ];
    proof {
        assert(prefix@ =~= refusal_prefix());
    }
    let n = text.as_str().unicode_len();
    let mut refused = n >= 17;
    let mut i: usize = 0;
    while refused && i < 17
        invariant
            n == text@.len(),
            prefix@ == refusal_prefix(),
            i <= 17,
            refused ==> n >= 17,
            refused ==> text@.take(i as int) == refusal_prefix().take(i as int),
            !refused ==> !(text@.len() >= 17 && text@.take(17) == refusal_prefix()),
        decreases 17 - i,
    {
        let c = text.as_str().get_char(i);
        if c != prefix[i] {
            refused = false;
            proof {
                if text@.len() >= 17 && text@.take(17) == refusal_prefix() {
                    assert(text@.take(17)[i as int] == text@[i as int]);
                }
            }
        } else {
            proof {
                assert(text@.take(i + 1) =~= text@.take(i as int).push(c));
                assert(refusal_prefix().take(i + 1) =~= refusal_prefix().take(i as int).push(
                    prefix@[i as int],
                ));
            }
        }
        i += 1;
    }
    if refused {
        proof {
            assert(refusal_prefix().take(17) =~= refusal_prefix());
        }
        let parts = fields(text.as_str(), '\0');
        let reason = if parts.len() >= 2 {
            parts[1].clone()
        } else {
            String::new()
        };
        Err(ZabbixError::SenderError(reason))
    } else {
        Ok(text)
    }
}

/// Reads a well-formed reply frame: its payload is decoded as UTF-8 (invalid
/// sequences replaced) and then read as `decode_reply` does.
pub fn read_reply(buf: &[u8]) -> (r: Result<String, ZabbixError>)
    requires
        reply_well_formed(buf@),
    ensures
        match (r, reply_outcome(lossy_text(reply_payload(buf@)))) {
            (Ok(s), Ok(t)) => s@ == t,
            (Err(ZabbixError::SenderError(e)), Err(t)) => e@ == t,
            _ => false,
        },
{
    let payload = reply_payload_bytes(buf);
    let text = utf8_lossy(payload.as_slice());
    decode_reply(text)
}

/// A request frame is `ZBXD`, the flag 1, the payload length in four little-endian bytes,
/// four zero bytes, and the payload, for payloads shorter than 2^32 bytes.
pub proof fn law_request_frame_layout(data: Seq<u8>)
    requires
        data.len() < 4294967296,
    ensures
        request_frame(data).len() == 13 + data.len(),
        request_frame(data).take(5) == seq![90u8, 66u8, 88u8, 68u8, 1u8],
        request_frame(data)[5] + 256 * request_frame(data)[6] + 65536 * request_frame(data)[7]
            + 16777216 * request_frame(data)[8] == data.len(),
        request_frame(data).subrange(9, 13) == seq![0u8, 0u8, 0u8, 0u8],
        request_frame(data).skip(13) == data,
{
    let f = request_frame(data);
    let x = data.len();
    assert(x % 4294967296 == x);
    assert(f.take(5) =~= seq![90u8, 66u8, 88u8, 68u8, 1u8]);
    assert(f.subrange(9, 13) =~= seq![0u8, 0u8, 0u8, 0u8]);
    assert(f.skip(13) =~= data);
    assert(f[5] == (x % 256) as u8);
    assert(f[6] == ((x / 256) % 256) as u8);
    assert(f[7] == ((x / 65536) % 256) as u8);
    assert(f[8] == ((x / 16777216) % 256) as u8);
    assert((x % 256) + 256 * ((x / 256) % 256) + 65536 * ((x / 65536) % 256) + 16777216 * ((x
        / 16777216) % 256) == x) by (nonlinear_arith)
        requires
            x < 4294967296,
    {
    }
}

/// The name in a refusal, `ZBX_NOTSUPPORTED`.
pub open spec fn refusal_name() -> Seq<char> {
    seq!['Z', 'B', 'X', '_', 'N', 'O', 'T', 'S', 'U', 'P', 'P', 'O', 'R', 'T', 'E', 'D']
}

/// Every reply that is `ZBX_NOTSUPPORTED`, a NUL and a reason without NUL is refused with
/// that reason.
pub proof fn law_refusal_reason(reason: Seq<char>)
    requires
        !reason.contains('\0'),
    ensures
        reply_outcome(refusal_name() + seq!['\0'] + reason) == Err::<Seq<char>, Seq<char>>(reason),
{
    let name = refusal_name();
    let text = name + seq!['\0'] + reason;
    assert(!name.contains('\0')) by {
        if name.contains('\0') {
            let i = choose|i: int| 0 <= i < name.len() && name[i] == '\0';
            assert(name[i] != '\0');
        }
    }
    lemma_split_join(name, reason, '\0');
    lemma_split_single(name, '\0');
    lemma_split_single(reason, '\0');
    assert(text.take(17) =~= refusal_prefix());
    assert(split_on(text, '\0') =~= seq![name, reason]);
}

/// A reply whose first 17 characters are not `ZBX_NOTSUPPORTED` and a NUL is the accepted
/// answer, as it is.
pub proof fn law_other_reply_accepted(text: Seq<char>)
    requires
        !(text.len() >= 17 && text.take(17) == refusal_name() + seq!['\0']),
    ensures
        reply_outcome(text) == Ok::<Seq<char>, Seq<char>>(text),
{
    assert(refusal_name() + seq!['\0'] =~= refusal_prefix());
}

/// A frame built by `frame_request` is itself a well-formed frame, whose payload is the
/// data it was built from (for data shorter than 2^32 bytes).
pub proof fn law_frame_round_trip(data: Seq<u8>)
    requires
        data.len() < 4294967296,
    ensures
        reply_well_formed(request_frame(data)),
        reply_payload(request_frame(data)) == data,
{
    let f = request_frame(data);
    let x = data.len();
    assert(x % 4294967296 == x);
    assert(f.subrange(5, 9) =~= le32(x));
    assert(le32_value(le32(x)) == x) by (nonlinear_arith)
        requires
            x < 4294967296,
    {
    }
    assert(f.take(5) =~= frame_header());
    assert(f.subrange(13, 13 + x as int) =~= data);
}

} // verus!
