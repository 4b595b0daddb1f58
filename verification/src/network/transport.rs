//! The byte framing of packet streams: each packet travels as its length in unsigned LEB128
//! followed by its bytes.
use vstd::prelude::*;

verus! {

/// The LEB128 encoding of `v`: seven bits per byte, least significant group first, with the
/// high bit set on every byte but the last.
pub open spec fn leb128_bytes(v: nat) -> Seq<u8>
    decreases v,
{
    if v < 128 {
        seq![v as u8]
    } else {
        seq![(v % 128 + 128) as u8] + leb128_bytes(v / 128)
    }
}

/// The number whose base-128 digits, least significant first, are the low seven bits of the
/// bytes.
pub open spec fn base128_value(bytes: Seq<u8>) -> nat
    decreases bytes.len(),
{
    if bytes.len() == 0 {
        0
    } else {
        (bytes[0] % 128) as nat + 128 * base128_value(bytes.drop_first())
    }
}

/// The length of the LEB128 number at the start of `bytes`: up to and including the first byte
/// with its high bit clear, or `None` when there is no such byte.
pub open spec fn leb128_len(bytes: Seq<u8>) -> Option<nat>
    decreases bytes.len(),
{
    if bytes.len() == 0 {
        None
    } else if bytes[0] < 128 {
        Some(1)
    } else {
        match leb128_len(bytes.drop_first()) {
            Some(n) => Some(n + 1),
            None => None,
        }
    }
}

/// `128` to the power `k`.
pub open spec fn pow128(k: nat) -> nat
    decreases k,
{
    if k == 0 {
        1
    } else {
        128 * pow128((k - 1) as nat)
    }
}

/// The longest LEB128 encoding of a 64-bit number.
pub const MAX_LEB128_LEN: usize = 10;

/// Why the LEB128 number at the start of some bytes cannot be read.
#[derive(Clone, Copy, Debug, PartialEq, Eq, Structural)]
pub enum Leb128Error {
    /// The bytes end before the number does.
    Incomplete,
    /// The number runs past the longest encoding of a 64-bit number.
    TooLong,
    /// The number does not fit in 64 bits.
    Overflow,
}

/// What reading a 64-bit LEB128 number at the start of `bytes` gives: the number and the count
/// of bytes it takes.
pub open spec fn leb128_decoded(bytes: Seq<u8>) -> Result<(u64, nat), Leb128Error> {
    match leb128_len(bytes) {
        Some(n) => if n > MAX_LEB128_LEN {
            Err(Leb128Error::TooLong)
        } else if base128_value(bytes.take(n as int)) > u64::MAX {
            Err(Leb128Error::Overflow)
        } else {
            Ok((base128_value(bytes.take(n as int)) as u64, n))
        },
        None => if bytes.len() >= MAX_LEB128_LEN {
            Err(Leb128Error::TooLong)
        } else {
            Err(Leb128Error::Incomplete)
        },
    }
}

/// `128^10`, the bound of ten base-128 digits.
proof fn lemma_pow128_ten()
    ensures
        pow128(10) == 1180591620717411303424nat,
{
    reveal_with_fuel(pow128, 11);
}

/// Appending a byte adds its low seven bits at the next base-128 digit.
proof fn lemma_base128_push(s: Seq<u8>, b: u8)
    ensures
        base128_value(s.push(b)) == base128_value(s) + (b % 128) as nat * pow128(s.len()),
    decreases s.len(),
{
    let low = (b % 128) as nat;
    if s.len() == 0 {
        assert(s.push(b).drop_first() =~= Seq::<u8>::empty());
        assert(base128_value(Seq::<u8>::empty()) == 0);
        assert(base128_value(s.push(b)) == low);
        assert(pow128(0) == 1);
        assert(low * pow128(s.len()) == low);
    } else {
        let rest = s.drop_first();
        assert(s.push(b).drop_first() =~= rest.push(b));
        assert(s.push(b)[0] == s[0]);
        lemma_base128_push(rest, b);
        let p = pow128((s.len() - 1) as nat);
        assert(pow128(s.len()) == 128 * p);
        assert(base128_value(rest.push(b)) == base128_value(rest) + low * p);
        assert(128 * (low * p) == low * (128 * p)) by (nonlinear_arith);
        assert(base128_value(s.push(b)) == (s[0] % 128) as nat + 128 * base128_value(rest.push(b)));
        assert(base128_value(s) == (s[0] % 128) as nat + 128 * base128_value(rest));
        assert(low * pow128(s.len()) == 128 * (low * p));
    }
}

/// A base-128 number with `k` digits is below `128^k`.
proof fn lemma_base128_bound(s: Seq<u8>)
    ensures
        base128_value(s) < pow128(s.len()),
    decreases s.len(),
{
    if s.len() > 0 {
        lemma_base128_bound(s.drop_first());
    }
}

/// Where the first byte with a clear high bit is at index `i`, the number is `i + 1` bytes long.
proof fn lemma_leb128_len_at(bytes: Seq<u8>, i: int)
    requires
        0 <= i < bytes.len(),
        bytes[i] < 128,
        forall|k: int| 0 <= k < i ==> bytes[k] >= 128,
    ensures
        leb128_len(bytes) == Some((i + 1) as nat),
    decreases i,
{
    if i > 0 {
        lemma_leb128_len_at(bytes.drop_first(), i - 1);
    }
}

/// Where the first `i` bytes all have their high bit set, the number is longer than `i` bytes,
/// or does not end.
proof fn lemma_leb128_len_after(bytes: Seq<u8>, i: int)
    requires
        0 <= i <= bytes.len(),
        forall|k: int| 0 <= k < i ==> bytes[k] >= 128,
    ensures
        leb128_len(bytes) matches Some(n) ==> n > i,
        i == bytes.len() ==> leb128_len(bytes) is None,
    decreases i,
{
    if i > 0 {
        lemma_leb128_len_after(bytes.drop_first(), i - 1);
    }
}

proof fn lemma_pow128_mono(a: nat, b: nat)
    requires
        a <= b,
    ensures
        pow128(a) <= pow128(b),
    decreases b,
{
    if a < b {
        lemma_pow128_mono(a, (b - 1) as nat);
    }
}

/// Reads the 64-bit LEB128 number at the start of `bytes`, returning it and the count of bytes
/// it takes.
pub fn decode_leb128(bytes: &[u8]) -> (r: Result<(u64, usize), Leb128Error>)
    ensures
        r matches Ok((_, n)) ==> 1 <= n <= bytes@.len(),
        r == (match leb128_decoded(bytes@) {
            Ok((v, n)) => Ok::<(u64, usize), Leb128Error>((v, n as usize)),
            Err(e) => Err(e),
        }),
{
    let mut acc: u128 = 0;
    let mut mult: u128 = 1;
    let mut i: usize = 0;
    proof {
        lemma_pow128_ten();
    }
    while i < bytes.len() && i < MAX_LEB128_LEN
        invariant
            i <= bytes@.len(),
            i <= MAX_LEB128_LEN,
            forall|k: int| 0 <= k < i ==> bytes@[k] >= 128,
            acc == base128_value(bytes@.take(i as int)),
            mult == pow128(i as nat),
            pow128(10) == 1180591620717411303424nat,
        decreases bytes@.len() - i,
    {
        let b = bytes[i];
        proof {
            assert(bytes@.take(i + 1) =~= bytes@.take(i as int).push(b));
            lemma_base128_push(bytes@.take(i as int), b);
            lemma_base128_bound(bytes@.take(i as int));
            lemma_pow128_mono(i as nat, 9);
            lemma_pow128_mono((i + 1) as nat, 10);
            assert((b % 128) as nat * pow128(i as nat) <= 127 * pow128(9)) by (nonlinear_arith)
                requires
                    (b % 128) as nat <= 127,
                    pow128(i as nat) <= pow128(9),
            ;
        }
        let low: u128 = (b % 128) as u128;
        let v: u128 = acc + low * mult;
        if b < 128 {
            proof {
                lemma_leb128_len_at(bytes@, i as int);
            }
            if v > u64::MAX as u128 {
                return Err(Leb128Error::Overflow);
            }
            return Ok((v as u64, i + 1));
        }
        acc = v;
        mult = mult * 128;
        i = i + 1;
    }
    proof {
        lemma_leb128_len_after(bytes@, i as int);
    }
    if i < MAX_LEB128_LEN {
        Err(Leb128Error::Incomplete)
    } else {
        Err(Leb128Error::TooLong)
    }
}

/// The LEB128 encoding of `v`.
pub fn encode_leb128(v: u64) -> (r: Vec<u8>)
    ensures
        r@ == leb128_bytes(v as nat),
{
    let mut out: Vec<u8> = Vec::new();
    let mut x: u64 = v;
    while x >= 128
        invariant
            out@ + leb128_bytes(x as nat) == leb128_bytes(v as nat),
        decreases x,
    {
        let ghost before = out@;
        out.push((x % 128 + 128) as u8);
        proof {
            assert(before + leb128_bytes(x as nat) == out@ + leb128_bytes((x / 128) as nat));
        }
        x = x / 128;
    }
    let ghost before = out@;
    out.push(x as u8);
    proof {
        assert(before + leb128_bytes(x as nat) =~= out@);
    }
    out
}

/// The encoding of a number below `128^k` takes at most `k` bytes, holds its digits, and ends
/// at its only byte with a clear high bit.
proof fn lemma_leb128_bytes_shape(v: nat, k: nat, rest: Seq<u8>)
    requires
        k >= 1,
        v < pow128(k),
    ensures
        1 <= leb128_bytes(v).len() <= k,
        base128_value(leb128_bytes(v)) == v,
        leb128_len(leb128_bytes(v) + rest) == Some(leb128_bytes(v).len()),
    decreases v,
{
    let s = leb128_bytes(v);
    if v < 128 {
        assert(s.drop_first() =~= Seq::<u8>::empty());
        assert(base128_value(Seq::<u8>::empty()) == 0);
        assert((s + rest)[0] == v as u8);
    } else {
        let p = pow128((k - 1) as nat);
        assert(pow128(k) == 128 * p);
        if k == 1 {
            assert(p == 1);
            assert(false);
        }
        assert(v / 128 < p) by (nonlinear_arith)
            requires
                v < 128 * p,
        ;
        lemma_leb128_bytes_shape(v / 128, (k - 1) as nat, rest);
        assert(s.drop_first() =~= leb128_bytes(v / 128));
        assert((s + rest).drop_first() =~= leb128_bytes(v / 128) + rest);
        assert((s + rest)[0] == s[0]);
        assert(s[0] == (v % 128 + 128) as u8);
        assert(base128_value(s) == (s[0] % 128) as nat + 128 * base128_value(leb128_bytes(v / 128)));
        assert(v == v % 128 + 128 * (v / 128));
    }
}

/// Reading back the encoding of a number, whatever follows it, gives the number and the
/// encoding's length.
pub proof fn lemma_leb128_roundtrip(v: u64, rest: Seq<u8>)
    ensures
        leb128_decoded(leb128_bytes(v as nat) + rest) == Ok::<(u64, nat), Leb128Error>((v, leb128_bytes(v as nat).len())),
{
    lemma_pow128_ten();
    lemma_leb128_bytes_shape(v as nat, 10, rest);
    let s = leb128_bytes(v as nat);
    assert((s + rest).take(s.len() as int) =~= s);
}

/// A packet framed for a byte stream: its length in LEB128, then its bytes.
pub open spec fn framed(payload: Seq<u8>) -> Seq<u8> {
    leb128_bytes(payload.len()) + payload
}

/// Frames a packet for a byte stream: its length in LEB128, then its bytes.
pub fn encode_frame(payload: &[u8]) -> (r: Vec<u8>)
    ensures
        r@ == framed(payload@),
{
    let mut out = encode_leb128(payload.len() as u64);
    let mut i: usize = 0;
    let ghost head = out@;
    while i < payload.len()
        invariant
            i <= payload@.len(),
            out@ == head + payload@.take(i as int),
        decreases payload@.len() - i,
    {
        proof {
            assert(payload@.take(i + 1) =~= payload@.take(i as int).push(payload@[i as int]));
        }
        out.push(payload[i]);
        i = i + 1;
    }
    proof {
        assert(payload@.take(payload@.len() as int) =~= payload@);
    }
    out
}

/// Where the first frame of `buf` lies: `Ok(Some((start, end)))` when its bytes are
/// `buf[start..end]`, `Ok(None)` when more bytes are needed, or the error in its length.
pub open spec fn first_frame(buf: Seq<u8>) -> Result<Option<(nat, nat)>, Leb128Error> {
    match leb128_decoded(buf) {
        Ok((len, n)) => if n + len <= buf.len() {
            Ok(Some((n, n + len as nat)))
        } else {
            Ok(None)
        },
        Err(Leb128Error::Incomplete) => Ok(None),
        Err(e) => Err(e),
    }
}

/// Where the first frame of `buf` lies: `Ok(Some((start, end)))` when its bytes are
/// `buf[start..end]`, `Ok(None)` when more bytes are needed, or the error in its length.
pub fn decode_frame(buf: &[u8]) -> (r: Result<Option<(usize, usize)>, Leb128Error>)
    ensures
        r == (match first_frame(buf@) {
            Ok(Some((s, e))) => Ok::<Option<(usize, usize)>, Leb128Error>(Some((s as usize, e as usize))),
            Ok(None) => Ok(None),
            Err(e) => Err(e),
        }),
{
    match decode_leb128(buf) {
        Ok((len, n)) => {
            if len as u128 <= (buf.len() - n) as u128 {
                Ok(Some((n, n + len as usize)))
            } else {
                Ok(None)
            }
        },
        Err(Leb128Error::Incomplete) => Ok(None),
        Err(e) => Err(e),
    }
}

/// A framed packet, whatever follows it, decodes to exactly that packet's bytes.
pub proof fn lemma_frame_roundtrip(payload: Seq<u8>, rest: Seq<u8>)
    requires
        payload.len() <= u64::MAX,
    ensures
        ({
            let buf = framed(payload) + rest;
            let h = leb128_bytes(payload.len()).len();
            &&& first_frame(buf) == Ok::<Option<(nat, nat)>, Leb128Error>(Some((h, h + payload.len())))
            &&& buf.subrange(h as int, (h + payload.len()) as int) == payload
        }),
{
    let len = payload.len() as u64;
    let h = leb128_bytes(payload.len());
    let buf = framed(payload) + rest;
    assert(buf =~= h + (payload + rest));
    lemma_leb128_roundtrip(len, payload + rest);
    assert(buf.subrange(h.len() as int, (h.len() + payload.len()) as int) =~= payload);
}

/// Error type for a packet stream's send and receive methods.
#[derive(Clone, Copy, Debug, PartialEq, Eq, Structural)]
pub enum PacketSendRecvError {
    /// The stream was already closed at the other end with no way to receive the message or
    /// send a reply.
    StreamClosed,
}

/// What the next entry of a stream's incoming queue is.
pub enum StreamQueueEntry<P> {
    /// A packet.
    Packet(P),
    /// The other side asks for the stream to stop.
    GracefulStop,
    /// Nothing is queued right now.
    Empty,
    /// The other side went away.
    Disconnected,
}

/// What a stream does besides returning the receive result: whether it asks for itself to be
/// closed, and whether it confirms a graceful stop to the other side.
#[derive(Clone, Copy, Debug, PartialEq, Eq, Structural)]
pub struct ReceiveSideEffects {
    /// The stream asks to be closed.
    pub request_close: bool,
    /// The stream confirms the graceful stop.
    pub acknowledge_stop: bool,
}

/// A receive attempt on a stream that is `closed` or not, whose queue holds `entry`: a closed
/// stream fails; otherwise a packet is returned, an empty queue gives nothing, and a stop or a
/// vanished sender closes the stream and fails.
pub fn try_receive<P>(closed: bool, entry: StreamQueueEntry<P>) -> (r: (Result<Option<P>, PacketSendRecvError>, ReceiveSideEffects))
    ensures
        closed ==> r.0 == Err::<Option<P>, PacketSendRecvError>(PacketSendRecvError::StreamClosed) && r.1 == (
        ReceiveSideEffects { request_close: false, acknowledge_stop: false }),
        !closed ==> match entry {
            StreamQueueEntry::Packet(p) => r.0 == Ok::<Option<P>, PacketSendRecvError>(Some(p)) && r.1 == (
            ReceiveSideEffects { request_close: false, acknowledge_stop: false }),
            StreamQueueEntry::GracefulStop => r.0 == Err::<Option<P>, PacketSendRecvError>(PacketSendRecvError::StreamClosed)
                && r.1 == (ReceiveSideEffects { request_close: true, acknowledge_stop: true }),
            StreamQueueEntry::Empty => r.0 == Ok::<Option<P>, PacketSendRecvError>(None) && r.1 == (
            ReceiveSideEffects { request_close: false, acknowledge_stop: false }),
            StreamQueueEntry::Disconnected => r.0 == Err::<Option<P>, PacketSendRecvError>(PacketSendRecvError::StreamClosed)
                && r.1 == (ReceiveSideEffects { request_close: true, acknowledge_stop: false }),
        },
{
    let none = ReceiveSideEffects { request_close: false, acknowledge_stop: false };
    if closed {
        return (Err(PacketSendRecvError::StreamClosed), none);
    }
    match entry {
        StreamQueueEntry::Packet(p) => (Ok(Some(p)), none),
        StreamQueueEntry::GracefulStop => (
            Err(PacketSendRecvError::StreamClosed),
            ReceiveSideEffects { request_close: true, acknowledge_stop: true },
        ),
        StreamQueueEntry::Empty => (Ok(None), none),
        StreamQueueEntry::Disconnected => (
            Err(PacketSendRecvError::StreamClosed),
            ReceiveSideEffects { request_close: true, acknowledge_stop: false },
        ),
    }
}

/// Sends `packet` on a stream that is `closed` or not, whose peer still receives (`peer_alive`)
/// or not, with `outgoing` the packets queued for the peer: a closed stream fails at once and
/// queues nothing; when the peer is gone the packet is dropped, the stream asks to be closed and
/// the send fails; otherwise the packet is queued after all earlier ones. Returns the result and
/// whether the stream asks to be closed.
pub fn send_packet<P>(closed: bool, peer_alive: bool, outgoing: &mut Vec<P>, packet: P) -> (r: (
    Result<(), PacketSendRecvError>,
    bool,
))
    ensures
        closed ==> r == (Err::<(), PacketSendRecvError>(PacketSendRecvError::StreamClosed), false)
            && final(outgoing)@ == old(outgoing)@,
        !closed && !peer_alive ==> r == (Err::<(), PacketSendRecvError>(PacketSendRecvError::StreamClosed), true)
            && final(outgoing)@ == old(outgoing)@,
        !closed && peer_alive ==> r == (Ok::<(), PacketSendRecvError>(()), false) && final(outgoing)@ == old(
            outgoing,
        )@.push(packet),
{
    if closed {
        return (Err(PacketSendRecvError::StreamClosed), false);
    }
    if !peer_alive {
        return (Err(PacketSendRecvError::StreamClosed), true);
    }
    outgoing.push(packet);
    (Ok(()), false)
}

} // verus!
