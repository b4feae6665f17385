//! The decisions of a binary WebSocket client: how its frames are written and masked, how
//! a frame's head is read, and how frames assemble into messages.

use vstd::prelude::*;

use crate::tls::random_bytes;

verus! {

/// The largest message, and so the largest frame, this client accepts.
pub const MAX_MESSAGE: usize = 64 * 1024 * 1024;

pub const OP_CONTINUATION: u8 = 0x0;

pub const OP_TEXT: u8 = 0x1;

pub const OP_BINARY: u8 = 0x2;

pub const OP_CLOSE: u8 = 0x8;

pub const OP_PING: u8 = 0x9;

pub const OP_PONG: u8 = 0xA;

/// Why the socket gave up.
#[derive(Debug, Clone, PartialEq, Eq)]
pub enum WsError {
    /// The server masked a frame, which the protocol forbids.
    ServerMasked,
    /// A frame claims more bytes than a message may hold.
    FrameTooLarge { length: u64 },
    /// The peer closed the connection.
    Closed,
    /// A text frame arrived on a binary protocol socket.
    TextFrame,
    /// A new message started before the previous one finished.
    Interleaved,
    /// A continuation frame arrived with no message in progress.
    StrayContinuation,
    /// The message grew past the size limit.
    MessageTooLarge,
    /// A frame with an opcode the protocol does not define.
    UnknownOpcode(u8),
}

// ---------------------------------------------------------------------------
// Writing frames.
// ---------------------------------------------------------------------------

/// `n` as eight bytes, most significant first.
pub open spec fn be64(n: nat) -> Seq<u8> {
    Seq::new(8, |i: int| ((n / pow256(7 - i)) % 256) as u8)
}

pub open spec fn pow256(k: int) -> nat
    decreases k,
{
    if k <= 0 {
        1
    } else {
        256 * pow256(k - 1)
    }
}

/// The head of a final, masked client frame with `opcode` and a payload of `len` bytes: the
/// length fits in the second byte below 126, takes two more bytes up to 65535, and eight
/// beyond.
pub open spec fn spec_frame_header(opcode: u8, len: nat) -> Seq<u8> {
    seq![0x80u8 | opcode] + if len < 126 {
        seq![(0x80 + len) as u8]
    } else if len <= 0xffff {
        seq![0xfeu8, (len / 256) as u8, (len % 256) as u8]
    } else {
        seq![0xffu8] + be64(len)
    }
}

/// The head of a final, masked client frame with `opcode` and a payload of `len` bytes.
pub fn frame_header(opcode: u8, len: usize) -> (r: Vec<u8>)
    ensures
        r@ == spec_frame_header(opcode, len as nat),
{
    let mut header: Vec<u8> = Vec::new();
    header.push(0x80 | opcode);
    if len < 126 {
        header.push(0x80 + len as u8);
    } else if len <= 0xffff {
        header.push(0xfe);
        header.push((len / 256) as u8);
        header.push((len % 256) as u8);
    } else {
        header.push(0xff);
        let l = len as u64;
        let mut k: u32 = 0;
        let mut div: u64 = 0x100_0000_0000_0000;
        let ghost start = header@;
        proof {
            reveal_with_fuel(pow256, 8);
        }
        assert(be64(l as nat).take(0) =~= Seq::<u8>::empty());
        while k < 8
            invariant
                k <= 8,
                l == len,
                div == pow256(7 - k),
                div > 0,
                header@ == start + be64(l as nat).take(k as int),
            decreases 8 - k,
        {
            header.push(((l / div) % 256) as u8);
            proof {
                assert(be64(l as nat).take(k + 1) =~= be64(l as nat).take(k as int).push(
                    ((l / div) % 256) as u8,
                ));
                if k < 7 {
                    assert(pow256(7 - k) == 256 * pow256(7 - k - 1));
                    lemma_pow256_mono(0, 7 - k - 1);
                }
            }
            if k < 7 {
                div = div / 256;
            }
            k = k + 1;
        }
        assert(be64(l as nat).take(8) =~= be64(l as nat));
    }
    header
}

/// The bytes of `be64(n)` up to `k` write `n` without its last `8 - k` bytes.
proof fn lemma_be64_prefix(n: nat, k: int)
    requires
        0 <= k <= 8,
        n < pow256(8),
    ensures
        be_value(be64(n).take(k)) == n / pow256(8 - k),
    decreases k,
{
    reveal_with_fuel(pow256, 9);
    if k == 0 {
        assert(be64(n).take(0) =~= Seq::<u8>::empty());
        assert(n / pow256(8) == 0) by (nonlinear_arith)
            requires
                n < pow256(8),
                pow256(8) > 0,
        ;
    } else {
        lemma_be64_prefix(n, k - 1);
        let t = be64(n).take(k);
        assert(t.drop_last() =~= be64(n).take(k - 1));
        let d = pow256(8 - k) as int;
        lemma_pow256_mono(0, 8 - k);
        assert(pow256(8 - (k - 1)) == 256 * pow256(8 - k));
        let m = n as int / d;
        assert(t.last() as nat == m % 256);
        assert((n as int) / (d * 256) == m / 256) by {
            vstd::arithmetic::div_mod::lemma_div_denominator(n as int, d, 256);
        }
        assert(d * 256 == 256 * d) by (nonlinear_arith);
        assert((m / 256) * 256 + m % 256 == m) by {
            vstd::arithmetic::div_mod::lemma_fundamental_div_mod(m, 256);
        }
    }
}

/// A client frame's head: the final-frame bit set and the opcode in the low bits of the
/// first byte, the mask bit set in the second, and the payload length in the shortest
/// form that holds it: in the second byte below 126, else in two (126) or eight (127)
/// bytes after it, most significant first.
pub proof fn lemma_frame_header_layout(opcode: u8, len: nat)
    requires
        len < 0x1_0000_0000_0000_0000,
    ensures
        ({
            let h = spec_frame_header(opcode, len);
            &&& h[0] & 0x80 == 0x80
            &&& opcode < 16 ==> h[0] & 0x0f == opcode
            &&& h[1] & 0x80 == 0x80
            &&& len < 126 ==> h.len() == 2 && (h[1] & 0x7f) as nat == len
            &&& 126 <= len <= 0xffff ==> h.len() == 4 && h[1] & 0x7f == 126 && h[2] as nat * 256
                + h[3] as nat == len
            &&& len > 0xffff ==> h.len() == 10 && h[1] & 0x7f == 127 && be_value(
                h.subrange(2, 10),
            ) == len
        }),
{
    let h = spec_frame_header(opcode, len);
    let b0 = 0x80u8 | opcode;
    assert(h[0] == b0);
    assert(b0 & 0x80 == 0x80) by (bit_vector)
        requires
            b0 == 0x80u8 | opcode,
    ;
    assert(opcode < 16 ==> b0 & 0x0f == opcode) by (bit_vector)
        requires
            b0 == 0x80u8 | opcode,
    ;
    if len < 126 {
        let l = len as u8;
        let b1 = (0x80 + len) as u8;
        assert(b1 == 0x80 + l);
        assert(b1 & 0x80 == 0x80 && b1 & 0x7f == l) by (bit_vector)
            requires
                l < 126,
                b1 == 0x80 + l,
        ;
    } else if len <= 0xffff {
        assert(0xfeu8 & 0x80 == 0x80 && 0xfeu8 & 0x7f == 126) by (bit_vector);
        assert(h[2] == (len / 256) as u8 && h[3] == (len % 256) as u8);
    } else {
        assert(0xffu8 & 0x80 == 0x80 && 0xffu8 & 0x7f == 127) by (bit_vector);
        reveal_with_fuel(pow256, 9);
        assert(h.subrange(2, 10) =~= be64(len));
        lemma_be64_prefix(len, 8);
        assert(be64(len).take(8) =~= be64(len));
    }
}

/// `payload` with each byte xored with the mask byte its position selects.
pub open spec fn spec_mask(payload: Seq<u8>, mask: Seq<u8>) -> Seq<u8> {
    Seq::new(payload.len(), |i: int| payload[i] ^ mask[i % 4])
}

/// Masks `payload` with `mask`, as the protocol asks of every client frame.
pub fn apply_mask(payload: &[u8], mask: &[u8; 4]) -> (r: Vec<u8>)
    ensures
        r@ == spec_mask(payload@, mask@),
{
    let mut out: Vec<u8> = Vec::new();
    let mut i: usize = 0;
    while i < payload.len()
        invariant
            i <= payload@.len(),
            out@ =~= spec_mask(payload@, mask@).take(i as int),
        decreases payload@.len() - i,
    {
        out.push(payload[i] ^ mask[i % 4]);
        i = i + 1;
    }
    out
}

/// Masking twice with the same mask gives the payload back, which is how the server reads
/// what the client masked.
pub proof fn lemma_mask_involution(payload: Seq<u8>, mask: Seq<u8>)
    ensures
        spec_mask(spec_mask(payload, mask), mask) == payload,
{
    assert forall|i: int| 0 <= i < payload.len() implies #[trigger] spec_mask(
        spec_mask(payload, mask),
        mask,
    )[i] == payload[i] by {
        let x = payload[i];
        let k = mask[i % 4];
        assert((x ^ k) ^ k == x) by (bit_vector);
    }
    assert(spec_mask(spec_mask(payload, mask), mask) =~= payload);
}

/// A whole client frame: its head, the mask, and the masked payload.
pub open spec fn spec_client_frame(opcode: u8, payload: Seq<u8>, mask: Seq<u8>) -> Seq<u8> {
    spec_frame_header(opcode, payload.len()) + mask + spec_mask(payload, mask)
}

/// The client frame with `opcode` and `payload`, masked with `mask`.
pub fn masked_frame(opcode: u8, payload: &[u8], mask: &[u8; 4]) -> (r: Vec<u8>)
    ensures
        r@ == spec_client_frame(opcode, payload@, mask@),
{
    let mut frame = frame_header(opcode, payload.len());
    crate::wire::fields::push_all(&mut frame, mask);
    let mut masked = apply_mask(payload, mask);
    frame.append(&mut masked);
    assert(frame@ =~= spec_client_frame(opcode, payload@, mask@));
    frame
}

/// A whole client frame with `opcode` and `payload`, masked with fresh random bytes; nothing
/// when no randomness can be had.
pub fn client_frame(opcode: u8, payload: &[u8]) -> (r: Option<Vec<u8>>)
    ensures
        r matches Some(f) ==> exists|mask: Seq<u8>| mask.len() == 4 && f@ == spec_client_frame(
            opcode,
            payload@,
            mask,
        ),
{
    let random = match random_bytes(4) {
        Some(v) => v,
        None => return None,
    };
    let mask: [u8; 4] = [random[0], random[1], random[2], random[3]];
    let frame = masked_frame(opcode, payload, &mask);
    assert(mask@.len() == 4);
    Some(frame)
}

/// The payload of the frame that closes the connection normally: status 1000.
pub fn close_payload() -> (r: [u8; 2])
    ensures
        r@ == seq![3u8, 232u8],
{
    let r: [u8; 2] = [3, 232];
    assert(r@ =~= seq![3u8, 232u8]);
    r
}

// ---------------------------------------------------------------------------
// Reading frames.
// ---------------------------------------------------------------------------

/// What the first two bytes of a frame say.
#[derive(Debug, Clone, Copy, PartialEq, Eq)]
pub struct FrameHead {
    /// The frame ends its message.
    pub fin: bool,
    pub opcode: u8,
    /// The payload is masked.
    pub masked: bool,
    /// The length field of the second byte: the length itself below 126, else which
    /// extended length follows.
    pub short_len: u8,
}

/// Reads the first two bytes of a frame.
pub fn frame_head(b0: u8, b1: u8) -> (r: FrameHead)
    ensures
        r.fin == (b0 & 0x80 != 0),
        r.opcode == b0 & 0x0f,
        r.masked == (b1 & 0x80 != 0),
        r.short_len == b1 & 0x7f,
{
    FrameHead { fin: b0 & 0x80 != 0, opcode: b0 & 0x0f, masked: b1 & 0x80 != 0, short_len: b1 & 0x7f }
}

/// How many bytes of extended length follow a frame's first two.
pub fn extended_length_bytes(head: &FrameHead) -> (r: usize)
    ensures
        r == if head.short_len == 126 {
            2usize
        } else if head.short_len == 127 {
            8usize
        } else {
            0usize
        },
{
    if head.short_len == 126 {
        2
    } else if head.short_len == 127 {
        8
    } else {
        0
    }
}

/// The number the bytes of `b` write, most significant first.
pub open spec fn be_value(b: Seq<u8>) -> nat
    decreases b.len(),
{
    if b.len() == 0 {
        0
    } else {
        be_value(b.drop_last()) * 256 + b.last() as nat
    }
}

/// The payload length a frame's head declares.
pub open spec fn spec_frame_length(head: FrameHead, ext: Seq<u8>) -> nat {
    if head.short_len == 126 || head.short_len == 127 {
        be_value(ext)
    } else {
        head.short_len as nat
    }
}

proof fn lemma_be_value_bound(b: Seq<u8>)
    ensures
        be_value(b) < pow256(b.len() as int),
    decreases b.len(),
{
    if b.len() > 0 {
        lemma_be_value_bound(b.drop_last());
        assert(pow256(b.len() as int) == 256 * pow256(b.len() - 1));
    }
}

proof fn lemma_be_value_step(b: Seq<u8>, k: int)
    requires
        0 <= k < b.len(),
    ensures
        be_value(b.take(k + 1)) == be_value(b.take(k)) * 256 + b[k] as nat,
{
    assert(b.take(k + 1).drop_last() =~= b.take(k));
}

/// The payload length a frame's head declares: the second byte's length field below 126,
/// else the two (126) or eight (127) bytes after the first two, most significant first.
pub proof fn lemma_frame_length_layout(head: FrameHead, ext: Seq<u8>)
    ensures
        head.short_len < 126 ==> spec_frame_length(head, ext) == head.short_len as nat,
        head.short_len == 126 && ext.len() == 2 ==> spec_frame_length(head, ext) == ext[0] as nat
            * 256 + ext[1] as nat,
        head.short_len == 127 && ext.len() == 8 ==> spec_frame_length(head, ext) == ((((((
        ext[0] as nat * 256 + ext[1] as nat) * 256 + ext[2] as nat) * 256 + ext[3] as nat) * 256
            + ext[4] as nat) * 256 + ext[5] as nat) * 256 + ext[6] as nat) * 256 + ext[7] as nat,
{
    if ext.len() == 2 || ext.len() == 8 {
        assert(ext.take(0) =~= Seq::<u8>::empty());
        lemma_be_value_step(ext, 0);
        lemma_be_value_step(ext, 1);
        if ext.len() == 8 {
            lemma_be_value_step(ext, 2);
            lemma_be_value_step(ext, 3);
            lemma_be_value_step(ext, 4);
            lemma_be_value_step(ext, 5);
            lemma_be_value_step(ext, 6);
            lemma_be_value_step(ext, 7);
        }
        assert(ext.take(ext.len() as int) =~= ext);
    }
}

/// The payload length a frame's head declares, refusing a masked frame and one longer
/// than a message may be.
pub fn frame_length(head: &FrameHead, ext: &[u8]) -> (r: Result<usize, WsError>)
    requires
        ext@.len() == if head.short_len == 126 {
            2nat
        } else if head.short_len == 127 {
            8nat
        } else {
            0nat
        },
    ensures
        if head.masked {
            r == Err::<usize, WsError>(WsError::ServerMasked)
        } else if spec_frame_length(*head, ext@) > MAX_MESSAGE as nat {
            r == Err::<usize, WsError>(
                WsError::FrameTooLarge { length: spec_frame_length(*head, ext@) as u64 },
            )
        } else {
            r == Ok::<usize, WsError>(spec_frame_length(*head, ext@) as usize)
        },
{
    if head.masked {
        return Err(WsError::ServerMasked);
    }
    let mut value: u64 = 0;
    if head.short_len == 126 || head.short_len == 127 {
        let mut i: usize = 0;
        proof {
            lemma_be_value_bound(ext@);
            assert(pow256(0) == 1);
        }
        assert(ext@.take(0) =~= Seq::<u8>::empty());
        while i < ext.len()
            invariant
                i <= ext@.len() <= 8,
                value == be_value(ext@.take(i as int)),
                value < pow256(i as int),
            decreases ext@.len() - i,
        {
            assert(ext@.take(i + 1).drop_last() =~= ext@.take(i as int));
            proof {
                assert(pow256(i + 1) == 256 * pow256(i as int));
                reveal_with_fuel(pow256, 9);
                assert(pow256(8) == 0x1_0000_0000_0000_0000);
                lemma_pow256_mono(i + 1, 8);
            }
            value = value * 256 + ext[i] as u64;
            i = i + 1;
        }
        assert(ext@.take(i as int) =~= ext@);
    } else {
        value = head.short_len as u64;
    }
    if value > MAX_MESSAGE as u64 {
        return Err(WsError::FrameTooLarge { length: value });
    }
    Ok(value as usize)
}

proof fn lemma_pow256_mono(a: int, b: int)
    requires
        0 <= a <= b,
    ensures
        pow256(a) <= pow256(b),
    decreases b - a,
{
    if a < b {
        lemma_pow256_mono(a, b - 1);
        assert(pow256(b) == 256 * pow256(b - 1));
    }
}

// ---------------------------------------------------------------------------
// Assembling messages.
// ---------------------------------------------------------------------------

/// What to do with a frame that arrived.
#[derive(Debug, Clone, PartialEq, Eq)]
pub enum Reaction {
    /// Answer a ping with a pong that carries its payload, and read on.
    Pong(Vec<u8>),
    /// Read on.
    ReadOn,
    /// The peer closed: send a close frame back and give up.
    Close,
    /// Give up.
    Fail(WsError),
    /// A whole message.
    Deliver(Vec<u8>),
}

/// A message in the making.
pub struct Assembler {
    pub assembled: Vec<u8>,
    /// A message has begun and not yet ended.
    pub assembling: bool,
}

impl Assembler {
    /// Nothing assembled yet.
    pub fn new() -> (r: Self)
        ensures
            r.assembled@ == Seq::<u8>::empty(),
            !r.assembling,
    {
        Assembler { assembled: Vec::new(), assembling: false }
    }

    /// What a frame with `fin`, `opcode` and `payload` does to the message in the making.
    pub fn on_frame(&mut self, fin: bool, opcode: u8, payload: Vec<u8>) -> (r: Reaction)
        requires
            old(self).assembled@.len() <= MAX_MESSAGE,
        ensures
            final(self).assembled@.len() <= MAX_MESSAGE,
            opcode == OP_PING ==> r == Reaction::Pong(payload) && *final(self) == *old(self),
            opcode == OP_PONG ==> r == Reaction::ReadOn && *final(self) == *old(self),
            opcode == OP_CLOSE ==> r == Reaction::Close,
            opcode == OP_TEXT ==> r == Reaction::Fail(WsError::TextFrame),
            opcode == OP_BINARY && old(self).assembling ==> r == Reaction::Fail(
                WsError::Interleaved,
            ),
            opcode == OP_CONTINUATION && !old(self).assembling ==> r == Reaction::Fail(
                WsError::StrayContinuation,
            ),
            (opcode == OP_BINARY && !old(self).assembling) || (opcode == OP_CONTINUATION
                && old(self).assembling) ==> if old(self).assembled@.len() + payload@.len()
                > MAX_MESSAGE {
                r == Reaction::Fail(WsError::MessageTooLarge)
            } else if fin {
                r matches Reaction::Deliver(m) && m@ == old(self).assembled@ + payload@
                    && final(self).assembled@ == Seq::<u8>::empty() && !final(self).assembling
            } else {
                r == Reaction::ReadOn && final(self).assembled@ == old(self).assembled@
                    + payload@ && final(self).assembling
            },
            opcode != OP_PING && opcode != OP_PONG && opcode != OP_CLOSE && opcode != OP_TEXT
                && opcode != OP_BINARY && opcode != OP_CONTINUATION ==> r == Reaction::Fail(
                WsError::UnknownOpcode(opcode),
            ),
    {
        if opcode == OP_PING {
            return Reaction::Pong(payload);
        }
        if opcode == OP_PONG {
            return Reaction::ReadOn;
        }
        if opcode == OP_CLOSE {
            return Reaction::Close;
        }
        if opcode == OP_TEXT {
            return Reaction::Fail(WsError::TextFrame);
        }
        if opcode == OP_BINARY || opcode == OP_CONTINUATION {
            if opcode == OP_BINARY && self.assembling {
                return Reaction::Fail(WsError::Interleaved);
            }
            if opcode == OP_CONTINUATION && !self.assembling {
                return Reaction::Fail(WsError::StrayContinuation);
            }
            let have = self.assembled.len();
            if payload.len() > MAX_MESSAGE - have {
                return Reaction::Fail(WsError::MessageTooLarge);
            }
            let mut payload = payload;
            self.assembled.append(&mut payload);
            if fin {
                let mut done: Vec<u8> = Vec::new();
                std::mem::swap(&mut done, &mut self.assembled);
                self.assembling = false;
                return Reaction::Deliver(done);
            }
            self.assembling = true;
            return Reaction::ReadOn;
        }
        Reaction::Fail(WsError::UnknownOpcode(opcode))
    }
}

} // verus!
