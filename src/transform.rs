use vstd::prelude::*;

verus! {

/// Size of the receive buffer of each forwarding loop, 65 KiB: larger than any UDP datagram.
pub const BUFFER_SIZE: usize = 66560;

/// Direction of the header transform.
#[derive(Clone, Copy, Debug, PartialEq, Eq, Structural)]
pub enum Mode {
    /// Received bytes are a payload; a header of `prefix_size` bytes is put in front.
    Encode,
    /// Received bytes carry a header of `prefix_size` bytes, which is stripped.
    Decode,
}

/// A mode name that is neither `encode` nor `decode`, in any ASCII case.
#[derive(Clone, Copy, Debug, PartialEq, Eq, Structural)]
pub struct InvalidMode;

/// ASCII lower case of one character; other characters stay as they are.
pub open spec fn ascii_lower(c: char) -> char {
    if 'A' <= c && c <= 'Z' {
        ((c as u32) + 32) as char
    } else {
        c
    }
}

/// `s` equals the lower-case word `w` once ASCII letters are lowered.
pub open spec fn equals_ignoring_ascii_case(s: Seq<char>, w: Seq<char>) -> bool {
    &&& s.len() == w.len()
    &&& forall|i: int| 0 <= i < s.len() ==> #[trigger] ascii_lower(s[i]) == w[i]
}

pub open spec fn encode_word() -> Seq<char> {
    seq!['e', 'n', 'c', 'o', 'd', 'e']
}

pub open spec fn decode_word() -> Seq<char> {
    seq!['d', 'e', 'c', 'o', 'd', 'e']
}

/// The mode that a name denotes, if any.
pub open spec fn mode_of_name(s: Seq<char>) -> Option<Mode> {
    if equals_ignoring_ascii_case(s, encode_word()) {
        Some(Mode::Encode)
    } else if equals_ignoring_ascii_case(s, decode_word()) {
        Some(Mode::Decode)
    } else {
        None
    }
}

/// The code of the ASCII lower case of `c`.
fn lower_code(c: char) -> (r: u32)
    ensures
        r == ascii_lower(c) as u32,
{
    if 'A' <= c && c <= 'Z' {
        (c as u32) + 32
    } else {
        c as u32
    }
}

/// Whether `s` is the six-letter word `w0 .. w5` once ASCII letters are lowered.
fn matches_word(s: &str, w0: char, w1: char, w2: char, w3: char, w4: char, w5: char) -> (r: bool)
    ensures
        r == equals_ignoring_ascii_case(s@, seq![w0, w1, w2, w3, w4, w5]),
{
    let n = s.unicode_len();
    if n != 6 {
        return false;
    }
    let word = [w0, w1, w2, w3, w4, w5];
    let ghost w = seq![w0, w1, w2, w3, w4, w5];
    assert(word@ =~= w);
    let mut i: usize = 0;
    while i < 6
        invariant
            i <= 6,
            s@.len() == 6,
            word@ == w,
            w == seq![w0, w1, w2, w3, w4, w5],
            forall|k: int| 0 <= k < i ==> #[trigger] ascii_lower(s@[k]) == w[k],
        decreases 6 - i,
    {
        if lower_code(s.get_char(i)) != word[i] as u32 {
            assert(ascii_lower(s@[i as int]) != w[i as int]);
            return false;
        }
        i += 1;
    }
    true
}

impl Mode {
    /// The offsets of a mode: where received bytes land in the buffer, and
    /// where the slice that is sent on begins.
    pub open spec fn offsets(self, prefix_size: nat) -> (nat, nat) {
        match self {
            Mode::Encode => (prefix_size, 0),
            Mode::Decode => (0, prefix_size),
        }
    }

    pub open spec fn opposite(self) -> Mode {
        match self {
            Mode::Encode => Mode::Decode,
            Mode::Decode => Mode::Encode,
        }
    }

    /// Receive offset and send offset for this mode.
    pub fn build_begin_position(&self, prepend_size: usize) -> (r: (usize, usize))
        ensures
            (r.0 as nat, r.1 as nat) == self.offsets(prepend_size as nat),
    {
        match self {
            Mode::Encode => (prepend_size, 0),
            Mode::Decode => (0, prepend_size),
        }
    }

    /// The mode of the opposite direction.
    pub fn reverse(&self) -> (r: Mode)
        ensures
            r == self.opposite(),
    {
        match self {
            Mode::Decode => Mode::Encode,
            Mode::Encode => Mode::Decode,
        }
    }

    /// Reads a mode name, `encode` or `decode`, in any ASCII case.
    pub fn parse(s: &str) -> (r: Result<Mode, InvalidMode>)
        ensures
            r == (match mode_of_name(s@) {
                Some(m) => Ok::<Mode, InvalidMode>(m),
                None => Err(InvalidMode),
            }),
    {
        if matches_word(s, 'e', 'n', 'c', 'o', 'd', 'e') {
            Ok(Mode::Encode)
        } else if matches_word(s, 'd', 'e', 'c', 'o', 'd', 'e') {
            Ok(Mode::Decode)
        } else {
            Err(InvalidMode)
        }
    }
}

/// The buffer after the header region `[0, recv_pos)` has been filled, one
/// position after another from the first, by `buf[i] = buf[recv_pos + len - i - 1]`.
///
/// Where the source position `j` of position `i` is not before `i`, it still
/// holds its original byte. Where it is before `i`, it was itself filled from
/// position `i`, so position `i` keeps its original byte.
pub open spec fn header_filled(buf: Seq<u8>, recv_pos: int, len: int) -> Seq<u8> {
    Seq::new(
        buf.len(),
        |i: int|
            if i < recv_pos && recv_pos + len - i - 1 >= i {
                buf[recv_pos + len - i - 1]
            } else {
                buf[i]
            },
    )
}

/// The buffer after `payload` has been received into it at `recv_pos`.
pub open spec fn received(buf: Seq<u8>, recv_pos: int, payload: Seq<u8>) -> Seq<u8> {
    buf.subrange(0, recv_pos) + payload + buf.subrange(recv_pos + payload.len(), buf.len() as int)
}

/// What a forwarding loop in `mode` sends on when `payload` arrives in `buf`:
/// nothing when the datagram is too short to hold the header to strip.
pub open spec fn outgoing(mode: Mode, prefix_size: nat, buf: Seq<u8>, payload: Seq<u8>) -> Option<Seq<u8>> {
    let (r, s) = mode.offsets(prefix_size);
    if r + payload.len() < s {
        None
    } else {
        Some(header_filled(received(buf, r as int, payload), r as int, payload.len() as int).subrange(
            s as int,
            (r + payload.len()) as int,
        ))
    }
}

/// A zeroed receive buffer of `BUFFER_SIZE` bytes.
pub fn new_buffer() -> (r: Vec<u8>)
    ensures
        r@.len() == BUFFER_SIZE,
        forall|i: int| 0 <= i < BUFFER_SIZE ==> #[trigger] r@[i] == 0,
{
    let mut buf: Vec<u8> = Vec::new();
    while buf.len() < BUFFER_SIZE
        invariant
            buf@.len() <= BUFFER_SIZE,
            forall|i: int| 0 <= i < buf@.len() ==> #[trigger] buf@[i] == 0,
        decreases BUFFER_SIZE - buf@.len(),
    {
        buf.push(0);
    }
    buf
}

/// Fills the header region `[0, recv_pos)` from the last bytes of the
/// `len` bytes received at `recv_pos`, in reverse order.
pub fn fill_header(buf: &mut Vec<u8>, recv_pos: usize, len: usize)
    requires
        recv_pos + len <= old(buf)@.len(),
    ensures
        final(buf)@ == header_filled(old(buf)@, recv_pos as int, len as int),
{
    let ghost orig = buf@;
    let total = buf.len();
    let mut i: usize = 0;
    while i < recv_pos
        invariant
            i <= recv_pos,
            recv_pos + len <= total,
            total == orig.len(),
            buf@.len() == orig.len(),
            forall|k: int| 0 <= k < i ==> #[trigger] buf@[k] == header_filled(orig, recv_pos as int, len as int)[k],
            forall|k: int| i <= k < orig.len() ==> #[trigger] buf@[k] == orig[k],
        decreases recv_pos - i,
    {
        let j = recv_pos + len - i - 1;
        let b = buf[j];
        proof {
            let f = header_filled(orig, recv_pos as int, len as int);
            if j < i {
                assert(buf@[j as int] == f[j as int]);
            }
            assert(b == f[i as int]);
        }
        buf.set(i, b);
        i += 1;
    }
    assert(buf@ =~= header_filled(orig, recv_pos as int, len as int));
}

impl Mode {
    /// Transforms the `len` bytes just received at this mode's receive offset:
    /// fills the header region and gives the range of the buffer to send on.
    /// A datagram too short to hold the header to strip is refused, and the
    /// buffer is left as it was. What the range then holds is what
    /// `outgoing` says this mode sends for the bytes that were received.
    pub fn apply(&self, prefix_size: usize, buf: &mut Vec<u8>, len: usize) -> (r: Option<(usize, usize)>)
        requires
            self.offsets(prefix_size as nat).0 + len <= old(buf)@.len(),
        ensures
            ({
                let (rp, sp) = self.offsets(prefix_size as nat);
                match r {
                    None => rp + len < sp && final(buf)@ == old(buf)@,
                    Some((start, end)) => {
                        &&& sp <= rp + len
                        &&& start == sp
                        &&& end == rp + len
                        &&& final(buf)@ == header_filled(old(buf)@, rp as int, len as int)
                    },
                }
            }),
            ({
                let rp = self.offsets(prefix_size as nat).0;
                let sent = outgoing(*self, prefix_size as nat, old(buf)@, old(buf)@.subrange(rp as int, rp + len));
                match r {
                    None => sent is None,
                    Some((start, end)) => sent == Some(final(buf)@.subrange(start as int, end as int)),
                }
            }),
    {
        let (recv_pos, send_pos) = self.build_begin_position(prefix_size);
        proof {
            let b = buf@;
            let rp = recv_pos as int;
            assert(received(b, rp, b.subrange(rp, rp + len)) =~= b);
        }
        // the buffer's length bounds the end of the received bytes
        let buffer_len = buf.len();
        assert(recv_pos + len <= buffer_len);
        if recv_pos + len < send_pos {
            return None;
        }
        fill_header(buf, recv_pos, len);
        Some((send_pos, recv_pos + len))
    }
}

impl std::str::FromStr for Mode {
    type Err = InvalidMode;

    fn from_str(s: &str) -> (r: Result<Mode, InvalidMode>)
        ensures
            r == (match mode_of_name(s@) {
                Some(m) => Ok::<Mode, InvalidMode>(m),
                None => Err(InvalidMode),
            }),
    {
        Mode::parse(s)
    }
}

/// Encoding a payload and decoding what was sent gives the payload back,
/// whatever the two buffers held before.
pub proof fn lemma_encode_then_decode(prefix_size: nat, enc_buf: Seq<u8>, dec_buf: Seq<u8>, payload: Seq<u8>)
    requires
        prefix_size + payload.len() <= enc_buf.len(),
        prefix_size + payload.len() <= dec_buf.len(),
    ensures
        outgoing(Mode::Encode, prefix_size, enc_buf, payload) is Some,
        outgoing(Mode::Decode, prefix_size, dec_buf, outgoing(Mode::Encode, prefix_size, enc_buf, payload)->0)
            == Some(payload),
{
    let p = prefix_size as int;
    let n = payload.len() as int;
    let wire = outgoing(Mode::Encode, prefix_size, enc_buf, payload)->0;
    let rec = received(enc_buf, p, payload);
    assert(wire.len() == p + n);
    assert forall|i: int| 0 <= i < n implies wire[p + i] == payload[i] by {
        assert(rec[p + i] == payload[i]);
    }
    let back = outgoing(Mode::Decode, prefix_size, dec_buf, wire)->0;
    let rec2 = received(dec_buf, 0, wire);
    assert forall|i: int| 0 <= i < n implies back[i] == payload[i] by {
        assert(rec2[p + i] == wire[p + i]);
    }
    assert(back =~= payload);
}

/// Decoding a datagram that holds at least a header and encoding what was
/// sent reproduces the datagram beyond the header region.
pub proof fn lemma_decode_then_encode(prefix_size: nat, dec_buf: Seq<u8>, enc_buf: Seq<u8>, datagram: Seq<u8>)
    requires
        prefix_size <= datagram.len(),
        datagram.len() <= dec_buf.len(),
        datagram.len() <= enc_buf.len(),
    ensures
        outgoing(Mode::Decode, prefix_size, dec_buf, datagram) is Some,
        ({
            let stripped = outgoing(Mode::Decode, prefix_size, dec_buf, datagram)->0;
            let wire = outgoing(Mode::Encode, prefix_size, enc_buf, stripped)->0;
            &&& wire.len() == datagram.len()
            &&& wire.subrange(prefix_size as int, datagram.len() as int)
                == datagram.subrange(prefix_size as int, datagram.len() as int)
        }),
{
    let p = prefix_size as int;
    let n = datagram.len() as int;
    let stripped = outgoing(Mode::Decode, prefix_size, dec_buf, datagram)->0;
    let rec = received(dec_buf, 0, datagram);
    assert forall|i: int| 0 <= i < n - p implies stripped[i] == datagram[p + i] by {
        assert(rec[p + i] == datagram[p + i]);
    }
    let wire = outgoing(Mode::Encode, prefix_size, enc_buf, stripped)->0;
    let rec2 = received(enc_buf, p, stripped);
    assert forall|i: int| p <= i < n implies wire[i] == datagram[i] by {
        assert(rec2[i] == stripped[i - p]);
    }
    assert(wire.subrange(p, n) =~= datagram.subrange(p, n));
}

} // verus!
