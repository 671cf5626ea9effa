//! Datagrams of the station: header, encryption, acknowledgement.
//!
//! On the wire a datagram is a header of nine bytes, the ciphertext and a tag
//! of sixteen bytes, under AES-128-GCM. The header is in the clear and wholly
//! part of the associated data, so the tag rejects any change of it.
//!
//! - Byte 0: bits 7 to 4 are the version, bit 3 the direction (0: station to
//!   server), bit 0 asks for an acknowledgement (station to server only). Any
//!   other bit makes the header bad.
//! - Station to server: boot id and datagram number, both big-endian.
//! - Server to station: server salt and acknowledgement number.
//!
//! The nonce is the direction, the id and the counter of the header itself: it
//! does not depend on what came before, so loss, reordering and duplication do
//! not disturb decryption.

use vstd::prelude::*;

use crate::bytes;
use crate::crypto;
use crate::crypto::Cipher;
use crate::recv_window::RecvWindow;

verus! {

/// Format version, in the high half of byte 0.
pub const VERSION: u8 = 1;

/// Longest datagram, as UDP payload: 1200 bytes of IP, so that it is never
/// fragmented.
pub const MAX_DATAGRAM: usize = 1172;

/// Headers of IPv4 and UDP, for traffic accounting.
pub const IP_UDP_OVERHEAD: usize = 28;

/// Length of the header.
pub const HEADER_LEN: usize = 9;

/// Length of the tag.
pub const TAG_LEN: usize = 16;

/// How much plaintext one datagram holds.
pub const PLAIN_CAPACITY: usize = 1147;

/// Buffer of one datagram.
pub type DatagramBuf = [u8; MAX_DATAGRAM];

/// First byte of a datagram from the station that asks for no acknowledgement.
pub const UP: u8 = 0x10;

/// First byte of a datagram from the station that asks for one.
pub const UP_ACK_REQ: u8 = 0x11;

/// First byte of a datagram from the server.
pub const DOWN: u8 = 0x18;

/// The direction bit of byte 0.
pub const DOWN_BIT: u8 = 0x08;

/// Identifier of one boot of the station, random on each boot.
#[derive(Clone, Copy, PartialEq, Eq, Structural, PartialOrd, Ord, Hash, Debug)]
pub struct BootId(pub u32);

/// Number of a datagram within a boot. It grows on every datagram, also on one
/// that sends the same readings again.
#[derive(Clone, Copy, PartialEq, Eq, Structural, PartialOrd, Ord, Hash, Debug)]
pub struct SeqNo(pub u32);

impl SeqNo {
    /// The first number of a boot.
    pub fn first() -> (s: SeqNo)
        ensures
            s.0 == 1,
    {
        SeqNo(1)
    }

    /// The number after this one.
    pub fn next(self) -> (s: SeqNo)
        requires
            self.0 < u32::MAX,
        ensures
            s.0 == self.0 + 1,
    {
        SeqNo(self.0 + 1)
    }
}

/// Random salt of a server process: half of the nonces of its acknowledgements.
#[derive(Clone, Copy, PartialEq, Eq, Structural, PartialOrd, Ord, Hash, Debug)]
pub struct ServerSalt(pub u32);

/// Number of an acknowledgement within a server process.
#[derive(Clone, Copy, PartialEq, Eq, Structural, PartialOrd, Ord, Hash, Debug)]
pub struct AckSeq(pub u32);

impl AckSeq {
    /// The first number of a process.
    pub fn first() -> (s: AckSeq)
        ensures
            s.0 == 1,
    {
        AckSeq(1)
    }

    /// The number after this one.
    pub fn next(self) -> (s: AckSeq)
        requires
            self.0 < u32::MAX,
        ensures
            s.0 == self.0 + 1,
    {
        AckSeq(self.0 + 1)
    }
}

/// For how many seconds the station is to stay in live mode; zero: not at all.
#[derive(Clone, Copy, PartialEq, Eq, Structural, PartialOrd, Ord, Hash, Debug)]
pub struct LiveSecs(pub u16);

impl LiveSecs {
    /// No live mode.
    pub fn off() -> (s: LiveSecs)
        ensures
            s.0 == 0,
    {
        LiveSecs(0)
    }
}

/// Header of a datagram from the station.
#[derive(Clone, Copy, PartialEq, Eq, Structural, Debug)]
pub struct UpHeader {
    pub boot: BootId,
    pub seq: SeqNo,
    /// The station waits for an acknowledgement of this datagram.
    pub ack_req: bool,
}

/// Header of a datagram from the server.
#[derive(Clone, Copy, PartialEq, Eq, Structural, Debug)]
pub struct DownHeader {
    pub salt: ServerSalt,
    pub ack_seq: AckSeq,
}

/// Header of a datagram.
#[derive(Clone, Copy, PartialEq, Eq, Structural, Debug)]
pub enum Header {
    Up(UpHeader),
    Down(DownHeader),
}

/// Why a datagram is refused.
#[derive(Clone, Copy, PartialEq, Eq, Structural, Debug)]
pub enum DatagramError {
    /// Shorter than header and tag, or longer than [`MAX_DATAGRAM`].
    Length(usize),
    /// Foreign version, or reserved bits of byte 0 are set.
    BadHeader(u8),
    /// The datagram goes the other way.
    WrongDirection,
    /// The tag does not match: foreign key, changed header or damaged data.
    Decrypt,
    /// Decrypted, but not as long as an acknowledgement.
    AckLength(usize),
}

impl Header {
    /// Byte 0.
    pub open spec fn first_byte(self) -> u8 {
        match self {
            Header::Up(h) => if h.ack_req {
                UP_ACK_REQ
            } else {
                UP
            },
            Header::Down(_) => DOWN,
        }
    }

    /// Does the datagram come from the server.
    pub open spec fn is_down(self) -> bool {
        self is Down
    }

    /// Second part of the nonce.
    pub open spec fn id(self) -> u32 {
        match self {
            Header::Up(h) => h.boot.0,
            Header::Down(h) => h.salt.0,
        }
    }

    /// Third part of the nonce.
    pub open spec fn counter(self) -> u32 {
        match self {
            Header::Up(h) => h.seq.0,
            Header::Down(h) => h.ack_seq.0,
        }
    }

    /// The header on the wire.
    pub open spec fn bytes(self) -> Seq<u8> {
        seq![self.first_byte()] + bytes::be32(self.id()) + bytes::be32(self.counter())
    }

    /// The nonce: direction, id, counter.
    pub open spec fn nonce_bytes(self) -> Seq<u8> {
        seq![
            if self.is_down() {
                DOWN_BIT
            } else {
                0u8
            },
            0u8,
            0u8,
            0u8,
        ] + bytes::be32(self.id()) + bytes::be32(self.counter())
    }

    fn b0(&self) -> (b: u8)
        ensures
            b == self.first_byte(),
    {
        match self {
            Header::Up(h) => if h.ack_req {
                UP_ACK_REQ
            } else {
                UP
            },
            Header::Down(_) => DOWN,
        }
    }

    fn id_counter(&self) -> (r: (u32, u32))
        ensures
            r == (self.id(), self.counter()),
    {
        match self {
            Header::Up(h) => (h.boot.0, h.seq.0),
            Header::Down(h) => (h.salt.0, h.ack_seq.0),
        }
    }

    fn to_bytes(self) -> (b: [u8; HEADER_LEN])
        ensures
            b@ == self.bytes(),
    {
        let (id, counter) = self.id_counter();
        let i = bytes::be32_bytes(id);
        let c = bytes::be32_bytes(counter);
        let b = [self.b0(), i[0], i[1], i[2], i[3], c[0], c[1], c[2], c[3]];
        assert(b@ =~= self.bytes());
        b
    }

    /// The nonce of a datagram with this header.
    pub fn nonce(&self) -> (n: [u8; crypto::NONCE_LEN])
        ensures
            n@ == self.nonce_bytes(),
    {
        let (id, counter) = self.id_counter();
        let i = bytes::be32_bytes(id);
        let c = bytes::be32_bytes(counter);
        let direction: u8 = match self {
            Header::Up(_) => 0,
            Header::Down(_) => DOWN_BIT,
        };
        let n = [direction, 0, 0, 0, i[0], i[1], i[2], i[3], c[0], c[1], c[2], c[3]];
        assert(n@ =~= self.nonce_bytes());
        n
    }
}

/// Two headers share a nonce exactly if direction, id and counter are the same:
/// an acknowledgement never shares one with a datagram of the station, nor do
/// two datagrams with different numbers. Whether an acknowledgement is asked for
/// plays no part.
pub proof fn nonces_are_distinct(a: Header, b: Header)
    ensures
        a.nonce_bytes() == b.nonce_bytes() <==> a.is_down() == b.is_down() && a.id() == b.id() && a.counter()
            == b.counter(),
        a.nonce_bytes().len() == crypto::NONCE_LEN,
{
    let m = a.nonce_bytes();
    let n = b.nonce_bytes();
    assert(m.subrange(4, 8) =~= bytes::be32(a.id()));
    assert(n.subrange(4, 8) =~= bytes::be32(b.id()));
    assert(m.subrange(8, 12) =~= bytes::be32(a.counter()));
    assert(n.subrange(8, 12) =~= bytes::be32(b.counter()));
    if m == n {
        assert(m[0] == n[0]);
        bytes::be32_injective(a.id(), b.id());
        bytes::be32_injective(a.counter(), b.counter());
    }
}

/// The header that a datagram starts with.
pub open spec fn header_of(dg: Seq<u8>) -> Result<Header, DatagramError> {
    if !(HEADER_LEN + TAG_LEN <= dg.len() <= MAX_DATAGRAM) {
        Err(DatagramError::Length(dg.len() as usize))
    } else if dg[0] == UP || dg[0] == UP_ACK_REQ {
        Ok(
            Header::Up(
                UpHeader {
                    boot: BootId(bytes::be32_at(dg, 1)),
                    seq: SeqNo(bytes::be32_at(dg, 5)),
                    ack_req: dg[0] == UP_ACK_REQ,
                },
            ),
        )
    } else if dg[0] == DOWN {
        Ok(
            Header::Down(
                DownHeader { salt: ServerSalt(bytes::be32_at(dg, 1)), ack_seq: AckSeq(bytes::be32_at(dg, 5)) },
            ),
        )
    } else {
        Err(DatagramError::BadHeader(dg[0]))
    }
}

/// A datagram of the right length parses to the header it starts with, and
/// only to that one.
pub proof fn header_roundtrip(h: Header, dg: Seq<u8>)
    requires
        HEADER_LEN + TAG_LEN <= dg.len() <= MAX_DATAGRAM,
    ensures
        header_of(dg) == Ok::<Header, DatagramError>(h) <==> dg.take(HEADER_LEN as int) == h.bytes(),
{
    let head = dg.take(HEADER_LEN as int);
    bytes::be32_at_roundtrip(dg, 1);
    bytes::be32_at_roundtrip(dg, 5);
    if header_of(dg) == Ok::<Header, DatagramError>(h) {
        assert(dg.subrange(1, 5) =~= head.subrange(1, 5));
        assert(dg.subrange(5, 9) =~= head.subrange(5, 9));
        assert(head =~= seq![dg[0]] + dg.subrange(1, 5) + dg.subrange(5, 9));
    }
    if head == h.bytes() {
        assert(head[0] == dg[0] && head[0] == h.first_byte());
        assert(dg.subrange(1, 5) =~= head.subrange(1, 5));
        assert(head.subrange(1, 5) =~= bytes::be32(h.id()));
        assert(dg.subrange(5, 9) =~= head.subrange(5, 9));
        assert(head.subrange(5, 9) =~= bytes::be32(h.counter()));
        bytes::be32_injective(h.id(), bytes::be32_at(dg, 1));
        bytes::be32_injective(h.counter(), bytes::be32_at(dg, 5));
    }
}

/// Byte 0 of a good header: the version, the direction bit, and the request
/// for an acknowledgement on the way up alone.
pub proof fn first_byte_layout(h: Header)
    ensures
        h.first_byte() == VERSION * 16 + match h {
            Header::Up(u) => if u.ack_req {
                1int
            } else {
                0
            },
            Header::Down(_) => DOWN_BIT as int,
        },
{
}

/// A datagram whose byte 0 is not that of a header is refused, and refused
/// with that byte.
pub proof fn bad_first_byte(dg: Seq<u8>)
    requires
        HEADER_LEN + TAG_LEN <= dg.len() <= MAX_DATAGRAM,
    ensures
        header_of(dg) == Err::<Header, DatagramError>(DatagramError::BadHeader(dg[0])) <==> forall|h: Header| #[trigger]
            h.first_byte() != dg[0],
        header_of(dg) is Err <==> header_of(dg) == Err::<Header, DatagramError>(DatagramError::BadHeader(dg[0])),
{
    let up = Header::Up(UpHeader { boot: BootId(0), seq: SeqNo(0), ack_req: false });
    let up_req = Header::Up(UpHeader { boot: BootId(0), seq: SeqNo(0), ack_req: true });
    let down = Header::Down(DownHeader { salt: ServerSalt(0), ack_seq: AckSeq(0) });
    assert(up.first_byte() == UP);
    assert(up_req.first_byte() == UP_ACK_REQ);
    assert(down.first_byte() == DOWN);
}

/// A datagram of a length that no datagram has is refused with that length.
pub proof fn bad_length(dg: Seq<u8>)
    requires
        dg.len() <= usize::MAX,
        !(HEADER_LEN + TAG_LEN <= dg.len() <= MAX_DATAGRAM),
    ensures
        header_of(dg) == Err::<Header, DatagramError>(DatagramError::Length(dg.len() as usize)),
{
}

/// Parses a header without decrypting. The tag is not checked yet, so its
/// contents are not to be trusted.
pub fn parse_header(datagram: &[u8]) -> (r: Result<Header, DatagramError>)
    ensures
        r == header_of(datagram@),
{
    if datagram.len() < HEADER_LEN + TAG_LEN || datagram.len() > MAX_DATAGRAM {
        return Err(DatagramError::Length(datagram.len()));
    }
    let b0: u8 = datagram[0];
    let id: u32 = bytes::get_be32(datagram, 1);
    let counter: u32 = bytes::get_be32(datagram, 5);
    if b0 == UP || b0 == UP_ACK_REQ {
        Ok(Header::Up(UpHeader { boot: BootId(id), seq: SeqNo(counter), ack_req: b0 == UP_ACK_REQ }))
    } else if b0 == DOWN {
        Ok(Header::Down(DownHeader { salt: ServerSalt(id), ack_seq: AckSeq(counter) }))
    } else {
        Err(DatagramError::BadHeader(b0))
    }
}

/// The datagram that carries `plain` under header `h`.
pub open spec fn sealed(key: Seq<u8>, h: Header, plain: Seq<u8>) -> Seq<u8> {
    let (ciphertext, tag) = crypto::aes_gcm_encrypt(key, h.nonce_bytes(), h.bytes(), plain);
    h.bytes() + ciphertext + tag
}

/// What a datagram opens to: its header and plaintext.
pub open spec fn opened(key: Seq<u8>, dg: Seq<u8>) -> Result<(Header, Seq<u8>), DatagramError> {
    match header_of(dg) {
        Err(e) => Err(e),
        Ok(h) => match crypto::aes_gcm_decrypt(
            key,
            h.nonce_bytes(),
            dg.take(HEADER_LEN as int),
            dg.subrange(HEADER_LEN as int, dg.len() - TAG_LEN),
            dg.skip(dg.len() - TAG_LEN),
        ) {
            Some(plain) => Ok((h, plain)),
            None => Err(DatagramError::Decrypt),
        },
    }
}

/// Is `dg` what [`seal`] makes of header `h` and `plain`, and does it open to
/// them again.
pub open spec fn carries(key: Seq<u8>, dg: Seq<u8>, h: Header, plain: Seq<u8>) -> bool {
    &&& dg == sealed(key, h, plain)
    &&& dg.len() == HEADER_LEN + plain.len() + TAG_LEN
    &&& opened(key, dg) == Ok::<(Header, Seq<u8>), DatagramError>((h, plain))
}

/// What a datagram's bytes are after it was opened in place: its plaintext
/// stands in place of the ciphertext, or all is as before where it does not open.
pub open spec fn decrypted(key: Seq<u8>, dg: Seq<u8>) -> Seq<u8> {
    match opened(key, dg) {
        Ok((_, plain)) => dg.take(HEADER_LEN as int) + plain + dg.skip(dg.len() - TAG_LEN),
        Err(_) => dg,
    }
}

/// The part of `buf` that holds the plaintext; an encoder writes there before
/// [`seal`].
pub fn plain_area(buf: &mut DatagramBuf) -> (area: &mut [u8])
    ensures
        area@ == old(buf)@.subrange(HEADER_LEN as int, HEADER_LEN + PLAIN_CAPACITY),
        area@.len() == PLAIN_CAPACITY,
        final(buf)@ == old(buf)@.take(HEADER_LEN as int) + final(area)@ + old(buf)@.skip(
            HEADER_LEN + PLAIN_CAPACITY,
        ),
{
    let whole: &mut [u8] = buf;
    let (_head, rest) = whole.split_at_mut(HEADER_LEN);
    let (area, _tail) = rest.split_at_mut(PLAIN_CAPACITY);
    area
}

/// Puts a datagram together in `buf`, whose plaintext already stands behind the
/// header (see [`plain_area`]): writes the header, encrypts in place, adds the
/// tag. Returns the datagram's length.
pub fn seal(cipher: &Cipher, header: Header, buf: &mut [u8], plain_len: usize) -> (len: usize)
    requires
        plain_len <= PLAIN_CAPACITY,
        HEADER_LEN + plain_len + TAG_LEN <= old(buf)@.len(),
    ensures
        len == HEADER_LEN + plain_len + TAG_LEN,
        final(buf)@.len() == old(buf)@.len(),
        final(buf)@.skip(len as int) == old(buf)@.skip(len as int),
        carries(
            cipher.key@,
            final(buf)@.take(len as int),
            header,
            old(buf)@.subrange(HEADER_LEN as int, HEADER_LEN + plain_len),
        ),
{
    let plain_end: usize = HEADER_LEN + plain_len;
    let len: usize = plain_end + TAG_LEN;
    let head = header.to_bytes();
    let nonce = header.nonce();
    let ghost was = buf@;
    let ghost plain = was.subrange(HEADER_LEN as int, plain_end as int);
    copy_into(buf, 0, &head);
    let (tag, ghost_parts) = {
        let (front, rest) = buf.split_at_mut(HEADER_LEN);
        let (text, _) = rest.split_at_mut(plain_len);
        assert(text@ =~= plain);
        assert(front@ =~= header.bytes());
        let tag = crypto::encrypt(cipher, &nonce, front, text);
        (tag, Ghost(text@))
    };
    let ghost ciphertext = ghost_parts@;
    assert(buf@.subrange(HEADER_LEN as int, plain_end as int) =~= ciphertext);
    assert(buf@.take(HEADER_LEN as int) =~= header.bytes());
    copy_into(buf, plain_end, &tag);
    proof {
        let dg = buf@.take(len as int);
        assert(dg =~= header.bytes() + ciphertext + tag@);
        assert(dg.take(HEADER_LEN as int) =~= header.bytes());
        header_roundtrip(header, dg);
        assert(dg.subrange(HEADER_LEN as int, dg.len() - TAG_LEN) =~= ciphertext);
        assert(dg.skip(dg.len() - TAG_LEN) =~= tag@);
        assert(buf@.skip(len as int) =~= was.skip(len as int));
    }
    len
}

/// Writes `part` at `at`.
fn copy_into(buf: &mut [u8], at: usize, part: &[u8])
    requires
        at + part@.len() <= old(buf)@.len(),
    ensures
        final(buf)@ == old(buf)@.take(at as int) + part@ + old(buf)@.skip(at + part@.len()),
{
    let ghost was = buf@;
    let size: usize = buf.len();
    let mut i: usize = 0;
    while i < part.len()
        invariant
            i <= part@.len(),
            size == buf@.len(),
            at + part@.len() <= buf@.len(),
            buf@.len() == was.len(),
            forall|k: int| 0 <= k < i ==> buf@[at + k] == #[trigger] part@[k],
            forall|k: int| 0 <= k < at || at + i <= k < was.len() ==> #[trigger] buf@[k] == was[k],
        decreases part@.len() - i,
    {
        buf[at + i] = part[i];
        i = i + 1;
    }
    assert forall|k: int| at <= k < at + part@.len() implies #[trigger] buf@[k] == part@[k - at] by {
        assert(buf@[at + (k - at)] == part@[k - at]);
    }
    assert(buf@ =~= was.take(at as int) + part@ + was.skip(at + part@.len()));
}

/// Checks and decrypts a datagram in place; gives its header and plaintext.
pub fn open<'a>(cipher: &Cipher, datagram: &'a mut [u8]) -> (r: Result<(Header, &'a [u8]), DatagramError>)
    ensures
        final(datagram)@.len() == old(datagram)@.len(),
        final(datagram)@ == decrypted(cipher.key@, old(datagram)@),
        match (r, opened(cipher.key@, old(datagram)@)) {
            (Ok((h, plain)), Ok((g, p))) => {
                &&& h == g
                &&& plain@ == p
                &&& carries(cipher.key@, old(datagram)@, h, p)
            },
            (Err(e), Err(f)) => e == f,
            _ => false,
        },
{
    let header = match parse_header(datagram) {
        Ok(h) => h,
        Err(e) => {
            return Err(e);
        },
    };
    let ghost dg = datagram@;
    let tag_at: usize = datagram.len() - TAG_LEN;
    let nonce = header.nonce();
    let (body, tag_bytes) = datagram.split_at_mut(tag_at);
    let tag = array_of_tag(tag_bytes);
    let (head, text) = body.split_at_mut(HEADER_LEN);
    assert(head@ =~= dg.take(HEADER_LEN as int));
    assert(text@ =~= dg.subrange(HEADER_LEN as int, dg.len() - TAG_LEN));
    assert(tag@ =~= dg.skip(dg.len() - TAG_LEN));
    if !crypto::decrypt(cipher, &nonce, head, text, &tag) {
        assert(head@ + text@ + tag_bytes@ =~= dg);
        return Err(DatagramError::Decrypt);
    }
    proof {
        header_roundtrip(header, dg);
        assert(dg =~= header.bytes() + dg.subrange(HEADER_LEN as int, dg.len() - TAG_LEN) + tag@);
    }
    Ok((header, text))
}

fn array_of_tag(bytes: &[u8]) -> (tag: [u8; TAG_LEN])
    requires
        bytes@.len() == TAG_LEN,
    ensures
        tag@ == bytes@,
{
    let mut tag = [0u8; TAG_LEN];
    let mut i: usize = 0;
    while i < TAG_LEN
        invariant
            i <= TAG_LEN,
            bytes@.len() == TAG_LEN,
            forall|k: int| 0 <= k < i ==> #[trigger] tag@[k] == bytes@[k],
        decreases TAG_LEN - i,
    {
        tag[i] = bytes[i];
        i = i + 1;
    }
    assert(tag@ =~= bytes@);
    tag
}

/// A datagram opens only if it is exactly what [`seal`] makes of the header and
/// plaintext it opens to, so no other datagram opens to the same.
pub proof fn opening_is_unique(key: Seq<u8>, a: Seq<u8>, b: Seq<u8>, h: Header, plain: Seq<u8>)
    requires
        carries(key, a, h, plain),
        carries(key, b, h, plain),
    ensures
        a == b,
{
}

/// What a datagram opens to on the server's side.
pub open spec fn opened_up(key: Seq<u8>, dg: Seq<u8>) -> Result<(UpHeader, Seq<u8>), DatagramError> {
    match opened(key, dg) {
        Err(e) => Err(e),
        Ok((Header::Up(h), plain)) => Ok((h, plain)),
        Ok((Header::Down(_), _)) => Err(DatagramError::WrongDirection),
    }
}

/// What a datagram opens to on the station's side.
pub open spec fn opened_ack(key: Seq<u8>, dg: Seq<u8>) -> Result<(DownHeader, Ack), DatagramError> {
    match opened(key, dg) {
        Err(e) => Err(e),
        Ok((Header::Up(_), _)) => Err(DatagramError::WrongDirection),
        Ok((Header::Down(h), plain)) => match ack_of(plain) {
            Ok(ack) => Ok((h, ack)),
            Err(e) => Err(e),
        },
    }
}

/// [`open`] for the server: takes datagrams from the station only.
pub fn open_up<'a>(cipher: &Cipher, datagram: &'a mut [u8]) -> (r: Result<(UpHeader, &'a [u8]), DatagramError>)
    ensures
        final(datagram)@.len() == old(datagram)@.len(),
        final(datagram)@ == decrypted(cipher.key@, old(datagram)@),
        match (r, opened_up(cipher.key@, old(datagram)@)) {
            (Ok((h, plain)), Ok((g, p))) => {
                &&& h == g
                &&& plain@ == p
                &&& carries(cipher.key@, old(datagram)@, Header::Up(h), p)
            },
            (Err(e), Err(f)) => e == f,
            _ => false,
        },
{
    match open(cipher, datagram) {
        Ok((Header::Up(h), plain)) => Ok((h, plain)),
        Ok((Header::Down(_), _)) => Err(DatagramError::WrongDirection),
        Err(e) => Err(e),
    }
}

/// [`open`] for the station: takes acknowledgements only.
pub fn open_ack(cipher: &Cipher, datagram: &mut [u8]) -> (r: Result<(DownHeader, Ack), DatagramError>)
    ensures
        final(datagram)@.len() == old(datagram)@.len(),
        final(datagram)@ == decrypted(cipher.key@, old(datagram)@),
        r == opened_ack(cipher.key@, old(datagram)@),
{
    match open(cipher, datagram) {
        Ok((Header::Down(h), plain)) => match Ack::from_bytes(plain) {
            Ok(ack) => Ok((h, ack)),
            Err(e) => Err(e),
        },
        Ok((Header::Up(_), _)) => Err(DatagramError::WrongDirection),
        Err(e) => Err(e),
    }
}

/// Length of the encrypted part of an acknowledgement.
pub const ACK_LEN: usize = 14;

/// Length of an acknowledgement datagram.
pub const ACK_DATAGRAM_LEN: usize = 39;

/// The server's acknowledgement: which datagrams of a boot are stored, and
/// whether live mode is wanted.
#[derive(Clone, Copy, PartialEq, Eq, Structural, Debug)]
pub struct Ack {
    pub boot: BootId,
    pub window: RecvWindow,
    pub live_for: LiveSecs,
}

/// The acknowledgement that a plaintext holds.
pub open spec fn ack_of(plain: Seq<u8>) -> Result<Ack, DatagramError> {
    if plain.len() != ACK_LEN {
        Err(DatagramError::AckLength(plain.len() as usize))
    } else {
        Ok(
            Ack {
                boot: BootId(bytes::be32_at(plain, 0)),
                window: RecvWindow { highest: SeqNo(bytes::be32_at(plain, 4)), seen: bytes::be32_at(plain, 8) },
                live_for: LiveSecs(bytes::be16_at(plain, 12)),
            },
        )
    }
}

impl Ack {
    /// Boot id, highest number, bits, live time, all big-endian.
    pub open spec fn bytes(self) -> Seq<u8> {
        bytes::be32(self.boot.0) + bytes::be32(self.window.highest.0) + bytes::be32(self.window.seen)
            + bytes::be16(self.live_for.0)
    }

    /// The acknowledgement as a plaintext.
    pub fn to_bytes(&self) -> (b: [u8; ACK_LEN])
        ensures
            b@ == self.bytes(),
    {
        let boot = bytes::be32_bytes(self.boot.0);
        let high = bytes::be32_bytes(self.window.highest().0);
        let seen = bytes::be32_bytes(self.window.seen_bits());
        let live: u16 = self.live_for.0;
        let b = [
            boot[0],
            boot[1],
            boot[2],
            boot[3],
            high[0],
            high[1],
            high[2],
            high[3],
            seen[0],
            seen[1],
            seen[2],
            seen[3],
            (live / 0x100) as u8,
            (live % 0x100) as u8,
        ];
        assert(b@ =~= self.bytes());
        b
    }

    /// The acknowledgement that a plaintext holds, if it is as long as one.
    pub fn from_bytes(plain: &[u8]) -> (r: Result<Ack, DatagramError>)
        ensures
            r == ack_of(plain@),
    {
        if plain.len() != ACK_LEN {
            return Err(DatagramError::AckLength(plain.len()));
        }
        let live: u16 = plain[12] as u16 * 0x100 + plain[13] as u16;
        Ok(
            Ack {
                boot: BootId(bytes::get_be32(plain, 0)),
                window: RecvWindow::from_parts(SeqNo(bytes::get_be32(plain, 4)), bytes::get_be32(plain, 8)),
                live_for: LiveSecs(live),
            },
        )
    }

    /// The acknowledgement as a finished datagram.
    pub fn seal(&self, cipher: &Cipher, header: DownHeader) -> (dg: [u8; ACK_DATAGRAM_LEN])
        ensures
            carries(cipher.key@, dg@, Header::Down(header), self.bytes()),
            opened_ack(cipher.key@, dg@) == Ok::<(DownHeader, Ack), DatagramError>((header, *self)),
    {
        let mut buf = [0u8; ACK_DATAGRAM_LEN];
        let plain = self.to_bytes();
        copy_into(&mut buf, HEADER_LEN, &plain);
        assert(buf@.subrange(HEADER_LEN as int, HEADER_LEN + ACK_LEN) =~= self.bytes());
        let _len: usize = seal(cipher, Header::Down(header), &mut buf, ACK_LEN);
        proof {
            assert(buf@.take(ACK_DATAGRAM_LEN as int) =~= buf@);
            ack_roundtrip(*self);
        }
        buf
    }
}

/// An acknowledgement is read back from its plaintext.
pub proof fn ack_roundtrip(ack: Ack)
    ensures
        ack_of(ack.bytes()) == Ok::<Ack, DatagramError>(ack),
{
    let b = ack.bytes();
    bytes::be32_roundtrip(ack.boot.0);
    bytes::be32_roundtrip(ack.window.highest.0);
    bytes::be32_roundtrip(ack.window.seen);
    bytes::be16_roundtrip(ack.live_for.0);
    assert(b.len() == ACK_LEN);
    let boot = bytes::be32(ack.boot.0);
    let high = bytes::be32(ack.window.highest.0);
    let seen = bytes::be32(ack.window.seen);
    let live = bytes::be16(ack.live_for.0);
    assert(b[0] == boot[0] && b[1] == boot[1] && b[2] == boot[2] && b[3] == boot[3]);
    assert(b[4] == high[0] && b[5] == high[1] && b[6] == high[2] && b[7] == high[3]);
    assert(b[8] == seen[0] && b[9] == seen[1] && b[10] == seen[2] && b[11] == seen[3]);
    assert(b[12] == live[0] && b[13] == live[1]);
}

/// The header on the wire: version, direction and request in one byte, then the
/// two numbers of its own direction, big-endian.
pub proof fn header_layout(u: UpHeader, d: DownHeader)
    ensures
        Header::Up(u).bytes() == seq![if u.ack_req {
            0x11u8
        } else {
            0x10u8
        }] + bytes::be32(u.boot.0) + bytes::be32(u.seq.0),
        Header::Down(d).bytes() == seq![0x18u8] + bytes::be32(d.salt.0) + bytes::be32(d.ack_seq.0),
        Header::Up(u).bytes().len() == 9,
        Header::Down(d).bytes().len() == 9,
{
}

/// The nonce: direction, three zero bytes, and the two numbers of the header.
pub proof fn nonce_layout(u: UpHeader, d: DownHeader)
    ensures
        Header::Up(u).nonce_bytes() == seq![0u8, 0u8, 0u8, 0u8] + bytes::be32(u.boot.0) + bytes::be32(u.seq.0),
        Header::Down(d).nonce_bytes() == seq![8u8, 0u8, 0u8, 0u8] + bytes::be32(d.salt.0) + bytes::be32(d.ack_seq.0),
{
}

/// A datagram is parsed only between 25 and 1172 bytes; a header that is parsed
/// is the one that the datagram starts with.
pub proof fn headers_are_what_is_sent(dg: Seq<u8>)
    ensures
        !(25 <= dg.len() <= 1172) ==> header_of(dg) == Err::<Header, DatagramError>(
            DatagramError::Length(dg.len() as usize),
        ),
        25 <= dg.len() <= 1172 ==> (header_of(dg) is Ok <==> dg[0] == 0x10 || dg[0] == 0x11 || dg[0] == 0x18),
        header_of(dg) matches Ok(h) ==> h.bytes() == dg.take(9),
{
    if let Ok(h) = header_of(dg) {
        header_roundtrip(h, dg);
    }
}

/// What opens was authenticated whole: the plaintext comes from decrypting what
/// stands between header and tag, with the header as associated data and under
/// the header's own nonce; and a datagram that does not parse, or does not match
/// its tag, does not open.
pub proof fn opening_authenticates_the_header(key: Seq<u8>, dg: Seq<u8>, h: Header, plain: Seq<u8>)
    ensures
        opened(key, dg) == Ok::<(Header, Seq<u8>), DatagramError>((h, plain)) <==> {
            &&& header_of(dg) == Ok::<Header, DatagramError>(h)
            &&& crypto::aes_gcm_decrypt(
                key,
                h.nonce_bytes(),
                dg.take(9),
                dg.subrange(9, dg.len() - 16),
                dg.skip(dg.len() - 16),
            ) == Some(plain)
        },
        header_of(dg) matches Err(e) ==> opened(key, dg) == Err::<(Header, Seq<u8>), DatagramError>(
            header_of(dg)->Err_0,
        ),
        header_of(dg) is Ok && opened(key, dg) is Err ==> opened(key, dg) == Err::<(Header, Seq<u8>), DatagramError>(
            DatagramError::Decrypt,
        ),
{
}

/// A datagram that opens but goes the other way is refused as such on either
/// side; one that goes the right way is taken with what it opens to.
pub proof fn directions_are_kept_apart(key: Seq<u8>, dg: Seq<u8>, u: UpHeader, d: DownHeader, plain: Seq<u8>)
    ensures
        opened(key, dg) == Ok::<(Header, Seq<u8>), DatagramError>((Header::Up(u), plain)) ==> {
            &&& opened_up(key, dg) == Ok::<(UpHeader, Seq<u8>), DatagramError>((u, plain))
            &&& opened_ack(key, dg) == Err::<(DownHeader, Ack), DatagramError>(DatagramError::WrongDirection)
        },
        opened(key, dg) == Ok::<(Header, Seq<u8>), DatagramError>((Header::Down(d), plain)) ==> {
            &&& opened_up(key, dg) == Err::<(UpHeader, Seq<u8>), DatagramError>(DatagramError::WrongDirection)
            &&& plain.len() != 14 ==> opened_ack(key, dg) == Err::<(DownHeader, Ack), DatagramError>(
                DatagramError::AckLength(plain.len() as usize),
            )
            &&& plain.len() == 14 ==> (opened_ack(key, dg) matches Ok((h, a)) && h == d && a.bytes() == plain)
        },
        opened(key, dg) matches Err(e) ==> {
            &&& opened_up(key, dg) == Err::<(UpHeader, Seq<u8>), DatagramError>(opened(key, dg)->Err_0)
            &&& opened_ack(key, dg) == Err::<(DownHeader, Ack), DatagramError>(opened(key, dg)->Err_0)
        },
{
    if plain.len() == 14 {
        acks_are_what_is_sent(plain);
    }
}

/// The acknowledgement on the wire: boot id, highest number, bits and live
/// seconds, big-endian; fourteen bytes, and every fourteen bytes are one.
pub proof fn acks_are_what_is_sent(plain: Seq<u8>)
    ensures
        plain.len() == 14 ==> (ack_of(plain) matches Ok(a) && a.bytes() == plain && plain == bytes::be32(a.boot.0)
            + bytes::be32(a.window.highest.0) + bytes::be32(a.window.seen) + bytes::be16(a.live_for.0)),
        plain.len() != 14 ==> ack_of(plain) == Err::<Ack, DatagramError>(
            DatagramError::AckLength(plain.len() as usize),
        ),
{
    if plain.len() == 14 {
        let a = ack_of(plain)->Ok_0;
        bytes::be32_at_roundtrip(plain, 0);
        bytes::be32_at_roundtrip(plain, 4);
        bytes::be32_at_roundtrip(plain, 8);
        assert(bytes::be16(a.live_for.0) =~= plain.subrange(12, 14));
        assert(plain =~= plain.subrange(0, 4) + plain.subrange(4, 8) + plain.subrange(8, 12) + plain.subrange(12, 14));
    }
}

} // verus!
