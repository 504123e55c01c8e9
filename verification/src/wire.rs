//! Wayland wire framing and argument encoding.
//!
//! A message is an 8-byte header followed by its arguments.  The header is the
//! sender's object id and a word that packs the opcode (low 16 bits) with the
//! total length in bytes, header included (high 16 bits).  Words are in the
//! machine's own byte order: both ends of a local socket share it.
use vstd::arithmetic::div_mod::*;
use vstd::endian::*;
use vstd::prelude::*;
use vstd::slice::slice_subrange;
use vstd::utf8::*;

verus! {

/// Size of the fixed message header, in bytes.
pub const HEADER_LEN: usize = 8;

/// The number that four consecutive bytes stand for on this machine.
#[verifier::opaque]
pub open spec fn word_value(b0: u8, b1: u8, b2: u8, b3: u8) -> u32 {
    match endianness() {
        Endian::Little => (b0 + 0x100 * b1 + 0x1_0000 * b2 + 0x100_0000 * b3) as u32,
        Endian::Big => (b3 + 0x100 * b2 + 0x1_0000 * b1 + 0x100_0000 * b0) as u32,
    }
}

/// The four bytes that stand for `v` on this machine.
#[verifier::opaque]
pub open spec fn word_bytes(v: u32) -> Seq<u8> {
    let d0 = (v % 0x100) as u8;
    let d1 = (v / 0x100 % 0x100) as u8;
    let d2 = (v / 0x1_0000 % 0x100) as u8;
    let d3 = (v / 0x100_0000) as u8;
    match endianness() {
        Endian::Little => seq![d0, d1, d2, d3],
        Endian::Big => seq![d3, d2, d1, d0],
    }
}

/// The word that starts at byte `at` of `s`.
pub open spec fn word_at(s: Seq<u8>, at: int) -> u32 {
    word_value(s[at], s[at + 1], s[at + 2], s[at + 3])
}

/// The word that starts at byte `at` of `s`, if `s` reaches that far.
pub open spec fn word_opt(s: Seq<u8>, at: int) -> Option<u32> {
    if 0 <= at && at + 4 <= s.len() {
        Some(word_at(s, at))
    } else {
        None
    }
}

/// `s` with the word that starts at byte `at` replaced by `v`.
pub open spec fn with_word(s: Seq<u8>, at: int, v: u32) -> Seq<u8> {
    let b = word_bytes(v);
    s.update(at, b[0]).update(at + 1, b[1]).update(at + 2, b[2]).update(at + 3, b[3])
}

/// A word survives being written out as bytes and read back.
pub proof fn lemma_word_round_trip(v: u32)
    ensures
        word_bytes(v).len() == 4,
        word_at(word_bytes(v), 0) == v,
{
    reveal(word_value);
    reveal(word_bytes);
    assert(v == v % 0x100 + 0x100 * (v / 0x100 % 0x100) + 0x1_0000 * (v / 0x1_0000 % 0x100)
        + 0x100_0000 * (v / 0x100_0000));
}

/// The base-256 digits of a number made of four of them.
proof fn lemma_digits(d0: u8, d1: u8, d2: u8, d3: u8)
    ensures
        ({
            let v = (d0 + 0x100 * d1 + 0x1_0000 * d2 + 0x100_0000 * d3) as u32;
            &&& v == d0 + 0x100 * d1 + 0x1_0000 * d2 + 0x100_0000 * d3
            &&& v % 0x100 == d0
            &&& v / 0x100 % 0x100 == d1
            &&& v / 0x1_0000 % 0x100 == d2
            &&& v / 0x100_0000 == d3
        }),
{
    let v = d0 + 0x100 * d1 + 0x1_0000 * d2 + 0x100_0000 * d3;
    assert(v / 0x100 == d1 + 0x100 * d2 + 0x1_0000 * d3);
    assert(v / 0x1_0000 == d2 + 0x100 * d3);
    assert(v / 0x100_0000 == d3);
}

/// Four bytes survive being read as a word and written out again.
pub proof fn lemma_bytes_round_trip(s: Seq<u8>, at: int)
    requires
        0 <= at,
        at + 4 <= s.len(),
    ensures
        word_bytes(word_at(s, at)) == s.subrange(at, at + 4),
{
    reveal(word_value);
    reveal(word_bytes);
    lemma_digits(s[at], s[at + 1], s[at + 2], s[at + 3]);
    lemma_digits(s[at + 3], s[at + 2], s[at + 1], s[at]);
    assert(word_bytes(word_at(s, at)) =~= s.subrange(at, at + 4));
}

/// Replacing a word makes it read back, and leaves every other word alone.
pub proof fn lemma_with_word(s: Seq<u8>, at: int, v: u32)
    requires
        0 <= at,
        at + 4 <= s.len(),
    ensures
        with_word(s, at, v).len() == s.len(),
        word_at(with_word(s, at, v), at) == v,
        forall|other: int|
            0 <= other && other + 4 <= s.len() && (other + 4 <= at || at + 4 <= other)
                ==> #[trigger] word_at(with_word(s, at, v), other) == word_at(s, other),
{
    lemma_word_round_trip(v);
}

/// `u32::from_ne_bytes`: the number whose memory representation on this
/// machine is `bytes`.
#[verifier::external_body]
fn u32_from_bytes(bytes: [u8; 4]) -> (r: u32)
    ensures
        r == word_value(bytes[0], bytes[1], bytes[2], bytes[3]),
{
    u32::from_ne_bytes(bytes)
}

/// `u32::to_ne_bytes`: the memory representation of `v` on this machine.
#[verifier::external_body]
fn u32_to_bytes(v: u32) -> (r: [u8; 4])
    ensures
        r@ == word_bytes(v),
{
    v.to_ne_bytes()
}

/// `std::str::from_utf8`, with the text copied out: it accepts exactly the
/// byte sequences that are UTF-8, and the text it gives has those bytes as its
/// encoding.
#[verifier::external_body]
fn text_from_utf8(bytes: &[u8]) -> (r: Option<String>)
    ensures
        r is Some <==> valid_utf8(bytes@),
        r matches Some(s) ==> encode_utf8(s@) == bytes@,
{
    std::str::from_utf8(bytes).ok().map(str::to_owned)
}

/// The text that `bytes` encode, if they are UTF-8 at all.
pub open spec fn text_of(bytes: Seq<u8>) -> Option<Seq<char>> {
    if valid_utf8(bytes) {
        Some(decode_utf8(bytes))
    } else {
        None
    }
}

/// The text that `bytes` encode, if they are UTF-8 at all.
pub fn decode_text(bytes: &[u8]) -> (r: Option<String>)
    ensures
        r is Some <==> text_of(bytes@) is Some,
        r matches Some(s) ==> text_of(bytes@) == Some(s@),
{
    let r = text_from_utf8(bytes);
    proof {
        if r is Some {
            vstd::utf8::encode_utf8_decode_utf8(r->0@);
        }
    }
    r
}

/// A parsed message header.
#[derive(Debug, Clone, Copy, PartialEq, Eq, Structural)]
pub struct MessageHeader {
    pub sender_id: u32,
    pub opcode: u16,
    /// Total message length in bytes, header included.
    pub length: u16,
}

/// The header at the front of `buf`, if a whole one is there.
pub open spec fn header_of(buf: Seq<u8>) -> Option<MessageHeader> {
    if buf.len() < HEADER_LEN {
        None
    } else {
        Some(
            MessageHeader {
                sender_id: word_at(buf, 0),
                opcode: (word_at(buf, 4) % 0x1_0000) as u16,
                length: (word_at(buf, 4) / 0x1_0000) as u16,
            },
        )
    }
}

impl MessageHeader {
    /// Parses the header from the start of `buf`.  `None` only means that the
    /// header has not fully arrived yet.
    pub fn parse(buf: &[u8]) -> (r: Option<MessageHeader>)
        ensures
            r == header_of(buf@),
    {
        if buf.len() < HEADER_LEN {
            return None;
        }
        let sender_id: u32 = word(buf, 0);
        let packed: u32 = word(buf, 4);
        Some(
            MessageHeader {
                sender_id,
                opcode: (packed % 0x1_0000) as u16,
                length: (packed / 0x1_0000) as u16,
            },
        )
    }

    /// Total length of the message this header describes, header included.
    pub fn message_len(&self) -> (r: usize)
        ensures
            r == self.length,
    {
        self.length as usize
    }
}

/// The word at `at`, which must be there.
pub(crate) fn word(s: &[u8], at: usize) -> (r: u32)
    requires
        at + 4 <= s@.len(),
    ensures
        r == word_at(s@, at as int),
{
    u32_from_bytes([s[at], s[at + 1], s[at + 2], s[at + 3]])
}

/// Replaces the word at `at`, which must be there.
pub(crate) fn set_word(s: &mut Vec<u8>, at: usize, v: u32)
    requires
        at + 4 <= old(s)@.len(),
    ensures
        final(s)@ == with_word(old(s)@, at as int, v),
{
    assert(at + 4 <= s.len());
    proof {
        lemma_word_round_trip(v);
    }
    let b = u32_to_bytes(v);
    s[at] = b[0];
    s[at + 1] = b[1];
    s[at + 2] = b[2];
    s[at + 3] = b[3];
}

/// The sender's object id at the front of a message, if `msg` reaches that far.
pub fn read_sender_id(msg: &[u8]) -> (r: Option<u32>)
    ensures
        r == word_opt(msg@, 0),
{
    read_u32(msg, 0)
}

/// Overwrites the sender's object id in place and leaves the rest of the
/// message as it is.  Refuses a message too short to hold one.
pub fn write_sender_id(msg: &mut [u8], new_id: u32) -> (r: Result<(), &'static str>)
    ensures
        r is Ok <==> old(msg)@.len() >= 4,
        r is Ok ==> final(msg)@ == with_word(old(msg)@, 0, new_id),
        r matches Err(e) ==> e@ == "message shorter than a sender_id field"@ && final(msg)@ == old(
            msg,
        )@,
{
    if msg.len() < 4 {
        return Err("message shorter than a sender_id field");
    }
    proof {
        lemma_word_round_trip(new_id);
    }
    let b = u32_to_bytes(new_id);
    msg[0] = b[0];
    msg[1] = b[1];
    msg[2] = b[2];
    msg[3] = b[3];
    Ok(())
}

/// How many bytes the complete message at the front of `buf` takes, if one is
/// there: its declared length covers the header and has fully arrived.
pub open spec fn front_message_len(buf: Seq<u8>) -> Option<int> {
    match header_of(buf) {
        Some(h) if HEADER_LEN <= h.length <= buf.len() => Some(h.length as int),
        _ => None,
    }
}

/// Splits one complete message off the front of `buf`: the message, header
/// included, and its length.  `None` only means that more bytes are needed.
pub fn take_message(buf: &[u8]) -> (r: Option<(&[u8], usize)>)
    ensures
        r is Some <==> front_message_len(buf@) is Some,
        r matches Some((msg, consumed)) ==> front_message_len(buf@) == Some(consumed as int)
            && msg@ == buf@.take(consumed as int),
{
    match MessageHeader::parse(buf) {
        None => None,
        Some(header) => {
            let len: usize = header.message_len();
            if len < HEADER_LEN || buf.len() < len {
                return None;
            }
            let msg = slice_subrange(buf, 0, len);
            assert(msg@ == buf@.take(len as int));
            Some((msg, len))
        },
    }
}

/// The word at byte `at` of `payload`, if the payload reaches that far.
pub fn read_u32(payload: &[u8], at: usize) -> (r: Option<u32>)
    ensures
        r == word_opt(payload@, at as int),
{
    if payload.len() < 4 || at > payload.len() - 4 {
        return None;
    }
    Some(word(payload, at))
}

/// `n` rounded up to a whole number of words.
pub open spec fn padded(n: int) -> int {
    (n + 3) / 4 * 4
}

/// The string argument at byte `at` of `payload`, and where the next argument
/// starts: a length word that counts the terminating NUL, the bytes, the NUL,
/// and padding to a whole word.  `None` where the payload is too short, where
/// the string is null (length 0) or where its bytes are not UTF-8.
pub open spec fn str_opt(payload: Seq<u8>, at: int) -> Option<(Seq<char>, int)> {
    match word_opt(payload, at) {
        None => None,
        Some(len) => {
            let end = at + 4 + padded(len as int);
            if len == 0 || payload.len() < end {
                None
            } else {
                match text_of(payload.subrange(at + 4, at + 4 + len - 1)) {
                    None => None,
                    Some(text) => Some((text, end)),
                }
            }
        },
    }
}

/// Reads the string argument at byte `at`; see [`str_opt`].
pub fn read_str(payload: &[u8], at: usize) -> (r: Option<(String, usize)>)
    ensures
        r is Some <==> str_opt(payload@, at as int) is Some,
        r matches Some((s, next)) ==> str_opt(payload@, at as int) == Some((s@, next as int)),
{
    let len: u32 = match read_u32(payload, at) {
        None => return None,
        Some(len) => len,
    };
    if len == 0 {
        return None;
    }
    let end: u128 = at as u128 + 4 + (len as u128 + 3) / 4 * 4;
    if (payload.len() as u128) < end {
        return None;
    }
    let start: usize = at + 4;
    let stop: usize = start + (len as usize - 1);
    match decode_text(slice_subrange(payload, start, stop)) {
        None => None,
        Some(s) => Some((s, end as usize)),
    }
}

/// Appends a word.
pub fn put_u32(out: &mut Vec<u8>, v: u32)
    ensures
        final(out)@ == old(out)@ + word_bytes(v),
{
    proof {
        lemma_word_round_trip(v);
    }
    let b = u32_to_bytes(v);
    out.push(b[0]);
    out.push(b[1]);
    out.push(b[2]);
    out.push(b[3]);
    assert(out@ =~= old(out)@ + word_bytes(v));
}

/// As many zero bytes as are missing from `n` to a whole number of words.
pub open spec fn padding(n: int) -> Seq<u8> {
    Seq::new((padded(n) - n) as nat, |i: int| 0u8)
}

/// A block of bytes as it stands on the wire: its length, its bytes, padding.
pub open spec fn block_bytes(content: Seq<u8>) -> Seq<u8> {
    word_bytes(content.len() as u32) + content + padding(content.len() as int)
}

/// A string as it stands on the wire: a block that ends in a NUL byte.
pub open spec fn str_bytes(s: Seq<char>) -> Seq<u8> {
    block_bytes(encode_utf8(s).push(0))
}

/// Padding is never longer than three bytes and ends on a whole word.
proof fn lemma_padding(n: int)
    requires
        0 <= n,
    ensures
        padded(n) - n == (4 - n % 4) % 4,
        padded(n) % 4 == 0,
        n <= padded(n) < n + 4,
{
}

/// Appends a block of bytes.
pub(crate) fn put_block(out: &mut Vec<u8>, content: &[u8])
    requires
        content@.len() <= u32::MAX,
    ensures
        final(out)@ == old(out)@ + block_bytes(content@),
{
    let pad: usize = (4 - content.len() % 4) % 4;
    proof {
        lemma_padding(content@.len() as int);
    }
    put_u32(out, content.len() as u32);
    out.extend_from_slice(content);
    let ghost before = out@;
    assert(before =~= old(out)@ + word_bytes(content@.len() as u32) + content@);
    let mut i: usize = 0;
    while i < pad
        invariant
            i <= pad,
            out@ == before + Seq::new(i as nat, |j: int| 0u8),
        decreases pad - i,
    {
        out.push(0);
        i += 1;
        assert(out@ =~= before + Seq::new(i as nat, |j: int| 0u8));
    }
    assert(Seq::new(pad as nat, |j: int| 0u8) =~= padding(content@.len() as int));
    assert(out@ =~= old(out)@ + block_bytes(content@));
}

/// Appends a string argument.
pub fn put_str(out: &mut Vec<u8>, s: &str)
    requires
        encode_utf8(s@).len() < u32::MAX,
    ensures
        final(out)@ == old(out)@ + str_bytes(s@),
{
    let mut content: Vec<u8> = Vec::new();
    content.extend_from_slice(s.as_bytes());
    content.push(0);
    assert(content@ =~= encode_utf8(s@).push(0));
    put_block(out, content.as_slice());
}

/// A whole message: header and payload.  The length field holds the low 16
/// bits of the total length.
#[verifier::opaque]
pub open spec fn message_bytes(sender_id: u32, opcode: u16, payload: Seq<u8>) -> Seq<u8> {
    let length = (HEADER_LEN + payload.len()) % 0x1_0000;
    word_bytes(sender_id) + word_bytes((length * 0x1_0000 + opcode) as u32) + payload
}

/// Puts a header in front of `payload`.
pub fn build_message(sender_id: u32, opcode: u16, payload: &[u8]) -> (r: Vec<u8>)
    ensures
        r@ == message_bytes(sender_id, opcode, payload@),
{
    let length: u32 = ((payload.len() % 0x1_0000) as u32 + 8) % 0x1_0000;
    proof {
        lemma_add_mod_noop(HEADER_LEN as int, payload@.len() as int, 0x1_0000);
    }
    let mut msg: Vec<u8> = Vec::new();
    put_u32(&mut msg, sender_id);
    put_u32(&mut msg, length * 0x1_0000 + opcode as u32);
    msg.extend_from_slice(payload);
    proof {
        reveal(message_bytes);
        assert(msg@ =~= message_bytes(sender_id, opcode, payload@));
    }
    msg
}

/// A word reads back from wherever it was appended.
pub proof fn lemma_word_appended(before: Seq<u8>, v: u32, after: Seq<u8>)
    ensures
        word_opt(before + word_bytes(v) + after, before.len() as int) == Some(v),
{
    lemma_word_round_trip(v);
    let whole = before + word_bytes(v) + after;
    assert(forall|i: int| 0 <= i < 4 ==> whole[before.len() + i] == #[trigger] word_bytes(v)[i]);
}

/// The header's second word gives back the two numbers it packs.
proof fn lemma_packed(length: u16, opcode: u16)
    ensures
        ({
            let packed = (length * 0x1_0000 + opcode) as u32;
            packed % 0x1_0000 == opcode && packed / 0x1_0000 == length
        }),
{
}

/// Two words in front of anything read back as the two words.
proof fn lemma_header_words(first: u32, second: u32, rest: Seq<u8>)
    ensures
        ({
            let buf = word_bytes(first) + word_bytes(second) + rest;
            buf.len() == 8 + rest.len() && word_at(buf, 0) == first && word_at(buf, 4) == second
        }),
{
    lemma_word_round_trip(first);
    lemma_word_round_trip(second);
    let buf = word_bytes(first) + word_bytes(second) + rest;
    lemma_word_appended(Seq::empty(), first, word_bytes(second) + rest);
    assert(buf =~= Seq::<u8>::empty() + word_bytes(first) + (word_bytes(second) + rest));
    lemma_word_appended(word_bytes(first), second, rest);
}

/// What was built splits off again: a built message at the front of any
/// buffer is one complete message with the sender, opcode and payload it was
/// built from, as long as its length fits the header's length field.
pub proof fn lemma_built_message_splits_off(
    sender_id: u32,
    opcode: u16,
    payload: Seq<u8>,
    rest: Seq<u8>,
)
    requires
        HEADER_LEN + payload.len() < 0x1_0000,
    ensures
        ({
            let msg = message_bytes(sender_id, opcode, payload);
            let buf = msg + rest;
            let length = HEADER_LEN + payload.len();
            &&& header_of(buf) == Some(
                MessageHeader { sender_id, opcode, length: length as u16 },
            )
            &&& front_message_len(buf) == Some(length as int)
            &&& buf.take(length as int) == msg
            &&& buf.skip(length as int) == rest
            &&& msg.skip(HEADER_LEN as int) == payload
        }),
{
    reveal(message_bytes);
    let msg = message_bytes(sender_id, opcode, payload);
    let buf = msg + rest;
    let length = HEADER_LEN + payload.len();
    let packed = (length * 0x1_0000 + opcode) as u32;
    assert(msg == word_bytes(sender_id) + word_bytes(packed) + payload) by {
        assert(length % 0x1_0000 == length);
    }
    lemma_packed(length as u16, opcode);
    lemma_header_words(sender_id, packed, payload + rest);
    assert(buf =~= word_bytes(sender_id) + word_bytes(packed) + (payload + rest));
    assert(msg.len() == length) by {
        lemma_word_round_trip(sender_id);
        lemma_word_round_trip(packed);
    }
    assert(buf.take(length as int) =~= msg);
    assert(buf.skip(length as int) =~= rest);
    assert(msg.skip(HEADER_LEN as int) =~= payload);
}

/// Rewriting the sender changes the sender alone: opcode, length and payload
/// stay as they were.
pub proof fn lemma_sender_rewrite(msg: Seq<u8>, new_id: u32)
    requires
        msg.len() >= HEADER_LEN,
    ensures
        ({
            let h = header_of(msg)->0;
            let rewritten = with_word(msg, 0, new_id);
            &&& header_of(rewritten) == Some(MessageHeader { sender_id: new_id, ..h })
            &&& rewritten.skip(4) == msg.skip(4)
        }),
{
    lemma_with_word(msg, 0, new_id);
    assert(with_word(msg, 0, new_id).skip(4) =~= msg.skip(4));
    assert(word_at(with_word(msg, 0, new_id), 4) == word_at(msg, 4));
}

/// A block's length reads back from wherever the block was appended, and its
/// end is where the padded length says.
pub proof fn lemma_block_appended(before: Seq<u8>, content: Seq<u8>, after: Seq<u8>)
    requires
        content.len() <= u32::MAX,
    ensures
        ({
            let whole = before + block_bytes(content) + after;
            let at = before.len() as int;
            &&& word_opt(whole, at) == Some(content.len() as u32)
            &&& (before + block_bytes(content)).len() == at + 4 + padded(content.len() as int)
            &&& whole.subrange(at + 4, at + 4 + content.len()) == content
        }),
{
    let n = content.len() as int;
    let whole = before + block_bytes(content) + after;
    lemma_padding(n);
    lemma_word_round_trip(n as u32);
    lemma_word_appended(before, n as u32, content + padding(n) + after);
    assert(whole =~= before + word_bytes(n as u32) + (content + padding(n) + after));
    let at = before.len() as int;
    assert(whole.subrange(at + 4, at + 4 + n) =~= content);
}

/// How long a string argument is: never shorter than its text.
pub proof fn lemma_str_bytes_len(s: Seq<char>)
    ensures
        str_bytes(s).len() == 4 + padded(1 + encode_utf8(s).len() as int),
        str_bytes(s).len() > encode_utf8(s).len(),
{
    let content = encode_utf8(s).push(0);
    lemma_padding(content.len() as int);
    lemma_word_round_trip(content.len() as u32);
}

/// How long a built message is.
pub proof fn lemma_message_len(sender_id: u32, opcode: u16, payload: Seq<u8>)
    ensures
        message_bytes(sender_id, opcode, payload).len() == HEADER_LEN + payload.len(),
{
    reveal(message_bytes);
    let length = (HEADER_LEN + payload.len()) % 0x1_0000;
    lemma_word_round_trip(sender_id);
    lemma_word_round_trip((length * 0x1_0000 + opcode) as u32);
}

/// The words of a payload stand in the message behind the header.
pub proof fn lemma_payload_word(sender_id: u32, opcode: u16, payload: Seq<u8>, at: int)
    requires
        0 <= at,
        at + 4 <= payload.len(),
    ensures
        word_at(message_bytes(sender_id, opcode, payload), HEADER_LEN + at) == word_at(payload, at),
{
    reveal(message_bytes);
    let length = (HEADER_LEN + payload.len()) % 0x1_0000;
    lemma_word_round_trip(sender_id);
    lemma_word_round_trip((length * 0x1_0000 + opcode) as u32);
}

/// A string argument reads back from wherever it was appended, and the next
/// argument is found right behind it.
pub proof fn lemma_str_appended(before: Seq<u8>, s: Seq<char>, after: Seq<u8>)
    requires
        encode_utf8(s).len() < u32::MAX,
    ensures
        str_opt(before + str_bytes(s) + after, before.len() as int) == Some(
            (s, (before + str_bytes(s)).len() as int),
        ),
{
    let content = encode_utf8(s).push(0);
    let whole = before + str_bytes(s) + after;
    let at = before.len() as int;
    lemma_block_appended(before, content, after);
    lemma_padding(content.len() as int);
    let inner = whole.subrange(at + 4, at + 4 + content.len());
    assert(whole.subrange(at + 4, at + 4 + content.len() - 1) =~= inner.drop_last());
    assert(inner.drop_last() =~= encode_utf8(s));
    vstd::utf8::encode_utf8_valid_utf8(s);
    vstd::utf8::encode_utf8_decode_utf8(s);
}

/// A complete message at the front of a buffer stays what it is when more
/// bytes arrive behind it.
pub proof fn lemma_front_message_is_stable(buf: Seq<u8>, more: Seq<u8>)
    requires
        front_message_len(buf) is Some,
    ensures
        ({
            let n = front_message_len(buf)->0;
            &&& HEADER_LEN <= n <= buf.len()
            &&& front_message_len(buf + more) == Some(n)
            &&& (buf + more).take(n) == buf.take(n)
            &&& (buf + more).skip(n) == buf.skip(n) + more
            &&& header_of(buf.take(n)) == header_of(buf)
        }),
{
    let n = front_message_len(buf)->0;
    let whole = buf + more;
    assert(word_at(whole, 0) == word_at(buf, 0) && word_at(whole, 4) == word_at(buf, 4));
    assert(word_at(buf.take(n), 0) == word_at(buf, 0) && word_at(buf.take(n), 4) == word_at(buf, 4));
    assert(whole.take(n) =~= buf.take(n));
    assert(whole.skip(n) =~= buf.skip(n) + more);
}

/// Whether `msg` is one whole message from object `sender_id` with this opcode.
pub open spec fn is_message(msg: Seq<u8>, sender_id: u32, opcode: u16) -> bool {
    &&& header_of(msg) is Some
    &&& header_of(msg)->0.sender_id == sender_id
    &&& header_of(msg)->0.opcode == opcode
    &&& header_of(msg)->0.length == msg.len()
}

/// A built message is one whole message from its sender, and its payload
/// stands behind the header, word for word.
pub proof fn lemma_built_message_reads(sender_id: u32, opcode: u16, payload: Seq<u8>)
    requires
        HEADER_LEN + payload.len() < 0x1_0000,
    ensures
        ({
            let msg = message_bytes(sender_id, opcode, payload);
            &&& is_message(msg, sender_id, opcode)
            &&& msg.len() == HEADER_LEN + payload.len()
            &&& msg.skip(HEADER_LEN as int) == payload
            &&& forall|at: int|
                0 <= at && at + 4 <= payload.len() ==> #[trigger] word_at(payload, at) == word_at(
                    msg,
                    HEADER_LEN + at,
                )
        }),
{
    let msg = message_bytes(sender_id, opcode, payload);
    lemma_built_message_splits_off(sender_id, opcode, payload, Seq::empty());
    lemma_message_len(sender_id, opcode, payload);
    assert(msg + Seq::<u8>::empty() =~= msg);
    assert forall|at: int| 0 <= at && at + 4 <= payload.len() implies #[trigger] word_at(
        payload,
        at,
    ) == word_at(msg, HEADER_LEN + at) by {
        lemma_payload_word(sender_id, opcode, payload, at);
    }
}

/// Words that were put one behind the other read back in order.
pub proof fn lemma_words_read(a: u32, b: u32, c: u32, d: u32)
    ensures
        word_bytes(a).len() == 4,
        word_at(word_bytes(a), 0) == a,
        ({
            let two = word_bytes(a) + word_bytes(b);
            two.len() == 8 && word_at(two, 0) == a && word_at(two, 4) == b
        }),
        ({
            let four = word_bytes(a) + word_bytes(b) + word_bytes(c) + word_bytes(d);
            four.len() == 16 && word_at(four, 0) == a && word_at(four, 4) == b && word_at(four, 8)
                == c && word_at(four, 12) == d
        }),
{
    lemma_word_round_trip(a);
    lemma_word_round_trip(b);
    lemma_word_round_trip(c);
    lemma_word_round_trip(d);
    lemma_header_words(a, b, Seq::empty());
    let two = word_bytes(a) + word_bytes(b);
    assert(two + Seq::<u8>::empty() =~= two);
    let rest = word_bytes(c) + word_bytes(d);
    lemma_header_words(a, b, rest);
    let four = two + word_bytes(c) + word_bytes(d);
    assert(four =~= two + rest);
    lemma_word_appended(two, c, word_bytes(d));
    lemma_word_appended(two + word_bytes(c), d, Seq::empty());
    assert(four + Seq::<u8>::empty() =~= four);
}

} // verus!
