use vstd::prelude::*;

verus! {

/// The fixed size of every message on a connection between an e-commerce and a store.
pub const BUFSIZE: usize = 512;

/// The bytes sent for a message: its UTF-8 encoding, cut or padded with zeros to `BUFSIZE` bytes.
pub open spec fn framed(bytes: Seq<u8>) -> Seq<u8> {
    Seq::new(
        BUFSIZE as nat,
        |i: int|
            if i < bytes.len() {
                bytes[i]
            } else {
                0u8
            },
    )
}

/// The length of the longest prefix of `bytes` without a zero byte.
pub open spec fn nonzero_prefix_len(bytes: Seq<u8>) -> nat
    decreases bytes.len(),
{
    if bytes.len() == 0 || bytes[0] == 0 {
        0
    } else {
        1 + nonzero_prefix_len(bytes.drop_first())
    }
}

/// The bytes of a received buffer up to its first zero byte.
pub open spec fn unframed(bytes: Seq<u8>) -> Seq<u8> {
    bytes.take(nonzero_prefix_len(bytes) as int)
}

/// The text that `String::from_utf8_lossy` makes of `bytes`.
pub uninterp spec fn utf8_lossy(bytes: Seq<u8>) -> Seq<char>;

/// Frames a message for a connection: its UTF-8 bytes, cut or padded with zeros to
/// `BUFSIZE` bytes.
pub fn frame_message(message: &str) -> (buf: Vec<u8>)
    ensures
        buf@ == framed(vstd::utf8::encode_utf8(message@)),
{
    let bytes = message.as_bytes();
    let mut buf: Vec<u8> = Vec::new();
    let mut i: usize = 0;
    while i < BUFSIZE
        invariant
            i <= BUFSIZE,
            bytes@ == vstd::utf8::encode_utf8(message@),
            buf@.len() == i,
            forall|j: int| 0 <= j < i ==> buf@[j] == framed(bytes@)[j],
        decreases BUFSIZE - i,
    {
        if i < bytes.len() {
            buf.push(bytes[i]);
        } else {
            buf.push(0u8);
        }
        i = i + 1;
    }
    assert(buf@ =~= framed(bytes@));
    buf
}

proof fn lemma_nonzero_prefix(bytes: Seq<u8>, n: int)
    requires
        0 <= n <= bytes.len(),
        forall|j: int| 0 <= j < n ==> bytes[j] != 0,
        n < bytes.len() ==> bytes[n] == 0,
    ensures
        nonzero_prefix_len(bytes) == n,
    decreases n,
{
    if n > 0 {
        let t = bytes.drop_first();
        assert forall|j: int| 0 <= j < n - 1 implies t[j] != 0 by {
            assert(t[j] == bytes[j + 1]);
        }
        if n < bytes.len() {
            assert(t[n - 1] == bytes[n]);
        }
        lemma_nonzero_prefix(t, n - 1);
    }
}

/// The bytes of a received buffer up to its first zero byte.
pub fn unframe(buf: &[u8]) -> (msg: Vec<u8>)
    ensures
        msg@ == unframed(buf@),
{
    let mut msg: Vec<u8> = Vec::new();
    let mut i: usize = 0;
    while i < buf.len() && buf[i] != 0
        invariant
            i <= buf@.len(),
            msg@ == buf@.take(i as int),
            forall|j: int| 0 <= j < i ==> buf@[j] != 0,
        decreases buf@.len() - i,
    {
        msg.push(buf[i]);
        proof {
            assert(buf@.take(i as int).push(buf@[i as int]) =~= buf@.take(i + 1));
        }
        i = i + 1;
    }
    proof {
        lemma_nonzero_prefix(buf@, i as int);
    }
    msg
}

/// The text of some bytes, as `String::from_utf8_lossy` reads it: a sequence that is not
/// valid UTF-8 is replaced by U+FFFD. The contract states the result on valid UTF-8,
/// where the documentation says the text is the one that the bytes encode; on other
/// bytes it only names the result.
#[verifier::external_body]
fn decode_lossy(bytes: &[u8]) -> (s: String)
    ensures
        s@ == utf8_lossy(bytes@),
        vstd::utf8::valid_utf8(bytes@) ==> s@ == vstd::utf8::decode_utf8(bytes@),
{
    String::from_utf8_lossy(bytes).into_owned()
}

/// The text of a received buffer: its bytes up to the first zero byte, read as UTF-8.
pub fn read_message(buf: &[u8]) -> (s: String)
    ensures
        s@ == utf8_lossy(unframed(buf@)),
        vstd::utf8::valid_utf8(unframed(buf@)) ==> s@ == vstd::utf8::decode_utf8(unframed(buf@)),
{
    let msg = unframe(buf);
    decode_lossy(msg.as_slice())
}

/// What is read from the frame of a message is the message, when its UTF-8 encoding fits
/// in a frame and holds no zero byte.
pub proof fn lemma_frame_roundtrip(message: Seq<char>)
    requires
        vstd::utf8::encode_utf8(message).len() <= BUFSIZE,
        !vstd::utf8::encode_utf8(message).contains(0u8),
    ensures
        unframed(framed(vstd::utf8::encode_utf8(message))) == vstd::utf8::encode_utf8(message),
        vstd::utf8::decode_utf8(unframed(framed(vstd::utf8::encode_utf8(message)))) == message,
{
    let b = vstd::utf8::encode_utf8(message);
    let f = framed(b);
    assert forall|j: int| 0 <= j < b.len() implies f[j] != 0 by {
        assert(f[j] == b[j]);
        if f[j] == 0 {
            assert(b.contains(0u8));
        }
    }
    lemma_nonzero_prefix(f, b.len() as int);
    assert(f.take(b.len() as int) =~= b);
    vstd::utf8::encode_utf8_decode_utf8(message);
}

} // verus!
