//! Sealing of secret strings and of file contents. File contents are cut
//! into chunks of 64 KiB; each chunk is sealed on its own and written as a
//! frame `length ‖ nonce ‖ ciphertext`, the length (4 bytes, little-endian)
//! counting the nonce and the ciphertext, so that a reader never has to
//! guess where a chunk ends.
use vstd::prelude::*;
use crate::enc_keys::{decrypt_with_key, encrypt_with_key, opened_text, opened_with, KEY_LEN, NONCE_LEN};
use crate::primitives::{base64_decode, base64_encode, string_from_utf8, AEAD_MAX_PLAINTEXT, AEAD_TAG_LEN};
use crate::structs::Database;

verus! {

/// Plaintext bytes per sealed chunk.
pub const CHUNK_SIZE: usize = 65536;

/// Bytes of the length field in front of each frame.
pub const FRAME_HEADER_LEN: usize = 4;

/// The string that a sealed base64 text opens to under `key`: the opened
/// bytes read as UTF-8.
pub open spec fn opened_string(text: Seq<char>, key: Seq<u8>) -> Option<Seq<char>> {
    match opened_text(text, key) {
        Some(b) => if vstd::utf8::valid_utf8(b) {
            Some(vstd::utf8::decode_utf8(b))
        } else {
            None
        },
        None => None,
    }
}

/// The value of four little-endian bytes.
pub open spec fn le32(b: Seq<u8>) -> nat {
    b[0] as nat + 256 * (b[1] as nat + 256 * (b[2] as nat + 256 * (b[3] as nat)))
}

/// The frames (`nonce ‖ ciphertext` each) of a framed stream, or `None`
/// when the stream is cut short or a length overruns it.
pub open spec fn frames_of(data: Seq<u8>) -> Option<Seq<Seq<u8>>>
    decreases data.len(),
{
    if data.len() == 0 {
        Some(Seq::empty())
    } else if data.len() < FRAME_HEADER_LEN {
        None
    } else {
        let n = le32(data.subrange(0, FRAME_HEADER_LEN as int));
        if FRAME_HEADER_LEN + n > data.len() {
            None
        } else {
            match frames_of(data.subrange(FRAME_HEADER_LEN + n, data.len() as int)) {
                Some(rest) => Some(seq![data.subrange(FRAME_HEADER_LEN as int, FRAME_HEADER_LEN + n)] + rest),
                None => None,
            }
        }
    }
}

/// The concatenated plaintexts of `frames` under `key`, if every one opens.
pub open spec fn opened_frames(key: Seq<u8>, frames: Seq<Seq<u8>>) -> Option<Seq<u8>>
    decreases frames.len(),
{
    if frames.len() == 0 {
        Some(Seq::empty())
    } else {
        match opened_with(key, frames[0]) {
            Some(p) => match opened_frames(key, frames.drop_first()) {
                Some(r) => Some(p + r),
                None => None,
            },
            None => None,
        }
    }
}

/// The file contents that a framed stream opens to under `key`.
pub open spec fn opened_file_data(key: Seq<u8>, data: Seq<u8>) -> Option<Seq<u8>> {
    match frames_of(data) {
        Some(frames) => opened_frames(key, frames),
        None => None,
    }
}

/// The frame for `body`: its length, then the body.
pub open spec fn framed(body: Seq<u8>) -> Seq<u8> {
    seq![
        (body.len() % 256) as u8,
        ((body.len() / 256) % 256) as u8,
        ((body.len() / 65536) % 256) as u8,
        ((body.len() / 16777216) % 256) as u8,
    ] + body
}

proof fn lemma_le32_of_framed(body: Seq<u8>)
    requires
        body.len() < 4294967296,
    ensures
        le32(framed(body).subrange(0, FRAME_HEADER_LEN as int)) == body.len(),
        framed(body).subrange(FRAME_HEADER_LEN as int, framed(body).len() as int) == body,
{
    let f = framed(body);
    let n = body.len();
    let h = f.subrange(0, FRAME_HEADER_LEN as int);
    assert(h[0] as nat == n % 256);
    assert(h[1] as nat == (n / 256) % 256);
    assert(h[2] as nat == (n / 65536) % 256);
    assert(h[3] as nat == (n / 16777216) % 256);
    assert(le32(h) == n) by (nonlinear_arith)
        requires
            h[0] as nat == n % 256,
            h[1] as nat == (n / 256) % 256,
            h[2] as nat == (n / 65536) % 256,
            h[3] as nat == (n / 16777216) % 256,
            n < 4294967296,
    {
    }
    assert(f.subrange(FRAME_HEADER_LEN as int, f.len() as int) =~= body);
}

proof fn lemma_frames_of_append_frame(prefix: Seq<u8>, body: Seq<u8>)
    requires
        body.len() < 4294967296,
        frames_of(prefix) is Some,
    ensures
        frames_of(prefix + framed(body)) == Some(frames_of(prefix).unwrap().push(body)),
    decreases prefix.len(),
{
    let whole = prefix + framed(body);
    lemma_le32_of_framed(body);
    if prefix.len() == 0 {
        assert(whole =~= framed(body));
        let n = le32(whole.subrange(0, FRAME_HEADER_LEN as int));
        assert(whole.subrange(FRAME_HEADER_LEN + n, whole.len() as int) =~= Seq::<u8>::empty());
        assert(whole.subrange(FRAME_HEADER_LEN as int, FRAME_HEADER_LEN + n) =~= body);
        assert(frames_of(Seq::<u8>::empty()) == Some(Seq::<Seq<u8>>::empty()));
        assert(seq![body] + Seq::<Seq<u8>>::empty() =~= Seq::<Seq<u8>>::empty().push(body));
    } else {
        let n = le32(prefix.subrange(0, FRAME_HEADER_LEN as int));
        let rest = prefix.subrange(FRAME_HEADER_LEN + n, prefix.len() as int);
        assert(whole.subrange(0, FRAME_HEADER_LEN as int) =~= prefix.subrange(0, FRAME_HEADER_LEN as int));
        assert(whole.subrange(FRAME_HEADER_LEN + n, whole.len() as int) =~= rest + framed(body));
        assert(whole.subrange(FRAME_HEADER_LEN as int, FRAME_HEADER_LEN + n) =~= prefix.subrange(
            FRAME_HEADER_LEN as int,
            FRAME_HEADER_LEN + n,
        ));
        lemma_frames_of_append_frame(rest, body);
        let first = prefix.subrange(FRAME_HEADER_LEN as int, FRAME_HEADER_LEN + n);
        let fr = frames_of(rest).unwrap();
        assert(seq![first] + fr.push(body) =~= (seq![first] + fr).push(body));
    }
}

proof fn lemma_opened_frames_push(key: Seq<u8>, frames: Seq<Seq<u8>>, body: Seq<u8>, p: Seq<u8>)
    requires
        opened_frames(key, frames) is Some,
        opened_with(key, body) == Some(p),
    ensures
        opened_frames(key, frames.push(body)) == Some(opened_frames(key, frames).unwrap() + p),
    decreases frames.len(),
{
    if frames.len() == 0 {
        assert(frames.push(body).drop_first() =~= Seq::<Seq<u8>>::empty());
        assert(frames.push(body)[0] == body);
        assert(opened_frames(key, Seq::<Seq<u8>>::empty()) == Some(Seq::<u8>::empty()));
        assert(p + Seq::<u8>::empty() =~= p);
        assert(Seq::<u8>::empty() + p =~= p);
    } else {
        assert(frames.push(body).drop_first() =~= frames.drop_first().push(body));
        assert(frames.push(body)[0] == frames[0]);
        lemma_opened_frames_push(key, frames.drop_first(), body, p);
        let p0 = opened_with(key, frames[0]).unwrap();
        let r = opened_frames(key, frames.drop_first()).unwrap();
        assert(p0 + (r + p) =~= (p0 + r) + p);
    }
}

proof fn lemma_utf8_at_least_one_byte_per_char(s: Seq<char>)
    ensures
        vstd::utf8::encode_utf8(s).len() >= s.len(),
    decreases s.len(),
{
    if s.len() > 0 {
        lemma_utf8_at_least_one_byte_per_char(s.drop_first());
    }
}

fn push_frame_header(out: &mut Vec<u8>, n: usize)
    requires
        n < 4294967296,
    ensures
        final(out)@ == old(out)@ + seq![
            (n % 256) as u8,
            ((n / 256) % 256) as u8,
            ((n / 65536) % 256) as u8,
            ((n / 16777216) % 256) as u8,
        ],
{
    out.push((n % 256) as u8);
    out.push(((n / 256) % 256) as u8);
    out.push(((n / 65536) % 256) as u8);
    out.push(((n / 16777216) % 256) as u8);
}

impl Database {
    /// Seals a string under an item key, as base64 of `nonce ‖ ciphertext`.
    /// Fails only on a string too long for the cipher.
    pub fn encrypt_string(&self, plaintext: &str, key: &[u8]) -> (r: Option<String>)
        requires
            key@.len() == KEY_LEN,
        ensures
            r is Some <==> vstd::utf8::encode_utf8(plaintext@).len() <= AEAD_MAX_PLAINTEXT,
            r matches Some(c) ==> opened_string(c@, key@) == Some(plaintext@),
            r matches Some(c) ==> c@.len() == 4 * ((NONCE_LEN + vstd::utf8::encode_utf8(plaintext@).len() + AEAD_TAG_LEN + 2) / 3),
            r matches Some(c) ==> c@.len() > plaintext@.len() && c@ != plaintext@,
    {
        let bytes = plaintext.as_bytes();
        match encrypt_with_key(key, bytes) {
            Some(data) => {
                let c = base64_encode(data.as_slice());
                proof {
                    vstd::utf8::encode_utf8_valid_utf8(plaintext@);
                    vstd::utf8::encode_utf8_decode_utf8(plaintext@);
                    lemma_utf8_at_least_one_byte_per_char(plaintext@);
                    let b = vstd::utf8::encode_utf8(plaintext@).len() as int;
                    let n = plaintext@.len() as int;
                    assert(4 * ((12 + b + 16 + 2) / 3) > n) by (nonlinear_arith)
                        requires b >= n, n >= 0;
                }
                Some(c)
            },
            None => None,
        }
    }

    /// Opens a sealed string; `None` on a wrong key, altered or malformed
    /// text, or bytes that are not UTF-8.
    pub fn decrypt_string(&self, encrypted_b64: &str, key: &[u8]) -> (r: Option<String>)
        requires
            key@.len() == KEY_LEN,
        ensures
            match r {
                Some(s) => opened_string(encrypted_b64@, key@) == Some(s@),
                None => opened_string(encrypted_b64@, key@) is None,
            },
    {
        let data = match base64_decode(encrypted_b64) {
            Some(d) => d,
            None => return None,
        };
        match decrypt_with_key(key, data.as_slice()) {
            Some(plain) => string_from_utf8(plain),
            None => None,
        }
    }

    /// Seals file contents chunk by chunk into a framed stream.
    pub fn encrypt_file_data(&self, data: &[u8], key: &[u8]) -> (r: Vec<u8>)
        requires
            key@.len() == KEY_LEN,
        ensures
            opened_file_data(key@, r@) == Some(data@),
    {
        let mut out: Vec<u8> = Vec::new();
        let mut pos: usize = 0;
        let ghost mut frames: Seq<Seq<u8>> = Seq::empty();
        assert(frames_of(out@) == Some(frames));
        assert(data@.subrange(0, 0) =~= Seq::<u8>::empty());
        while pos < data.len()
            invariant
                key@.len() == KEY_LEN,
                pos <= data@.len(),
                frames_of(out@) == Some(frames),
                opened_frames(key@, frames) == Some(data@.subrange(0, pos as int)),
            decreases data@.len() - pos,
        {
            let end: usize = if data.len() - pos > CHUNK_SIZE { pos + CHUNK_SIZE } else { data.len() };
            let chunk = &data[pos..end];
            let sealed = encrypt_with_key(key, chunk);
            let mut body = match sealed {
                Some(b) => b,
                None => {
                    assert(false);
                    Vec::new()
                },
            };
            let ghost b = body@;
            let ghost before = out@;
            push_frame_header(&mut out, body.len());
            out.append(&mut body);
            proof {
                assert(out@ =~= before + framed(b));
                lemma_frames_of_append_frame(before, b);
                lemma_opened_frames_push(key@, frames, b, chunk@);
                assert(data@.subrange(0, pos as int) + chunk@ =~= data@.subrange(0, end as int));
                frames = frames.push(b);
            }
            pos = end;
        }
        assert(data@.subrange(0, pos as int) =~= data@);
        out
    }

    /// Opens a framed stream under `key`; `None` when a frame is cut short
    /// or any chunk fails to open.
    pub fn decrypt_file_data(&self, framed_data: &[u8], key: &[u8]) -> (r: Option<Vec<u8>>)
        requires
            key@.len() == KEY_LEN,
        ensures
            match r {
                Some(p) => opened_file_data(key@, framed_data@) == Some(p@),
                None => opened_file_data(key@, framed_data@) is None,
            },
    {
        let mut out: Vec<u8> = Vec::new();
        let mut pos: usize = 0;
        let ghost whole = framed_data@;
        assert(whole.subrange(0, whole.len() as int) =~= whole);
        while pos < framed_data.len()
            invariant
                key@.len() == KEY_LEN,
                whole == framed_data@,
                pos <= whole.len(),
                opened_file_data(key@, whole) == match opened_file_data(key@, whole.subrange(pos as int, whole.len() as int)) {
                    Some(rest) => Some(out@ + rest),
                    None => None::<Seq<u8>>,
                },
            decreases whole.len() - pos,
        {
            let ghost tail = whole.subrange(pos as int, whole.len() as int);
            if framed_data.len() - pos < FRAME_HEADER_LEN {
                return None;
            }
            let n: u64 = framed_data[pos] as u64 + 256 * (framed_data[pos + 1] as u64 + 256 * (
            framed_data[pos + 2] as u64 + 256 * (framed_data[pos + 3] as u64)));
            assert(tail.subrange(0, FRAME_HEADER_LEN as int) =~= seq![
                framed_data@[pos as int],
                framed_data@[pos + 1],
                framed_data@[pos + 2],
                framed_data@[pos + 3],
            ]);
            assert(n == le32(tail.subrange(0, FRAME_HEADER_LEN as int)));
            if n > (framed_data.len() - pos - FRAME_HEADER_LEN) as u64 {
                return None;
            }
            let start = pos + FRAME_HEADER_LEN;
            let end = start + n as usize;
            let frame = &framed_data[start..end];
            assert(tail.subrange(FRAME_HEADER_LEN as int, FRAME_HEADER_LEN + n) =~= frame@);
            assert(tail.subrange(FRAME_HEADER_LEN + n, tail.len() as int) =~= whole.subrange(end as int, whole.len() as int));
            let ghost later = whole.subrange(end as int, whole.len() as int);
            match decrypt_with_key(key, frame) {
                Some(mut p) => {
                    proof {
                        match frames_of(later) {
                            Some(fr) => {
                                assert((seq![frame@] + fr).drop_first() =~= fr);
                                match opened_frames(key@, fr) {
                                    Some(rr) => {
                                        assert(out@ + (p@ + rr) =~= (out@ + p@) + rr);
                                    },
                                    None => {},
                                }
                            },
                            None => {},
                        }
                    }
                    out.append(&mut p);
                },
                None => {
                    proof {
                        match frames_of(later) {
                            Some(fr) => {
                                assert((seq![frame@] + fr)[0] == frame@);
                            },
                            None => {},
                        }
                    }
                    return None;
                },
            }
            pos = end;
        }
        assert(whole.subrange(pos as int, whole.len() as int) =~= Seq::<u8>::empty());
        assert(out@ + Seq::<u8>::empty() =~= out@);
        Some(out)
    }
}

} // verus!
