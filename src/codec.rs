//! The serialized form of a proof: a version byte, then the input, the
//! public values and the proof blob, each framed by its length as four
//! little-endian bytes.
use crate::machine::{le_bytes, le_word};
use crate::prover::MockProof;
use vstd::arithmetic::div_mod::{
    lemma_div_denominator, lemma_fundamental_div_mod, lemma_fundamental_div_mod_converse,
};
use vstd::prelude::*;

verus! {

/// The serialization version this library writes and reads.
pub const PROOF_VERSION: u8 = 1;

/// Why a byte string is not a serialized proof.
#[derive(Clone, Copy, Debug, PartialEq, Eq, Structural)]
pub enum DecodeError {
    /// The first byte names another version.
    UnsupportedVersion,
    /// The bytes end inside a length or a framed field.
    Truncated,
    /// Bytes remain after the last field.
    TrailingBytes,
}

/// A byte string preceded by its length.
#[verifier::opaque]
pub open spec fn frame(b: Seq<u8>) -> Seq<u8> {
    le_bytes(b.len() as u32) + b
}

/// The serialization of a proof's input, public values and blob.
pub open spec fn encode_spec(stdin: Seq<u8>, public_values: Seq<u8>, blob: Seq<u8>) -> Seq<u8> {
    seq![PROOF_VERSION] + frame(stdin) + frame(public_values) + frame(blob)
}

/// The framed field at `pos`, and the position after it.
pub open spec fn read_frame(b: Seq<u8>, pos: int) -> Option<(Seq<u8>, int)> {
    if pos + 4 > b.len() {
        None
    } else {
        let n = le_word(b[pos], b[pos + 1], b[pos + 2], b[pos + 3]) as int;
        if pos + 4 + n > b.len() {
            None
        } else {
            Some((b.subrange(pos + 4, pos + 4 + n), pos + 4 + n))
        }
    }
}

/// The input, public values and blob that `b` serializes, or why it is
/// not a serialized proof.
pub open spec fn decode_spec(b: Seq<u8>) -> Result<(Seq<u8>, Seq<u8>, Seq<u8>), DecodeError> {
    if b.len() == 0 {
        Err(DecodeError::Truncated)
    } else if b[0] != PROOF_VERSION {
        Err(DecodeError::UnsupportedVersion)
    } else {
        match read_frame(b, 1) {
            None => Err(DecodeError::Truncated),
            Some((s, p1)) => match read_frame(b, p1) {
                None => Err(DecodeError::Truncated),
                Some((v, p2)) => match read_frame(b, p2) {
                    None => Err(DecodeError::Truncated),
                    Some((x, p3)) => if p3 != b.len() {
                        Err(DecodeError::TrailingBytes)
                    } else {
                        Ok((s, v, x))
                    },
                },
            },
        }
    }
}

proof fn lemma_le_word_of_bytes(v: u32)
    ensures
        le_word(le_bytes(v)[0], le_bytes(v)[1], le_bytes(v)[2], le_bytes(v)[3]) == v,
{
    let x = v as int;
    lemma_fundamental_div_mod(x, 256);
    lemma_fundamental_div_mod(x / 256, 256);
    lemma_fundamental_div_mod(x / 65536, 256);
    lemma_div_denominator(x, 256, 256);
    lemma_div_denominator(x, 65536, 256);
}

proof fn lemma_bytes_of_le_word(b0: u8, b1: u8, b2: u8, b3: u8)
    ensures
        le_bytes(le_word(b0, b1, b2, b3)) == seq![b0, b1, b2, b3],
{
    let v = b0 + 256 * b1 + 65536 * b2 + 16777216 * b3;
    assert(le_word(b0, b1, b2, b3) as int == v);
    lemma_fundamental_div_mod_converse(v, 256, b1 + 256 * b2 + 65536 * b3, b0 as int);
    lemma_fundamental_div_mod_converse(b1 + 256 * b2 + 65536 * b3, 256, b2 + 256 * b3, b1 as int);
    lemma_fundamental_div_mod_converse(v, 65536, b2 + 256 * b3, b0 + 256 * b1);
    lemma_fundamental_div_mod_converse(b2 + 256 * b3, 256, b3 as int, b2 as int);
    lemma_fundamental_div_mod_converse(v, 16777216, b3 as int, b0 + 256 * b1 + 65536 * b2);
    assert(le_bytes(le_word(b0, b1, b2, b3)) =~= seq![b0, b1, b2, b3]);
}

proof fn lemma_frame_len(f: Seq<u8>)
    ensures
        #[trigger] frame(f).len() == f.len() + 4,
{
    reveal(frame);
}

proof fn lemma_read_frame_of(pre: Seq<u8>, f: Seq<u8>, post: Seq<u8>)
    requires
        f.len() <= u32::MAX,
    ensures
        read_frame(pre + frame(f) + post, pre.len() as int) == Some(
            (f, (pre.len() + 4 + f.len()) as int),
        ),
{
    reveal(frame);
    let b = pre + frame(f) + post;
    let p = pre.len() as int;
    let n = f.len() as u32;
    lemma_le_word_of_bytes(n);
    assert(b[p] == le_bytes(n)[0] && b[p + 1] == le_bytes(n)[1] && b[p + 2] == le_bytes(n)[2]
        && b[p + 3] == le_bytes(n)[3]);
    assert(b.subrange(p + 4, p + 4 + f.len()) =~= f);
}

proof fn lemma_encoded_frames(stdin: Seq<u8>, public_values: Seq<u8>, blob: Seq<u8>)
    requires
        stdin.len() <= u32::MAX,
        public_values.len() <= u32::MAX,
        blob.len() <= u32::MAX,
    ensures
        ({
            let b = encode_spec(stdin, public_values, blob);
            let p1 = 5 + stdin.len();
            let p2 = p1 + 4 + public_values.len();
            &&& b.len() == p2 + 4 + blob.len()
            &&& b[0] == PROOF_VERSION
            &&& read_frame(b, 1) == Some((stdin, p1 as int))
            &&& read_frame(b, p1 as int) == Some((public_values, p2 as int))
            &&& read_frame(b, p2 as int) == Some((blob, b.len() as int))
        }),
{
    let b = encode_spec(stdin, public_values, blob);
    lemma_frame_len(stdin);
    lemma_frame_len(public_values);
    lemma_frame_len(blob);
    let v = seq![PROOF_VERSION];
    let a = v + frame(stdin);
    let c = a + frame(public_values);
    assert(b =~= v + frame(stdin) + (frame(public_values) + frame(blob)));
    lemma_read_frame_of(v, stdin, frame(public_values) + frame(blob));
    assert(b =~= a + frame(public_values) + frame(blob));
    lemma_read_frame_of(a, public_values, frame(blob));
    assert(b =~= c + frame(blob) + Seq::<u8>::empty());
    lemma_read_frame_of(c, blob, Seq::<u8>::empty());
}

/// Decoding a serialized proof gives back its input, public values and blob.
pub proof fn lemma_codec_round_trip(stdin: Seq<u8>, public_values: Seq<u8>, blob: Seq<u8>)
    requires
        stdin.len() <= u32::MAX,
        public_values.len() <= u32::MAX,
        blob.len() <= u32::MAX,
    ensures
        decode_spec(encode_spec(stdin, public_values, blob)) == Ok::<_, DecodeError>(
            (stdin, public_values, blob),
        ),
{
    lemma_encoded_frames(stdin, public_values, blob);
}

proof fn lemma_frame_at(b: Seq<u8>, pos: int)
    requires
        0 <= pos,
        read_frame(b, pos) is Some,
    ensures
        b.subrange(pos, read_frame(b, pos)->Some_0.1) == frame(read_frame(b, pos)->Some_0.0),
{
    reveal(frame);
    let n = le_word(b[pos], b[pos + 1], b[pos + 2], b[pos + 3]);
    lemma_bytes_of_le_word(b[pos], b[pos + 1], b[pos + 2], b[pos + 3]);
    let f = read_frame(b, pos)->Some_0.0;
    assert(f.len() == n);
    assert(b.subrange(pos, pos + 4 + n) =~= le_bytes(f.len() as u32) + f);
}

/// A byte string decodes only when it is the serialization of what it
/// decodes to: no two serializations decode alike.
pub proof fn lemma_decode_unambiguous(b: Seq<u8>)
    ensures
        decode_spec(b) matches Ok((s, v, x)) ==> encode_spec(s, v, x) == b,
{
    if let Ok((s, v, x)) = decode_spec(b) {
        let p1 = read_frame(b, 1)->Some_0.1;
        let p2 = read_frame(b, p1)->Some_0.1;
        lemma_frame_len(s);
        lemma_frame_len(v);
        lemma_frame_len(x);
        lemma_frame_at(b, 1);
        lemma_frame_at(b, p1);
        lemma_frame_at(b, p2);
        assert(b =~= b.subrange(0, 1) + b.subrange(1, p1) + b.subrange(p1, p2) + b.subrange(
            p2,
            b.len() as int,
        ));
        assert(b.subrange(0, 1) =~= seq![PROOF_VERSION]);
    }
}

/// Appends `f` preceded by its length.
fn push_frame(out: &mut Vec<u8>, f: &Vec<u8>)
    requires
        f@.len() <= u32::MAX,
    ensures
        final(out)@ == old(out)@ + frame(f@),
{
    reveal(frame);
    let n = f.len() as u32;
    let ghost before = out@;
    out.push((n % 0x100) as u8);
    out.push(((n / 0x100) % 0x100) as u8);
    out.push(((n / 0x1_0000) % 0x100) as u8);
    out.push((n / 0x100_0000) as u8);
    let mut i: usize = 0;
    while i < f.len()
        invariant
            i <= f@.len(),
            out@ == before + le_bytes(n) + f@.take(i as int),
        decreases f@.len() - i,
    {
        out.push(f[i]);
        assert(f@.take(i + 1) =~= f@.take(i as int).push(f@[i as int]));
        i = i + 1;
    }
    assert(f@.take(i as int) =~= f@);
    assert(out@ =~= before + frame(f@));
}

/// Serializes a proof.
pub fn encode(p: &MockProof) -> (r: Vec<u8>)
    requires
        p.stdin@.len() <= u32::MAX,
        p.public_values@.len() <= u32::MAX,
        p.proof@.len() <= u32::MAX,
    ensures
        r@ == encode_spec(p.stdin@, p.public_values@, p.proof@),
{
    let mut out: Vec<u8> = Vec::new();
    out.push(PROOF_VERSION);
    proof {
        lemma_frame_len(p.stdin@);
        lemma_frame_len(p.public_values@);
        lemma_frame_len(p.proof@);
    }
    push_frame(&mut out, &p.stdin);
    push_frame(&mut out, &p.public_values);
    push_frame(&mut out, &p.proof);
    assert(out@ =~= encode_spec(p.stdin@, p.public_values@, p.proof@));
    out
}

/// Reads the framed field at `pos`.
fn take_frame(b: &Vec<u8>, pos: usize) -> (r: Option<(Vec<u8>, usize)>)
    requires
        pos <= b@.len(),
    ensures
        match read_frame(b@, pos as int) {
            Some((f, q)) => r is Some && r->Some_0.0@ == f && r->Some_0.1 == q,
            None => r is None,
        },
{
    if b.len() - pos < 4 {
        return None;
    }
    let n: u32 = b[pos] as u32 + 0x100 * (b[pos + 1] as u32) + 0x1_0000 * (b[pos + 2] as u32)
        + 0x100_0000 * (b[pos + 3] as u32);
    assert(n == le_word(b@[pos as int], b@[pos + 1], b@[pos + 2], b@[pos + 3]));
    let start = pos + 4;
    if b.len() - start < n as usize {
        return None;
    }
    let end = start + n as usize;
    let mut f: Vec<u8> = Vec::new();
    let mut i: usize = start;
    while i < end
        invariant
            start <= i <= end,
            end <= b@.len(),
            f@ == b@.subrange(start as int, i as int),
        decreases end - i,
    {
        f.push(b[i]);
        assert(b@.subrange(start as int, i + 1) =~= b@.subrange(start as int, i as int).push(
            b@[i as int],
        ));
        i = i + 1;
    }
    Some((f, end))
}

/// Reads a serialized proof; a blob that is truncated, of another version,
/// or followed by extra bytes is rejected.
pub fn decode(b: &Vec<u8>) -> (r: Result<MockProof, DecodeError>)
    ensures
        match decode_spec(b@) {
            Ok((s, v, x)) => r is Ok && r->Ok_0.stdin@ == s && r->Ok_0.public_values@ == v
                && r->Ok_0.proof@ == x,
            Err(e) => r == Err::<MockProof, DecodeError>(e),
        },
{
    if b.len() == 0 {
        return Err(DecodeError::Truncated);
    }
    if b[0] != PROOF_VERSION {
        return Err(DecodeError::UnsupportedVersion);
    }
    let (stdin, p1) = match take_frame(b, 1) {
        Some(x) => x,
        None => {
            return Err(DecodeError::Truncated);
        },
    };
    let (public_values, p2) = match take_frame(b, p1) {
        Some(x) => x,
        None => {
            return Err(DecodeError::Truncated);
        },
    };
    let (proof, p3) = match take_frame(b, p2) {
        Some(x) => x,
        None => {
            return Err(DecodeError::Truncated);
        },
    };
    if p3 != b.len() {
        return Err(DecodeError::TrailingBytes);
    }
    Ok(MockProof { proof, stdin, public_values })
}

} // verus!
