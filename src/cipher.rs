//! The encrypted artifact format: a header line, then frames
//! `<u32 big-endian length><AES-256-GCM ciphertext>`, each sealing one
//! 16 MiB block of plaintext under the nonce `base_nonce || frame_index`.

use vstd::prelude::*;
use vstd::string::*;
use vstd::slice::{slice_subrange, slice_to_vec};
use crate::text::{push_decimal, decimal, push_char};
use aes_gcm::aead::{Aead, KeyInit};
use base64::Engine;
use rand::TryRngCore;

verus! {

/// Plaintext bytes sealed per frame.
pub const CHUNK_SIZE: usize = 16777216;

/// Length of the random per-artifact nonce prefix.
pub const BASE_NONCE_LEN: usize = 8;

/// Length of the key that the agent's master key decodes to.
pub const KEY_LEN: usize = 32;

/// Length of the authentication tag appended to each ciphertext.
pub const TAG_LEN: usize = 16;

/// Frames per artifact: one per 32-bit frame index.
pub const MAX_FRAMES: u64 = 4294967296;

/// Why an artifact could not be sealed or opened.
#[derive(Clone, Copy, Debug, PartialEq, Eq)]
pub enum CipherError {
    /// The master key is not valid standard base64.
    InvalidBase64,
    /// The master key does not decode to 32 bytes.
    InvalidKeyLength,
    /// The header's base nonce is not 8 bytes long.
    InvalidNonce,
    /// More frames than 32-bit frame indices.
    FrameLimit,
    /// A frame announces more bytes than remain.
    TruncatedFrame,
    /// A frame failed authentication.
    Authentication,
    /// The cipher refused to seal a block.
    SealFailed,
}

/// Big-endian bytes of `x`, for `0 <= x < 2^32`.
pub open spec fn be32(x: int) -> Seq<u8> {
    seq![(x / 16777216) as u8, ((x / 65536) % 256) as u8, ((x / 256) % 256) as u8, (x % 256) as u8]
}

/// The number that four big-endian bytes denote.
pub open spec fn be32_value(b: Seq<u8>) -> int {
    (b[0] as int) * 16777216 + (b[1] as int) * 65536 + (b[2] as int) * 256 + (b[3] as int)
}

proof fn lemma_be32_round_trip(x: int)
    requires
        0 <= x < 4294967296,
    ensures
        be32(x).len() == 4,
        be32_value(be32(x)) == x,
{
    assert(be32_value(be32(x)) == x) by (nonlinear_arith)
        requires
            0 <= x < 4294967296,
    {
        assert(0 <= x / 16777216 < 256);
        assert(0 <= (x / 65536) % 256 < 256);
        assert(0 <= (x / 256) % 256 < 256);
        assert(0 <= x % 256 < 256);
    }
}

/// The 12-byte nonce of frame `index`: the base nonce, then the index in
/// big-endian order.
pub open spec fn nonce_for(base: Seq<u8>, index: int) -> Seq<u8> {
    base + be32(index)
}

/// Within one artifact no two frames share a nonce: distinct frame indices
/// give distinct 12-byte nonces.
pub proof fn lemma_nonces_distinct(base: Seq<u8>, i: int, j: int)
    requires
        base.len() == BASE_NONCE_LEN,
        0 <= i < MAX_FRAMES,
        0 <= j < MAX_FRAMES,
        i != j,
    ensures
        nonce_for(base, i) != nonce_for(base, j),
        nonce_for(base, i).len() == 12,
{
    lemma_be32_round_trip(i);
    lemma_be32_round_trip(j);
    if nonce_for(base, i) == nonce_for(base, j) {
        assert(nonce_for(base, i).subrange(8, 12) =~= be32(i));
        assert(nonce_for(base, j).subrange(8, 12) =~= be32(j));
    }
}

/// What AES-256-GCM makes of `plain` under `key` and `nonce` (ciphertext
/// followed by the tag).
pub uninterp spec fn gcm_sealed(key: Seq<u8>, nonce: Seq<u8>, plain: Seq<u8>) -> Seq<u8>;

/// What AES-256-GCM opening of `sealed` under `key` and `nonce` yields:
/// the plaintext, or nothing when authentication fails.
pub uninterp spec fn gcm_opened(key: Seq<u8>, nonce: Seq<u8>, sealed: Seq<u8>) -> Option<Seq<u8>>;

#[verifier::external_type_specification]
#[verifier::external_body]
pub struct ExAeadError(aes_gcm::Error);

/// Relies on `aes_gcm::Aes256Gcm` through `Aead::encrypt`: it fails only on
/// plaintexts over 2^36 bytes, and appends a 16-byte tag to a ciphertext as
/// long as the plaintext.
#[verifier::external_body]
fn gcm_encrypt(key: &[u8], nonce: &[u8], plain: &[u8]) -> (r: Result<Vec<u8>, aes_gcm::Error>)
    requires
        key@.len() == KEY_LEN,
        nonce@.len() == 12,
    ensures
        plain@.len() <= 68719476736 ==> r.is_ok(),
        r matches Ok(c) ==> c@ == gcm_sealed(key@, nonce@, plain@) && c@.len() == plain@.len() + TAG_LEN,
{
    let cipher = aes_gcm::Aes256Gcm::new(aes_gcm::Key::<aes_gcm::Aes256Gcm>::from_slice(key));
    cipher.encrypt(aes_gcm::Nonce::from_slice(nonce), plain)
}

/// Relies on `aes_gcm::Aes256Gcm` through `Aead::decrypt`: it returns the
/// plaintext when the tag checks, and opening what sealing produced under the
/// same key and nonce gives back the plaintext.
#[verifier::external_body]
fn gcm_decrypt(key: &[u8], nonce: &[u8], sealed: &[u8]) -> (r: Result<Vec<u8>, aes_gcm::Error>)
    requires
        key@.len() == KEY_LEN,
        nonce@.len() == 12,
    ensures
        gcm_opened(key@, nonce@, sealed@) == (match r {
            Ok(p) => Some(p@),
            Err(_) => None::<Seq<u8>>,
        }),
        forall|p: Seq<u8>|
            p.len() <= 68719476736 && sealed@ == #[trigger] gcm_sealed(key@, nonce@, p)
                ==> (r.is_ok() && r.unwrap()@ == p),
{
    let cipher = aes_gcm::Aes256Gcm::new(aes_gcm::Key::<aes_gcm::Aes256Gcm>::from_slice(key));
    cipher.decrypt(aes_gcm::Nonce::from_slice(nonce), sealed)
}


/// One frame: the ciphertext's length as four big-endian bytes, then the
/// ciphertext.
pub open spec fn frame_of(sealed: Seq<u8>) -> Seq<u8> {
    be32(sealed.len() as int) + sealed
}

/// The 16 MiB blocks of `p`, in order; the last one may be shorter, and an
/// empty input has none.
pub open spec fn chunks_of(p: Seq<u8>) -> Seq<Seq<u8>>
    decreases p.len(),
{
    if p.len() == 0 {
        Seq::empty()
    } else if p.len() <= CHUNK_SIZE {
        seq![p]
    } else {
        seq![p.subrange(0, CHUNK_SIZE as int)] + chunks_of(p.subrange(CHUNK_SIZE as int, p.len() as int))
    }
}

/// The frames sealing `chunks`, the first one under frame index `first`.
pub open spec fn sealed_frames(key: Seq<u8>, base: Seq<u8>, chunks: Seq<Seq<u8>>, first: int) -> Seq<u8>
    decreases chunks.len(),
{
    if chunks.len() == 0 {
        Seq::empty()
    } else {
        frame_of(gcm_sealed(key, nonce_for(base, first), chunks[0]))
            + sealed_frames(key, base, chunks.drop_first(), first + 1)
    }
}

/// Each block's ciphertext is the block plus a tag, as the cipher produces.
pub open spec fn seals_fit(key: Seq<u8>, base: Seq<u8>, chunks: Seq<Seq<u8>>, first: int) -> bool {
    forall|i: int| 0 <= i < chunks.len() ==>
        (#[trigger] gcm_sealed(key, nonce_for(base, first + i), chunks[i])).len() == chunks[i].len() + TAG_LEN
}

/// The framed body that sealing `plain` with `key` and `base` yields.
pub open spec fn sealed_body(key: Seq<u8>, base: Seq<u8>, plain: Seq<u8>) -> Seq<u8> {
    sealed_frames(key, base, chunks_of(plain), 0)
}

/// `body` is what sealing `plain` produced under `key` and `base`.
pub open spec fn seals(key: Seq<u8>, base: Seq<u8>, plain: Seq<u8>, body: Seq<u8>) -> bool {
    &&& key.len() == KEY_LEN
    &&& base.len() == BASE_NONCE_LEN
    &&& chunks_of(plain).len() <= MAX_FRAMES
    &&& seals_fit(key, base, chunks_of(plain), 0)
    &&& body == sealed_body(key, base, plain)
}

proof fn lemma_chunks_step(q: Seq<u8>)
    ensures
        q.len() == 0 ==> chunks_of(q).len() == 0,
        q.len() > 0 ==> {
            let m = if q.len() <= CHUNK_SIZE { q.len() as int } else { CHUNK_SIZE as int };
            &&& chunks_of(q).len() >= 1
            &&& chunks_of(q)[0] == q.subrange(0, m)
            &&& chunks_of(q).drop_first() == chunks_of(q.subrange(m, q.len() as int))
        },
{
    if q.len() > 0 {
        if q.len() <= CHUNK_SIZE {
            assert(q.subrange(0, q.len() as int) =~= q);
            assert(chunks_of(q.subrange(q.len() as int, q.len() as int)).len() == 0);
            assert(chunks_of(q).drop_first() =~= chunks_of(q.subrange(q.len() as int, q.len() as int)));
        } else {
            let rest = chunks_of(q.subrange(CHUNK_SIZE as int, q.len() as int));
            assert(chunks_of(q).drop_first() =~= rest);
        }
    }
}

proof fn lemma_frames_head(key: Seq<u8>, base: Seq<u8>, chunks: Seq<Seq<u8>>, first: int)
    requires
        chunks.len() > 0,
        seals_fit(key, base, chunks, first),
        chunks[0].len() <= CHUNK_SIZE,
    ensures
        ({
            let ct = gcm_sealed(key, nonce_for(base, first), chunks[0]);
            &&& ct.len() == chunks[0].len() + TAG_LEN
            &&& sealed_frames(key, base, chunks, first)
                == be32(ct.len() as int) + ct + sealed_frames(key, base, chunks.drop_first(), first + 1)
            &&& be32_value(be32(ct.len() as int)) == ct.len()
            &&& be32(ct.len() as int).len() == 4
        }),
        seals_fit(key, base, chunks.drop_first(), first + 1),
{
    let ct = gcm_sealed(key, nonce_for(base, first), chunks[0]);
    assert(gcm_sealed(key, nonce_for(base, first + 0), chunks[0]).len() == chunks[0].len() + TAG_LEN);
    assert(first + 0 == first);
    lemma_be32_round_trip(ct.len() as int);
    assert forall|i: int| 0 <= i < chunks.drop_first().len() implies
        (#[trigger] gcm_sealed(key, nonce_for(base, first + 1 + i), chunks.drop_first()[i])).len()
            == chunks.drop_first()[i].len() + TAG_LEN by {
        assert(first + 1 + i == first + (i + 1));
        assert(chunks.drop_first()[i] == chunks[i + 1]);
        assert(gcm_sealed(key, nonce_for(base, first + (i + 1)), chunks[i + 1]).len() == chunks[i + 1].len() + TAG_LEN);
    }
}

proof fn lemma_frames_split(key: Seq<u8>, base: Seq<u8>, a: Seq<Seq<u8>>, b: Seq<Seq<u8>>, first: int)
    ensures
        sealed_frames(key, base, a + b, first)
            == sealed_frames(key, base, a, first) + sealed_frames(key, base, b, first + a.len()),
    decreases a.len(),
{
    if a.len() == 0 {
        assert(a + b =~= b);
    } else {
        assert((a + b).drop_first() =~= a.drop_first() + b);
        assert((a + b)[0] == a[0]);
        lemma_frames_split(key, base, a.drop_first(), b, first + 1);
    }
}

proof fn lemma_frames_nonempty(key: Seq<u8>, base: Seq<u8>, chunks: Seq<Seq<u8>>, first: int)
    ensures
        chunks.len() > 0 <==> sealed_frames(key, base, chunks, first).len() > 0,
        chunks.len() > 0 ==> sealed_frames(key, base, chunks, first).len() >= 4,
{
}

proof fn lemma_next_frame(key: Seq<u8>, base: Seq<u8>, q: Seq<u8>, rest: Seq<u8>, first: int)
    requires
        rest == sealed_frames(key, base, chunks_of(q), first),
        seals_fit(key, base, chunks_of(q), first),
        rest.len() > 0,
    ensures
        ({
            let m = if q.len() <= CHUNK_SIZE { q.len() as int } else { CHUNK_SIZE as int };
            let c = q.subrange(0, m);
            let ct = gcm_sealed(key, nonce_for(base, first), c);
            let tail = q.subrange(m, q.len() as int);
            &&& q.len() > 0
            &&& c.len() <= CHUNK_SIZE
            &&& rest.len() >= 4
            &&& be32_value(rest.subrange(0, 4)) == ct.len()
            &&& rest.len() - 4 >= ct.len()
            &&& rest.subrange(4, 4 + ct.len() as int) == ct
            &&& rest.subrange(4 + ct.len() as int, rest.len() as int)
                == sealed_frames(key, base, chunks_of(tail), first + 1)
            &&& seals_fit(key, base, chunks_of(tail), first + 1)
            &&& chunks_of(q).len() == 1 + chunks_of(tail).len()
        }),
{
    lemma_frames_nonempty(key, base, chunks_of(q), first);
    lemma_chunks_step(q);
    lemma_frames_head(key, base, chunks_of(q), first);
    let m = if q.len() <= CHUNK_SIZE { q.len() as int } else { CHUNK_SIZE as int };
    let c = q.subrange(0, m);
    let ct = gcm_sealed(key, nonce_for(base, first), c);
    let nxt = sealed_frames(key, base, chunks_of(q).drop_first(), first + 1);
    assert(rest =~= be32(ct.len() as int) + ct + nxt);
    assert(rest.subrange(0, 4) =~= be32(ct.len() as int));
    assert(rest.subrange(4, 4 + ct.len() as int) =~= ct);
    assert(rest.subrange(4 + ct.len() as int, rest.len() as int) =~= nxt);
}

/// Sealing state of one artifact: the key, the base nonce, the index of the
/// next frame and the nonces used so far.
pub struct Encryptor {
    key: Vec<u8>,
    base_nonce: Vec<u8>,
    next: u64,
    used: Ghost<Seq<Seq<u8>>>,
}

impl Encryptor {
    /// The key.
    pub closed spec fn key_bytes(&self) -> Seq<u8> {
        self.key@
    }

    /// The base nonce.
    pub closed spec fn base(&self) -> Seq<u8> {
        self.base_nonce@
    }

    /// The index of the next frame.
    pub closed spec fn next_index(&self) -> nat {
        self.next as nat
    }

    /// The nonces used so far, in order.
    pub closed spec fn nonces_used(&self) -> Seq<Seq<u8>> {
        self.used@
    }

    /// Frames sealed so far.
    pub fn frames_sealed(&self) -> (r: u64)
        ensures
            r == self.next_index(),
    {
        self.next
    }

    /// Nonces used so far are those of frames `0..next`, in order.
    pub closed spec fn wf(&self) -> bool {
        &&& self.key@.len() == KEY_LEN
        &&& self.base_nonce@.len() == BASE_NONCE_LEN
        &&& self.next <= MAX_FRAMES
        &&& self.used@ == Seq::new(self.next as nat, |i: int| nonce_for(self.base_nonce@, i))
    }

    /// Starts sealing with `key` (32 bytes) and `base_nonce` (8 bytes).
    pub fn new(key: &[u8], base_nonce: &[u8]) -> (r: Result<Encryptor, CipherError>)
        ensures
            key@.len() != KEY_LEN ==> r == Err::<Encryptor, CipherError>(CipherError::InvalidKeyLength),
            key@.len() == KEY_LEN && base_nonce@.len() != BASE_NONCE_LEN
                ==> r == Err::<Encryptor, CipherError>(CipherError::InvalidNonce),
            key@.len() == KEY_LEN && base_nonce@.len() == BASE_NONCE_LEN ==> (r matches Ok(e) && e.wf()
                && e.key_bytes() == key@ && e.base() == base_nonce@ && e.next_index() == 0),
    {
        if key.len() != KEY_LEN {
            return Err(CipherError::InvalidKeyLength);
        }
        if base_nonce.len() != BASE_NONCE_LEN {
            return Err(CipherError::InvalidNonce);
        }
        let e = Encryptor {
            key: slice_to_vec(key),
            base_nonce: slice_to_vec(base_nonce),
            next: 0,
            used: Ghost(Seq::empty()),
        };
        assert(e.used@ =~= Seq::new(0, |i: int| nonce_for(e.base_nonce@, i)));
        Ok(e)
    }

    /// The nonce of the next frame: the base nonce, then the frame index in
    /// big-endian order.
    fn next_nonce(&self) -> (r: Vec<u8>)
        requires
            self.wf(),
            self.next < MAX_FRAMES,
        ensures
            r@ == nonce_for(self.base_nonce@, self.next as int),
    {
        chunk_nonce(&self.base_nonce, self.next)
    }

    /// Seals one block of at most 16 MiB as the next frame, or refuses once
    /// every 32-bit frame index has been used.
    pub fn seal_next(&mut self, chunk: &[u8]) -> (r: Result<Vec<u8>, CipherError>)
        requires
            old(self).wf(),
            chunk@.len() <= CHUNK_SIZE,
        ensures
            final(self).wf(),
            final(self).key_bytes() == old(self).key_bytes(),
            final(self).base() == old(self).base(),
            old(self).next_index() < MAX_FRAMES <==> r.is_ok(),
            r.is_err() ==> r == Err::<Vec<u8>, CipherError>(CipherError::FrameLimit)
                && final(self).next_index() == old(self).next_index() && final(self).nonces_used() == old(self).nonces_used(),
            r.is_ok() ==> ({
                let ct = gcm_sealed(old(self).key_bytes(), nonce_for(old(self).base(), old(self).next_index() as int), chunk@);
                &&& r.unwrap()@ == frame_of(ct)
                &&& ct.len() == chunk@.len() + TAG_LEN
                &&& final(self).next_index() == old(self).next_index() + 1
                &&& final(self).nonces_used() == old(self).nonces_used().push(
                    nonce_for(old(self).base(), old(self).next_index() as int))
            }),
    {
        if self.next >= MAX_FRAMES {
            return Err(CipherError::FrameLimit);
        }
        let nonce = self.next_nonce();
        let sealed = gcm_encrypt(self.key.as_slice(), nonce.as_slice(), chunk);
        match sealed {
            Ok(ct) => {
                let len = ct.len() as u64;
                let mut out = be32_bytes(len);
                let mut ctv = ct;
                out.append(&mut ctv);
                let ghost old_next = self.next;
                self.next = self.next + 1;
                self.used = Ghost(self.used@.push(nonce@));
                assert(self.used@ =~= Seq::new(self.next as nat, |i: int| nonce_for(self.base_nonce@, i)));
                Ok(out)
            },
            Err(_) => {
                assert(false);
                Err(CipherError::SealFailed)
            },
        }
    }
}

/// Every nonce that an encryptor has used is different from every other.
pub proof fn lemma_encryptor_nonces_unique(e: Encryptor)
    requires
        e.wf(),
    ensures
        forall|i: int, j: int| 0 <= i < j < e.nonces_used().len() ==> e.nonces_used()[i] != e.nonces_used()[j],
{
    assert forall|i: int, j: int| 0 <= i < j < e.nonces_used().len() implies e.nonces_used()[i] != e.nonces_used()[j] by {
        lemma_nonces_distinct(e.base_nonce@, i, j);
    }
}

/// Four big-endian bytes of `x`.
fn be32_bytes(x: u64) -> (r: Vec<u8>)
    requires
        x < 4294967296,
    ensures
        r@ == be32(x as int),
{
    let mut v: Vec<u8> = Vec::new();
    v.push((x / 16777216) as u8);
    v.push(((x / 65536) % 256) as u8);
    v.push(((x / 256) % 256) as u8);
    v.push((x % 256) as u8);
    assert(v@ =~= be32(x as int));
    v
}

/// The nonce of frame `index`: `base` followed by the index in big-endian order.
pub fn chunk_nonce(base: &Vec<u8>, index: u64) -> (r: Vec<u8>)
    requires
        index < MAX_FRAMES,
    ensures
        r@ == nonce_for(base@, index as int),
{
    let mut v = base.clone();
    let mut tail = be32_bytes(index);
    v.append(&mut tail);
    v
}

/// Opening state of one artifact: the key, the base nonce and the index of
/// the next frame.
pub struct Decryptor {
    pub key: Vec<u8>,
    pub base_nonce: Vec<u8>,
    pub next: u64,
}

impl Decryptor {
    pub open spec fn wf(&self) -> bool {
        &&& self.key@.len() == KEY_LEN
        &&& self.base_nonce@.len() == BASE_NONCE_LEN
        &&& self.next <= MAX_FRAMES
    }

    /// Starts opening with `key` (32 bytes) and the header's `base_nonce` (8 bytes).
    pub fn new(key: &[u8], base_nonce: &[u8]) -> (r: Result<Decryptor, CipherError>)
        ensures
            key@.len() != KEY_LEN ==> r == Err::<Decryptor, CipherError>(CipherError::InvalidKeyLength),
            key@.len() == KEY_LEN && base_nonce@.len() != BASE_NONCE_LEN
                ==> r == Err::<Decryptor, CipherError>(CipherError::InvalidNonce),
            key@.len() == KEY_LEN && base_nonce@.len() == BASE_NONCE_LEN ==> (r matches Ok(d) && d.wf()
                && d.key@ == key@ && d.base_nonce@ == base_nonce@ && d.next == 0),
    {
        if key.len() != KEY_LEN {
            return Err(CipherError::InvalidKeyLength);
        }
        if base_nonce.len() != BASE_NONCE_LEN {
            return Err(CipherError::InvalidNonce);
        }
        Ok(Decryptor { key: slice_to_vec(key), base_nonce: slice_to_vec(base_nonce), next: 0 })
    }

    /// Opens the ciphertext of the next frame.
    pub fn open_next(&mut self, sealed: &[u8]) -> (r: Result<Vec<u8>, CipherError>)
        requires
            old(self).wf(),
        ensures
            final(self).wf(),
            final(self).key@ == old(self).key@,
            final(self).base_nonce@ == old(self).base_nonce@,
            old(self).next == MAX_FRAMES ==> r == Err::<Vec<u8>, CipherError>(CipherError::FrameLimit)
                && final(self).next == old(self).next,
            old(self).next < MAX_FRAMES ==> ({
                let nonce = nonce_for(old(self).base_nonce@, old(self).next as int);
                &&& gcm_opened(old(self).key@, nonce, sealed@) == (match r {
                    Ok(p) => Some(p@),
                    Err(_) => None::<Seq<u8>>,
                })
                &&& r.is_ok() ==> final(self).next == old(self).next + 1
                &&& r.is_err() ==> r == Err::<Vec<u8>, CipherError>(CipherError::Authentication)
                    && final(self).next == old(self).next
                &&& forall|p: Seq<u8>| p.len() <= CHUNK_SIZE
                    && sealed@ == #[trigger] gcm_sealed(old(self).key@, nonce, p)
                    ==> r.is_ok() && r.unwrap()@ == p
            }),
    {
        if self.next >= MAX_FRAMES {
            return Err(CipherError::FrameLimit);
        }
        let nonce = chunk_nonce(&self.base_nonce, self.next);
        match gcm_decrypt(self.key.as_slice(), nonce.as_slice(), sealed) {
            Ok(p) => {
                self.next = self.next + 1;
                Ok(p)
            },
            Err(_) => Err(CipherError::Authentication),
        }
    }
}


/// Seals `plain` into frames of 16 MiB blocks under `key` and `base_nonce`.
/// Fails only on a malformed key or nonce, or when the plaintext needs more
/// frames than there are 32-bit frame indices.
pub fn seal_body(key: &[u8], base_nonce: &[u8], plain: &[u8]) -> (r: Result<Vec<u8>, CipherError>)
    ensures
        key@.len() != KEY_LEN ==> r == Err::<Vec<u8>, CipherError>(CipherError::InvalidKeyLength),
        key@.len() == KEY_LEN && base_nonce@.len() != BASE_NONCE_LEN
            ==> r == Err::<Vec<u8>, CipherError>(CipherError::InvalidNonce),
        key@.len() == KEY_LEN && base_nonce@.len() == BASE_NONCE_LEN ==> {
            &&& (r.is_ok() <==> chunks_of(plain@).len() <= MAX_FRAMES)
            &&& (r.is_err() ==> r == Err::<Vec<u8>, CipherError>(CipherError::FrameLimit))
            &&& (r.is_ok() ==> seals(key@, base_nonce@, plain@, r.unwrap()@))
        },
{
    let mut enc = match Encryptor::new(key, base_nonce) {
        Ok(e) => e,
        Err(e) => return Err(e),
    };
    let ghost k = key@;
    let ghost b = base_nonce@;
    let ghost p = plain@;
    let mut out: Vec<u8> = Vec::new();
    let mut pos: usize = 0;
    let ghost mut done: Seq<Seq<u8>> = Seq::empty();
    assert(p.subrange(0, p.len() as int) =~= p);
    assert(done + chunks_of(p) =~= chunks_of(p));
    while pos < plain.len()
        invariant
            enc.wf(),
            enc.key@ == k,
            enc.base_nonce@ == b,
            k == key@,
            b == base_nonce@,
            p == plain@,
            pos <= p.len(),
            enc.next == done.len(),
            chunks_of(p) == done + chunks_of(p.subrange(pos as int, p.len() as int)),
            out@ == sealed_frames(k, b, done, 0),
            seals_fit(k, b, done, 0),
        decreases p.len() - pos,
    {
        let ghost q = p.subrange(pos as int, p.len() as int);
        proof {
            lemma_chunks_step(q);
        }
        let end: usize = if plain.len() - pos <= CHUNK_SIZE { plain.len() } else { pos + CHUNK_SIZE };
        let chunk = slice_subrange(plain, pos, end);
        assert(chunk@ =~= q.subrange(0, (end - pos) as int));
        let ghost before = enc.next;
        match enc.seal_next(chunk) {
            Ok(frame) => {
                let mut f = frame;
                out.append(&mut f);
                proof {
                    let c = chunk@;
                    lemma_frames_split(k, b, done, seq![c], 0);
                    assert(seq![c].drop_first() =~= Seq::<Seq<u8>>::empty());
                    assert(seq![c][0] == c);
                    assert(sealed_frames(k, b, Seq::<Seq<u8>>::empty(), done.len() as int + 1) =~= Seq::<u8>::empty());
                    assert(sealed_frames(k, b, seq![c], done.len() as int)
                        =~= frame_of(gcm_sealed(k, nonce_for(b, done.len() as int), c)));
                    let nd = done.push(c);
                    assert(q.subrange((end - pos) as int, q.len() as int)
                        =~= p.subrange(end as int, p.len() as int));
                    assert(chunks_of(p) =~= nd + chunks_of(p.subrange(end as int, p.len() as int))) by {
                        assert(chunks_of(q) =~= seq![c] + chunks_of(q).drop_first());
                    }
                    assert(seq![c] =~= nd.subrange(done.len() as int, nd.len() as int));
                    assert(done + seq![c] =~= nd);
                    assert forall|i: int| 0 <= i < nd.len() implies
                        (#[trigger] gcm_sealed(k, nonce_for(b, 0 + i), nd[i])).len() == nd[i].len() + TAG_LEN by {
                        if i < done.len() {
                            assert(nd[i] == done[i]);
                        } else {
                            assert(nd[i] == c);
                        }
                    }
                    done = nd;
                }
                pos = end;
            },
            Err(e) => {
                proof {
                    assert(chunks_of(p).len() > MAX_FRAMES);
                }
                return Err(e);
            },
        }
    }
    proof {
        assert(p.subrange(p.len() as int, p.len() as int) =~= Seq::<u8>::empty());
        lemma_chunks_step(Seq::<u8>::empty());
        assert(done + chunks_of(Seq::<u8>::empty()) =~= done);
    }
    Ok(out)
}

/// What opening the frames of `w` yields, the first under frame index
/// `index`: the plaintexts in order, when the last frame ends exactly at the
/// end of `w`; or the first error (a tail shorter than a length prefix is a
/// truncated frame).
pub open spec fn opened_frames(key: Seq<u8>, base: Seq<u8>, w: Seq<u8>, index: int) -> Result<Seq<u8>, CipherError>
    decreases w.len(),
{
    if w.len() == 0 {
        Ok(Seq::empty())
    } else if w.len() < 4 {
        Err(CipherError::TruncatedFrame)
    } else {
        let n = be32_value(w.subrange(0, 4));
        if w.len() - 4 < n || n < 0 {
            Err(CipherError::TruncatedFrame)
        } else if index < 0 || index >= MAX_FRAMES {
            Err(CipherError::FrameLimit)
        } else {
            match gcm_opened(key, nonce_for(base, index), w.subrange(4, 4 + n)) {
                None => Err(CipherError::Authentication),
                Some(p) => with_prefix(p, opened_frames(key, base, w.subrange(4 + n, w.len() as int), index + 1)),
            }
        }
    }
}

/// `r` with `o` put in front of its plaintext.
pub open spec fn with_prefix(o: Seq<u8>, r: Result<Seq<u8>, CipherError>) -> Result<Seq<u8>, CipherError> {
    match r {
        Ok(x) => Ok(o + x),
        Err(e) => Err(e),
    }
}

proof fn lemma_opened_step(key: Seq<u8>, base: Seq<u8>, w: Seq<u8>, pos: int, index: int)
    requires
        0 <= pos <= w.len(),
        0 <= index,
    ensures
        w.len() - pos == 0 ==> opened_frames(key, base, w.subrange(pos, w.len() as int), index) == Ok::<Seq<u8>, CipherError>(Seq::empty()),
        0 < w.len() - pos < 4 ==> opened_frames(key, base, w.subrange(pos, w.len() as int), index) == Err::<Seq<u8>, CipherError>(CipherError::TruncatedFrame),
        w.len() - pos >= 4 ==> {
            let n = be32_value(w.subrange(pos, pos + 4));
            &&& n >= 0
            &&& opened_frames(key, base, w.subrange(pos, w.len() as int), index) == if w.len() - pos - 4 < n {
                Err(CipherError::TruncatedFrame)
            } else if index >= MAX_FRAMES {
                Err(CipherError::FrameLimit)
            } else {
                match gcm_opened(key, nonce_for(base, index), w.subrange(pos + 4, pos + 4 + n)) {
                    None => Err(CipherError::Authentication),
                    Some(p) => with_prefix(p, opened_frames(key, base, w.subrange(pos + 4 + n, w.len() as int), index + 1)),
                }
            }
        },
{
    let rest = w.subrange(pos, w.len() as int);
    if w.len() - pos >= 4 {
        assert(rest.subrange(0, 4) =~= w.subrange(pos, pos + 4));
        let n = be32_value(w.subrange(pos, pos + 4));
        if w.len() - pos - 4 >= n && n >= 0 {
            assert(rest.subrange(4, 4 + n) =~= w.subrange(pos + 4, pos + 4 + n));
            assert(rest.subrange(4 + n, rest.len() as int) =~= w.subrange(pos + 4 + n, w.len() as int));
        }
    }
}

proof fn lemma_with_prefix(a: Seq<u8>, b: Seq<u8>, r: Result<Seq<u8>, CipherError>)
    ensures
        with_prefix(a, with_prefix(b, r)) == with_prefix(a + b, r),
        with_prefix(Seq::empty(), r) == r,
{
    match r {
        Ok(x) => {
            assert(a + (b + x) =~= (a + b) + x);
            assert(Seq::<u8>::empty() + x =~= x);
        },
        Err(_) => {},
    }
}

/// How far opening has come on `body` (`w`) when `plain` (`p`) is what was
/// sealed: `o` is the plaintext recovered so far, `pos` the bytes consumed.
#[verifier::opaque]
pub open spec fn open_progress(key: Seq<u8>, base: Seq<u8>, p: Seq<u8>, w: Seq<u8>, pos: int, o: Seq<u8>, next: int) -> bool {
    let q = p.subrange(o.len() as int, p.len() as int);
    &&& o.len() <= p.len()
    &&& o == p.subrange(0, o.len() as int)
    &&& w.subrange(pos, w.len() as int) == sealed_frames(key, base, chunks_of(q), next)
    &&& seals_fit(key, base, chunks_of(q), next)
    &&& next + chunks_of(q).len() <= MAX_FRAMES
}

/// The block that the next frame seals when `plain` (`p`) was sealed and `o`
/// has been recovered so far.
pub open spec fn next_block(p: Seq<u8>, o: Seq<u8>) -> Seq<u8> {
    let q = p.subrange(o.len() as int, p.len() as int);
    let m = if q.len() <= CHUNK_SIZE { q.len() as int } else { CHUNK_SIZE as int };
    q.subrange(0, m)
}

/// What the next frame of `w` at `pos` looks like when `plain` was sealed.
#[verifier::opaque]
pub open spec fn frame_at(key: Seq<u8>, base: Seq<u8>, p: Seq<u8>, w: Seq<u8>, pos: int, o: Seq<u8>, next: int) -> bool {
    let c = next_block(p, o);
    let ct = gcm_sealed(key, nonce_for(base, next), c);
    &&& c.len() <= CHUNK_SIZE
    &&& c.len() > 0
    &&& next < MAX_FRAMES
    &&& 0 <= pos
    &&& w.len() - pos >= 4
    &&& be32_value(w.subrange(pos, pos + 4)) == ct.len()
    &&& w.len() - pos - 4 >= ct.len()
    &&& w.subrange(pos + 4, pos + 4 + ct.len() as int) == ct
}

#[verifier::rlimit(100)]
#[verifier::spinoff_prover]
proof fn lemma_frame_at(key: Seq<u8>, base: Seq<u8>, p: Seq<u8>, w: Seq<u8>, pos: int, o: Seq<u8>, next: int)
    requires
        open_progress(key, base, p, w, pos, o, next),
        0 <= pos < w.len(),
    ensures
        frame_at(key, base, p, w, pos, o, next),
{
    reveal(open_progress);
    reveal(frame_at);
    let q = p.subrange(o.len() as int, p.len() as int);
    let rest = w.subrange(pos, w.len() as int);
    lemma_next_frame(key, base, q, rest, next);
    let c = next_block(p, o);
    let ct = gcm_sealed(key, nonce_for(base, next), c);
    assert(rest.subrange(0, 4) =~= w.subrange(pos, pos + 4));
    assert(rest.subrange(4, 4 + ct.len() as int) =~= w.subrange(pos + 4, pos + 4 + ct.len() as int));
}

#[verifier::rlimit(100)]
#[verifier::spinoff_prover]
proof fn lemma_open_advance(key: Seq<u8>, base: Seq<u8>, p: Seq<u8>, w: Seq<u8>, pos: int, o: Seq<u8>, next: int)
    requires
        open_progress(key, base, p, w, pos, o, next),
        0 <= pos < w.len(),
    ensures
        open_progress(key, base, p, w,
            pos + 4 + gcm_sealed(key, nonce_for(base, next), next_block(p, o)).len(),
            o + next_block(p, o), next + 1),
{
    let q = p.subrange(o.len() as int, p.len() as int);
    let rest = w.subrange(pos, w.len() as int);
    assert(o.len() <= p.len() && o == p.subrange(0, o.len() as int)
        && rest == sealed_frames(key, base, chunks_of(q), next)
        && seals_fit(key, base, chunks_of(q), next)
        && next + chunks_of(q).len() <= MAX_FRAMES) by {
        reveal(open_progress);
    }
    lemma_next_frame(key, base, q, rest, next);
    let m = if q.len() <= CHUNK_SIZE { q.len() as int } else { CHUNK_SIZE as int };
    let c = q.subrange(0, m);
    assert(c == next_block(p, o));
    let ct = gcm_sealed(key, nonce_for(base, next), c);
    let tail = q.subrange(m, q.len() as int);
    let o2 = o + c;
    let pos2 = pos + 4 + ct.len();
    assert(tail =~= p.subrange(o2.len() as int, p.len() as int));
    assert(o2 =~= p.subrange(0, o2.len() as int));
    assert(w.subrange(pos2, w.len() as int) =~= rest.subrange(4 + ct.len() as int, rest.len() as int));
    assert(open_progress(key, base, p, w, pos2, o2, next + 1)) by {
        reveal(open_progress);
    }
}

proof fn lemma_open_done(key: Seq<u8>, base: Seq<u8>, p: Seq<u8>, w: Seq<u8>, pos: int, o: Seq<u8>, next: int)
    requires
        open_progress(key, base, p, w, pos, o, next),
        pos == w.len(),
    ensures
        o == p,
{
    reveal(open_progress);
    let q = p.subrange(o.len() as int, p.len() as int);
    lemma_frames_nonempty(key, base, chunks_of(q), next);
    lemma_chunks_step(q);
    assert(w.subrange(pos, w.len() as int).len() == 0);
    assert(chunks_of(q).len() == 0);
    assert(q.len() == 0);
    assert(o =~= p);
}

/// Opens a framed body. Reading stops cleanly only at the end of the last
/// frame; a tail shorter than a length prefix, a frame that announces more
/// bytes than remain, or one that fails authentication, is an error. Opening what `seal_body` made under the same
/// key and base nonce gives back the plaintext.
#[verifier::rlimit(40)]
pub fn open_body(key: &[u8], base_nonce: &[u8], body: &[u8]) -> (r: Result<Vec<u8>, CipherError>)
    ensures
        key@.len() != KEY_LEN ==> r == Err::<Vec<u8>, CipherError>(CipherError::InvalidKeyLength),
        key@.len() == KEY_LEN && base_nonce@.len() != BASE_NONCE_LEN
            ==> r == Err::<Vec<u8>, CipherError>(CipherError::InvalidNonce),
        key@.len() == KEY_LEN && base_nonce@.len() == BASE_NONCE_LEN ==> match opened_frames(key@, base_nonce@, body@, 0) {
            Ok(p) => r.is_ok() && r.unwrap()@ == p,
            Err(e) => r == Err::<Vec<u8>, CipherError>(e),
        },
        forall|p: Seq<u8>| #[trigger] seals(key@, base_nonce@, p, body@) ==> r.is_ok() && r.unwrap()@ == p,
{
    let mut dec = match Decryptor::new(key, base_nonce) {
        Ok(d) => d,
        Err(e) => return Err(e),
    };
    let ghost k = key@;
    let ghost b = base_nonce@;
    let ghost w = body@;
    let mut out: Vec<u8> = Vec::new();
    let mut pos: usize = 0;
    assert forall|p: Seq<u8>| #[trigger] seals(k, b, p, w) implies
        open_progress(k, b, p, w, pos as int, out@, dec.next as int) by {
        reveal(open_progress);
        assert(p.subrange(0, p.len() as int) =~= p);
        assert(w.subrange(0, w.len() as int) =~= w);
        assert(out@ =~= p.subrange(0, 0));
    }
    proof {
        assert(w.subrange(0, w.len() as int) =~= w);
        lemma_with_prefix(Seq::empty(), Seq::empty(), opened_frames(k, b, w, 0));
    }
    while pos < body.len()
        invariant
            dec.wf(),
            dec.key@ == k,
            dec.base_nonce@ == b,
            k == key@,
            b == base_nonce@,
            w == body@,
            pos <= w.len(),
            forall|p: Seq<u8>| #[trigger] seals(k, b, p, w)
                ==> open_progress(k, b, p, w, pos as int, out@, dec.next as int),
            opened_frames(k, b, w, 0) == with_prefix(out@, opened_frames(k, b, w.subrange(pos as int, w.len() as int), dec.next as int)),
        decreases w.len() - pos,
    {
        let ghost before = dec.next;
        let ghost o = out@;
        let ghost ipos = pos as int;
        proof {
            lemma_opened_step(k, b, w, ipos, before as int);
        }
        assert forall|p: Seq<u8>| #[trigger] seals(k, b, p, w) implies frame_at(k, b, p, w, ipos, o, before as int) by {
            lemma_frame_at(k, b, p, w, ipos, o, before as int);
        }
        if body.len() - pos < 4 {
            assert forall|p: Seq<u8>| #[trigger] seals(k, b, p, w) implies false by {
                reveal(frame_at);
            }
            return Err(CipherError::TruncatedFrame);
        }
        let n: usize = (body[pos] as usize) * 16777216 + (body[pos + 1] as usize) * 65536
            + (body[pos + 2] as usize) * 256 + (body[pos + 3] as usize);
        assert(n == be32_value(w.subrange(ipos, ipos + 4)));
        if body.len() - pos - 4 < n {
            assert forall|p: Seq<u8>| #[trigger] seals(k, b, p, w) implies false by {
                reveal(frame_at);
            }
            return Err(CipherError::TruncatedFrame);
        }
        let sealed = slice_subrange(body, pos + 4, pos + 4 + n);
        assert(sealed@ =~= w.subrange(ipos + 4, ipos + 4 + n));
        let opened = dec.open_next(sealed);
        match opened {
            Ok(plain) => {
                let mut pv = plain;
                let ghost got = pv@;
                out.append(&mut pv);
                pos = pos + 4 + n;
                proof {
                    lemma_with_prefix(o, got, opened_frames(k, b, w.subrange(pos as int, w.len() as int), dec.next as int));
                }
                assert forall|p: Seq<u8>| #[trigger] seals(k, b, p, w) implies
                    open_progress(k, b, p, w, pos as int, out@, dec.next as int) by {
                    reveal(frame_at);
                    let c = next_block(p, o);
                    assert(sealed@ == gcm_sealed(k, nonce_for(b, before as int), c));
                    assert(got == c);
                    lemma_open_advance(k, b, p, w, ipos, o, before as int);
                    assert(out@ =~= o + c);
                }
            },
            Err(e) => {
                assert forall|p: Seq<u8>| #[trigger] seals(k, b, p, w) implies false by {
                    reveal(frame_at);
                    let c = next_block(p, o);
                    assert(sealed@ == gcm_sealed(k, nonce_for(b, before as int), c));
                }
                return Err(e);
            },
        }
    }
    assert forall|p: Seq<u8>| #[trigger] seals(k, b, p, w) implies out@ == p by {
        lemma_open_done(k, b, p, w, pos as int, out@, dec.next as int);
    }
    proof {
        lemma_opened_step(k, b, w, pos as int, dec.next as int);
        assert(out@ + Seq::<u8>::empty() =~= out@);
    }
    Ok(out)
}


/// What base64 decoding of `s` with the standard alphabet and padding yields.
pub uninterp spec fn standard_base64_decoded(s: Seq<char>) -> Option<Seq<u8>>;

#[verifier::external_type_specification]
#[verifier::external_body]
pub struct ExBase64DecodeError(base64::DecodeError);

/// Relies on base64's `general_purpose::STANDARD` engine (`Engine::decode`):
/// the bytes that `s` encodes, or an error on malformed input.
#[verifier::external_body]
fn decode_standard_base64(s: &str) -> (r: Result<Vec<u8>, base64::DecodeError>)
    ensures
        standard_base64_decoded(s@) == (match r {
            Ok(v) => Some(v@),
            Err(_) => None::<Seq<u8>>,
        }),
{
    base64::engine::general_purpose::STANDARD.decode(s)
}

/// Decodes the agent's base64 master key into the 32-byte AES-256 key.
pub fn decode_master_key(master_key_b64: &str) -> (r: Result<Vec<u8>, CipherError>)
    ensures
        match standard_base64_decoded(master_key_b64@) {
            None => r == Err::<Vec<u8>, CipherError>(CipherError::InvalidBase64),
            Some(k) => if k.len() == KEY_LEN {
                r.is_ok() && r.unwrap()@ == k
            } else {
                r == Err::<Vec<u8>, CipherError>(CipherError::InvalidKeyLength)
            },
        },
{
    match decode_standard_base64(master_key_b64) {
        Ok(k) => {
            if k.len() == KEY_LEN {
                Ok(k)
            } else {
                Err(CipherError::InvalidKeyLength)
            }
        },
        Err(_) => Err(CipherError::InvalidBase64),
    }
}

#[verifier::external_type_specification]
#[verifier::external_body]
pub struct ExOsError(rand::rand_core::OsError);

/// Relies on `rand::rngs::OsRng` (`TryRngCore::try_fill_bytes`): `len`
/// bytes from the operating system's random source, or its error.
#[verifier::external_body]
pub(crate) fn os_random_bytes(len: usize) -> (r: Result<Vec<u8>, rand::rand_core::OsError>)
    ensures
        r.is_ok() ==> r.unwrap()@.len() == len,
{
    let mut bytes = vec![0u8; len];
    rand::rngs::OsRng.try_fill_bytes(&mut bytes).map(|_| bytes)
}

/// A fresh random base nonce for a new artifact, or `None` when the system's
/// random source fails.
pub fn fresh_base_nonce() -> (r: Option<Vec<u8>>)
    ensures
        r.is_some() ==> r.unwrap()@.len() == BASE_NONCE_LEN,
{
    match os_random_bytes(BASE_NONCE_LEN) {
        Ok(v) => Some(v),
        Err(_) => None,
    }
}

/// The bytes as a comma-separated list of decimal numbers.
pub open spec fn decimal_list(b: Seq<u8>) -> Seq<char>
    decreases b.len(),
{
    if b.len() == 0 {
        Seq::empty()
    } else if b.len() == 1 {
        decimal(b[0] as nat)
    } else {
        decimal_list(b.drop_last()) + seq![','] + decimal(b.last() as nat)
    }
}

/// The header line that opens an artifact sealed with `base`: its JSON
/// description followed by a newline.
pub open spec fn header_text(base: Seq<u8>) -> Seq<char> {
    "{\"version\":1,\"cipher\":\"AES-256-GCM\",\"chunk_size\":16777216,\"base_nonce\":["@
        + decimal_list(base) + "]}\n"@
}

/// Writes the header line of an artifact sealed with `base_nonce`:
/// `{"version":1,"cipher":"AES-256-GCM","chunk_size":16777216,"base_nonce":[..]}`
/// and a newline.
pub fn header_line(base_nonce: &[u8]) -> (r: String)
    ensures
        r@ == header_text(base_nonce@),
{
    let mut s = String::from_str("{\"version\":1,\"cipher\":\"AES-256-GCM\",\"chunk_size\":16777216,\"base_nonce\":[");
    let ghost start = s@;
    let mut i: usize = 0;
    while i < base_nonce.len()
        invariant
            i <= base_nonce@.len(),
            s@ == start + decimal_list(base_nonce@.subrange(0, i as int)),
        decreases base_nonce@.len() - i,
    {
        let ghost pre = base_nonce@.subrange(0, i as int);
        let ghost nxt = base_nonce@.subrange(0, i + 1);
        assert(nxt.drop_last() =~= pre);
        if i > 0 {
            push_char(&mut s, ',');
        }
        push_decimal(&mut s, base_nonce[i] as u64);
        assert(s@ =~= start + decimal_list(nxt));
        i = i + 1;
    }
    assert(base_nonce@.subrange(0, base_nonce@.len() as int) =~= base_nonce@);
    s.append("]}\n");
    s
}

/// Index of the first newline byte at or after `from`, if any.
pub open spec fn newline_from(data: Seq<u8>, from: int) -> Option<int>
    decreases data.len() - from,
{
    if from >= data.len() || from < 0 {
        None
    } else if data[from] == 10 {
        Some(from)
    } else {
        newline_from(data, from + 1)
    }
}

/// What the length prefix read at a frame boundary says: no bytes at all is
/// the clean end of the body, one to three bytes a truncated frame, and four
/// bytes the length of the ciphertext that follows.
pub fn frame_len(prefix: &[u8]) -> (r: Result<Option<usize>, CipherError>)
    requires
        prefix@.len() <= 4,
    ensures
        prefix@.len() == 0 ==> r == Ok::<Option<usize>, CipherError>(None),
        0 < prefix@.len() < 4 ==> r == Err::<Option<usize>, CipherError>(CipherError::TruncatedFrame),
        prefix@.len() == 4 ==> r.is_ok() && r.unwrap().is_some() && r.unwrap().unwrap() == be32_value(prefix@),
{
    if prefix.len() == 0 {
        Ok(None)
    } else if prefix.len() < 4 {
        Err(CipherError::TruncatedFrame)
    } else {
        let n: usize = (prefix[0] as usize) * 16777216 + (prefix[1] as usize) * 65536 + (prefix[2] as usize) * 256
            + (prefix[3] as usize);
        Ok(Some(n))
    }
}

/// Where the framed body starts: just past the first newline, which ends the
/// header line, or at the end when there is none.
pub fn body_start(data: &[u8]) -> (r: usize)
    ensures
        r == (match newline_from(data@, 0) {
            Some(k) => k + 1,
            None => data@.len() as int,
        }),
{
    let mut i: usize = 0;
    while i < data.len()
        invariant
            i <= data@.len(),
            newline_from(data@, 0) == newline_from(data@, i as int),
        decreases data@.len() - i,
    {
        if data[i] == 10 {
            return i + 1;
        }
        i = i + 1;
    }
    data.len()
}

} // verus!
