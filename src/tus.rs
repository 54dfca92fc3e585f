//! Bookkeeping of a tus resumable upload: the bodies of the PATCH requests,
//! the offset each one is sent at, and the check of the offset the server
//! reports back.

use vstd::prelude::*;
use crate::text::{parse_u64, unsigned_text, decimal_string, decimal};

verus! {

/// Largest body of one PATCH request.
pub const PATCH_CHUNK_SIZE: usize = 1048576;

/// Why a tus upload stopped.
#[derive(Clone, Debug, PartialEq, Eq)]
pub enum TusError {
    /// The creation request was answered with a non-success status.
    CreationFailed { status: u16, body: String },
    /// The creation response carried no `Location` header.
    MissingLocation,
    /// A PATCH was answered with a non-success status.
    PatchFailed { offset: u64, status: u16 },
    /// The server's `Upload-Offset` header is not a number.
    InvalidOffsetHeader,
    /// The server's offset differs from the one computed locally.
    OffsetMismatch { expected: u64, got: u64 },
    /// The upload grew past 2^64 - 1 bytes.
    OffsetOverflow,
    /// The final PATCH was answered with a non-success status.
    FinalizeFailed { offset: u64, status: u16, body: String },
}

/// One accepted PATCH: where it was sent, how many bytes it carried, and the
/// offset the server reported after it, if any.
pub struct PatchRecord {
    pub offset: u64,
    pub len: u64,
    pub reported: Option<u64>,
}

/// The upload URL out of the creation response; a failed creation carries
/// the response's status and body.
pub fn creation_location(success: bool, status: u16, body: String, location: Option<String>) -> (r: Result<String, TusError>)
    ensures
        !success ==> r == Err::<String, TusError>(TusError::CreationFailed { status, body }),
        success && location.is_none() ==> r == Err::<String, TusError>(TusError::MissingLocation),
        success && location.is_some() ==> r == Ok::<String, TusError>(location.unwrap()),
{
    if !success {
        return Err(TusError::CreationFailed { status, body });
    }
    match location {
        Some(l) => Ok(l),
        None => Err(TusError::MissingLocation),
    }
}

/// The bytes of a sequence of bodies, one after the other.
pub open spec fn flatten(bodies: Seq<Seq<u8>>) -> Seq<u8>
    decreases bodies.len(),
{
    if bodies.len() == 0 {
        Seq::empty()
    } else {
        flatten(bodies.drop_last()) + bodies.last()
    }
}

/// The byte sequences of a list of buffers.
pub open spec fn views(v: Seq<Vec<u8>>) -> Seq<Seq<u8>> {
    v.map_values(|b: Vec<u8>| b@)
}

/// Collects the upload stream into PATCH bodies of exactly 1 MiB, whatever
/// the sizes of the stream's items; the rest forms the last body.
pub struct PatchBuffer {
    pending: Vec<u8>,
}

impl PatchBuffer {
    /// Bytes received and not yet handed out as a body.
    pub closed spec fn held(&self) -> Seq<u8> {
        self.pending@
    }

    /// An empty buffer.
    pub fn new() -> (r: PatchBuffer)
        ensures
            r.held() == Seq::<u8>::empty(),
    {
        PatchBuffer { pending: Vec::new() }
    }

    /// Adds a stream item and hands out every complete 1 MiB body, in order;
    /// fewer than 1 MiB stay held.
    pub fn push(&mut self, bytes: &[u8]) -> (r: Vec<Vec<u8>>)
        ensures
            flatten(views(r@)) + final(self).held() == old(self).held() + bytes@,
            forall|i: int| 0 <= i < r@.len() ==> (#[trigger] r@[i])@.len() == PATCH_CHUNK_SIZE,
            final(self).held().len() < PATCH_CHUNK_SIZE,
    {
        let ghost total = self.pending@ + bytes@;
        self.pending.extend_from_slice(bytes);
        let mut out: Vec<Vec<u8>> = Vec::new();
        assert(views(out@) =~= Seq::<Seq<u8>>::empty());
        assert(flatten(views(out@)) + self.pending@ =~= total);
        while self.pending.len() >= PATCH_CHUNK_SIZE
            invariant
                flatten(views(out@)) + self.pending@ == total,
                forall|i: int| 0 <= i < out@.len() ==> (#[trigger] out@[i])@.len() == PATCH_CHUNK_SIZE,
            decreases self.pending@.len(),
        {
            let mut body = self.pending.split_off(0);
            let rest = body.split_off(PATCH_CHUNK_SIZE);
            self.pending = rest;
            let ghost before = out@;
            out.push(body);
            proof {
                assert(views(out@).drop_last() =~= views(before));
                assert(views(out@).last() == body@);
                assert(flatten(views(out@)) + self.pending@ =~= flatten(views(before)) + (body@ + self.pending@));
            }
        }
        out
    }

    /// The last, shorter body, if any bytes are held; the buffer is emptied.
    pub fn take_rest(&mut self) -> (r: Option<Vec<u8>>)
        ensures
            old(self).held().len() == 0 ==> r.is_none(),
            old(self).held().len() > 0 ==> r.is_some() && r.unwrap()@ == old(self).held(),
            final(self).held() == Seq::<u8>::empty(),
    {
        if self.pending.len() == 0 {
            return None;
        }
        let body = self.pending.split_off(0);
        Some(body)
    }
}

/// Client side of one tus upload: the next offset and every PATCH the
/// server accepted so far.
pub struct TusSession {
    offset: u64,
    sent: Ghost<Seq<PatchRecord>>,
}

impl TusSession {
    /// The next offset.
    pub closed spec fn pos(&self) -> u64 {
        self.offset
    }

    /// Every PATCH the server accepted so far, in order.
    pub closed spec fn log(&self) -> Seq<PatchRecord> {
        self.sent@
    }

    /// The next offset.
    pub fn offset(&self) -> (r: u64)
        ensures
            r == self.pos(),
    {
        self.offset
    }

    /// Offsets start at zero and grow by each body's length, which is 1 byte
    /// to 1 MiB; each server report matched the offset computed locally.
    pub closed spec fn wf(&self) -> bool {
        let s = self.sent@;
        &&& s.len() == 0 ==> self.offset == 0
        &&& s.len() > 0 ==> s[0].offset == 0 && s[s.len() - 1].offset + s[s.len() - 1].len == self.offset
        &&& forall|i: int| 0 <= i < s.len() ==> (#[trigger] s[i]).len > 0 && s[i].len <= PATCH_CHUNK_SIZE
        &&& forall|i: int| 0 <= i < s.len() ==> (#[trigger] s[i]).offset + s[i].len <= self.offset
        &&& forall|i: int| 0 <= i < s.len() - 1 ==> (#[trigger] s[i]).offset + s[i].len == s[i + 1].offset
        &&& forall|i: int| 0 <= i < s.len() ==> match (#[trigger] s[i]).reported {
            Some(v) => v == s[i].offset + s[i].len,
            None => true,
        }
    }

    /// A new upload, at offset zero.
    pub fn new() -> (r: TusSession)
        ensures
            r.wf(),
            r.pos() == 0,
            r.log().len() == 0,
    {
        TusSession { offset: 0, sent: Ghost(Seq::empty()) }
    }

    /// The `Upload-Offset` value of the next PATCH.
    pub fn offset_header(&self) -> (r: String)
        ensures
            r@ == decimal(self.pos() as nat),
    {
        decimal_string(self.offset)
    }

    /// Records the answer to a PATCH of `len` bytes sent at the current offset.
    /// A non-success status, an unreadable `Upload-Offset`, or one that differs
    /// from the current offset plus `len` ends the upload with an error.
    pub fn record_patch(&mut self, len: u64, success: bool, status: u16, server_offset: Option<&str>)
        -> (r: Result<(), TusError>)
        requires
            old(self).wf(),
            0 < len <= PATCH_CHUNK_SIZE,
        ensures
            final(self).wf(),
            r.is_err() ==> final(self).pos() == old(self).pos() && final(self).log() == old(self).log(),
            !success ==> r == Err::<(), TusError>(TusError::PatchFailed { offset: old(self).pos(), status }),
            success && old(self).pos() + len > u64::MAX ==> r == Err::<(), TusError>(TusError::OffsetOverflow),
            success && old(self).pos() + len <= u64::MAX ==> {
                let expected = (old(self).pos() + len) as u64;
                match server_offset {
                    None => r.is_ok(),
                    Some(h) => match unsigned_text(h@) {
                        Some(v) => if v == expected {
                            r.is_ok()
                        } else if v <= u64::MAX {
                            r == Err::<(), TusError>(TusError::OffsetMismatch { expected, got: v as u64 })
                        } else {
                            r == Err::<(), TusError>(TusError::InvalidOffsetHeader)
                        },
                        None => r == Err::<(), TusError>(TusError::InvalidOffsetHeader),
                    },
                }
            },
            r.is_ok() ==> {
                &&& final(self).pos() == old(self).pos() + len
                &&& final(self).log().len() == old(self).log().len() + 1
                &&& final(self).log().drop_last() == old(self).log()
                &&& final(self).log().last().offset == old(self).pos()
                &&& final(self).log().last().len == len
            },
    {
        if !success {
            return Err(TusError::PatchFailed { offset: self.offset, status });
        }
        if self.offset > u64::MAX - len {
            return Err(TusError::OffsetOverflow);
        }
        let expected = self.offset + len;
        let reported: Option<u64> = match server_offset {
            None => None,
            Some(h) => match parse_u64(h) {
                None => return Err(TusError::InvalidOffsetHeader),
                Some(v) => {
                    if v != expected {
                        return Err(TusError::OffsetMismatch { expected, got: v });
                    }
                    Some(v)
                },
            },
        };
        let ghost rec = PatchRecord { offset: self.offset, len, reported };
        let ghost old_sent = self.sent@;
        self.sent = Ghost(self.sent@.push(rec));
        self.offset = expected;
        proof {
            let s = self.sent@;
            assert(s.drop_last() =~= old_sent);
            assert forall|i: int| 0 <= i < s.len() - 1 implies (#[trigger] s[i]).offset + s[i].len == s[i + 1].offset by {
                if i + 1 < s.len() - 1 {
                    assert(s[i] == old_sent[i]);
                    assert(s[i + 1] == old_sent[i + 1]);
                } else {
                    assert(s[i] == old_sent[old_sent.len() - 1]);
                }
            }
            assert forall|i: int| 0 <= i < s.len() implies (#[trigger] s[i]).len > 0 by {
                if i < old_sent.len() {
                    assert(s[i] == old_sent[i]);
                }
            }
            assert forall|i: int| 0 <= i < s.len() implies (#[trigger] s[i]).offset + s[i].len <= self.offset by {
                if i < old_sent.len() {
                    assert(s[i] == old_sent[i]);
                }
            }
            assert forall|i: int| 0 <= i < s.len() implies match (#[trigger] s[i]).reported {
                Some(v) => v == s[i].offset + s[i].len,
                None => true,
            } by {
                if i < old_sent.len() {
                    assert(s[i] == old_sent[i]);
                }
            }
        }
        Ok(())
    }

    /// The final offset and length for the closing zero-body PATCH, once the
    /// server answered it; a non-success answer is an error carrying its
    /// status and body.
    pub fn finish(&self, success: bool, status: u16, body: String) -> (r: Result<u64, TusError>)
        ensures
            success ==> r == Ok::<u64, TusError>(self.pos()),
            !success ==> r == Err::<u64, TusError>(TusError::FinalizeFailed { offset: self.pos(), status, body }),
    {
        if success {
            Ok(self.offset)
        } else {
            Err(TusError::FinalizeFailed { offset: self.offset, status, body })
        }
    }
}

/// In every upload session the PATCH offsets strictly increase, each one
/// following the previous by that PATCH's body length (1 byte to 1 MiB),
/// starting from zero,
/// and every offset the server reported equals the one computed locally.
pub proof fn lemma_offsets_increase(s: TusSession)
    requires
        s.wf(),
    ensures
        s.log().len() > 0 ==> s.log()[0].offset == 0,
        forall|i: int| 0 <= i < s.log().len() - 1 ==>
            #[trigger] s.log()[i + 1].offset == s.log()[i].offset + s.log()[i].len,
        forall|i: int, j: int| 0 <= i < j < s.log().len() ==> s.log()[i].offset < s.log()[j].offset,
        forall|i: int| 0 <= i < s.log().len() ==> 0 < (#[trigger] s.log()[i]).len <= PATCH_CHUNK_SIZE,
        forall|i: int| 0 <= i < s.log().len() ==> (#[trigger] s.log()[i]).reported.is_some()
            ==> s.log()[i].reported.unwrap() == s.log()[i].offset + s.log()[i].len,
{
    let q = s.sent@;
    assert forall|i: int| 0 <= i < q.len() - 1 implies #[trigger] q[i + 1].offset == q[i].offset + q[i].len by {
        assert(q[i].offset + q[i].len == q[i + 1].offset);
    }
    assert forall|i: int, j: int| 0 <= i < j < q.len() implies q[i].offset < q[j].offset by {
        lemma_chain_increasing(q, i, j);
    }
    assert forall|i: int| 0 <= i < q.len() && (#[trigger] q[i]).reported.is_some() implies
        q[i].reported.unwrap() == q[i].offset + q[i].len by {
        match q[i].reported {
            Some(v) => {},
            None => {},
        }
    }
}

proof fn lemma_chain_increasing(q: Seq<PatchRecord>, i: int, j: int)
    requires
        0 <= i < j < q.len(),
        forall|k: int| 0 <= k < q.len() ==> (#[trigger] q[k]).len > 0,
        forall|k: int| 0 <= k < q.len() - 1 ==> (#[trigger] q[k]).offset + q[k].len == q[k + 1].offset,
    ensures
        q[i].offset < q[j].offset,
    decreases j - i,
{
    assert(q[i].len > 0);
    assert(q[i].offset + q[i].len == q[i + 1].offset);
    if j > i + 1 {
        lemma_chain_increasing(q, i + 1, j);
    }
}

} // verus!
