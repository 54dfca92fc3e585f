//! Decisions of an S3 multipart upload: when a buffered part is sent, the
//! ordered list of completed parts, and the abort that ends every failed
//! upload.

use vstd::prelude::*;

verus! {

/// Bytes per part; the last part holds whatever remains.
pub const PART_SIZE: usize = 104857600;

/// A part the store acknowledged, with its entity tag.
#[derive(Clone, Debug)]
pub struct CompletedPart {
    pub part_number: i32,
    pub e_tag: String,
}

fn copy_parts(parts: &Vec<CompletedPart>) -> (r: Vec<CompletedPart>)
    ensures
        r@ == parts@,
{
    let mut out: Vec<CompletedPart> = Vec::new();
    let mut i: usize = 0;
    while i < parts.len()
        invariant
            i <= parts@.len(),
            out@ == parts@.subrange(0, i as int),
        decreases parts@.len() - i,
    {
        let p = &parts[i];
        out.push(CompletedPart { part_number: p.part_number, e_tag: p.e_tag.clone() });
        i = i + 1;
        assert(out@ =~= parts@.subrange(0, i as int));
    }
    assert(parts@.subrange(0, parts@.len() as int) =~= parts@);
    out
}

/// Stages of a multipart upload.
#[derive(Clone, Copy, Debug, PartialEq, Eq, Structural)]
pub enum MultipartPhase {
    /// Reading the byte stream into the part buffer.
    Streaming,
    /// A part is being sent.
    Sending,
    /// The completion request is out.
    Completing,
    /// The upload was aborted.
    Aborted,
    /// The upload completed.
    Completed,
}

/// What happened since the last action.
pub enum MultipartEvent {
    /// The stream yielded `len` more bytes; `is_last` when nothing follows.
    Bytes { len: usize, is_last: bool },
    /// The stream failed.
    StreamFailed,
    /// The stream ended.
    StreamEnded,
    /// The part was stored; the store may return its entity tag, and a
    /// part without one aborts the upload.
    PartStored { e_tag: Option<String> },
    /// Sending the part failed.
    PartFailed,
    /// The completion request succeeded.
    CompleteSucceeded,
    /// The completion request failed.
    CompleteFailed,
}

/// What the caller does next.
#[derive(Debug)]
pub enum MultipartAction {
    /// Keep reading the stream.
    Read,
    /// Send the first `len` buffered bytes as this part and drop them from
    /// the buffer.
    SendPart { part_number: i32, len: usize },
    /// Complete the upload with these parts, in order.
    Complete { parts: Vec<CompletedPart> },
    /// Abort the upload.
    Abort,
    /// Nothing more to do.
    Done,
}

/// State of one multipart upload.
pub struct MultipartUpload {
    phase: MultipartPhase,
    buffered: usize,
    ended: bool,
    part_number: i32,
    parts: Vec<CompletedPart>,
    sent: Ghost<Seq<nat>>,
    received: Ghost<nat>,
}

/// Whether `e` reports a failure.
pub open spec fn is_failure(e: &MultipartEvent) -> bool {
    match e {
        MultipartEvent::StreamFailed => true,
        MultipartEvent::PartFailed => true,
        MultipartEvent::CompleteFailed => true,
        MultipartEvent::PartStored { e_tag } => e_tag.is_none(),
        _ => false,
    }
}

/// The length of the next part with `buffered` bytes held: a full 100 MiB
/// part while that many are held, the rest once the stream has ended, and
/// none otherwise.
pub open spec fn next_part_len(buffered: int, ended: bool) -> int {
    if buffered >= PART_SIZE {
        PART_SIZE as int
    } else if ended {
        buffered
    } else {
        0
    }
}

/// Sum of the part lengths.
pub open spec fn total_len(lens: Seq<nat>) -> nat
    decreases lens.len(),
{
    if lens.len() == 0 {
        0
    } else {
        total_len(lens.drop_last()) + lens.last()
    }
}

impl MultipartUpload {
    pub closed spec fn phase_view(&self) -> MultipartPhase {
        self.phase
    }

    /// Bytes read and not yet sent.
    pub closed spec fn buffered_view(&self) -> int {
        self.buffered as int
    }

    /// The number of the next part.
    pub closed spec fn part_number_view(&self) -> i32 {
        self.part_number
    }

    /// The parts stored so far, in order.
    pub closed spec fn parts_view(&self) -> Seq<CompletedPart> {
        self.parts@
    }

    /// The lengths of the parts sent so far, in order.
    pub closed spec fn sent_lens(&self) -> Seq<nat> {
        self.sent@
    }

    /// Whether the stream has ended.
    pub closed spec fn ended_view(&self) -> bool {
        self.ended
    }

    /// The bytes the stream yielded so far.
    pub closed spec fn received(&self) -> nat {
        self.received@
    }

    /// Part numbers start at 1 and stored parts are in increasing order;
    /// every part sent holds 100 MiB but a last, shorter one sent after the
    /// stream ended; what was sent and what is held add up to what the
    /// stream yielded.
    pub closed spec fn wf(&self) -> bool {
        let s = self.sent@;
        &&& 1 <= self.part_number
        &&& forall|i: int| 0 <= i < self.parts@.len() ==> 1 <= (#[trigger] self.parts@[i]).part_number < self.part_number
        &&& forall|i: int, j: int| 0 <= i < j < self.parts@.len()
            ==> (#[trigger] self.parts@[i]).part_number < (#[trigger] self.parts@[j]).part_number
        &&& self.phase == MultipartPhase::Streaming ==> !self.ended && self.buffered < PART_SIZE
        &&& forall|i: int| 0 <= i < s.len() ==> 0 < #[trigger] s[i] <= PART_SIZE
        &&& forall|i: int| 0 <= i < s.len() && s[i] < PART_SIZE ==> i == s.len() - 1 && self.ended && self.buffered == 0
        &&& total_len(s) + self.buffered == self.received@
    }

    /// A new upload with an empty buffer, at part 1.
    pub fn new() -> (r: MultipartUpload)
        ensures
            r.wf(),
            r.phase_view() == MultipartPhase::Streaming,
            r.buffered_view() == 0,
            r.part_number_view() == 1,
            r.parts_view().len() == 0,
            r.sent_lens().len() == 0,
            r.received() == 0,
    {
        MultipartUpload {
            phase: MultipartPhase::Streaming,
            buffered: 0,
            ended: false,
            part_number: 1,
            parts: Vec::new(),
            sent: Ghost(Seq::empty()),
            received: Ghost(0),
        }
    }

    /// The current stage.
    pub fn phase(&self) -> (r: MultipartPhase)
        ensures
            r == self.phase_view(),
    {
        self.phase
    }

    /// Whether `event` answers the current phase.
    pub open spec fn fits(&self, event: &MultipartEvent) -> bool {
        match event {
            MultipartEvent::Bytes { .. } => self.phase_view() == MultipartPhase::Streaming,
            MultipartEvent::StreamFailed => self.phase_view() == MultipartPhase::Streaming,
            MultipartEvent::StreamEnded => self.phase_view() == MultipartPhase::Streaming,
            MultipartEvent::PartStored { .. } => self.phase_view() == MultipartPhase::Sending,
            MultipartEvent::PartFailed => self.phase_view() == MultipartPhase::Sending,
            MultipartEvent::CompleteSucceeded => self.phase_view() == MultipartPhase::Completing,
            MultipartEvent::CompleteFailed => self.phase_view() == MultipartPhase::Completing,
        }
    }

    /// Whether `event` answers the current phase.
    pub fn accepts(&self, event: &MultipartEvent) -> (r: bool)
        ensures
            r == self.fits(event),
    {
        match event {
            MultipartEvent::Bytes { .. } => self.phase == MultipartPhase::Streaming,
            MultipartEvent::StreamFailed => self.phase == MultipartPhase::Streaming,
            MultipartEvent::StreamEnded => self.phase == MultipartPhase::Streaming,
            MultipartEvent::PartStored { .. } => self.phase == MultipartPhase::Sending,
            MultipartEvent::PartFailed => self.phase == MultipartPhase::Sending,
            MultipartEvent::CompleteSucceeded => self.phase == MultipartPhase::Completing,
            MultipartEvent::CompleteFailed => self.phase == MultipartPhase::Completing,
        }
    }

    /// What follows once `buffered` bytes are held and the stream has ended
    /// or not: a part, the completion, or more reading.
    pub open spec fn decided(&self, a: MultipartAction, buffered: int, ended: bool, part_number: i32, parts: Seq<CompletedPart>) -> bool {
        let n = next_part_len(buffered, ended);
        &&& self.part_number_view() == part_number
        &&& self.parts_view() == parts
        &&& if n > 0 {
            a == (MultipartAction::SendPart { part_number, len: n as usize })
                && self.phase_view() == MultipartPhase::Sending && self.buffered_view() == buffered - n
        } else if ended {
            self.phase_view() == MultipartPhase::Completing && (a matches MultipartAction::Complete { parts: p } && p@ == parts)
        } else {
            a == MultipartAction::Read && self.phase_view() == MultipartPhase::Streaming && self.buffered_view() == buffered
        }
    }

    fn abort(&mut self) -> (a: MultipartAction)
        requires
            old(self).wf(),
        ensures
            final(self).wf(),
            final(self).phase_view() == MultipartPhase::Aborted,
            a == MultipartAction::Abort,
    {
        self.phase = MultipartPhase::Aborted;
        MultipartAction::Abort
    }

    fn decide(&mut self) -> (a: MultipartAction)
        requires
            old(self).deciding_ok(),
        ensures
            final(self).wf(),
            final(self).decided(a, old(self).buffered as int, old(self).ended, old(self).part_number, old(self).parts@),
            final(self).received() == old(self).received(),
    {
        if self.buffered >= PART_SIZE || (self.ended && self.buffered > 0) {
            let len: usize = if self.buffered >= PART_SIZE { PART_SIZE } else { self.buffered };
            self.buffered = self.buffered - len;
            self.sent = Ghost(self.sent@.push(len as nat));
            self.phase = MultipartPhase::Sending;
            proof {
                let s = self.sent@;
                assert(s.drop_last() =~= old(self).sent@);
                assert(total_len(s) == total_len(old(self).sent@) + len);
                assert forall|i: int| 0 <= i < s.len() implies 0 < #[trigger] s[i] <= PART_SIZE by {
                    if i < s.len() - 1 {
                        assert(s[i] == old(self).sent@[i]);
                    }
                }
                assert forall|i: int| 0 <= i < s.len() && s[i] < PART_SIZE implies
                    i == s.len() - 1 && self.ended && self.buffered == 0 by {
                    if i < s.len() - 1 {
                        assert(s[i] == old(self).sent@[i]);
                    }
                }
            }
            MultipartAction::SendPart { part_number: self.part_number, len }
        } else if self.ended {
            self.phase = MultipartPhase::Completing;
            MultipartAction::Complete { parts: copy_parts(&self.parts) }
        } else {
            self.phase = MultipartPhase::Streaming;
            MultipartAction::Read
        }
    }

    /// A state between an event and the decision it leads to: the buffer may
    /// hold more than a part, and no part has been sent since the last
    /// short one.
    closed spec fn deciding_ok(&self) -> bool {
        let s = self.sent@;
        &&& 1 <= self.part_number
        &&& forall|i: int| 0 <= i < self.parts@.len() ==> 1 <= (#[trigger] self.parts@[i]).part_number < self.part_number
        &&& forall|i: int, j: int| 0 <= i < j < self.parts@.len()
            ==> (#[trigger] self.parts@[i]).part_number < (#[trigger] self.parts@[j]).part_number
        &&& forall|i: int| 0 <= i < s.len() ==> 0 < #[trigger] s[i] <= PART_SIZE
        &&& forall|i: int| 0 <= i < s.len() && s[i] < PART_SIZE ==> i == s.len() - 1 && self.ended && self.buffered == 0
        &&& total_len(s) + self.buffered == self.received@
    }

    /// Advances the upload by one event. Parts go out as soon as 100 MiB are
    /// buffered, each exactly 100 MiB, and once the stream has ended the rest
    /// goes out as the last part; then the upload is completed with the
    /// stored parts in order. A failure of the stream, of a part or of the
    /// completion, or a part stored without an entity tag, aborts it.
    pub fn step(&mut self, event: MultipartEvent) -> (a: MultipartAction)
        requires
            old(self).wf(),
            old(self).fits(&event),
        ensures
            final(self).wf(),
            is_failure(&event) ==> a == MultipartAction::Abort && final(self).phase_view() == MultipartPhase::Aborted,
            final(self).phase_view() == MultipartPhase::Aborted ==> a == MultipartAction::Abort,
            a == MultipartAction::Abort ==> final(self).phase_view() == MultipartPhase::Aborted,
            match event {
                MultipartEvent::Bytes { len, is_last } => {
                    let total = old(self).buffered_view() + len as int;
                    if total > usize::MAX {
                        a == MultipartAction::Abort
                    } else {
                        final(self).decided(a, total, is_last, old(self).part_number_view(), old(self).parts_view())
                            && final(self).received() == old(self).received() + len
                    }
                },
                MultipartEvent::StreamEnded => final(self).decided(
                    a,
                    old(self).buffered_view(),
                    true,
                    old(self).part_number_view(),
                    old(self).parts_view(),
                ),
                MultipartEvent::PartStored { e_tag } => match e_tag {
                    Some(t) => old(self).part_number_view() < i32::MAX ==> final(self).decided(
                        a,
                        old(self).buffered_view(),
                        old(self).ended_view(),
                        (old(self).part_number_view() + 1) as i32,
                        old(self).parts_view().push(CompletedPart { part_number: old(self).part_number_view(), e_tag: t }),
                    ),
                    None => true,
                },
                MultipartEvent::CompleteSucceeded => a == MultipartAction::Done
                    && final(self).phase_view() == MultipartPhase::Completed
                    && final(self).part_number_view() == old(self).part_number_view()
                    && final(self).parts_view() == old(self).parts_view(),
                _ => true,
            },
    {
        match event {
            MultipartEvent::Bytes { len, is_last } => {
                if self.buffered > usize::MAX - len {
                    return self.abort();
                }
                self.buffered = self.buffered + len;
                self.received = Ghost((self.received@ + len) as nat);
                self.ended = is_last;
                self.decide()
            },
            MultipartEvent::StreamFailed => self.abort(),
            MultipartEvent::StreamEnded => {
                self.ended = true;
                self.decide()
            },
            MultipartEvent::PartStored { e_tag } => {
                let t = match e_tag {
                    Some(t) => t,
                    None => return self.abort(),
                };
                if self.part_number == i32::MAX {
                    return self.abort();
                }
                let ghost before = self.parts@;
                self.parts.push(CompletedPart { part_number: self.part_number, e_tag: t });
                proof {
                    assert(self.parts@.drop_last() =~= before);
                    assert forall|i: int, j: int| 0 <= i < j < self.parts@.len() implies
                        (#[trigger] self.parts@[i]).part_number < (#[trigger] self.parts@[j]).part_number by {
                        if j < before.len() {
                            assert(self.parts@[i] == before[i]);
                            assert(self.parts@[j] == before[j]);
                        } else {
                            assert(self.parts@[i] == before[i]);
                        }
                    }
                    assert forall|i: int| 0 <= i < self.parts@.len() implies
                        1 <= (#[trigger] self.parts@[i]).part_number < self.part_number + 1 by {
                        if i < before.len() {
                            assert(self.parts@[i] == before[i]);
                        }
                    }
                }
                self.part_number = self.part_number + 1;
                self.decide()
            },
            MultipartEvent::PartFailed => self.abort(),
            MultipartEvent::CompleteSucceeded => {
                self.phase = MultipartPhase::Completed;
                MultipartAction::Done
            },
            MultipartEvent::CompleteFailed => self.abort(),
        }
    }
}

/// Every part sent but the last holds exactly 100 MiB, none more, and the
/// parts sent together with what is still buffered are exactly the bytes the
/// stream yielded.
pub proof fn lemma_parts_are_full(m: MultipartUpload)
    requires
        m.wf(),
    ensures
        forall|i: int| 0 <= i < m.sent_lens().len() - 1 ==> #[trigger] m.sent_lens()[i] == PART_SIZE,
        forall|i: int| 0 <= i < m.sent_lens().len() ==> 0 < #[trigger] m.sent_lens()[i] <= PART_SIZE,
        total_len(m.sent_lens()) + m.buffered_view() == m.received(),
{
    let s = m.sent_lens();
    assert forall|i: int| 0 <= i < s.len() - 1 implies #[trigger] s[i] == PART_SIZE by {
        assert(0 < s[i] <= PART_SIZE);
    }
}

} // verus!
