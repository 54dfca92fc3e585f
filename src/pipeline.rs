//! One backup run as a state machine, and the per-database lock that lets at
//! most one run per database in progress.
//!
//! The caller performs each action the machine returns (create the temporary
//! directory, post the backup record, run the driver, compress, upload,
//! report, clean up) and hands the outcome back as the next event.

use vstd::prelude::*;
use vstd::string::*;
use crate::backup::{BackupResult, BackupSummary, UploadResult, summarize, any_success, mean_size};

verus! {

/// Identifiers of the databases whose backup is in progress.
pub struct LockTable {
    held: Vec<String>,
}

impl LockTable {
    /// The identifiers held.
    pub closed spec fn ids(&self) -> Set<Seq<char>> {
        Set::new(|s: Seq<char>| exists|i: int| 0 <= i < self.held@.len() && (#[trigger] self.held@[i])@ == s)
    }

    /// Each identifier is held at most once.
    pub closed spec fn wf(&self) -> bool {
        forall|i: int, j: int| 0 <= i < j < self.held@.len() ==> (#[trigger] self.held@[i])@ != (#[trigger] self.held@[j])@
    }

    /// No database locked.
    pub fn new() -> (r: LockTable)
        ensures
            r.wf(),
            r.ids() == Set::<Seq<char>>::empty(),
    {
        let r = LockTable { held: Vec::new() };
        assert(r.ids() =~= Set::<Seq<char>>::empty());
        r
    }

    fn position(&self, id: &String) -> (r: Option<usize>)
        ensures
            r matches Some(i) ==> i < self.held@.len() && self.held@[i as int]@ == id@,
            r.is_none() ==> !self.ids().contains(id@),
    {
        let mut i: usize = 0;
        while i < self.held.len()
            invariant
                i <= self.held@.len(),
                forall|k: int| 0 <= k < i ==> (#[trigger] self.held@[k])@ != id@,
            decreases self.held@.len() - i,
        {
            if self.held[i] == *id {
                return Some(i);
            }
            i = i + 1;
        }
        None
    }

    /// Whether a backup of `id` is in progress.
    pub fn is_locked(&self, id: &String) -> (r: bool)
        ensures
            r == self.ids().contains(id@),
    {
        self.position(id).is_some()
    }

    /// Takes the lock of `id` when it is free; never waits.
    pub fn try_acquire(&mut self, id: &String) -> (r: bool)
        requires
            old(self).wf(),
        ensures
            final(self).wf(),
            (r, final(self).ids()) == acquire(old(self).ids(), id@),
    {
        if self.position(id).is_some() {
            assert(self.ids() =~= old(self).ids().insert(id@));
            return false;
        }
        let ghost before = self.held@;
        self.held.push(id.clone());
        proof {
            assert(self.held@.last()@ == id@);
            assert forall|i: int, j: int| 0 <= i < j < self.held@.len() implies
                (#[trigger] self.held@[i])@ != (#[trigger] self.held@[j])@ by {
                if j == before.len() {
                    assert(self.held@[i] == before[i]);
                } else {
                    assert(self.held@[i] == before[i]);
                    assert(self.held@[j] == before[j]);
                }
            }
            assert forall|s: Seq<char>| self.ids().contains(s) <==> old(self).ids().insert(id@).contains(s) by {
                if self.ids().contains(s) {
                    let i = choose|i: int| 0 <= i < self.held@.len() && (#[trigger] self.held@[i])@ == s;
                    if i < before.len() {
                        assert(before[i] == self.held@[i]);
                    }
                }
                if old(self).ids().contains(s) {
                    let i = choose|i: int| 0 <= i < before.len() && (#[trigger] before[i])@ == s;
                    assert(self.held@[i] == before[i]);
                }
                if s == id@ {
                    assert(self.held@[before.len() as int]@ == s);
                }
            }
            assert(self.ids() =~= old(self).ids().insert(id@));
        }
        true
    }

    /// Gives the lock of `id` back.
    pub fn release(&mut self, id: &String)
        requires
            old(self).wf(),
        ensures
            final(self).wf(),
            final(self).ids() == old(self).ids().remove(id@),
    {
        match self.position(id) {
            None => {
                assert(self.ids() =~= old(self).ids().remove(id@));
            },
            Some(k) => {
                let ghost before = self.held@;
                self.held.remove(k);
                proof {
                    let after = self.held@;
                    assert forall|i: int| 0 <= i < after.len() implies
                        #[trigger] after[i] == (if i < k { before[i] } else { before[i + 1] }) by {}
                    assert forall|i: int, j: int| 0 <= i < j < after.len() implies
                        (#[trigger] after[i])@ != (#[trigger] after[j])@ by {
                        let bi = if i < k { i } else { i + 1 };
                        let bj = if j < k { j } else { j + 1 };
                        assert(after[i] == before[bi]);
                        assert(after[j] == before[bj]);
                    }
                    assert forall|s: Seq<char>| self.ids().contains(s) <==> old(self).ids().remove(id@).contains(s) by {
                        if self.ids().contains(s) {
                            let i = choose|i: int| 0 <= i < after.len() && (#[trigger] after[i])@ == s;
                            let bi = if i < k { i } else { i + 1 };
                            assert(after[i] == before[bi]);
                            assert(before[k as int]@ == id@);
                            assert(bi != k);
                        }
                        if old(self).ids().remove(id@).contains(s) {
                            let i = choose|i: int| 0 <= i < before.len() && (#[trigger] before[i])@ == s;
                            assert(i != k);
                            let ai = if i < k { i } else { i - 1 };
                            assert(after[ai] == before[i]);
                        }
                    }
                    assert(self.ids() =~= old(self).ids().remove(id@));
                }
            },
        }
    }
}

/// Taking the lock of `id` when `held` are held: granted exactly when `id`
/// is free, and `id` is held afterwards either way.
pub open spec fn acquire(held: Set<Seq<char>>, id: Seq<char>) -> (bool, Set<Seq<char>>) {
    (!held.contains(id), held.insert(id))
}

/// At most one run per database proceeds: once the lock of `id` was
/// granted, asking again before it is released is refused, while the lock of
/// any other database is granted exactly when that one is free.
pub proof fn lemma_single_flight(held: Set<Seq<char>>, id: Seq<char>, other: Seq<char>)
    requires
        other != id,
    ensures
        !acquire(acquire(held, id).1, id).0,
        acquire(acquire(held, id).1, other).0 == !held.contains(other),
        acquire(held, id).0 ==> acquire(acquire(held, id).1.remove(id), id).0,
{
}

/// Stages of one backup run.
#[derive(Clone, Copy, Debug, PartialEq, Eq, Structural)]
pub enum RunPhase {
    /// The lock is held; the temporary directory and the backup record come next.
    Locked,
    /// The driver pings the engine and dumps it.
    Dumping,
    /// The dump is compressed.
    Compressing,
    /// The archive is uploaded to every storage.
    Uploading,
    /// The backup record is updated.
    Reporting,
    /// Nothing is held any more.
    Done,
}

/// What happened since the last action.
pub enum RunEvent {
    /// The temporary directory was created, or could not be.
    TempDirCreated(bool),
    /// The backup record was created with this identifier, or could not be.
    RecordCreated(Option<String>),
    /// The driver's result.
    Dumped(BackupResult),
    /// The compressed archive's path, or `None` when compression failed.
    Compressed(Option<String>),
    /// One outcome per storage.
    Uploaded(Vec<UploadResult>),
    /// The backup record was updated (or the update failed).
    Reported,
}

/// What the caller does next.
#[derive(Debug)]
pub enum RunAction {
    CreateTempDir,
    CreateRecord,
    Dump,
    Compress { file: String },
    Upload { file: String },
    Report { backup_id: String, summary: BackupSummary },
    Finish { remove_temp_dir: bool, release_lock: bool },
}

/// The state of one backup run.
pub struct BackupRun {
    generated_id: String,
    phase: RunPhase,
    lock_held: bool,
    temp_dir: bool,
    backup_id: Option<String>,
    reported: Ghost<bool>,
}

impl BackupRun {
    /// The database this run backs up.
    pub closed spec fn gid(&self) -> String {
        self.generated_id
    }

    /// The current stage.
    pub closed spec fn phase_view(&self) -> RunPhase {
        self.phase
    }

    /// Whether the run holds its database's lock.
    pub closed spec fn holds_lock(&self) -> bool {
        self.lock_held
    }

    /// Whether the run holds a temporary directory.
    pub closed spec fn holds_temp_dir(&self) -> bool {
        self.temp_dir
    }

    /// The backup record's identifier, once created.
    pub closed spec fn record(&self) -> Option<String> {
        self.backup_id
    }

    /// Whether the backup record was updated.
    pub closed spec fn was_reported(&self) -> bool {
        self.reported@
    }

    /// The database this run backs up.
    pub fn generated_id(&self) -> (r: &String)
        ensures
            *r == self.gid(),
    {
        &self.generated_id
    }

    /// The current stage.
    pub fn phase(&self) -> (r: RunPhase)
        ensures
            r == self.phase_view(),
    {
        self.phase
    }

    /// The backup record's identifier, once created.
    pub fn backup_id(&self) -> (r: Option<String>)
        ensures
            r == self.record(),
    {
        self.backup_id.clone()
    }

    /// Once the backup record exists the run ends only after reporting, and
    /// a finished run holds neither the lock nor the temporary directory.
    pub closed spec fn wf(&self) -> bool {
        &&& self.phase != RunPhase::Done ==> self.lock_held
        &&& self.phase == RunPhase::Done ==> !self.lock_held && !self.temp_dir
        &&& self.phase == RunPhase::Locked ==> self.backup_id.is_none()
        &&& (self.phase == RunPhase::Dumping || self.phase == RunPhase::Compressing
            || self.phase == RunPhase::Uploading || self.phase == RunPhase::Reporting)
            ==> self.temp_dir && self.backup_id.is_some()
        &&& self.phase == RunPhase::Done && self.backup_id.is_some() ==> self.reported@
    }

    /// Whether `event` is an answer to the action of the current phase.
    pub open spec fn fits(&self, event: &RunEvent) -> bool {
        match event {
            RunEvent::TempDirCreated(_) => self.phase_view() == RunPhase::Locked && !self.holds_temp_dir(),
            RunEvent::RecordCreated(_) => self.phase_view() == RunPhase::Locked && self.holds_temp_dir(),
            RunEvent::Dumped(_) => self.phase_view() == RunPhase::Dumping,
            RunEvent::Compressed(_) => self.phase_view() == RunPhase::Compressing,
            RunEvent::Uploaded(_) => self.phase_view() == RunPhase::Uploading,
            RunEvent::Reported => self.phase_view() == RunPhase::Reporting,
        }
    }

    /// Whether `event` answers the current phase's action.
    pub fn accepts(&self, event: &RunEvent) -> (r: bool)
        ensures
            r == self.fits(event),
    {
        match event {
            RunEvent::TempDirCreated(_) => self.phase == RunPhase::Locked && !self.temp_dir,
            RunEvent::RecordCreated(_) => self.phase == RunPhase::Locked && self.temp_dir,
            RunEvent::Dumped(_) => self.phase == RunPhase::Dumping,
            RunEvent::Compressed(_) => self.phase == RunPhase::Compressing,
            RunEvent::Uploaded(_) => self.phase == RunPhase::Uploading,
            RunEvent::Reported => self.phase == RunPhase::Reporting,
        }
    }

    fn finish(&mut self) -> (a: RunAction)
        requires
            old(self).wf(),
            old(self).phase_view() != RunPhase::Done,
            old(self).record().is_some() ==> old(self).was_reported(),
        ensures
            final(self).wf(),
            final(self).phase_view() == RunPhase::Done,
            final(self).record() == old(self).record(),
            final(self).gid() == old(self).gid(),
            a == (RunAction::Finish { remove_temp_dir: old(self).holds_temp_dir(), release_lock: old(self).holds_lock() }),
    {
        let a = RunAction::Finish { remove_temp_dir: self.temp_dir, release_lock: self.lock_held };
        self.phase = RunPhase::Done;
        self.temp_dir = false;
        self.lock_held = false;
        a
    }

    fn report(&mut self, summary: BackupSummary) -> (a: RunAction)
        requires
            old(self).wf(),
            old(self).holds_temp_dir(),
            old(self).record().is_some(),
            old(self).phase_view() != RunPhase::Done,
        ensures
            final(self).wf(),
            final(self).phase_view() == RunPhase::Reporting,
            final(self).record() == old(self).record(),
            final(self).holds_temp_dir() == old(self).holds_temp_dir(),
            final(self).gid() == old(self).gid(),
            a == (RunAction::Report { backup_id: old(self).record().unwrap(), summary }),
    {
        self.phase = RunPhase::Reporting;
        let id = match &self.backup_id {
            Some(b) => b.clone(),
            None => String::new(),
        };
        RunAction::Report { backup_id: id, summary }
    }

    /// Advances the run by one event and says what to do next. A run whose
    /// backup record exists always reports before it finishes; every run
    /// ends with `Finish`, which removes the temporary directory and releases
    /// the lock exactly when the run held them.
    pub fn step(&mut self, event: RunEvent) -> (a: RunAction)
        requires
            old(self).wf(),
            old(self).fits(&event),
        ensures
            final(self).wf(),
            final(self).gid() == old(self).gid(),
            final(self).phase_view() == RunPhase::Done ==> a == (RunAction::Finish {
                remove_temp_dir: old(self).holds_temp_dir(),
                release_lock: old(self).holds_lock(),
            }),
            a is Finish ==> final(self).phase_view() == RunPhase::Done,
            !(event is RecordCreated) ==> final(self).record() == old(self).record(),
            final(self).phase_view() != RunPhase::Done ==> final(self).holds_lock() == old(self).holds_lock(),
            final(self).phase_view() != RunPhase::Done && !(event is TempDirCreated)
                ==> final(self).holds_temp_dir() == old(self).holds_temp_dir(),
            match event {
                RunEvent::TempDirCreated(ok) => if ok {
                    a == RunAction::CreateRecord && final(self).phase_view() == RunPhase::Locked && final(self).holds_temp_dir()
                } else {
                    final(self).phase_view() == RunPhase::Done
                },
                RunEvent::RecordCreated(id) => match id {
                    Some(b) => a == RunAction::Dump && final(self).phase_view() == RunPhase::Dumping
                        && final(self).record() == Some(b),
                    None => final(self).phase_view() == RunPhase::Done,
                },
                RunEvent::Dumped(res) => match res.backup_file {
                    Some(f) => a == (RunAction::Compress { file: f }) && final(self).phase_view() == RunPhase::Compressing,
                    None => a == (RunAction::Report {
                        backup_id: old(self).record().unwrap(),
                        summary: BackupSummary { success: false, size: None },
                    }) && final(self).phase_view() == RunPhase::Reporting,
                },
                RunEvent::Compressed(p) => match p {
                    Some(f) => a == (RunAction::Upload { file: f }) && final(self).phase_view() == RunPhase::Uploading,
                    None => a == (RunAction::Report {
                        backup_id: old(self).record().unwrap(),
                        summary: BackupSummary { success: false, size: None },
                    }) && final(self).phase_view() == RunPhase::Reporting,
                },
                RunEvent::Uploaded(rs) => final(self).phase_view() == RunPhase::Reporting && (a matches RunAction::Report {
                    backup_id,
                    summary,
                } && backup_id == old(self).record().unwrap() && summary.success == any_success(rs@)
                    && summary.size.is_some() == mean_size(rs@).is_some()
                    && (summary.size.is_some() ==> summary.size.unwrap() == mean_size(rs@).unwrap())),
                RunEvent::Reported => final(self).phase_view() == RunPhase::Done,
            },
    {
        match event {
            RunEvent::TempDirCreated(ok) => {
                if ok {
                    self.temp_dir = true;
                    RunAction::CreateRecord
                } else {
                    self.finish()
                }
            },
            RunEvent::RecordCreated(id) => match id {
                Some(b) => {
                    self.backup_id = Some(b);
                    self.phase = RunPhase::Dumping;
                    RunAction::Dump
                },
                None => self.finish(),
            },
            RunEvent::Dumped(res) => match res.backup_file {
                Some(f) => {
                    self.phase = RunPhase::Compressing;
                    RunAction::Compress { file: f }
                },
                None => self.report(BackupSummary { success: false, size: None }),
            },
            RunEvent::Compressed(p) => match p {
                Some(f) => {
                    self.phase = RunPhase::Uploading;
                    RunAction::Upload { file: f }
                },
                None => self.report(BackupSummary { success: false, size: None }),
            },
            RunEvent::Uploaded(rs) => {
                let summary = summarize(&rs);
                self.report(summary)
            },
            RunEvent::Reported => {
                self.reported = Ghost(true);
                self.finish()
            },
        }
    }
}

/// A finished run holds nothing: its temporary directory is gone and its
/// lock released, and if its backup record was created it was also updated.
pub proof fn lemma_finished_run_released(run: BackupRun)
    requires
        run.wf(),
        run.phase_view() == RunPhase::Done,
    ensures
        !run.holds_temp_dir(),
        !run.holds_lock(),
        run.record().is_some() ==> run.was_reported(),
{
}

/// Starts backup runs, at most one per database at a time.
pub struct BackupService {
    locks: LockTable,
}

impl BackupService {
    /// The databases whose backup is in progress.
    pub closed spec fn locked(&self) -> Set<Seq<char>> {
        self.locks.ids()
    }

    /// The lock table is consistent.
    pub closed spec fn ready(&self) -> bool {
        self.locks.wf()
    }

    /// A service with no run in progress.
    pub fn new() -> (r: BackupService)
        ensures
            r.ready(),
            r.locked() == Set::<Seq<char>>::empty(),
    {
        BackupService { locks: LockTable::new() }
    }

    /// Takes the lock of `generated_id`: a new run when no run of that
    /// database is in progress, whose first action is creating the temporary
    /// directory; `None`, with nothing created, when one is.
    pub fn start(&mut self, generated_id: &String) -> (r: Option<(BackupRun, RunAction)>)
        requires
            old(self).ready(),
        ensures
            final(self).ready(),
            (r.is_some(), final(self).locked()) == acquire(old(self).locked(), generated_id@),
            r matches Some((run, a)) ==> run.wf() && run.phase_view() == RunPhase::Locked && !run.holds_temp_dir()
                && run.gid()@ == generated_id@ && a == RunAction::CreateTempDir,
    {
        if !self.locks.try_acquire(generated_id) {
            return None;
        }
        let run = BackupRun {
            generated_id: generated_id.clone(),
            phase: RunPhase::Locked,
            lock_held: true,
            temp_dir: false,
            backup_id: None,
            reported: Ghost(false),
        };
        Some((run, RunAction::CreateTempDir))
    }

    /// Ends a finished run: its database's lock is released.
    pub fn end(&mut self, run: &BackupRun)
        requires
            old(self).ready(),
        ensures
            final(self).ready(),
            final(self).locked() == old(self).locked().remove(run.gid()@),
    {
        self.locks.release(&run.generated_id);
    }
}

} // verus!
