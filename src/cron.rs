//! Scheduled backups: task names, the canonical cron form, and the decision
//! of `check_and_update_cron` against what the shared store already holds.

use vstd::prelude::*;
use vstd::string::*;
use crate::text::{chars_of, string_of};
use crate::api::{periodic_backup_target, TaskError};

verus! {

/// The task kind that runs a periodic backup.
pub open spec fn periodic_backup_task() -> Seq<char> {
    "tasks.database.periodic_backup"@
}

/// Name of the scheduled backup of a database.
pub open spec fn task_name_of(generated_id: Seq<char>) -> Seq<char> {
    "periodic.backup_"@ + generated_id
}

/// Key of a task's record in the shared store.
pub open spec fn task_key_of(task_name: Seq<char>) -> Seq<char> {
    "redbeat:"@ + task_name
}

/// `periodic.backup_<generated_id>`.
pub fn task_name(generated_id: &str) -> (r: String)
    ensures
        r@ == task_name_of(generated_id@),
{
    let mut s = String::from_str("periodic.backup_");
    s.append(generated_id);
    s
}

/// `redbeat:<task_name>`.
pub fn task_key(task_name: &str) -> (r: String)
    ensures
        r@ == task_key_of(task_name@),
{
    let mut s = String::from_str("redbeat:");
    s.append(task_name);
    s
}

/// Characters that separate cron fields.
pub open spec fn is_blank(c: char) -> bool {
    c == ' ' || c == '\t' || c == '\n' || c == '\r'
}

/// Separators: `/` when splitting a path, blanks otherwise.
pub open spec fn is_sep(c: char, slash: bool) -> bool {
    if slash { c == '/' } else { is_blank(c) }
}

/// The non-empty runs of `s` between separators, in order.
pub open spec fn split_runs(s: Seq<char>, slash: bool) -> Seq<Seq<char>>
    decreases s.len(),
{
    if s.len() == 0 {
        Seq::empty()
    } else if is_sep(s.last(), slash) {
        split_runs(s.drop_last(), slash)
    } else if s.len() == 1 || is_sep(s[s.len() - 2], slash) {
        split_runs(s.drop_last(), slash).push(seq![s.last()])
    } else {
        let w = split_runs(s.drop_last(), slash);
        w.update(w.len() - 1, w.last().push(s.last()))
    }
}

/// The blank-separated fields of `s`, in order.
pub open spec fn fields(s: Seq<char>) -> Seq<Seq<char>> {
    split_runs(s, false)
}

/// The non-empty `/`-separated segments of a path, in order.
pub open spec fn segments(s: Seq<char>) -> Seq<Seq<char>> {
    split_runs(s, true)
}

/// The fields joined by single spaces.
pub open spec fn joined(ws: Seq<Seq<char>>) -> Seq<char>
    decreases ws.len(),
{
    if ws.len() == 0 {
        Seq::empty()
    } else if ws.len() == 1 {
        ws[0]
    } else {
        joined(ws.drop_last()) + seq![' '] + ws.last()
    }
}

/// The canonical six-field form: a five-field expression gets a leading
/// seconds field `0`; fields are separated by single spaces.
pub open spec fn normalized(cron: Seq<char>) -> Seq<char> {
    let f = fields(cron);
    if f.len() == 5 {
        joined(seq![seq!['0']] + f)
    } else {
        joined(f)
    }
}

pub(crate) fn split_runs_exec(s: &Vec<char>, slash: bool) -> (r: Vec<Vec<char>>)
    ensures
        r@.len() == split_runs(s@, slash).len(),
        forall|i: int| 0 <= i < r@.len() ==> (#[trigger] r@[i])@ == split_runs(s@, slash)[i],
{
    let mut out: Vec<Vec<char>> = Vec::new();
    let mut i: usize = 0;
    while i < s.len()
        invariant
            i <= s@.len(),
            out@.len() == split_runs(s@.subrange(0, i as int), slash).len(),
            forall|k: int| 0 <= k < out@.len() ==> (#[trigger] out@[k])@ == split_runs(s@.subrange(0, i as int), slash)[k],
            i > 0 && !is_sep(s@[i - 1], slash) ==> out@.len() > 0,
        decreases s@.len() - i,
    {
        let ghost pre = s@.subrange(0, i as int);
        let ghost nxt = s@.subrange(0, i + 1);
        assert(nxt.drop_last() =~= pre);
        assert(nxt.last() == s@[i as int]);
        let c = s[i];
        let blank = if slash { c == '/' } else { c == ' ' || c == '\t' || c == '\n' || c == '\r' };
        if blank {
        } else if i == 0 || {
            let p = s[i - 1];
            if slash { p == '/' } else { p == ' ' || p == '\t' || p == '\n' || p == '\r' }
        } {
            assert(i > 0 ==> nxt[nxt.len() - 2] == s@[i - 1]);
            let mut w: Vec<char> = Vec::new();
            w.push(c);
            out.push(w);
            proof {
                assert(out@.last()@ =~= seq![c]);
                assert forall|k: int| 0 <= k < out@.len() implies (#[trigger] out@[k])@ == split_runs(nxt, slash)[k] by {}
            }
        } else {
            assert(nxt[nxt.len() - 2] == s@[i - 1]);
            let last = out.len() - 1;
            let mut w = out.pop().unwrap();
            let ghost wold = w@;
            w.push(c);
            out.push(w);
            proof {
                assert(wold == split_runs(pre, slash)[last as int]);
                assert forall|k: int| 0 <= k < out@.len() implies (#[trigger] out@[k])@ == split_runs(nxt, slash)[k] by {
                    if k < last {
                    } else {
                        assert(out@[k]@ =~= wold.push(c));
                    }
                }
            }
        }
        i = i + 1;
    }
    assert(s@.subrange(0, s@.len() as int) =~= s@);
    out
}

fn push_all(out: &mut Vec<char>, w: &Vec<char>)
    ensures
        final(out)@ == old(out)@ + w@,
{
    let mut i: usize = 0;
    let ghost start = out@;
    while i < w.len()
        invariant
            i <= w@.len(),
            out@ == start + w@.subrange(0, i as int),
        decreases w@.len() - i,
    {
        out.push(w[i]);
        i = i + 1;
        assert(out@ =~= start + w@.subrange(0, i as int));
    }
    assert(w@.subrange(0, w@.len() as int) =~= w@);
}

/// Rewrites a cron expression in the canonical six-field form.
pub fn normalize_cron(cron: &str) -> (r: String)
    ensures
        r@ == normalized(cron@),
{
    let cs = chars_of(cron);
    let f = split_runs_exec(&cs, false);
    let mut all: Vec<Vec<char>> = Vec::new();
    if f.len() == 5 {
        let mut zero: Vec<char> = Vec::new();
        zero.push('0');
        all.push(zero);
    }
    let ghost head = all@;
    let mut k: usize = 0;
    while k < f.len()
        invariant
            k <= f@.len(),
            head.len() == all@.len() - k,
            forall|j: int| 0 <= j < head.len() ==> (#[trigger] all@[j])@ == seq!['0'],
            head.len() == (if f@.len() == 5 { 1int } else { 0int }),
            forall|j: int| 0 <= j < k ==> (#[trigger] all@[head.len() + j])@ == f@[j]@,
        decreases f@.len() - k,
    {
        all.push(f[k].clone());
        k = k + 1;
    }
    let ghost target = if f@.len() == 5 { seq![seq!['0']] + fields(cron@) } else { fields(cron@) };
    assert(all@.len() == target.len());
    assert forall|t: int| 0 <= t < all@.len() implies (#[trigger] all@[t])@ == target[t] by {
        if f@.len() == 5 {
            if t == 0 {
                assert(all@[0]@ == seq!['0']);
            } else {
                assert(all@[1 + (t - 1)]@ == f@[t - 1]@);
            }
        } else {
            assert(all@[0 + t]@ == f@[t]@);
        }
    }
    let mut out: Vec<char> = Vec::new();
    let mut j: usize = 0;
    while j < all.len()
        invariant
            j <= all@.len(),
            all@.len() == target.len(),
            forall|t: int| 0 <= t < all@.len() ==> (#[trigger] all@[t])@ == target[t],
            out@ == joined(target.subrange(0, j as int)),
        decreases all@.len() - j,
    {
        let ghost pre = target.subrange(0, j as int);
        let ghost nxt = target.subrange(0, j + 1);
        assert(nxt.drop_last() =~= pre);
        if j > 0 {
            out.push(' ');
        } else {
            assert(nxt =~= seq![target[0]]);
        }
        push_all(&mut out, &all[j]);
        j = j + 1;
    }
    assert(target.subrange(0, target.len() as int) =~= target);
    proof {
        assert forall|t: int| 0 <= t < target.len() implies target[t] == (if f@.len() == 5 {
            seq![seq!['0']] + fields(cron@)
        } else {
            fields(cron@)
        })[t] by {}
    }
    string_of(out.as_slice())
}

/// A scheduled task's record.
#[derive(Clone, Debug)]
pub struct PeriodicTask {
    pub task: String,
    pub cron: String,
    pub args: Vec<String>,
    pub enabled: bool,
    /// The task's metadata as JSON text.
    pub metadata: Option<String>,
}

/// A task record as plain values.
pub struct TaskRecord {
    pub task: Seq<char>,
    pub cron: Seq<char>,
    pub args: Seq<Seq<char>>,
    pub enabled: bool,
    pub metadata: Option<Seq<char>>,
}

pub open spec fn text_view(o: Option<String>) -> Option<Seq<char>> {
    match o {
        Some(s) => Some(s@),
        None => None,
    }
}

pub open spec fn texts_view(v: Seq<String>) -> Seq<Seq<char>> {
    v.map_values(|s: String| s@)
}

impl PeriodicTask {
    pub open spec fn record(&self) -> TaskRecord {
        TaskRecord {
            task: self.task@,
            cron: self.cron@,
            args: texts_view(self.args@),
            enabled: self.enabled,
            metadata: text_view(self.metadata),
        }
    }
}

/// What the store holds under a task's key.
pub enum StoredTask {
    /// No record.
    Absent,
    /// A record written by someone else, which does not read as a task.
    Unreadable,
    /// A task record.
    Present(PeriodicTask),
}

/// The store's entry for a key, as plain values: absent, unreadable, or a record.
pub open spec fn stored_view(s: StoredTask) -> Option<Option<TaskRecord>> {
    match s {
        StoredTask::Absent => None,
        StoredTask::Unreadable => Some(None),
        StoredTask::Present(t) => Some(Some(t.record())),
    }
}

/// What to do to the store.
pub enum CronAction {
    /// Leave the record and its schedule entry as they are.
    Keep,
    /// Delete the record and its schedule entry.
    Remove,
    /// Write this new record and schedule its next run.
    Create(PeriodicTask),
    /// Overwrite the record and schedule its next run.
    Update(PeriodicTask),
}

/// The record `check_and_update_cron` writes.
pub open spec fn wanted(task: Seq<char>, cron: Seq<char>, args: Seq<Seq<char>>, metadata: Option<Seq<char>>) -> TaskRecord {
    TaskRecord { task, cron: normalized(cron), args, enabled: true, metadata }
}

/// The store entry after `check_and_update_cron`, and whether the key is in
/// the schedule afterwards, from the entry and schedule before.
pub open spec fn cron_outcome(
    stored: Option<Option<TaskRecord>>,
    scheduled: bool,
    cron: Option<Seq<char>>,
    args: Seq<Seq<char>>,
    task: Seq<char>,
    metadata: Option<Seq<char>>,
) -> (Option<Option<TaskRecord>>, bool) {
    match cron {
        None => match stored {
            None => (None, scheduled),
            Some(_) => (None, false),
        },
        Some(c) => match stored {
            None => (Some(Some(wanted(task, c, args, metadata))), true),
            Some(None) => (stored, scheduled),
            Some(Some(t)) => if t.cron == normalized(c) && t.args == args && t.metadata == metadata {
                (stored, scheduled)
            } else {
                (Some(Some(wanted(task, c, args, metadata))), true)
            },
        },
    }
}

/// The effect of an action on a key's entry and schedule membership.
pub open spec fn applied(stored: Option<Option<TaskRecord>>, scheduled: bool, a: CronAction) -> (Option<Option<TaskRecord>>, bool) {
    match a {
        CronAction::Keep => (stored, scheduled),
        CronAction::Remove => (None, false),
        CronAction::Create(t) => (Some(Some(t.record())), true),
        CronAction::Update(t) => (Some(Some(t.record())), true),
    }
}

fn same_texts(a: &Vec<String>, b: &Vec<String>) -> (r: bool)
    ensures
        r == (texts_view(a@) == texts_view(b@)),
{
    if a.len() != b.len() {
        assert(texts_view(a@).len() != texts_view(b@).len());
        return false;
    }
    let mut i: usize = 0;
    while i < a.len()
        invariant
            a@.len() == b@.len(),
            i <= a@.len(),
            forall|k: int| 0 <= k < i ==> (#[trigger] a@[k])@ == b@[k]@,
        decreases a@.len() - i,
    {
        if a[i] != b[i] {
            assert(texts_view(a@)[i as int] != texts_view(b@)[i as int]);
            return false;
        }
        i = i + 1;
    }
    assert(texts_view(a@) =~= texts_view(b@));
    true
}

fn same_text(a: &Option<String>, b: &Option<String>) -> (r: bool)
    ensures
        r == (text_view(*a) == text_view(*b)),
{
    match (a, b) {
        (Some(x), Some(y)) => *x == *y,
        (None, None) => true,
        _ => false,
    }
}

/// Decides how to bring the scheduled task `task_name` in line with the
/// desired `cron`: without a cron an existing record is removed; with one, a
/// missing record is created and an existing one is rewritten only when its
/// cron, arguments or metadata differ. A record that does not read as a task
/// is left alone.
pub fn check_and_update_cron(
    cron: Option<String>,
    args: &Vec<String>,
    task: &str,
    metadata: &Option<String>,
    stored: &StoredTask,
) -> (r: CronAction)
    ensures
        forall|sch: bool| applied(stored_view(*stored), sch, r) == cron_outcome(stored_view(*stored), sch,
            text_view(cron), texts_view(args@), task@, text_view(*metadata)),
{
    match cron {
        None => match stored {
            StoredTask::Absent => CronAction::Keep,
            _ => CronAction::Remove,
        },
        Some(c) => {
            let n = normalize_cron(c.as_str());
            let fresh = PeriodicTask {
                task: String::from_str(task),
                cron: n,
                args: args.clone(),
                enabled: true,
                metadata: metadata.clone(),
            };
            proof {
                assert(fresh.args@ =~= args@);
                assert(texts_view(fresh.args@) =~= texts_view(args@));
            }
            match stored {
                StoredTask::Absent => CronAction::Create(fresh),
                StoredTask::Unreadable => CronAction::Keep,
                StoredTask::Present(t) => {
                    if t.cron == fresh.cron && same_texts(&t.args, args) && same_text(&t.metadata, metadata) {
                        CronAction::Keep
                    } else {
                        CronAction::Update(fresh)
                    }
                },
            }
        },
    }
}

/// Calling `check_and_update_cron` twice in a row with the same arguments
/// leaves the store as the first call left it; a written record is in the
/// schedule exactly once.
pub proof fn lemma_cron_idempotent(
    stored: Option<Option<TaskRecord>>,
    scheduled: bool,
    cron: Option<Seq<char>>,
    args: Seq<Seq<char>>,
    task: Seq<char>,
    metadata: Option<Seq<char>>,
)
    ensures
        ({
            let first = cron_outcome(stored, scheduled, cron, args, task, metadata);
            let second = cron_outcome(first.0, first.1, cron, args, task, metadata);
            &&& second == first
            &&& (cron.is_some() && stored.is_none() ==> first.0 == Some(Some(
                wanted(task, cron.unwrap(), args, metadata))) && first.1)
        }),
{
}

/// What a due task asks for: nothing when it is disabled, otherwise the
/// database whose periodic backup it runs.
pub fn due_backup(task: &PeriodicTask) -> (r: Result<Option<String>, TaskError>)
    ensures
        !task.enabled ==> r == Ok::<Option<String>, TaskError>(None),
        task.enabled && task.task@ != periodic_backup_task() ==> r == Err::<Option<String>, TaskError>(TaskError::UnknownTask),
        task.enabled && task.task@ == periodic_backup_task() && task.args@.len() < 2
            ==> r == Err::<Option<String>, TaskError>(TaskError::MissingArguments),
        task.enabled && task.task@ == periodic_backup_task() && task.args@.len() >= 2
            ==> r == Ok::<Option<String>, TaskError>(Some(task.args@[0])),
{
    if !task.enabled {
        return Ok(None);
    }
    match periodic_backup_target(task.task.as_str(), &task.args) {
        Ok(id) => Ok(Some(id)),
        Err(e) => Err(e),
    }
}

} // verus!
