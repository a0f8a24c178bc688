//! The download queue: its jobs and their states, and the rules for
//! adding, retrying, finishing and handing out jobs. One worker runs the
//! jobs in turn; the service asks Nickel to import once the queue is empty.

use vstd::prelude::*;
use crate::annas::{is_hex, spec_is_md5, Book, BookView};
use crate::config::Config;
use crate::slum::Resolver;
use crate::text::{
    chars_of, collapse_whitespace, collapse_ws, contains, copy_range, decimal, decimal_of, ends_with,
    has_infix, has_suffix, join, lowercase, push_all, replace, replace_all, same, string_of,
    strip_both, strip_end, to_lowercase, trim, trim_end, is_ws, words, CharClass,
};

verus! {

#[derive(Clone, Copy, PartialEq, Eq, Debug, Structural)]
pub enum State {
    Queued,
    Resolving,
    Downloading,
    Converting,
    Done,
    Failed,
}

impl State {
    /// Still in the queue or being worked on.
    pub open spec fn is_active(self) -> bool {
        match self {
            State::Queued | State::Resolving | State::Downloading | State::Converting => true,
            State::Done | State::Failed => false,
        }
    }

    pub open spec fn label_of(self) -> Seq<char> {
        match self {
            State::Queued => "queued"@,
            State::Resolving => "finding a download link"@,
            State::Downloading => "downloading"@,
            State::Converting => "converting to kepub"@,
            State::Done => "done"@,
            State::Failed => "failed"@,
        }
    }

    pub fn active(self) -> (b: bool)
        ensures
            b == self.is_active(),
    {
        match self {
            State::Queued | State::Resolving | State::Downloading | State::Converting => true,
            State::Done | State::Failed => false,
        }
    }

    /// What the downloads page shows for this state.
    pub fn label(self) -> (s: &'static str)
        ensures
            s@ == self.label_of(),
    {
        match self {
            State::Queued => "queued",
            State::Resolving => "finding a download link",
            State::Downloading => "downloading",
            State::Converting => "converting to kepub",
            State::Done => "done",
            State::Failed => "failed",
        }
    }
}

#[derive(Debug)]
pub struct Job {
    pub id: u64,
    pub book: Book,
    pub state: State,
    pub detail: String,
    pub bytes: u64,
    pub total: Option<u64>,
    pub path: Option<String>,
    /// Seconds since the Unix epoch when the job was queued.
    pub created: u64,
    /// Handed to the Kobo browser already (browser delivery).
    pub delivered: bool,
}

pub struct JobView {
    pub id: u64,
    pub book: BookView,
    pub state: State,
    pub detail: Seq<char>,
    pub bytes: u64,
    pub total: Option<u64>,
    pub path: Option<Seq<char>>,
    pub created: u64,
    pub delivered: bool,
}

pub open spec fn path_view(p: Option<String>) -> Option<Seq<char>> {
    match p {
        Some(s) => Some(s@),
        None => None,
    }
}

impl View for Job {
    type V = JobView;

    open spec fn view(&self) -> JobView {
        JobView {
            id: self.id,
            book: self.book@,
            state: self.state,
            detail: self.detail@,
            bytes: self.bytes,
            total: self.total,
            path: path_view(self.path),
            created: self.created,
            delivered: self.delivered,
        }
    }
}

impl Clone for Job {
    fn clone(&self) -> (r: Self)
        ensures
            r == *self,
    {
        Job {
            id: self.id,
            book: self.book.clone(),
            state: self.state,
            detail: self.detail.clone(),
            bytes: self.bytes,
            total: self.total,
            path: match &self.path {
                Some(p) => Some(p.clone()),
                None => None,
            },
            created: self.created,
            delivered: self.delivered,
        }
    }
}

// ---------------------------------------------------------------------------
// Searching a list of jobs

/// The index of the first job of `s` that satisfies `p`.
pub open spec fn first_where(s: Seq<JobView>, p: spec_fn(JobView) -> bool) -> Option<int>
    decreases s.len(),
{
    if s.len() == 0 {
        None
    } else if p(s[0]) {
        Some(0)
    } else {
        match first_where(s.drop_first(), p) {
            Some(i) => Some(i + 1),
            None => None,
        }
    }
}

pub proof fn lemma_first_where(s: Seq<JobView>, p: spec_fn(JobView) -> bool)
    ensures
        match first_where(s, p) {
            Some(i) => 0 <= i < s.len() && p(s[i]) && forall|j: int| 0 <= j < i ==> !p(#[trigger] s[j]),
            None => forall|j: int| 0 <= j < s.len() ==> !p(#[trigger] s[j]),
        },
    decreases s.len(),
{
    if s.len() > 0 && !p(s[0]) {
        lemma_first_where(s.drop_first(), p);
        let t = s.drop_first();
        assert forall|j: int| 1 <= j < s.len() implies s[j] == t[j - 1] by {}
    }
}

proof fn lemma_first_where_at(s: Seq<JobView>, p: spec_fn(JobView) -> bool, i: int)
    requires
        0 <= i < s.len(),
        p(s[i]),
        forall|j: int| 0 <= j < i ==> !p(#[trigger] s[j]),
    ensures
        first_where(s, p) == Some(i),
{
    lemma_first_where(s, p);
    match first_where(s, p) {
        Some(k) => {
            if k < i {
                assert(!p(s[k]));
            } else if k > i {
                assert(!p(s[i]));
            }
        },
        None => {
            assert(!p(s[i]));
        },
    }
}

proof fn lemma_first_where_none(s: Seq<JobView>, p: spec_fn(JobView) -> bool)
    requires
        forall|j: int| 0 <= j < s.len() ==> !p(#[trigger] s[j]),
    ensures
        first_where(s, p) is None,
{
    lemma_first_where(s, p);
    if let Some(k) = first_where(s, p) {
        assert(!p(s[k]));
    }
}

/// How many jobs of `s` satisfy `p`.
pub open spec fn count_where(s: Seq<JobView>, p: spec_fn(JobView) -> bool) -> nat
    decreases s.len(),
{
    if s.len() == 0 {
        0
    } else {
        count_where(s.drop_last(), p) + if p(s.last()) {
            1nat
        } else {
            0nat
        }
    }
}

/// The jobs of `s` that satisfy `p`, in order.
pub open spec fn keep(s: Seq<JobView>, p: spec_fn(JobView) -> bool) -> Seq<JobView>
    decreases s.len(),
{
    if s.len() == 0 {
        seq![]
    } else if p(s.last()) {
        keep(s.drop_last(), p).push(s.last())
    } else {
        keep(s.drop_last(), p)
    }
}

pub open spec fn is_active_job() -> spec_fn(JobView) -> bool {
    |j: JobView| j.state.is_active()
}

pub open spec fn has_id(id: u64) -> spec_fn(JobView) -> bool {
    |j: JobView| j.id == id
}

pub open spec fn active_with_md5(md5: Seq<char>) -> spec_fn(JobView) -> bool {
    |j: JobView| j.book.md5 == md5 && j.state.is_active()
}

pub open spec fn failed_with_id(id: u64) -> spec_fn(JobView) -> bool {
    |j: JobView| j.id == id && j.state == State::Failed
}

/// Finished, not yet handed to the browser, and with a file.
pub open spec fn undelivered() -> spec_fn(JobView) -> bool {
    |j: JobView| j.state == State::Done && !j.delivered && j.path is Some
}

// ---------------------------------------------------------------------------
// What each operation does to the list

/// A new job for `book`, queued.
pub open spec fn new_job(id: u64, book: BookView, created: u64) -> JobView {
    JobView {
        id,
        book,
        state: State::Queued,
        detail: seq![],
        bytes: 0,
        total: None,
        path: None,
        created,
        delivered: false,
    }
}

/// The list and the next id after queueing `book`, and the id the caller
/// gets back: the job that is already active for the same md5, if there is
/// one, else a new job.
pub open spec fn enqueue_spec(s: Seq<JobView>, next: u64, book: BookView, created: u64) -> (
    Seq<JobView>,
    u64,
    u64,
) {
    match first_where(s, active_with_md5(book.md5)) {
        Some(i) => (s, next, s[i].id),
        None => (s.push(new_job(next, book, created)), (next + 1) as u64, next),
    }
}

/// A failed job put back in the queue, as if new.
pub open spec fn requeued(j: JobView) -> JobView {
    JobView {
        state: State::Queued,
        detail: seq![],
        bytes: 0,
        total: None,
        path: None,
        delivered: false,
        ..j
    }
}

pub open spec fn retry_spec(s: Seq<JobView>, id: u64) -> (Seq<JobView>, bool) {
    match first_where(s, failed_with_id(id)) {
        Some(i) => (s.update(i, requeued(s[i])), true),
        None => (s, false),
    }
}

/// The list after the next undelivered job is handed out, and that job.
pub open spec fn take_spec(s: Seq<JobView>) -> (Seq<JobView>, Option<JobView>) {
    match first_where(s, undelivered()) {
        Some(i) => {
            let j = JobView { delivered: true, ..s[i] };
            (s.update(i, j), Some(j))
        },
        None => (s, None),
    }
}

/// A change the worker makes to a job while it runs.
#[derive(Debug)]
pub enum JobChange {
    State(State),
    Detail(String),
    Bytes(u64),
    Total(Option<u64>),
}

pub open spec fn apply_change(j: JobView, c: JobChange) -> JobView {
    match c {
        JobChange::State(st) => JobView { state: st, ..j },
        JobChange::Detail(d) => JobView { detail: d@, ..j },
        JobChange::Bytes(n) => JobView { bytes: n, ..j },
        JobChange::Total(t) => JobView { total: t, ..j },
    }
}

/// The list after the first job with `id` is changed by `f`.
pub open spec fn update_at_id(s: Seq<JobView>, id: u64, f: spec_fn(JobView) -> JobView) -> Seq<
    JobView,
> {
    match first_where(s, has_id(id)) {
        Some(i) => s.update(i, f(s[i])),
        None => s,
    }
}

/// What a download's outcome does to its job: done with the file, or
/// failed with the reason.
pub open spec fn outcome_change(outcome: Result<Seq<char>, Seq<char>>) -> spec_fn(JobView) -> JobView {
    |j: JobView|
        match outcome {
            Ok(p) => JobView { state: State::Done, path: Some(p), detail: seq![], ..j },
            Err(e) => JobView { state: State::Failed, detail: e, ..j },
        }
}

pub open spec fn outcome_view(outcome: Result<String, String>) -> Result<Seq<char>, Seq<char>> {
    match outcome {
        Ok(p) => Ok(p@),
        Err(e) => Err(e@),
    }
}

pub proof fn lemma_update_keeps_ids(s: Seq<JobView>, next: u64, i: int, x: JobView)
    requires
        ids_ordered(s, next),
        0 <= i < s.len(),
        x.id == s[i].id,
    ensures
        ids_ordered(s.update(i, x), next),
{
    let t = s.update(i, x);
    assert forall|a: int, b: int| 0 <= a < b < t.len() implies t[a].id < t[b].id by {
        assert(t[a].id == s[a].id && t[b].id == s[b].id);
    }
    assert forall|a: int| 0 <= a < t.len() implies #[trigger] t[a].id < next by {
        assert(t[a].id == s[a].id);
    }
}

/// The files of the finished jobs of `s` that have one, in order.
pub open spec fn finished_paths(s: Seq<JobView>) -> Seq<Seq<char>>
    decreases s.len(),
{
    if s.len() == 0 {
        seq![]
    } else {
        let rest = finished_paths(s.drop_last());
        match s.last().path {
            Some(p) if !s.last().state.is_active() => rest.push(p),
            _ => rest,
        }
    }
}

pub proof fn lemma_keep_members(s: Seq<JobView>, p: spec_fn(JobView) -> bool)
    ensures
        forall|k: int| 0 <= k < keep(s, p).len() ==> exists|j: int| 0 <= j < s.len() && #[trigger] keep(s, p)[k] == #[trigger] s[j],
        keep(s, p).len() <= s.len(),
    decreases s.len(),
{
    if s.len() > 0 {
        let t = s.drop_last();
        lemma_keep_members(t, p);
        assert forall|k: int| 0 <= k < keep(s, p).len() implies exists|j: int| 0 <= j < s.len() && #[trigger] keep(s, p)[k] == #[trigger] s[j] by {
            if k < keep(t, p).len() {
                let j = choose|j: int| 0 <= j < t.len() && keep(t, p)[k] == t[j];
                assert(keep(s, p)[k] == s[j]);
            } else {
                assert(keep(s, p)[k] == s[s.len() - 1]);
            }
        }
    }
}

pub proof fn lemma_keep_ids(s: Seq<JobView>, next: u64, p: spec_fn(JobView) -> bool)
    requires
        ids_ordered(s, next),
    ensures
        ids_ordered(keep(s, p), next),
    decreases s.len(),
{
    if s.len() > 0 {
        let t = s.drop_last();
        lemma_keep_ids(t, next, p);
        lemma_keep_members(t, p);
        let kt = keep(t, p);
        assert forall|k: int| 0 <= k < kt.len() implies kt[k].id < s.last().id by {
            let j = choose|j: int| 0 <= j < t.len() && kt[k] == t[j];
            assert(s[j] == t[j]);
        }
        if p(s.last()) {
            let ks = keep(s, p);
            assert forall|a: int, b: int| 0 <= a < b < ks.len() implies ks[a].id < ks[b].id by {
                if b < kt.len() {
                    assert(ks[a] == kt[a] && ks[b] == kt[b]);
                } else {
                    assert(ks[a] == kt[a]);
                }
            }
            assert forall|a: int| 0 <= a < ks.len() implies #[trigger] ks[a].id < next by {
                if a < kt.len() {
                    assert(ks[a] == kt[a]);
                }
            }
        }
    }
}

/// Nickel should import: nothing queued or running, a book finished since
/// the last import, folder delivery with automatic import, NickelDBus there.
pub open spec fn import_due(active: nat, pending: bool, cfg: Config, nickel_available: bool) -> bool {
    active == 0 && pending && cfg.deliver@ == "folder"@ && cfg.auto_import && nickel_available
}

/// Ids increase along the list and stay below the next id to hand out.
pub open spec fn ids_ordered(s: Seq<JobView>, next: u64) -> bool {
    &&& next >= 1
    &&& forall|i: int, k: int| 0 <= i < k < s.len() ==> s[i].id < s[k].id
    &&& forall|i: int| 0 <= i < s.len() ==> #[trigger] s[i].id < next
}

#[derive(Debug)]
pub struct Jobs {
    /// Books waiting for the browser to fetch them (browser delivery).
    cache_dir: String,
    list: Vec<Job>,
    next_id: u64,
    import_pending: bool,
    /// When Nickel last imported, or why it could not (seconds since the
    /// Unix epoch).
    last_import: Option<Result<u64, String>>,
}

impl Jobs {
    /// The jobs, oldest first.
    pub closed spec fn jobs(&self) -> Seq<JobView> {
        self.list@.map_values(|j: Job| j@)
    }

    /// The id the next new job gets.
    pub closed spec fn next(&self) -> u64 {
        self.next_id
    }

    /// A book finished since Nickel last imported.
    pub closed spec fn pending(&self) -> bool {
        self.import_pending
    }

    /// The cache directory, and when Nickel last imported (seconds since
    /// the Unix epoch) or why it could not.
    pub closed spec fn extras(&self) -> (Seq<char>, Option<Result<u64, Seq<char>>>) {
        (self.cache_dir@, match self.last_import {
            Some(Ok(t)) => Some(Ok(t)),
            Some(Err(e)) => Some(Err(e@)),
            None => None,
        })
    }

    pub open spec fn wf(&self) -> bool {
        ids_ordered(self.jobs(), self.next())
    }

    pub fn new(cache_dir: String) -> (r: Jobs)
        ensures
            r.wf(),
            r.jobs() == Seq::<JobView>::empty(),
            r.next() == 1,
            !r.pending(),
            r.extras() == (cache_dir@, None::<Result<u64, Seq<char>>>),
    {
        let r = Jobs {
            cache_dir,
            list: Vec::new(),
            next_id: 1,
            import_pending: false,
            last_import: None,
        };
        assert(r.jobs() == Seq::<JobView>::empty());
        r
    }

    /// The directory where books wait for the browser.
    pub fn cache_dir(&self) -> (d: &String)
        ensures
            d@ == self.extras().0,
    {
        &self.cache_dir
    }

    /// When Nickel last imported, or why it could not.
    pub fn last_import(&self) -> (r: Option<Result<u64, String>>)
        ensures
            match (r, self.extras().1) {
                (Some(Ok(t)), Some(Ok(u))) => t == u,
                (Some(Err(e)), Some(Err(f))) => e@ == f,
                (None, None) => true,
                _ => false,
            },
    {
        match &self.last_import {
            Some(Ok(t)) => Some(Ok(*t)),
            Some(Err(e)) => Some(Err(e.clone())),
            None => None,
        }
    }

    /// Records how the last import went.
    pub fn set_last_import(&mut self, r: Result<u64, String>)
        requires
            old(self).wf(),
        ensures
            final(self).wf(),
            final(self).jobs() == old(self).jobs(),
            final(self).next() == old(self).next(),
            final(self).pending() == old(self).pending(),
            final(self).extras() == (old(self).extras().0, Some(match r {
                Ok(t) => Ok(t),
                Err(e) => Err(e@),
            })),
    {
        self.last_import = Some(r);
    }

    /// The id the next new job will get.
    pub fn next_id(&self) -> (n: u64)
        ensures
            n == self.next(),
    {
        self.next_id
    }

    /// Queues `book`, unless a job for the same md5 is still active; the id
    /// of the job that will deliver the book.
    pub fn enqueue(&mut self, book: Book, created: u64) -> (id: u64)
        requires
            old(self).wf(),
            first_where(old(self).jobs(), active_with_md5(book@.md5)) is Some || old(self).next()
                < u64::MAX,
        ensures
            final(self).wf(),
            (final(self).jobs(), final(self).next(), id) == enqueue_spec(
                old(self).jobs(),
                old(self).next(),
                book@,
                created,
            ),
            final(self).pending() == old(self).pending(),
            final(self).extras() == old(self).extras(),
    {
        let ghost s = self.jobs();
        let ghost p = active_with_md5(book@.md5);
        let mut i: usize = 0;
        while i < self.list.len()
            invariant
                i <= self.list.len(),
                *self == *old(self),
                old(self).wf(),
                s == self.jobs(),
                p == active_with_md5(book@.md5),
                forall|j: int| 0 <= j < i ==> !p(#[trigger] s[j]),
            decreases self.list.len() - i,
        {
            let j = &self.list[i];
            if j.state.active() && crate::text::same(
                &crate::text::chars_of(j.book.md5.as_str()),
                &crate::text::chars_of(book.md5.as_str()),
            ) {
                proof {
                    lemma_first_where_at(s, p, i as int);
                }
                return j.id;
            }
            i += 1;
        }
        proof {
            lemma_first_where_none(s, p);
        }
        let id = self.next_id;
        let job = Job {
            id,
            book,
            state: State::Queued,
            detail: String::new(),
            bytes: 0,
            total: None,
            path: None,
            created,
            delivered: false,
        };
        self.list.push(job);
        self.next_id = id + 1;
        assert(self.jobs() == s.push(new_job(id, book@, created)));
        id
    }

    /// The jobs, newest first.
    pub fn snapshot(&self) -> (v: Vec<Job>)
        ensures
            v@.map_values(|j: Job| j@) == self.jobs().reverse(),
    {
        let mut v: Vec<Job> = Vec::new();
        let n = self.list.len();
        let mut k: usize = n;
        while k > 0
            invariant
                k <= n,
                n == self.list.len(),
                v@.len() == n - k,
                forall|t: int| 0 <= t < n - k ==> #[trigger] v@[t]@ == self.jobs()[n - 1 - t],
            decreases k,
        {
            k -= 1;
            v.push(self.list[k].clone());
        }
        assert(v@.map_values(|j: Job| j@) == self.jobs().reverse());
        v
    }

    /// How many jobs are queued or running.
    pub fn active_count(&self) -> (n: usize)
        ensures
            n == count_where(self.jobs(), is_active_job()),
    {
        let ghost s = self.jobs();
        let mut n: usize = 0;
        let mut i: usize = 0;
        while i < self.list.len()
            invariant
                i <= self.list.len(),
                s == self.jobs(),
                n == count_where(s.take(i as int), is_active_job()),
                n <= i,
            decreases self.list.len() - i,
        {
            assert(s.take(i + 1).drop_last() == s.take(i as int));
            if self.list[i].state.active() {
                n += 1;
            }
            i += 1;
        }
        assert(s.take(i as int) == s);
        n
    }

    /// Drops the jobs that are done or failed, and gives back the files
    /// they left, for the caller to delete those under the cache directory.
    pub fn clear_finished(&mut self) -> (removed: Vec<String>)
        requires
            old(self).wf(),
        ensures
            final(self).wf(),
            final(self).jobs() == keep(old(self).jobs(), is_active_job()),
            removed@.map_values(|p: String| p@) == finished_paths(old(self).jobs()),
            final(self).next() == old(self).next(),
            final(self).pending() == old(self).pending(),
            final(self).extras() == old(self).extras(),
    {
        let ghost s = self.jobs();
        let mut kept: Vec<Job> = Vec::new();
        let mut removed: Vec<String> = Vec::new();
        let mut i: usize = 0;
        while i < self.list.len()
            invariant
                i <= self.list.len(),
                *self == *old(self),
                s == self.jobs(),
                kept@.map_values(|j: Job| j@) == keep(s.take(i as int), is_active_job()),
                removed@.map_values(|p: String| p@) == finished_paths(s.take(i as int)),
            decreases self.list.len() - i,
        {
            assert(s.take(i + 1).drop_last() == s.take(i as int));
            let j = self.list[i].clone();
            if j.state.active() {
                kept.push(j);
            } else {
                match &j.path {
                    Some(p) => removed.push(p.clone()),
                    None => {},
                }
            }
            i += 1;
            assert(kept@.map_values(|j: Job| j@) == keep(s.take(i as int), is_active_job()));
            assert(removed@.map_values(|p: String| p@) == finished_paths(s.take(i as int)));
        }
        assert(s.take(i as int) == s);
        proof {
            lemma_keep_ids(s, self.next_id, is_active_job());
        }
        self.list = kept;
        removed
    }

    /// Puts a failed job back in the queue; false when `id` names no failed
    /// job.
    pub fn retry(&mut self, id: u64) -> (r: bool)
        requires
            old(self).wf(),
        ensures
            final(self).wf(),
            (final(self).jobs(), r) == retry_spec(old(self).jobs(), id),
            final(self).next() == old(self).next(),
            final(self).pending() == old(self).pending(),
            final(self).extras() == old(self).extras(),
    {
        let ghost s = self.jobs();
        let ghost p = failed_with_id(id);
        let mut i: usize = 0;
        while i < self.list.len()
            invariant
                i <= self.list.len(),
                *self == *old(self),
                old(self).wf(),
                s == self.jobs(),
                p == failed_with_id(id),
                forall|j: int| 0 <= j < i ==> !p(#[trigger] s[j]),
            decreases self.list.len() - i,
        {
            if self.list[i].id == id && self.list[i].state == State::Failed {
                proof {
                    lemma_first_where_at(s, p, i as int);
                }
                let mut j = self.list[i].clone();
                j.state = State::Queued;
                j.detail = String::new();
                j.bytes = 0;
                j.total = None;
                j.path = None;
                j.delivered = false;
                self.list.set(i, j);
                assert(self.jobs() == s.update(i as int, requeued(s[i as int])));
                proof {
                    lemma_update_keeps_ids(s, self.next_id, i as int, requeued(s[i as int]));
                }
                return true;
            }
            i += 1;
        }
        proof {
            lemma_first_where_none(s, p);
        }
        false
    }

    /// The first job with `id`.
    pub fn get(&self, id: u64) -> (r: Option<Job>)
        ensures
            match first_where(self.jobs(), has_id(id)) {
                Some(i) => r matches Some(j) && j@ == self.jobs()[i],
                None => r is None,
            },
    {
        let ghost s = self.jobs();
        let ghost p = has_id(id);
        let mut i: usize = 0;
        while i < self.list.len()
            invariant
                i <= self.list.len(),
                s == self.jobs(),
                p == has_id(id),
                forall|j: int| 0 <= j < i ==> !p(#[trigger] s[j]),
            decreases self.list.len() - i,
        {
            if self.list[i].id == id {
                proof {
                    lemma_first_where_at(s, p, i as int);
                }
                return Some(self.list[i].clone());
            }
            i += 1;
        }
        proof {
            lemma_first_where_none(s, p);
        }
        None
    }

    /// The next finished book the browser has not fetched yet, marked as
    /// handed over.
    pub fn take_undelivered(&mut self) -> (r: Option<Job>)
        requires
            old(self).wf(),
        ensures
            final(self).wf(),
            (final(self).jobs(), match r {
                Some(j) => Some(j@),
                None => None,
            }) == take_spec(old(self).jobs()),
            final(self).next() == old(self).next(),
            final(self).pending() == old(self).pending(),
            final(self).extras() == old(self).extras(),
    {
        let ghost s = self.jobs();
        let ghost p = undelivered();
        let mut i: usize = 0;
        while i < self.list.len()
            invariant
                i <= self.list.len(),
                *self == *old(self),
                old(self).wf(),
                s == self.jobs(),
                p == undelivered(),
                forall|j: int| 0 <= j < i ==> !p(#[trigger] s[j]),
            decreases self.list.len() - i,
        {
            if self.list[i].state == State::Done && !self.list[i].delivered
                && self.list[i].path.is_some() {
                proof {
                    lemma_first_where_at(s, p, i as int);
                }
                let mut j = self.list[i].clone();
                j.delivered = true;
                let out = j.clone();
                self.list.set(i, j);
                assert(self.jobs() == s.update(i as int, out@));
                proof {
                    lemma_update_keeps_ids(s, self.next_id, i as int, out@);
                }
                return Some(out);
            }
            i += 1;
        }
        proof {
            lemma_first_where_none(s, p);
        }
        None
    }

    /// Changes the first job with `id`, if there is one.
    pub fn update(&mut self, id: u64, change: JobChange)
        requires
            old(self).wf(),
        ensures
            final(self).wf(),
            final(self).jobs() == update_at_id(
                old(self).jobs(),
                id,
                |j: JobView| apply_change(j, change),
            ),
            final(self).next() == old(self).next(),
            final(self).pending() == old(self).pending(),
            final(self).extras() == old(self).extras(),
    {
        let ghost s = self.jobs();
        let ghost p = has_id(id);
        let mut i: usize = 0;
        while i < self.list.len()
            invariant
                i <= self.list.len(),
                *self == *old(self),
                old(self).wf(),
                s == self.jobs(),
                p == has_id(id),
                forall|j: int| 0 <= j < i ==> !p(#[trigger] s[j]),
            decreases self.list.len() - i,
        {
            if self.list[i].id == id {
                proof {
                    lemma_first_where_at(s, p, i as int);
                }
                let mut j = self.list[i].clone();
                match change {
                    JobChange::State(st) => j.state = st,
                    JobChange::Detail(d) => j.detail = d,
                    JobChange::Bytes(n) => j.bytes = n,
                    JobChange::Total(t) => j.total = t,
                }
                self.list.set(i, j);
                assert(self.jobs() == s.update(i as int, apply_change(s[i as int], change)));
                proof {
                    lemma_update_keeps_ids(s, self.next_id, i as int, apply_change(s[i as int], change));
                }
                return;
            }
            i += 1;
        }
        proof {
            lemma_first_where_none(s, p);
        }
    }

    /// Records how the download of job `id` ended: done with the file at
    /// the path, or failed with the reason. A finished book makes an import
    /// due.
    pub fn finish(&mut self, id: u64, outcome: Result<String, String>)
        requires
            old(self).wf(),
        ensures
            final(self).wf(),
            final(self).jobs() == update_at_id(
                old(self).jobs(),
                id,
                outcome_change(outcome_view(outcome)),
            ),
            final(self).pending() == (old(self).pending() || outcome is Ok),
            final(self).next() == old(self).next(),
            final(self).extras() == old(self).extras(),
    {
        let ghost s = self.jobs();
        let ghost p = has_id(id);
        let ghost f = outcome_change(outcome_view(outcome));
        let ok = outcome.is_ok();
        let mut i: usize = 0;
        while i < self.list.len()
            invariant
                i <= self.list.len(),
                *self == *old(self),
                old(self).wf(),
                s == self.jobs(),
                p == has_id(id),
                ok == outcome is Ok,
                f == outcome_change(outcome_view(outcome)),
                forall|j: int| 0 <= j < i ==> !p(#[trigger] s[j]),
            decreases self.list.len() - i,
        {
            if self.list[i].id == id {
                proof {
                    lemma_first_where_at(s, p, i as int);
                }
                let mut j = self.list[i].clone();
                match outcome {
                    Ok(path) => {
                        j.state = State::Done;
                        j.path = Some(path);
                        j.detail = String::new();
                    },
                    Err(e) => {
                        j.state = State::Failed;
                        j.detail = e;
                    },
                }
                assert(j@ == f(s[i as int]));
                self.list.set(i, j);
                assert(self.jobs() == s.update(i as int, f(s[i as int])));
                proof {
                    lemma_update_keeps_ids(s, self.next_id, i as int, f(s[i as int]));
                }
                if ok {
                    self.import_pending = true;
                }
                return;
            }
            i += 1;
        }
        proof {
            lemma_first_where_none(s, p);
        }
        if ok {
            self.import_pending = true;
        }
    }

    /// Whether Nickel should import now: nothing queued or running, a book
    /// finished since the last import, folder delivery with automatic
    /// import on, and NickelDBus available. Saying yes clears the flag.
    pub fn maybe_import(&mut self, cfg: &Config, nickel_available: bool) -> (r: bool)
        requires
            old(self).wf(),
        ensures
            final(self).wf(),
            r == import_due(
                count_where(old(self).jobs(), is_active_job()),
                old(self).pending(),
                *cfg,
                nickel_available,
            ),
            final(self).pending() == (old(self).pending() && !r),
            final(self).jobs() == old(self).jobs(),
            final(self).next() == old(self).next(),
            final(self).extras() == old(self).extras(),
    {
        if self.active_count() > 0 || !self.import_pending {
            return false;
        }
        if !crate::text::eq_str(cfg.deliver.as_str(), "folder") || !cfg.auto_import
            || !nickel_available {
            return false;
        }
        self.import_pending = false;
        true
    }
}

} // verus!

verus! {

/// Queueing the same book twice in a row gives the same job: the second
/// call finds the first one's job still active and changes nothing.
/// A book that is still being fetched is not queued again: the call gives
/// the id of the first active job for its md5 and changes nothing, not even
/// the id the next new job gets.
pub proof fn law_enqueue_existing(s: Seq<JobView>, next: u64, book: BookView, t: u64)
    requires
        first_where(s, active_with_md5(book.md5)) is Some,
    ensures
        ({
            let i = first_where(s, active_with_md5(book.md5))->0;
            enqueue_spec(s, next, book, t) == (s, next, s[i].id) && s[i].book.md5 == book.md5
                && s[i].state.is_active()
        }),
{
    lemma_first_where(s, active_with_md5(book.md5));
}

pub proof fn law_enqueue_twice(s: Seq<JobView>, next: u64, book: BookView, t1: u64, t2: u64)
    requires
        ids_ordered(s, next),
        next < u64::MAX,
    ensures
        ({
            let (s1, n1, id1) = enqueue_spec(s, next, book, t1);
            let (s2, n2, id2) = enqueue_spec(s1, n1, book, t2);
            id2 == id1 && s2 == s1 && n2 == n1
        }),
{
    let p = active_with_md5(book.md5);
    lemma_first_where(s, p);
    match first_where(s, p) {
        Some(i) => {},
        None => {
            let s1 = s.push(new_job(next, book, t1));
            assert(p(s1[s.len() as int]));
            lemma_first_where_at(s1, p, s.len() as int);
        },
    }
}

/// A new job can be found by the id that queueing it returned, and it is
/// queued.
pub proof fn law_enqueue_then_get(s: Seq<JobView>, next: u64, book: BookView, t: u64)
    requires
        ids_ordered(s, next),
        next < u64::MAX,
        first_where(s, active_with_md5(book.md5)) is None,
    ensures
        ({
            let (s1, n1, id) = enqueue_spec(s, next, book, t);
            &&& first_where(s1, has_id(id)) == Some(s.len() as int)
            &&& s1[s.len() as int].state == State::Queued
            &&& s1[s.len() as int].book == book
            &&& ids_ordered(s1, n1)
        }),
{
    let s1 = s.push(new_job(next, book, t));
    assert forall|j: int| 0 <= j < s.len() implies !has_id(next)(#[trigger] s1[j]) by {
        assert(s1[j] == s[j]);
    }
    lemma_first_where_at(s1, has_id(next), s.len() as int);
}

/// The browser is never handed the same job twice: two hand-outs in a row
/// give jobs with different ids.
pub proof fn law_take_distinct(s: Seq<JobView>, next: u64)
    requires
        ids_ordered(s, next),
    ensures
        ({
            let (s1, a) = take_spec(s);
            let (s2, b) = take_spec(s1);
            a is Some && b is Some ==> a->0.id != b->0.id
        }),
{
    let p = undelivered();
    lemma_first_where(s, p);
    if let Some(i) = first_where(s, p) {
        let s1 = take_spec(s).0;
        lemma_first_where(s1, p);
        if let Some(k) = first_where(s1, p) {
            assert(!p(s1[i]));
            assert(k != i);
            assert(s1[k].id == s[k].id);
        }
    }
}

/// A job whose download failed can be retried: it goes back in the queue.
pub proof fn law_retry_after_failure(s: Seq<JobView>, next: u64, id: u64, e: Seq<char>)
    requires
        ids_ordered(s, next),
        first_where(s, has_id(id)) is Some,
    ensures
        ({
            let s1 = update_at_id(s, id, outcome_change(Err(e)));
            let (s2, ok) = retry_spec(s1, id);
            let i = first_where(s, has_id(id))->0;
            ok && s2[i].state == State::Queued && s2[i].id == id
        }),
{
    let p = has_id(id);
    let q = failed_with_id(id);
    lemma_first_where(s, p);
    let i = first_where(s, p)->0;
    let s1 = update_at_id(s, id, outcome_change(Err(e)));
    assert forall|j: int| 0 <= j < i implies !q(#[trigger] s1[j]) by {
        assert(s1[j] == s[j]);
        assert(!p(s[j]));
    }
    lemma_first_where_at(s1, q, i);
}

/// Clearing finished jobs keeps every queued or running one: the number of
/// active jobs stays the same, and only active jobs remain.
pub proof fn law_clear_keeps_active(s: Seq<JobView>)
    ensures
        count_where(keep(s, is_active_job()), is_active_job()) == count_where(s, is_active_job()),
        count_where(keep(s, is_active_job()), is_active_job()) == keep(s, is_active_job()).len(),
    decreases s.len(),
{
    if s.len() > 0 {
        let t = s.drop_last();
        law_clear_keeps_active(t);
        let kt = keep(t, is_active_job());
        if is_active_job()(s.last()) {
            assert(keep(s, is_active_job()).drop_last() == kt);
        }
    }
}

/// One import per batch of finished books: once an import is asked for,
/// none is due again until another book finishes.
pub proof fn law_import_once(active: nat, pending: bool, cfg: Config, nickel_available: bool)
    ensures
        import_due(active, pending, cfg, nickel_available) ==> !import_due(
            active,
            pending && !import_due(active, pending, cfg, nickel_available),
            cfg,
            nickel_available,
        ),
{
}

} // verus!

verus! {

// ---------------------------------------------------------------------------
// File names

/// The ASCII stand-in the Kobo browser's file names get for `c`: the
/// character itself when it is ASCII other than `"` and `\`, a Latin
/// base letter for common accented ones, `_` for the rest.
pub open spec fn ascii_char(c: char) -> Seq<char> {
    if c < '\u{80}' && c != '"' && c != '\\' {
        seq![c]
    } else if c == '\u{e0}' || c == '\u{e1}' || c == '\u{e2}' || c == '\u{e3}'
        || c == '\u{e4}' || c == '\u{e5}' || c == '\u{101}' || c == '\u{103}'
        || c == '\u{105}' {
        "a"@
    } else if c == '\u{c0}' || c == '\u{c1}' || c == '\u{c2}' || c == '\u{c3}'
        || c == '\u{c4}' || c == '\u{c5}' || c == '\u{100}' || c == '\u{102}'
        || c == '\u{104}' {
        "A"@
    } else if c == '\u{e7}' || c == '\u{107}' || c == '\u{10d}' {
        "c"@
    } else if c == '\u{c7}' || c == '\u{106}' || c == '\u{10c}' {
        "C"@
    } else if c == '\u{e8}' || c == '\u{e9}' || c == '\u{ea}' || c == '\u{eb}'
        || c == '\u{113}' || c == '\u{117}' || c == '\u{119}' || c == '\u{11b}' {
        "e"@
    } else if c == '\u{c8}' || c == '\u{c9}' || c == '\u{ca}' || c == '\u{cb}'
        || c == '\u{112}' || c == '\u{116}' || c == '\u{118}' || c == '\u{11a}' {
        "E"@
    } else if c == '\u{11f}' || c == '\u{123}' {
        "g"@
    } else if c == '\u{11e}' || c == '\u{122}' {
        "G"@
    } else if c == '\u{ec}' || c == '\u{ed}' || c == '\u{ee}' || c == '\u{ef}'
        || c == '\u{12b}' || c == '\u{131}' || c == '\u{12f}' {
        "i"@
    } else if c == '\u{cc}' || c == '\u{cd}' || c == '\u{ce}' || c == '\u{cf}'
        || c == '\u{12a}' || c == '\u{130}' || c == '\u{12e}' {
        "I"@
    } else if c == '\u{142}' || c == '\u{13c}' {
        "l"@
    } else if c == '\u{141}' || c == '\u{13b}' {
        "L"@
    } else if c == '\u{f1}' || c == '\u{144}' || c == '\u{148}' || c == '\u{146}' {
        "n"@
    } else if c == '\u{d1}' || c == '\u{143}' || c == '\u{147}' || c == '\u{145}' {
        "N"@
    } else if c == '\u{f2}' || c == '\u{f3}' || c == '\u{f4}' || c == '\u{f5}'
        || c == '\u{f6}' || c == '\u{f8}' || c == '\u{14d}' || c == '\u{151}' {
        "o"@
    } else if c == '\u{d2}' || c == '\u{d3}' || c == '\u{d4}' || c == '\u{d5}'
        || c == '\u{d6}' || c == '\u{d8}' || c == '\u{14c}' || c == '\u{150}' {
        "O"@
    } else if c == '\u{159}' {
        "r"@
    } else if c == '\u{158}' {
        "R"@
    } else if c == '\u{15b}' || c == '\u{161}' || c == '\u{15f}' || c == '\u{219}' {
        "s"@
    } else if c == '\u{15a}' || c == '\u{160}' || c == '\u{15e}' || c == '\u{218}' {
        "S"@
    } else if c == '\u{165}' || c == '\u{163}' || c == '\u{21b}' {
        "t"@
    } else if c == '\u{164}' || c == '\u{162}' || c == '\u{21a}' {
        "T"@
    } else if c == '\u{f9}' || c == '\u{fa}' || c == '\u{fb}' || c == '\u{fc}'
        || c == '\u{16b}' || c == '\u{16f}' || c == '\u{171}' || c == '\u{173}' {
        "u"@
    } else if c == '\u{d9}' || c == '\u{da}' || c == '\u{db}' || c == '\u{dc}'
        || c == '\u{16a}' || c == '\u{16e}' || c == '\u{170}' || c == '\u{172}' {
        "U"@
    } else if c == '\u{fd}' || c == '\u{ff}' {
        "y"@
    } else if c == '\u{dd}' || c == '\u{178}' {
        "Y"@
    } else if c == '\u{17a}' || c == '\u{17e}' || c == '\u{17c}' {
        "z"@
    } else if c == '\u{179}' || c == '\u{17d}' || c == '\u{17b}' {
        "Z"@
    } else if c == '\u{df}' {
        "ss"@
    } else if c == '\u{e6}' {
        "ae"@
    } else if c == '\u{c6}' {
        "AE"@
    } else if c == '\u{153}' {
        "oe"@
    } else if c == '\u{152}' {
        "OE"@
    } else if c == '\u{2018}' || c == '\u{2019}' {
        "'"@
    } else if c == '\u{201c}' || c == '\u{201d}' {
        ""@
    } else if c == '\u{2013}' || c == '\u{2014}' {
        "-"@
    } else {
        "_"@
    }
}

/// The replacement text for a character that is not plain ASCII.
fn replacement(c: char) -> (r: &'static str)
    requires
        !(c < '\u{80}' && c != '"' && c != '\\'),
    ensures
        r@ == ascii_char(c),
{
    if c == '\u{e0}' || c == '\u{e1}' || c == '\u{e2}' || c == '\u{e3}'
        || c == '\u{e4}' || c == '\u{e5}' || c == '\u{101}' || c == '\u{103}'
        || c == '\u{105}' {
        "a"
    } else if c == '\u{c0}' || c == '\u{c1}' || c == '\u{c2}' || c == '\u{c3}'
        || c == '\u{c4}' || c == '\u{c5}' || c == '\u{100}' || c == '\u{102}'
        || c == '\u{104}' {
        "A"
    } else if c == '\u{e7}' || c == '\u{107}' || c == '\u{10d}' {
        "c"
    } else if c == '\u{c7}' || c == '\u{106}' || c == '\u{10c}' {
        "C"
    } else if c == '\u{e8}' || c == '\u{e9}' || c == '\u{ea}' || c == '\u{eb}'
        || c == '\u{113}' || c == '\u{117}' || c == '\u{119}' || c == '\u{11b}' {
        "e"
    } else if c == '\u{c8}' || c == '\u{c9}' || c == '\u{ca}' || c == '\u{cb}'
        || c == '\u{112}' || c == '\u{116}' || c == '\u{118}' || c == '\u{11a}' {
        "E"
    } else if c == '\u{11f}' || c == '\u{123}' {
        "g"
    } else if c == '\u{11e}' || c == '\u{122}' {
        "G"
    } else if c == '\u{ec}' || c == '\u{ed}' || c == '\u{ee}' || c == '\u{ef}'
        || c == '\u{12b}' || c == '\u{131}' || c == '\u{12f}' {
        "i"
    } else if c == '\u{cc}' || c == '\u{cd}' || c == '\u{ce}' || c == '\u{cf}'
        || c == '\u{12a}' || c == '\u{130}' || c == '\u{12e}' {
        "I"
    } else if c == '\u{142}' || c == '\u{13c}' {
        "l"
    } else if c == '\u{141}' || c == '\u{13b}' {
        "L"
    } else if c == '\u{f1}' || c == '\u{144}' || c == '\u{148}' || c == '\u{146}' {
        "n"
    } else if c == '\u{d1}' || c == '\u{143}' || c == '\u{147}' || c == '\u{145}' {
        "N"
    } else if c == '\u{f2}' || c == '\u{f3}' || c == '\u{f4}' || c == '\u{f5}'
        || c == '\u{f6}' || c == '\u{f8}' || c == '\u{14d}' || c == '\u{151}' {
        "o"
    } else if c == '\u{d2}' || c == '\u{d3}' || c == '\u{d4}' || c == '\u{d5}'
        || c == '\u{d6}' || c == '\u{d8}' || c == '\u{14c}' || c == '\u{150}' {
        "O"
    } else if c == '\u{159}' {
        "r"
    } else if c == '\u{158}' {
        "R"
    } else if c == '\u{15b}' || c == '\u{161}' || c == '\u{15f}' || c == '\u{219}' {
        "s"
    } else if c == '\u{15a}' || c == '\u{160}' || c == '\u{15e}' || c == '\u{218}' {
        "S"
    } else if c == '\u{165}' || c == '\u{163}' || c == '\u{21b}' {
        "t"
    } else if c == '\u{164}' || c == '\u{162}' || c == '\u{21a}' {
        "T"
    } else if c == '\u{f9}' || c == '\u{fa}' || c == '\u{fb}' || c == '\u{fc}'
        || c == '\u{16b}' || c == '\u{16f}' || c == '\u{171}' || c == '\u{173}' {
        "u"
    } else if c == '\u{d9}' || c == '\u{da}' || c == '\u{db}' || c == '\u{dc}'
        || c == '\u{16a}' || c == '\u{16e}' || c == '\u{170}' || c == '\u{172}' {
        "U"
    } else if c == '\u{fd}' || c == '\u{ff}' {
        "y"
    } else if c == '\u{dd}' || c == '\u{178}' {
        "Y"
    } else if c == '\u{17a}' || c == '\u{17e}' || c == '\u{17c}' {
        "z"
    } else if c == '\u{179}' || c == '\u{17d}' || c == '\u{17b}' {
        "Z"
    } else if c == '\u{df}' {
        "ss"
    } else if c == '\u{e6}' {
        "ae"
    } else if c == '\u{c6}' {
        "AE"
    } else if c == '\u{153}' {
        "oe"
    } else if c == '\u{152}' {
        "OE"
    } else if c == '\u{2018}' || c == '\u{2019}' {
        "'"
    } else if c == '\u{201c}' || c == '\u{201d}' {
        ""
    } else if c == '\u{2013}' || c == '\u{2014}' {
        "-"
    } else {
        "_"
    }
}

/// `s` with each character replaced by its ASCII stand-in.
pub open spec fn ascii_name_of(s: Seq<char>) -> Seq<char>
    decreases s.len(),
{
    if s.len() == 0 {
        seq![]
    } else {
        ascii_name_of(s.drop_last()) + ascii_char(s.last())
    }
}

/// The Kobo browser names its download from the plain `filename=` value,
/// which must be ASCII; common Latin letters are mapped instead of lost.
pub fn ascii_name(name: &str) -> (r: String)
    ensures
        r@ == ascii_name_of(name@),
{
    let cs = chars_of(name);
    let mut out: Vec<char> = Vec::new();
    let mut i: usize = 0;
    while i < cs.len()
        invariant
            i <= cs.len(),
            out@ == ascii_name_of(cs@.take(i as int)),
        decreases cs.len() - i,
    {
        let c = cs[i];
        assert(cs@.take(i + 1).drop_last() == cs@.take(i as int));
        if c < '\u{80}' && c != '"' && c != '\\' {
            out.push(c);
            assert(out@ == ascii_name_of(cs@.take(i as int)) + seq![c]);
        } else {
            let rep = chars_of(replacement(c));
            push_all(&mut out, &rep);
        }
        i += 1;
    }
    assert(cs@.take(i as int) == cs@);
    string_of(&out)
}

/// A character a plain `filename=` value can hold: ASCII, and neither a
/// quote nor a backslash.
pub open spec fn plain_name_char(c: char) -> bool {
    c < '\u{80}' && c != '"' && c != '\\'
}

proof fn lemma_ascii_char(c: char)
    ensures
        forall|k: int| 0 <= k < ascii_char(c).len() ==> plain_name_char(#[trigger] ascii_char(c)[k]),
        plain_name_char(c) ==> ascii_char(c) == seq![c],
{
    reveal_strlit("a");
    reveal_strlit("A");
    reveal_strlit("c");
    reveal_strlit("C");
    reveal_strlit("e");
    reveal_strlit("E");
    reveal_strlit("g");
    reveal_strlit("G");
    reveal_strlit("i");
    reveal_strlit("I");
    reveal_strlit("l");
    reveal_strlit("L");
    reveal_strlit("n");
    reveal_strlit("N");
    reveal_strlit("o");
    reveal_strlit("O");
    reveal_strlit("r");
    reveal_strlit("R");
    reveal_strlit("s");
    reveal_strlit("S");
    reveal_strlit("t");
    reveal_strlit("T");
    reveal_strlit("u");
    reveal_strlit("U");
    reveal_strlit("y");
    reveal_strlit("Y");
    reveal_strlit("z");
    reveal_strlit("Z");
    reveal_strlit("ss");
    reveal_strlit("ae");
    reveal_strlit("AE");
    reveal_strlit("oe");
    reveal_strlit("OE");
    reveal_strlit("'");
    reveal_strlit("");
    reveal_strlit("-");
    reveal_strlit("_");
}

/// The ASCII name holds only plain characters, keeps a name that has only
/// plain characters as it is, and so gives back its own result unchanged.
pub proof fn law_ascii_name(name: Seq<char>)
    ensures
        forall|k: int|
            0 <= k < ascii_name_of(name).len() ==> plain_name_char(#[trigger] ascii_name_of(name)[k]),
        (forall|k: int| 0 <= k < name.len() ==> plain_name_char(#[trigger] name[k]))
            ==> ascii_name_of(name) == name,
        ascii_name_of(ascii_name_of(name)) == ascii_name_of(name),
    decreases name.len(),
{
    if name.len() > 0 {
        let t = name.drop_last();
        law_ascii_name(t);
        lemma_ascii_char(name.last());
        let a = ascii_name_of(t);
        let e = ascii_char(name.last());
        assert forall|k: int| 0 <= k < ascii_name_of(name).len() implies plain_name_char(
            #[trigger] ascii_name_of(name)[k],
        ) by {
            if k < a.len() {
                assert(ascii_name_of(name)[k] == a[k]);
            } else {
                assert(ascii_name_of(name)[k] == e[k - a.len()]);
            }
        }
        if forall|k: int| 0 <= k < name.len() ==> plain_name_char(#[trigger] name[k]) {
            assert forall|k: int| 0 <= k < t.len() implies plain_name_char(#[trigger] t[k]) by {
                assert(t[k] == name[k]);
            }
            assert(plain_name_char(name[name.len() - 1]));
            assert(ascii_name_of(name) =~= name);
        }
        let r = ascii_name_of(name);
        lemma_ascii_fixed(r);
    }
}

proof fn lemma_ascii_fixed(s: Seq<char>)
    requires
        forall|k: int| 0 <= k < s.len() ==> plain_name_char(#[trigger] s[k]),
    ensures
        ascii_name_of(s) == s,
    decreases s.len(),
{
    if s.len() > 0 {
        let t = s.drop_last();
        assert forall|k: int| 0 <= k < t.len() implies plain_name_char(#[trigger] t[k]) by {
            assert(t[k] == s[k]);
        }
        lemma_ascii_fixed(t);
        lemma_ascii_char(s.last());
        assert(plain_name_char(s[s.len() - 1]));
        assert(ascii_name_of(s) =~= s);
    }
}

/// Characters a FAT file name cannot hold become spaces.
pub open spec fn fat_char(c: char) -> char {
    if c == '\u{3c}' || c == '\u{3e}' || c == ':' || c == '"' || c == '/' || c == '\\' || c == '|' || c
        == '?' || c == '*' || '\u{20}' > c {
        ' '
    } else {
        c
    }
}

/// `s` made FAT-safe: forbidden characters as spaces, whitespace collapsed,
/// no dots or spaces at either end.
pub open spec fn fat_safe(s: Seq<char>) -> Seq<char> {
    strip_both(collapse_ws(s.map_values(|c: char| fat_char(c))), CharClass::DotOrSpace)
}

/// `s` cut to `n` characters (and then without trailing whitespace) when
/// it is longer.
pub open spec fn shortened(s: Seq<char>, n: nat) -> Seq<char> {
    if s.len() > n {
        strip_end(s.take(n as int), CharClass::Space)
    } else {
        s
    }
}

/// "Title - Author": the FAT-safe title (at most 80 characters, the md5
/// when empty) and the FAT-safe authors (at most 40), if any.
pub open spec fn file_base_of(b: BookView) -> Seq<char> {
    let t = shortened(fat_safe(b.title), 80);
    let t = if t.len() == 0 {
        b.md5
    } else {
        t
    };
    let a = shortened(fat_safe(b.authors), 40);
    if a.len() == 0 {
        t
    } else {
        t + " - "@ + a
    }
}

fn fat_safe_chars(s: &str) -> (r: Vec<char>)
    ensures
        r@ == fat_safe(s@),
{
    let cs = chars_of(s);
    let mut m: Vec<char> = Vec::new();
    let mut i: usize = 0;
    while i < cs.len()
        invariant
            i <= cs.len(),
            m@ == cs@.take(i as int).map_values(|c: char| fat_char(c)),
        decreases cs.len() - i,
    {
        let c = cs[i];
        let f = if '\u{20}' > c || c == '\u{3c}' || c == '\u{3e}' || c == ':' || c == '"' || c == '/' || c
            == '\\' || c == '|' || c == '?' || c == '*' {
            ' '
        } else {
            c
        };
        m.push(f);
        i += 1;
        assert(m@ == cs@.take(i as int).map_values(|c: char| fat_char(c)));
    }
    assert(cs@.take(i as int) == cs@);
    let collapsed = collapse_whitespace(&m);
    trim(&collapsed, &CharClass::DotOrSpace)
}

fn shorten(s: Vec<char>, n: usize) -> (r: Vec<char>)
    ensures
        r@ == shortened(s@, n as nat),
{
    if s.len() > n {
        trim_end(&s[0..n], &CharClass::Space)
    } else {
        s
    }
}

/// The characters a FAT file name cannot hold.
pub open spec fn fat_forbidden(c: char) -> bool {
    c == '\u{3c}' || c == '\u{3e}' || c == ':' || c == '"' || c == '/' || c == '\\' || c == '|'
        || c == '?' || c == '*' || '\u{20}' > c
}

pub open spec fn allowed_all(w: Seq<char>) -> bool {
    forall|j: int| 0 <= j < w.len() ==> !fat_forbidden(#[trigger] w[j])
}

/// No forbidden character, no whitespace but single spaces.
pub open spec fn fat_inner(x: Seq<char>) -> bool {
    &&& allowed_all(x)
    &&& forall|i: int| 0 <= i < x.len() && is_ws(#[trigger] x[i]) ==> x[i] == ' '
    &&& forall|i: int| 0 <= i < x.len() - 1 ==> !(is_ws(#[trigger] x[i]) && is_ws(x[i + 1]))
}

/// Neither a dot nor a space first, no space last.
pub open spec fn fat_edges(x: Seq<char>) -> bool {
    x.len() > 0 ==> x[0] != '.' && x[0] != ' ' && x.last() != ' '
}

proof fn lemma_inner_sub(x: Seq<char>, a: int, b: int)
    requires
        fat_inner(x),
        0 <= a <= b <= x.len(),
    ensures
        fat_inner(x.subrange(a, b)),
{
    let y = x.subrange(a, b);
    assert forall|j: int| 0 <= j < y.len() implies !fat_forbidden(#[trigger] y[j]) by {
        assert(y[j] == x[a + j]);
    }
    assert forall|i: int| 0 <= i < y.len() && is_ws(#[trigger] y[i]) implies y[i] == ' ' by {
        assert(y[i] == x[a + i]);
    }
    assert forall|i: int| 0 <= i < y.len() - 1 implies !(is_ws(#[trigger] y[i]) && is_ws(y[i + 1])) by {
        assert(y[i] == x[a + i] && y[i + 1] == x[a + i + 1]);
    }
}

proof fn lemma_words_allowed(s: Seq<char>)
    requires
        allowed_all(s),
    ensures
        forall|k: int| 0 <= k < words(s).len() ==> allowed_all(#[trigger] words(s)[k]),
    decreases s.len(),
{
    if s.len() > 0 {
        let t = s.drop_last();
        let c = s.last();
        assert(allowed_all(t)) by {
            assert forall|j: int| 0 <= j < t.len() implies !fat_forbidden(#[trigger] t[j]) by {
                assert(t[j] == s[j]);
            }
        }
        assert(!fat_forbidden(s[s.len() - 1]));
        lemma_words_allowed(t);
        let w = words(t);
        if !is_ws(c) {
            if s.len() >= 2 && !is_ws(s[s.len() - 2]) {
                crate::text::lemma_words_nonempty(t);
                let u = w.update(w.len() - 1, w.last().push(c));
                assert forall|k: int| 0 <= k < u.len() implies allowed_all(#[trigger] u[k]) by {
                    if k == w.len() - 1 {
                        let x = w.last().push(c);
                        assert(allowed_all(w[k]));
                        assert forall|j: int| 0 <= j < x.len() implies !fat_forbidden(#[trigger] x[j]) by {
                            if j < w.last().len() {
                                assert(x[j] == w[k][j]);
                            }
                        }
                    }
                }
            } else {
                let u = w.push(seq![c]);
                assert forall|k: int| 0 <= k < u.len() implies allowed_all(#[trigger] u[k]) by {
                    if k < w.len() {
                        assert(u[k] == w[k]);
                    }
                }
            }
        }
    }
}

proof fn lemma_join_allowed(parts: Seq<Seq<char>>)
    requires
        forall|k: int| 0 <= k < parts.len() ==> allowed_all(#[trigger] parts[k]),
    ensures
        allowed_all(join(parts, seq![' '])),
    decreases parts.len(),
{
    if parts.len() == 1 {
        assert(allowed_all(parts[0]));
    } else if parts.len() >= 2 {
        let d = parts.drop_last();
        assert forall|k: int| 0 <= k < d.len() implies allowed_all(#[trigger] d[k]) by {
            assert(d[k] == parts[k]);
        }
        lemma_join_allowed(d);
        let j = join(d, seq![' ']);
        let w = parts.last();
        assert(allowed_all(parts[parts.len() - 1]));
        let r = join(parts, seq![' ']);
        assert(r == j + seq![' '] + w);
        assert forall|i: int| 0 <= i < r.len() implies !fat_forbidden(#[trigger] r[i]) by {
            if i < j.len() {
                assert(r[i] == j[i]);
            } else if i > j.len() {
                assert(r[i] == w[i - j.len() - 1]);
            }
        }
    }
}

proof fn lemma_fat_safe(s: Seq<char>)
    ensures
        fat_inner(fat_safe(s)),
        fat_edges(fat_safe(s)),
{
    let m = s.map_values(|c: char| fat_char(c));
    assert(allowed_all(m));
    let c = collapse_ws(m);
    crate::text::law_collapse_ws(m);
    lemma_words_allowed(m);
    lemma_join_allowed(words(m));
    assert(fat_inner(c));
    let i = crate::text::lemma_strip_start_at(c, CharClass::DotOrSpace);
    let u = c.skip(i);
    let j = crate::text::lemma_strip_end_at(u, CharClass::DotOrSpace);
    let r = u.take(j);
    assert(r == c.subrange(i, i + j));
    lemma_inner_sub(c, i, i + j);
    if r.len() > 0 {
        assert(r[0] == c[i]);
        assert(r.last() == u[j - 1]);
    }
}

proof fn lemma_shortened(x: Seq<char>, n: nat)
    requires
        fat_inner(x),
        fat_edges(x),
    ensures
        fat_inner(shortened(x, n)),
        fat_edges(shortened(x, n)),
{
    if x.len() > n {
        let y = x.take(n as int);
        let j = crate::text::lemma_strip_end_at(y, CharClass::Space);
        let r = y.take(j);
        assert(r == x.subrange(0, j));
        lemma_inner_sub(x, 0, j);
        if r.len() > 0 {
            assert(r[0] == x[0]);
            assert(r.last() == y[j - 1]);
        }
    }
}

/// The base name of a book's file is never empty and is safe on FAT: no
/// forbidden character, no whitespace but single spaces, neither a dot nor
/// a space first and no space last (the book's md5 being well formed).
pub proof fn law_file_base(b: BookView)
    requires
        spec_is_md5(b.md5),
    ensures
        file_base_of(b).len() > 0,
        forall|i: int| 0 <= i < file_base_of(b).len() ==> !fat_forbidden(#[trigger] file_base_of(b)[i]),
        forall|i: int|
            0 <= i < file_base_of(b).len() - 1 ==> !(#[trigger] file_base_of(b)[i] == ' '
                && file_base_of(b)[i + 1] == ' '),
        file_base_of(b)[0] != '.' && file_base_of(b)[0] != ' ',
        file_base_of(b).last() != ' ',
{
    lemma_fat_safe(b.title);
    lemma_fat_safe(b.authors);
    lemma_shortened(fat_safe(b.title), 80);
    lemma_shortened(fat_safe(b.authors), 40);
    let t0 = shortened(fat_safe(b.title), 80);
    let t = if t0.len() == 0 {
        b.md5
    } else {
        t0
    };
    if t0.len() == 0 {
        assert forall|j: int| 0 <= j < t.len() implies !fat_forbidden(#[trigger] t[j]) && !is_ws(
            t[j],
        ) && t[j] != '.' by {
            assert(is_hex(t[j]));
        }
    }
    assert(fat_inner(t));
    assert(fat_edges(t));
    assert(t.len() > 0);
    let a = shortened(fat_safe(b.authors), 40);
    let r = file_base_of(b);
    if a.len() > 0 {
        let sep = seq![' ', '-', ' '];
        reveal_strlit(" - ");
        assert(" - "@ == sep);
        assert(r == t + sep + a);
        let n = t.len();
        assert(!is_ws(t[n - 1]));
        assert(!is_ws(a[0]));
        assert forall|i: int| 0 <= i < r.len() implies !fat_forbidden(#[trigger] r[i]) && (is_ws(r[i])
            ==> r[i] == ' ') by {
            if i < n {
                assert(r[i] == t[i]);
            } else if i >= n + 3 {
                assert(r[i] == a[i - n - 3]);
            }
        }
        assert forall|i: int| 0 <= i < r.len() - 1 implies !(is_ws(#[trigger] r[i]) && is_ws(r[i + 1])) by {
            if i + 1 < n {
                assert(r[i] == t[i] && r[i + 1] == t[i + 1]);
            } else if i + 1 == n {
                assert(r[i] == t[i]);
            } else if i == n + 2 {
                assert(r[i + 1] == a[0]);
            } else if i > n + 2 {
                assert(r[i] == a[i - n - 3] && r[i + 1] == a[i - n - 2]);
            }
        }
        assert(r[0] == t[0]);
        assert(r.last() == a.last());
        assert(fat_inner(r));
    } else {
        assert(r == t);
    }
    assert forall|i: int| 0 <= i < r.len() - 1 implies !(#[trigger] r[i] == ' ' && r[i + 1] == ' ') by {
        assert(!(is_ws(r[i]) && is_ws(r[i + 1])));
    }
}

/// FAT-safe, short, readable: "Title - Author".
pub fn file_base(book: &Book) -> (r: String)
    ensures
        r@ == file_base_of(book@),
{
    let t = shorten(fat_safe_chars(book.title.as_str()), 80);
    let t = if t.len() == 0 {
        chars_of(book.md5.as_str())
    } else {
        t
    };
    let a = shorten(fat_safe_chars(book.authors.as_str()), 40);
    if a.len() == 0 {
        string_of(&t)
    } else {
        let mut out = t;
        push_all(&mut out, &chars_of(" - "));
        push_all(&mut out, &a);
        string_of(&out)
    }
}

/// The file extensions a book may have.
pub open spec fn known_ext(e: Seq<char>) -> bool {
    ||| e == "epub"@
    ||| e == "pdf"@
    ||| e == "mobi"@
    ||| e == "azw3"@
    ||| e == "azw"@
    ||| e == "djvu"@
    ||| e == "cbz"@
    ||| e == "cbr"@
    ||| e == "fb2"@
    ||| e == "txt"@
    ||| e == "doc"@
    ||| e == "docx"@
    ||| e == "rtf"@
    ||| e == "lit"@
}

fn is_known_ext(e: &[char]) -> (b: bool)
    ensures
        b == known_ext(e@),
{
    same(e, &chars_of("epub")) || same(e, &chars_of("pdf")) || same(e, &chars_of("mobi"))
        || same(e, &chars_of("azw3")) || same(e, &chars_of("azw")) || same(
        e,
        &chars_of("djvu"),
    ) || same(e, &chars_of("cbz")) || same(e, &chars_of("cbr")) || same(e, &chars_of("fb2"))
        || same(e, &chars_of("txt")) || same(e, &chars_of("doc")) || same(
        e,
        &chars_of("docx"),
    ) || same(e, &chars_of("rtf")) || same(e, &chars_of("lit"))
}

/// `s` up to its first `?` or `#`.
pub open spec fn before_query(s: Seq<char>) -> Seq<char>
    decreases s.len(),
{
    if s.len() == 0 || s[0] == '?' || s[0] == '#' {
        seq![]
    } else {
        seq![s[0]] + before_query(s.drop_first())
    }
}

/// What follows the last `.` of `s`, or all of `s` when it has none.
pub open spec fn after_last_dot(s: Seq<char>) -> Seq<char>
    decreases s.len(),
{
    if s.len() == 0 || s.last() == '.' {
        seq![]
    } else {
        after_last_dot(s.drop_last()).push(s.last())
    }
}

/// The known extension that a URL or a `Content-Disposition` value ends
/// with, ignoring a query, a fragment and quotes, in lower case.
pub open spec fn ext_in(s: Seq<char>) -> Option<Seq<char>> {
    let e = lowercase(strip_both(after_last_dot(before_query(s)), CharClass::Only('"')));
    if known_ext(e) {
        Some(e)
    } else {
        None
    }
}

/// The extension for a downloaded book: its listed format when known, else
/// the one the server's file name or the final URL shows, else "epub".
pub open spec fn ext_for(format: Seq<char>, url: Seq<char>, disposition: Option<Seq<char>>) -> Seq<
    char,
> {
    let f = lowercase(format);
    if known_ext(f) {
        f
    } else {
        match (match disposition {
            Some(d) => ext_in(d),
            None => None,
        }) {
            Some(e) => e,
            None => match ext_in(url) {
                Some(e) => e,
                None => "epub"@,
            },
        }
    }
}

proof fn lemma_before_query(s: Seq<char>, i: int)
    requires
        0 <= i <= s.len(),
        forall|j: int| 0 <= j < i ==> s[j] != '?' && s[j] != '#',
        i == s.len() || s[i] == '?' || s[i] == '#',
    ensures
        before_query(s) == s.take(i),
    decreases i,
{
    if i > 0 {
        let t = s.drop_first();
        assert forall|j: int| 0 <= j < i - 1 implies t[j] != '?' && t[j] != '#' by {
            assert(t[j] == s[j + 1]);
        }
        lemma_before_query(t, i - 1);
        assert(seq![s[0]] + t.take(i - 1) == s.take(i));
    } else {
        assert(s.take(0) == Seq::<char>::empty());
    }
}

proof fn lemma_after_last_dot(s: Seq<char>, i: int)
    requires
        0 <= i <= s.len(),
        forall|j: int| i <= j < s.len() ==> s[j] != '.',
        i == 0 || s[i - 1] == '.',
    ensures
        after_last_dot(s) == s.skip(i),
    decreases s.len() - i,
{
    if i < s.len() {
        let t = s.drop_last();
        lemma_after_last_dot(t, i);
        assert(t.skip(i).push(s.last()) == s.skip(i));
    } else {
        assert(s.skip(i) == Seq::<char>::empty());
    }
}

fn ext_from(s: &str) -> (r: Option<Vec<char>>)
    ensures
        match (r, ext_in(s@)) {
            (Some(v), Some(e)) => v@ == e,
            (None, None) => true,
            _ => false,
        },
{
    let cs = chars_of(s);
    let mut q: usize = 0;
    while q < cs.len() && cs[q] != '?' && cs[q] != '#'
        invariant
            q <= cs.len(),
            forall|j: int| 0 <= j < q ==> cs@[j] != '?' && cs@[j] != '#',
        decreases cs.len() - q,
    {
        q += 1;
    }
    proof {
        lemma_before_query(cs@, q as int);
    }
    let mut d: usize = q;
    while d > 0 && cs[d - 1] != '.'
        invariant
            d <= q <= cs.len(),
            forall|j: int| d <= j < q ==> cs@[j] != '.',
        decreases d,
    {
        d -= 1;
    }
    proof {
        let b = cs@.take(q as int);
        assert forall|j: int| d <= j < b.len() implies b[j] != '.' by {}
        lemma_after_last_dot(b, d as int);
        assert(b.skip(d as int) == cs@.subrange(d as int, q as int));
    }
    let last = copy_range(&cs, d, q);
    let e = to_lowercase(&trim(&last, &CharClass::Only('"')));
    if is_known_ext(&e) {
        Some(e)
    } else {
        None
    }
}

/// The extension to save a downloaded book under.
pub fn pick_ext(book: &Book, url: &str, disposition: Option<&str>) -> (r: String)
    ensures
        r@ == ext_for(
            book.format@,
            url@,
            match disposition {
                Some(d) => Some(d@),
                None => None,
            },
        ),
{
    let f = to_lowercase(&chars_of(book.format.as_str()));
    if is_known_ext(&f) {
        return string_of(&f);
    }
    let from_disposition = match disposition {
        Some(d) => ext_from(d),
        None => None,
    };
    match from_disposition {
        Some(e) => string_of(&e),
        None => match ext_from(url) {
            Some(e) => string_of(&e),
            None => string_of(&chars_of("epub")),
        },
    }
}

/// `….epub` -> `….kepub.epub`: the name the converted twin of a file gets.
pub open spec fn kepub_twin_of(p: Seq<char>) -> Seq<char> {
    if has_suffix(p, ".epub"@) {
        p.take(p.len() - ".epub"@.len()) + ".kepub.epub"@
    } else {
        p
    }
}

pub fn kepub_twin(p: &str) -> (r: String)
    ensures
        r@ == kepub_twin_of(p@),
{
    let cs = chars_of(p);
    let suffix = chars_of(".epub");
    if ends_with(&cs, &suffix) {
        let mut out = copy_range(&cs, 0, cs.len() - suffix.len());
        push_all(&mut out, &chars_of(".kepub.epub"));
        string_of(&out)
    } else {
        string_of(&cs)
    }
}

} // verus!

verus! {

// ---------------------------------------------------------------------------
// Walking the LibGen mirrors

/// One step of the walk over the LibGen mirrors.
#[derive(Debug)]
pub enum MirrorStep {
    /// Wait a moment before round `n` (counted from 1).
    Pause(usize),
    /// Ask this host for the file.
    Try(String),
}

pub enum StepView {
    Pause(nat),
    Try(Seq<char>),
}

pub open spec fn step_view(s: MirrorStep) -> StepView {
    match s {
        MirrorStep::Pause(n) => StepView::Pause(n as nat),
        MirrorStep::Try(h) => StepView::Try(h@),
    }
}

/// One round: a pause first unless it is the first round, then every host.
pub open spec fn round_steps(hosts: Seq<Seq<char>>, r: nat) -> Seq<StepView> {
    (if r > 0 {
        seq![StepView::Pause(r + 1)]
    } else {
        seq![]
    }) + hosts.map_values(|h: Seq<char>| StepView::Try(h))
}

/// Three rounds over the hosts, with a pause in between: mirrors' errors
/// are usually momentary.
pub open spec fn schedule(hosts: Seq<Seq<char>>) -> Seq<StepView> {
    round_steps(hosts, 0) + round_steps(hosts, 1) + round_steps(hosts, 2)
}

/// The errors seen so far, each once, then `entry` unless it is already
/// there.
pub open spec fn add_unique(errors: Seq<Seq<char>>, entry: Seq<char>) -> Seq<Seq<char>> {
    if errors.contains(entry) {
        errors
    } else {
        errors.push(entry)
    }
}

/// How a mirror's failure is listed: "host: reason", without the wording
/// that every such reason shares.
pub open spec fn mirror_entry(host: Seq<char>, e: Seq<char>) -> Seq<char> {
    host + ": "@ + replace_all(
        replace_all(e, " for the download page"@, ""@),
        "download server answered "@,
        ""@,
    )
}

pub open spec fn strings_view(v: Seq<String>) -> Seq<Seq<char>> {
    v.map_values(|s: String| s@)
}

/// The mirrors to try in turn (at most five) and what went wrong so far.
#[derive(Debug)]
pub struct MirrorWalk {
    hosts: Vec<String>,
    pos: usize,
    errors: Vec<String>,
}

impl MirrorWalk {
    #[verifier::type_invariant]
    spec fn few_hosts(&self) -> bool {
        self.hosts.len() <= 5
    }

    pub closed spec fn hosts(&self) -> Seq<Seq<char>> {
        strings_view(self.hosts@)
    }

    /// How many steps of the schedule have been taken.
    pub closed spec fn position(&self) -> nat {
        self.pos as nat
    }

    pub closed spec fn errors(&self) -> Seq<Seq<char>> {
        strings_view(self.errors@)
    }

    /// A walk over the first five of `candidates`.
    pub fn new(candidates: Vec<String>) -> (w: MirrorWalk)
        ensures
            w.hosts() == strings_view(candidates@).take(
                if candidates@.len() < 5 {
                    candidates@.len() as int
                } else {
                    5
                },
            ),
            w.position() == 0,
            w.errors() == Seq::<Seq<char>>::empty(),
    {
        let mut hosts: Vec<String> = Vec::new();
        let mut i: usize = 0;
        while i < candidates.len() && i < 5
            invariant
                i <= candidates.len(),
                i <= 5,
                hosts@ == candidates@.take(i as int),
            decreases candidates.len() - i,
        {
            hosts.push(candidates[i].clone());
            i += 1;
            assert(hosts@ == candidates@.take(i as int));
        }
        assert(strings_view(hosts@) == strings_view(candidates@).take(i as int));
        let w = MirrorWalk { hosts, pos: 0, errors: Vec::new() };
        assert(w.errors() == Seq::<Seq<char>>::empty());
        w
    }

    /// The next step of the schedule, if any is left.
    pub fn next_step(&mut self) -> (s: Option<MirrorStep>)
        ensures
            final(self).hosts() == old(self).hosts(),
            final(self).errors() == old(self).errors(),
            old(self).position() < schedule(old(self).hosts()).len() ==> {
                &&& s matches Some(st)
                &&& step_view(st) == schedule(old(self).hosts())[old(self).position() as int]
                &&& final(self).position() == old(self).position() + 1
            },
            old(self).position() >= schedule(old(self).hosts()).len() ==> s is None
                && final(self).position() == old(self).position(),
    {
        proof {
            use_type_invariant(&*self);
        }
        let n = self.hosts.len();
        let ghost h = self.hosts();
        let ghost sch = schedule(h);
        assert(round_steps(h, 0).len() == n);
        assert(round_steps(h, 1).len() == n + 1);
        assert(round_steps(h, 2).len() == n + 1);
        let p = self.pos;
        if p >= 3 * n + 2 {
            return None;
        }
        self.pos = p + 1;
        let (r, k) = if p < n {
            (0usize, p)
        } else if p < 2 * n + 1 {
            (1usize, p - n)
        } else {
            (2usize, p - 2 * n - 1)
        };
        proof {
            if r == 0 {
                assert(sch[p as int] == round_steps(h, 0)[p as int]);
            } else if r == 1 {
                assert(sch[p as int] == round_steps(h, 1)[p - n]);
            } else {
                assert(sch[p as int] == round_steps(h, 2)[p - 2 * n - 1]);
            }
        }
        if r > 0 && k == 0 {
            Some(MirrorStep::Pause(r + 1))
        } else {
            let i = if r > 0 {
                k - 1
            } else {
                k
            };
            Some(MirrorStep::Try(self.hosts[i].clone()))
        }
    }

    /// Notes that `host` failed with `e`. A mirror that has no download
    /// link means the file is not on LibGen: the walk ends with that error.
    pub fn failed(&mut self, host: &str, e: &str) -> (stop: Option<String>)
        ensures
            final(self).hosts() == old(self).hosts(),
            final(self).position() == old(self).position(),
            has_infix(e@, "no download link"@) ==> (stop matches Some(m) && m@ == e@)
                && final(self).errors() == old(self).errors(),
            !has_infix(e@, "no download link"@) ==> stop is None && final(self).errors()
                == add_unique(old(self).errors(), mirror_entry(host@, e@)),
    {
        proof {
            use_type_invariant(&*self);
        }
        let ec = chars_of(e);
        if contains(&ec, &chars_of("no download link")) {
            return Some(string_of(&ec));
        }
        let pattern1 = chars_of(" for the download page");
        let pattern2 = chars_of("download server answered ");
        let empty: Vec<char> = Vec::new();
        assert(empty@ == ""@) by {
            reveal_strlit("");
        }
        proof {
            reveal_strlit(" for the download page");
            reveal_strlit("download server answered ");
        }
        let short = replace(&replace(&ec, &pattern1, &empty), &pattern2, &empty);
        let mut entry = chars_of(host);
        push_all(&mut entry, &chars_of(": "));
        push_all(&mut entry, &short);
        let mut i: usize = 0;
        let ghost old_errors = self.errors();
        while i < self.errors.len()
            invariant
                i <= self.errors.len(),
                *self == *old(self),
                old_errors == self.errors(),
                entry@ == mirror_entry(host@, e@),
                !has_infix(e@, "no download link"@),
                forall|j: int| 0 <= j < i ==> self.errors()[j] != entry@,
            decreases self.errors.len() - i,
        {
            if same(&chars_of(self.errors[i].as_str()), &entry) {
                assert(self.errors()[i as int] == entry@);
                return None;
            }
            i += 1;
        }
        assert(!self.errors().contains(entry@));
        let mut errors: Vec<String> = Vec::new();
        std::mem::swap(&mut errors, &mut self.errors);
        errors.push(string_of(&entry));
        self.errors = errors;
        assert(self.errors() == old_errors.push(entry@));
        None
    }

    /// The reason a job fails when every mirror failed.
    pub fn give_up(&self) -> (m: String)
        ensures
            m@ == "every mirror failed ("@ + join(self.errors(), "; "@)
                + "). Tap Retry in a minute."@,
    {
        let mut out = chars_of("every mirror failed (");
        let sep = chars_of("; ");
        let mut i: usize = 0;
        let ghost pre = out@;
        while i < self.errors.len()
            invariant
                i <= self.errors.len(),
                sep@ == "; "@,
                pre == "every mirror failed ("@,
                out@ == pre + join(self.errors().take(i as int), "; "@),
            decreases self.errors.len() - i,
        {
            let ghost before = self.errors().take(i as int);
            assert(self.errors().take(i + 1) == before.push(self.errors()[i as int]));
            proof {
                crate::text::lemma_join_push(before, "; "@, self.errors()[i as int]);
            }
            if i > 0 {
                push_all(&mut out, &sep);
            }
            push_all(&mut out, &chars_of(self.errors[i].as_str()));
            i += 1;
        }
        assert(self.errors().take(i as int) == self.errors());
        push_all(&mut out, &chars_of("). Tap Retry in a minute."));
        string_of(&out)
    }
}

/// The walk asks each mirror three times, in order, with a pause before
/// the second and the third round.
pub proof fn law_three_rounds(hosts: Seq<Seq<char>>)
    ensures
        schedule(hosts).len() == 3 * hosts.len() + 2,
        schedule(hosts)[hosts.len() as int] == StepView::Pause(2),
        schedule(hosts)[2 * hosts.len() + 1int] == StepView::Pause(3),
        forall|k: int|
            0 <= k < hosts.len() ==> #[trigger] schedule(hosts)[k] == StepView::Try(hosts[k])
                && schedule(hosts)[hosts.len() + 1 + k] == StepView::Try(hosts[k])
                && schedule(hosts)[2 * hosts.len() + 2 + k] == StepView::Try(hosts[k]),
{
    let n = hosts.len() as int;
    let r0 = round_steps(hosts, 0);
    let r1 = round_steps(hosts, 1);
    let r2 = round_steps(hosts, 2);
    let s = schedule(hosts);
    assert(r0.len() == n);
    assert(r1.len() == n + 1);
    assert(r2.len() == n + 1);
    assert(s[n] == r1[0]);
    assert(s[2 * n + 1] == r2[0]);
    assert forall|k: int| 0 <= k < n implies #[trigger] s[k] == StepView::Try(hosts[k]) && s[n + 1
        + k] == StepView::Try(hosts[k]) && s[2 * n + 2 + k] == StepView::Try(hosts[k]) by {
        assert(s[k] == r0[k]);
        assert(s[n + 1 + k] == r1[k + 1]);
        assert(s[2 * n + 2 + k] == r2[k + 1]);
    }
}

// ---------------------------------------------------------------------------
// Other decisions of a download

/// Whether a failed fast download points at a bad Anna's mirror (one that
/// answers with something other than the API, or not at all), so that the
/// next download probes for another.
pub fn mirror_suspect(e: &str) -> (b: bool)
    ensures
        b == (has_infix(e@, "not the API JSON"@) || has_infix(e@, "io:"@)),
{
    let ec = chars_of(e);
    contains(&ec, &chars_of("not the API JSON")) || contains(&ec, &chars_of("io:"))
}

/// `base.ext`, or `base (n).ext` for the n-th try at a free name (n from 2).
pub open spec fn numbered_name(base: Seq<char>, ext: Seq<char>, n: nat) -> Seq<char> {
    if n < 2 {
        base + "."@ + ext
    } else {
        base + " ("@ + decimal(n) + ")."@ + ext
    }
}

pub fn numbered_file(base: &str, ext: &str, n: u64) -> (r: String)
    ensures
        r@ == numbered_name(base@, ext@, n as nat),
{
    let mut out = chars_of(base);
    if n < 2 {
        push_all(&mut out, &chars_of("."));
    } else {
        push_all(&mut out, &chars_of(" ("));
        push_all(&mut out, &decimal_of(n));
        push_all(&mut out, &chars_of(")."));
    }
    push_all(&mut out, &chars_of(ext));
    string_of(&out)
}

/// What to make of a finished transfer of `written` bytes when the server
/// announced `total`: a short download, a reply too small to be a book, or
/// a book.
#[derive(Debug)]
pub enum Received {
    Short(String),
    TooSmall,
    Complete,
}

pub fn check_received(written: u64, total: Option<u64>) -> (r: Received)
    ensures
        match total {
            Some(t) if written < t => (r matches Received::Short(m) && m@ == "short download: "@
                + decimal(written as nat) + " of "@ + decimal(t as nat) + " bytes"@),
            _ => if written < 1024 {
                r is TooSmall
            } else {
                r is Complete
            },
        },
{
    if let Some(t) = total {
        if written < t {
            let mut m = chars_of("short download: ");
            push_all(&mut m, &decimal_of(written));
            push_all(&mut m, &chars_of(" of "));
            push_all(&mut m, &decimal_of(t));
            push_all(&mut m, &chars_of(" bytes"));
            return Received::Short(string_of(&m));
        }
    }
    if written < 1024 {
        Received::TooSmall
    } else {
        Received::Complete
    }
}

/// The reason a download fails when the server sent `written` bytes that
/// are not a book; `peek` is the start of what it sent, as text.
pub fn too_small_message(written: u64, peek: &str) -> (m: String)
    ensures
        m@ == "server sent "@ + decimal(written as nat) + " bytes instead of a book: "@ + peek@,
{
    let mut m = chars_of("server sent ");
    push_all(&mut m, &decimal_of(written));
    push_all(&mut m, &chars_of(" bytes instead of a book: "));
    push_all(&mut m, &chars_of(peek));
    string_of(&m)
}

/// EPUBs are converted to KEPUB when the settings ask for it.
pub fn should_convert(ext: &str, cfg: &Config) -> (b: bool)
    ensures
        b == (ext@ == "epub"@ && cfg.kepubify),
{
    crate::text::eq_str(ext, "epub") && cfg.kepubify
}

/// The note a job shows when Anna's fast download failed with `e`.
pub fn fast_failed_note(e: &str) -> (m: String)
    ensures
        m@ == "Anna's: "@ + e@ + "; using LibGen"@,
{
    let mut m = String::from_str("Anna's: ");
    m.append(e);
    m.append("; using LibGen");
    m
}

/// The note a job shows while it waits before round `round` over the
/// mirrors (the step `MirrorStep::Pause` names).
pub fn busy_note(round: usize) -> (m: String)
    ensures
        m@ == "mirrors busy, retrying (round "@ + decimal(round as nat) + ")"@,
{
    let mut m = String::from_str("mirrors busy, retrying (round ");
    m.append(string_of(&decimal_of(round as u64)).as_str());
    m.append(")");
    m
}

/// The note a job keeps when the conversion to KEPUB failed with `e`: the
/// plain EPUB stays, which the Kobo reads too.
pub fn plain_epub_note(e: &str) -> (m: String)
    ensures
        m@ == "kept as plain EPUB: "@ + e@,
{
    let mut m = String::from_str("kept as plain EPUB: ");
    m.append(e);
    m
}

/// The reason a job fails when no source was tried at all.
pub const NO_SOURCE: &'static str = "no download source reachable";

// ---------------------------------------------------------------------------
// Finding a source for a download

/// What a download needs next.
#[derive(Debug)]
pub enum DownloadAction {
    /// Ask Anna's members' API for the file (on the resolver's Anna's host)
    /// and open it; report with `DownloadRun::annas_done`.
    AskAnnas,
    /// List the LibGen hosts (`Resolver::libgen_candidates`) and report them
    /// with `DownloadRun::libgen_hosts`.
    AskLibgenHosts,
    /// Show this note on the job, wait a few seconds, then ask `next`.
    Pause(String),
    /// Ask this LibGen host for the file and open it; report with
    /// `DownloadRun::libgen_done`.
    TryLibgen(String),
    /// A source answered: stream the file it opened.
    Stream,
    /// No source can deliver the file; the job fails for this reason.
    Fail(String),
}

pub enum DownloadActionView {
    AskAnnas,
    AskLibgenHosts,
    Pause(Seq<char>),
    TryLibgen(Seq<char>),
    Stream,
    Fail(Seq<char>),
}

pub open spec fn download_action_view(a: DownloadAction) -> DownloadActionView {
    match a {
        DownloadAction::AskAnnas => DownloadActionView::AskAnnas,
        DownloadAction::AskLibgenHosts => DownloadActionView::AskLibgenHosts,
        DownloadAction::Pause(n) => DownloadActionView::Pause(n@),
        DownloadAction::TryLibgen(h) => DownloadActionView::TryLibgen(h@),
        DownloadAction::Stream => DownloadActionView::Stream,
        DownloadAction::Fail(e) => DownloadActionView::Fail(e@),
    }
}

pub open spec fn busy_text(round: nat) -> Seq<char> {
    "mirrors busy, retrying (round "@ + decimal(round) + ")"@
}

pub open spec fn give_up_text(errors: Seq<Seq<char>>) -> Seq<char> {
    "every mirror failed ("@ + join(errors, "; "@) + "). Tap Retry in a minute."@
}

/// The step at `pos` of the walk over `hosts`, or the end of the walk.
pub open spec fn walk_action(hosts: Seq<Seq<char>>, pos: nat, errors: Seq<Seq<char>>) -> DownloadActionView {
    if pos < schedule(hosts).len() {
        match schedule(hosts)[pos as int] {
            StepView::Pause(n) => DownloadActionView::Pause(busy_text(n)),
            StepView::Try(h) => DownloadActionView::TryLibgen(h),
        }
    } else {
        DownloadActionView::Fail(give_up_text(errors))
    }
}

/// The search for a source of one download: Anna's fast servers when a
/// membership key is set, else (or when they fail) three rounds over the
/// LibGen mirrors.
#[derive(Debug)]
pub struct DownloadRun {
    walk: MirrorWalk,
}

impl DownloadRun {
    pub closed spec fn hosts(&self) -> Seq<Seq<char>> {
        self.walk.hosts()
    }

    pub closed spec fn position(&self) -> nat {
        self.walk.position()
    }

    pub closed spec fn errors(&self) -> Seq<Seq<char>> {
        self.walk.errors()
    }

    /// The first step: Anna's when a key is set, else LibGen.
    pub fn start(cfg: &Config) -> (r: (DownloadRun, DownloadAction))
        ensures
            r.0.hosts().len() == 0,
            r.0.position() == 0,
            r.0.errors().len() == 0,
            download_action_view(r.1) == if crate::text::trim_ws(cfg.secret_key@).len() > 0 {
                DownloadActionView::AskAnnas
            } else {
                DownloadActionView::AskLibgenHosts
            },
    {
        let walk = MirrorWalk::new(Vec::new());
        let a = if cfg.has_key() {
            DownloadAction::AskAnnas
        } else {
            DownloadAction::AskLibgenHosts
        };
        (DownloadRun { walk }, a)
    }

    /// After Anna's members' API and the file it named answered: the file,
    /// or LibGen with a note on the job (`Some` note); a mirror that looks
    /// broken is forgotten so that the next download probes for another.
    pub fn annas_done(&mut self, resolver: &mut Resolver, result: Result<(), String>) -> (r: (
        DownloadAction,
        Option<String>,
    ))
        ensures
            final(self).hosts() == old(self).hosts(),
            final(self).position() == old(self).position(),
            final(self).errors() == old(self).errors(),
            match result {
                Ok(()) => download_action_view(r.0) == DownloadActionView::Stream && r.1 is None
                    && *final(resolver) == *old(resolver),
                Err(e) => download_action_view(r.0) == DownloadActionView::AskLibgenHosts
                    && (r.1 matches Some(n) && n@ == "Anna's: "@ + e@ + "; using LibGen"@)
                    && final(resolver).annas_cache() == (if has_infix(e@, "not the API JSON"@)
                    || has_infix(e@, "io:"@) {
                    None
                } else {
                    old(resolver).annas_cache()
                }) && final(resolver).libgen_cache() == old(resolver).libgen_cache()
                    && final(resolver).slum_cache() == old(resolver).slum_cache()
                    && final(resolver).blocked_at() == old(resolver).blocked_at(),
            },
    {
        match result {
            Ok(()) => (DownloadAction::Stream, None),
            Err(e) => {
                if mirror_suspect(e.as_str()) {
                    resolver.forget_annas();
                }
                (DownloadAction::AskLibgenHosts, Some(fast_failed_note(e.as_str())))
            },
        }
    }

    /// The next step of the walk over the LibGen mirrors; at its end the
    /// chosen LibGen mirror is forgotten and the job fails with the list of
    /// what went wrong.
    pub fn next(&mut self, resolver: &mut Resolver) -> (a: DownloadAction)
        ensures
            final(self).hosts() == old(self).hosts(),
            final(self).errors() == old(self).errors(),
            final(self).position() == if old(self).position() < schedule(old(self).hosts()).len() {
                old(self).position() + 1
            } else {
                old(self).position()
            },
            download_action_view(a) == walk_action(
                old(self).hosts(),
                old(self).position(),
                old(self).errors(),
            ),
            (download_action_view(a) is Fail) ==> final(resolver).libgen_cache() is None
                && final(resolver).annas_cache() == old(resolver).annas_cache()
                && final(resolver).slum_cache() == old(resolver).slum_cache()
                && final(resolver).blocked_at() == old(resolver).blocked_at(),
            !(download_action_view(a) is Fail) ==> *final(resolver) == *old(resolver),
    {
        match self.walk.next_step() {
            Some(MirrorStep::Pause(n)) => DownloadAction::Pause(busy_note(n)),
            Some(MirrorStep::Try(h)) => DownloadAction::TryLibgen(h),
            None => {
                resolver.forget_libgen();
                DownloadAction::Fail(self.walk.give_up())
            },
        }
    }

    /// Starts the walk over the LibGen mirrors (the first five of `hosts`).
    pub fn libgen_hosts(&mut self, resolver: &mut Resolver, hosts: Vec<String>) -> (a: DownloadAction)
        ensures
            final(self).hosts() == strings_view(hosts@).take(
                if hosts@.len() < 5 {
                    hosts@.len() as int
                } else {
                    5
                },
            ),
            final(self).errors().len() == 0,
            download_action_view(a) == walk_action(final(self).hosts(), 0, seq![]),
            final(self).position() == if 0 < schedule(final(self).hosts()).len() {
                1nat
            } else {
                0nat
            },
            (download_action_view(a) is Fail) ==> final(resolver).libgen_cache() is None
                && final(resolver).annas_cache() == old(resolver).annas_cache()
                && final(resolver).slum_cache() == old(resolver).slum_cache()
                && final(resolver).blocked_at() == old(resolver).blocked_at(),
            !(download_action_view(a) is Fail) ==> *final(resolver) == *old(resolver),
    {
        self.walk = MirrorWalk::new(hosts);
        self.next(resolver)
    }

    /// After a LibGen host answered: the file (the job's note is cleared,
    /// `Some` empty note), or the end when the mirror says the file is not
    /// on LibGen, or the next step.
    pub fn libgen_done(
        &mut self,
        resolver: &mut Resolver,
        host: &str,
        result: Result<(), String>,
    ) -> (r: (DownloadAction, Option<String>))
        ensures
            final(self).hosts() == old(self).hosts(),
            match result {
                Ok(()) => download_action_view(r.0) == DownloadActionView::Stream && (r.1 matches Some(
                    n,
                ) && n@.len() == 0) && *final(resolver) == *old(resolver) && final(self).position()
                    == old(self).position() && final(self).errors() == old(self).errors(),
                Err(e) => r.1 is None && if has_infix(e@, "no download link"@) {
                    download_action_view(r.0) == DownloadActionView::Fail(e@)
                        && *final(resolver) == *old(resolver) && final(self).position()
                        == old(self).position() && final(self).errors() == old(self).errors()
                } else {
                    let errs = add_unique(old(self).errors(), mirror_entry(host@, e@));
                    &&& final(self).errors() == errs
                    &&& download_action_view(r.0) == walk_action(
                        old(self).hosts(),
                        old(self).position(),
                        errs,
                    )
                    &&& final(self).position() == if old(self).position() < schedule(
                        old(self).hosts(),
                    ).len() {
                        old(self).position() + 1
                    } else {
                        old(self).position()
                    }
                    &&& (download_action_view(r.0) is Fail) ==> final(resolver).libgen_cache() is None
                        && final(resolver).annas_cache() == old(resolver).annas_cache()
                        && final(resolver).slum_cache() == old(resolver).slum_cache()
                        && final(resolver).blocked_at() == old(resolver).blocked_at()
                    &&& !(download_action_view(r.0) is Fail) ==> *final(resolver) == *old(resolver)
                },
            },
    {
        match result {
            Ok(()) => (DownloadAction::Stream, Some(String::new())),
            Err(e) => match self.walk.failed(host, e.as_str()) {
                Some(stop) => (DownloadAction::Fail(stop), None),
                None => (self.next(resolver), None),
            },
        }
    }
}

/// The book a download ends with after the conversion to KEPUB: the
/// converted file, or, when the conversion failed, the plain EPUB at `path`
/// with a note for the job.
pub fn after_conversion(path: &str, r: Result<String, String>) -> (o: (String, Option<String>))
    ensures
        match r {
            Ok(p) => o.0@ == p@ && o.1 is None,
            Err(e) => o.0@ == path@ && (o.1 matches Some(n) && n@ == "kept as plain EPUB: "@ + e@),
        },
{
    match r {
        Ok(p) => (p, None),
        Err(e) => (String::from_str(path), Some(plain_epub_note(e.as_str()))),
    }
}

/// A job is active exactly while the worker still owns it: every state but
/// done and failed.
pub proof fn law_active_states(st: State)
    ensures
        st.is_active() <==> !(st == State::Done || st == State::Failed),
{
}

/// A book whose listed format is one of the known ones keeps that format
/// (in lower case) as its extension, whatever the address and the file
/// name the server gives; and every extension picked is a known one or
/// "epub".
pub proof fn law_known_format_kept(format: Seq<char>, url: Seq<char>, disposition: Option<Seq<char>>)
    ensures
        ({
            let f = lowercase(format);
            (f == "epub"@ || f == "pdf"@ || f == "mobi"@ || f == "azw3"@ || f == "azw"@ || f
                == "djvu"@ || f == "cbz"@ || f == "cbr"@ || f == "fb2"@ || f == "txt"@ || f
                == "doc"@ || f == "docx"@ || f == "rtf"@ || f == "lit"@) ==> ext_for(
                format,
                url,
                disposition,
            ) == f
        }),
        ({
            let e = ext_for(format, url, disposition);
            e == "epub"@ || e == "pdf"@ || e == "mobi"@ || e == "azw3"@ || e == "azw"@ || e
                == "djvu"@ || e == "cbz"@ || e == "cbr"@ || e == "fb2"@ || e == "txt"@ || e
                == "doc"@ || e == "docx"@ || e == "rtf"@ || e == "lit"@
        }),
{
}

} // verus!
