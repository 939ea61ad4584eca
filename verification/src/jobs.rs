//! Background-job bookkeeping: a table of live jobs keyed by process id,
//! each with its command text, start time and status. The table is the only
//! view of background processes; a caller polls the operating system and
//! hands the observed state changes in, and entries seen to be done are
//! pruned.

use vstd::prelude::*;

verus! {

/// The status of a background job.
#[derive(Debug, Clone, Copy, PartialEq, Eq, Structural)]
pub enum JobStatus {
    Running,
    Stopped,
    Done,
}

/// One background job.
#[derive(Debug, Clone)]
pub struct BackgroundJob {
    /// The job's process id.
    pub pid: i32,
    /// The command line it runs.
    pub command: String,
    /// When it started, in seconds of the caller's clock.
    pub started_secs: u64,
    /// Its current status.
    pub status: JobStatus,
}

/// What one poll of the operating system said about a process.
#[derive(Debug, Clone, Copy, PartialEq, Eq, Structural)]
pub enum JobObservation {
    /// The process exited or was ended by a signal.
    Ended,
    /// The process was stopped.
    Paused,
    /// Nothing new.
    Unchanged,
}

/// The table of background jobs, at most one entry per process id.
pub struct JobTable {
    jobs: Vec<BackgroundJob>,
}

/// The jobs of a sequence, as a map from pid to (command, started, status).
pub open spec fn jobs_map(s: Seq<BackgroundJob>) -> Map<int, (Seq<char>, u64, JobStatus)>
    decreases s.len(),
{
    if s.len() == 0 {
        Map::empty()
    } else {
        jobs_map(s.drop_last()).insert(
            s.last().pid as int,
            (s.last().command@, s.last().started_secs, s.last().status),
        )
    }
}

proof fn lemma_jobs_map_dom(s: Seq<BackgroundJob>)
    ensures
        forall|p: int|
            jobs_map(s).contains_key(p) <==> exists|i: int|
                0 <= i < s.len() && (#[trigger] s[i]).pid == p,
    decreases s.len(),
{
    if s.len() > 0 {
        lemma_jobs_map_dom(s.drop_last());
        assert forall|p: int| jobs_map(s).contains_key(p) implies exists|i: int|
            0 <= i < s.len() && (#[trigger] s[i]).pid == p by {
            if p == s.last().pid as int {
                assert(s[s.len() - 1].pid == p);
            } else {
                assert(jobs_map(s.drop_last()).contains_key(p));
                let i = choose|i: int|
                    0 <= i < s.drop_last().len() && (#[trigger] s.drop_last()[i]).pid == p;
                assert(s.drop_last()[i] == s[i]);
                assert(s[i].pid == p);
            }
        }
        assert forall|p: int|
            (exists|i: int| 0 <= i < s.len() && (#[trigger] s[i]).pid == p) implies jobs_map(
            s,
        ).contains_key(p) by {
            let i = choose|i: int| 0 <= i < s.len() && (#[trigger] s[i]).pid == p;
            if i < s.len() - 1 {
                assert(s.drop_last()[i] == s[i]);
                assert(exists|j: int|
                    0 <= j < s.drop_last().len() && (#[trigger] s.drop_last()[j]).pid == p);
                assert(jobs_map(s.drop_last()).contains_key(p));
            }
        }
    }
}

/// No two jobs share a pid.
pub open spec fn unique_pids(s: Seq<BackgroundJob>) -> bool {
    forall|i: int, j: int| 0 <= i < j < s.len() ==> (#[trigger] s[i]).pid != (#[trigger] s[j]).pid
}

proof fn lemma_jobs_map_at(s: Seq<BackgroundJob>, i: int)
    requires
        unique_pids(s),
        0 <= i < s.len(),
    ensures
        jobs_map(s).contains_key(s[i].pid as int),
        jobs_map(s)[s[i].pid as int] == (s[i].command@, s[i].started_secs, s[i].status),
    decreases s.len(),
{
    lemma_jobs_map_dom(s);
    if i < s.len() - 1 {
        assert(s.drop_last()[i] == s[i]);
        lemma_jobs_map_at(s.drop_last(), i);
        assert(s.last().pid != s[i].pid);
    }
}

impl View for JobTable {
    type V = Map<int, (Seq<char>, u64, JobStatus)>;

    closed spec fn view(&self) -> Map<int, (Seq<char>, u64, JobStatus)> {
        jobs_map(self.jobs@)
    }
}

impl JobTable {
    /// The table's invariant: at most one entry per pid.
    pub closed spec fn wf(&self) -> bool {
        unique_pids(self.jobs@)
    }

    /// The position of `pid` among the entries, if present.
    fn position(&self, pid: i32) -> (r: Option<usize>)
        ensures
            match r {
                Some(i) => i < self.jobs@.len() && self.jobs@[i as int].pid == pid,
                None => forall|i: int|
                    0 <= i < self.jobs@.len() ==> (#[trigger] self.jobs@[i]).pid != pid,
            },
    {
        let mut i: usize = 0;
        while i < self.jobs.len()
            invariant
                i <= self.jobs@.len(),
                forall|k: int| 0 <= k < i ==> (#[trigger] self.jobs@[k]).pid != pid,
            decreases self.jobs@.len() - i,
        {
            if self.jobs[i].pid == pid {
                return Some(i);
            }
            i += 1;
        }
        None
    }

    /// The live jobs, in table order, for listing.
    pub fn entries(&self) -> (r: &Vec<BackgroundJob>)
        requires
            self.wf(),
        ensures
            forall|i: int|
                0 <= i < r@.len() ==> self@.contains_key((#[trigger] r@[i]).pid as int)
                    && self@[r@[i].pid as int] == (r@[i].command@, r@[i].started_secs, r@[i].status),
            forall|p: int|
                self@.contains_key(p) ==> exists|i: int|
                    0 <= i < r@.len() && (#[trigger] r@[i]).pid as int == p,
            unique_pids(r@),
    {
        proof {
            lemma_jobs_map_dom(self.jobs@);
            assert forall|i: int| 0 <= i < self.jobs@.len() implies self@.contains_key(
                (#[trigger] self.jobs@[i]).pid as int,
            ) && self@[self.jobs@[i].pid as int] == (
                self.jobs@[i].command@,
                self.jobs@[i].started_secs,
                self.jobs@[i].status,
            ) by {
                lemma_jobs_map_at(self.jobs@, i);
            }
            assert forall|p: int| self@.contains_key(p) implies exists|i: int|
                0 <= i < self.jobs@.len() && (#[trigger] self.jobs@[i]).pid as int == p by {
                let i = choose|i: int| 0 <= i < self.jobs@.len() && (#[trigger] self.jobs@[i]).pid == p;
                assert(self.jobs@[i].pid as int == p);
            }
        }
        &self.jobs
    }

    /// How many jobs the table holds.
    pub fn len(&self) -> (r: usize)
        requires
            self.wf(),
        ensures
            r == self@.dom().len(),
    {
        proof {
            lemma_jobs_map_len(self.jobs@);
        }
        self.jobs.len()
    }
}

proof fn lemma_jobs_map_len(s: Seq<BackgroundJob>)
    requires
        unique_pids(s),
    ensures
        jobs_map(s).dom().len() == s.len(),
        jobs_map(s).dom().finite(),
    decreases s.len(),
{
    if s.len() == 0 {
        assert(jobs_map(s).dom() =~= Set::<int>::empty());
    } else {
        lemma_jobs_map_len(s.drop_last());
        lemma_jobs_map_dom(s.drop_last());
        assert(!jobs_map(s.drop_last()).contains_key(s.last().pid as int)) by {
            if jobs_map(s.drop_last()).contains_key(s.last().pid as int) {
                let i = choose|i: int|
                    0 <= i < s.drop_last().len() && (#[trigger] s.drop_last()[i]).pid as int
                        == s.last().pid as int;
                assert(s.drop_last()[i] == s[i]);
            }
        }
        assert(jobs_map(s).dom() =~= jobs_map(s.drop_last()).dom().insert(s.last().pid as int));
    }
}

/// An empty job table.
pub fn new_job_list() -> (r: JobTable)
    ensures
        r.wf(),
        r@ == Map::<int, (Seq<char>, u64, JobStatus)>::empty(),
{
    JobTable { jobs: Vec::new() }
}

/// Adds a job in state Running, replacing any stale entry with the same pid.
pub fn add_job(jobs: &mut JobTable, pid: i32, command: String, now_secs: u64)
    requires
        old(jobs).wf(),
    ensures
        final(jobs).wf(),
        final(jobs)@ == old(jobs)@.insert(pid as int, (command@, now_secs, JobStatus::Running)),
{
    let new_job = BackgroundJob { pid, command, started_secs: now_secs, status: JobStatus::Running };
    match jobs.position(pid) {
        Some(i) => {
            proof {
                lemma_jobs_map_at(jobs.jobs@, i as int);
            }
            jobs.jobs[i] = new_job;
            proof {
                lemma_replace_at(old(jobs).jobs@, jobs.jobs@, i as int);
            }
        },
        None => {
            jobs.jobs.push(new_job);
            proof {
                assert(jobs.jobs@.drop_last() =~= old(jobs).jobs@);
                assert(unique_pids(jobs.jobs@));
            }
        },
    }
}

proof fn lemma_replace_at(olds: Seq<BackgroundJob>, news: Seq<BackgroundJob>, i: int)
    requires
        unique_pids(olds),
        0 <= i < olds.len(),
        news.len() == olds.len(),
        forall|j: int| 0 <= j < olds.len() && j != i ==> news[j] == olds[j],
        news[i].pid == olds[i].pid,
    ensures
        unique_pids(news),
        jobs_map(news) == jobs_map(olds).insert(
            news[i].pid as int,
            (news[i].command@, news[i].started_secs, news[i].status),
        ),
{
    assert(unique_pids(news));
    lemma_jobs_map_dom(olds);
    lemma_jobs_map_dom(news);
    let target = jobs_map(olds).insert(
        news[i].pid as int,
        (news[i].command@, news[i].started_secs, news[i].status),
    );
    assert forall|p: int| #[trigger]
        jobs_map(news).contains_key(p) || target.contains_key(p) implies jobs_map(
        news,
    ).contains_key(p) == target.contains_key(p) && (jobs_map(news).contains_key(p) ==> jobs_map(
        news,
    )[p] == target[p]) by {
        if jobs_map(news).contains_key(p) {
            let j = choose|j: int| 0 <= j < news.len() && (#[trigger] news[j]).pid == p;
            lemma_jobs_map_at(news, j);
            if j != i {
                assert(olds[j].pid == p);
                lemma_jobs_map_at(olds, j);
                assert(p != news[i].pid as int);
            }
        }
        if target.contains_key(p) {
            if p == news[i].pid as int {
                assert(news[i].pid == p);
            } else {
                let j = choose|j: int| 0 <= j < olds.len() && (#[trigger] olds[j]).pid == p;
                assert(news[j].pid == p);
            }
        }
    }
    assert(jobs_map(news) =~= target);
}

/// Removes the job with the given pid, if the table holds one.
pub fn remove_job(jobs: &mut JobTable, pid: i32)
    requires
        old(jobs).wf(),
    ensures
        final(jobs).wf(),
        final(jobs)@ == old(jobs)@.remove(pid as int),
{
    match jobs.position(pid) {
        Some(i) => {
            proof {
                lemma_jobs_map_at(jobs.jobs@, i as int);
            }
            jobs.jobs.remove(i);
            proof {
                lemma_remove_at(old(jobs).jobs@, jobs.jobs@, i as int);
            }
        },
        None => {
            proof {
                lemma_jobs_map_dom(jobs.jobs@);
                assert(jobs@ =~= old(jobs)@.remove(pid as int));
            }
        },
    }
}

proof fn lemma_remove_at(olds: Seq<BackgroundJob>, news: Seq<BackgroundJob>, i: int)
    requires
        unique_pids(olds),
        0 <= i < olds.len(),
        news == olds.subrange(0, i) + olds.subrange(i + 1, olds.len() as int),
    ensures
        unique_pids(news),
        jobs_map(news) == jobs_map(olds).remove(olds[i].pid as int),
{
    assert forall|a: int, b: int| 0 <= a < b < news.len() implies (#[trigger] news[a]).pid != (
    #[trigger] news[b]).pid by {
        let a0 = if a < i {
            a
        } else {
            a + 1
        };
        let b0 = if b < i {
            b
        } else {
            b + 1
        };
        assert(news[a] == olds[a0]);
        assert(news[b] == olds[b0]);
    }
    lemma_jobs_map_dom(olds);
    lemma_jobs_map_dom(news);
    let target = jobs_map(olds).remove(olds[i].pid as int);
    assert forall|p: int| #[trigger]
        jobs_map(news).contains_key(p) || target.contains_key(p) implies jobs_map(
        news,
    ).contains_key(p) == target.contains_key(p) && (jobs_map(news).contains_key(p) ==> jobs_map(
        news,
    )[p] == target[p]) by {
        if jobs_map(news).contains_key(p) {
            let j = choose|j: int| 0 <= j < news.len() && (#[trigger] news[j]).pid == p;
            lemma_jobs_map_at(news, j);
            let j0 = if j < i {
                j
            } else {
                j + 1
            };
            assert(news[j] == olds[j0]);
            lemma_jobs_map_at(olds, j0);
            assert(p != olds[i].pid as int);
        }
        if target.contains_key(p) {
            let j0 = choose|j0: int| 0 <= j0 < olds.len() && (#[trigger] olds[j0]).pid == p;
            assert(j0 != i);
            let j = if j0 < i {
                j0
            } else {
                j0 - 1
            };
            assert(news[j] == olds[j0]);
        }
    }
    assert(jobs_map(news) =~= target);
}

/// The status a job moves to under one observation.
pub open spec fn observed_status(s: JobStatus, o: JobObservation) -> JobStatus {
    match o {
        JobObservation::Ended => JobStatus::Done,
        JobObservation::Paused => JobStatus::Stopped,
        JobObservation::Unchanged => s,
    }
}

/// One observation applied to a table view: the named job's status moves as
/// observed; a pid the table does not hold changes nothing.
pub open spec fn apply_observation(
    m: Map<int, (Seq<char>, u64, JobStatus)>,
    pid: int,
    o: JobObservation,
) -> Map<int, (Seq<char>, u64, JobStatus)> {
    if m.contains_key(pid) {
        m.insert(pid, (m[pid].0, m[pid].1, observed_status(m[pid].2, o)))
    } else {
        m
    }
}

/// All observations applied in order.
pub open spec fn apply_observations(
    m: Map<int, (Seq<char>, u64, JobStatus)>,
    obs: Seq<(i32, JobObservation)>,
) -> Map<int, (Seq<char>, u64, JobStatus)>
    decreases obs.len(),
{
    if obs.len() == 0 {
        m
    } else {
        apply_observations(apply_observation(m, obs[0].0 as int, obs[0].1), obs.drop_first())
    }
}

/// A table view restricted to the jobs that are not done.
pub open spec fn live_jobs(m: Map<int, (Seq<char>, u64, JobStatus)>) -> Map<
    int,
    (Seq<char>, u64, JobStatus),
> {
    Map::new(|p: int| m.contains_key(p) && m[p].2 != JobStatus::Done, |p: int| m[p])
}

/// The jobs not yet done, in table order.
spec fn keep_live(s: Seq<BackgroundJob>) -> Seq<BackgroundJob>
    decreases s.len(),
{
    if s.len() == 0 {
        Seq::empty()
    } else if s.last().status != JobStatus::Done {
        keep_live(s.drop_last()).push(s.last())
    } else {
        keep_live(s.drop_last())
    }
}

proof fn lemma_keep_live(s: Seq<BackgroundJob>)
    requires
        unique_pids(s),
    ensures
        unique_pids(keep_live(s)),
        jobs_map(keep_live(s)) == live_jobs(jobs_map(s)),
    decreases s.len(),
{
    if s.len() == 0 {
        assert(jobs_map(keep_live(s)) =~= live_jobs(jobs_map(s)));
    } else {
        let t = s.drop_last();
        let l = s.last();
        assert(unique_pids(t)) by {
            assert(forall|a: int, b: int|
                0 <= a < b < t.len() ==> (#[trigger] t[a]) == s[a] && (#[trigger] t[b]) == s[b]);
        }
        lemma_keep_live(t);
        lemma_jobs_map_dom(t);
        assert(!jobs_map(t).contains_key(l.pid as int)) by {
            if jobs_map(t).contains_key(l.pid as int) {
                let j = choose|j: int| 0 <= j < t.len() && (#[trigger] t[j]).pid == l.pid;
                assert(t[j] == s[j]);
                assert(s[j].pid == s[s.len() - 1].pid);
            }
        }
        // Where the elements of keep_live(t) come from, for pid uniqueness.
        lemma_keep_live_origin(t);
        if l.status != JobStatus::Done {
            assert(keep_live(s) == keep_live(t).push(l));
            assert(unique_pids(keep_live(t).push(l))) by {
                lemma_jobs_map_dom(keep_live(t));
                assert forall|a: int, b: int|
                    0 <= a < b < keep_live(t).push(l).len() implies (#[trigger] keep_live(t).push(
                    l,
                )[a]).pid != (#[trigger] keep_live(t).push(l)[b]).pid by {
                    if b == keep_live(t).len() {
                        assert(keep_live(t).push(l)[a] == keep_live(t)[a]);
                        let j = choose|j: int|
                            0 <= j < t.len() && keep_live(t)[a] == (#[trigger] t[j]);
                        assert(jobs_map(t).contains_key(t[j].pid as int)) by {
                            lemma_jobs_map_at(t, j);
                        }
                    } else {
                        assert(keep_live(t).push(l)[a] == keep_live(t)[a]);
                        assert(keep_live(t).push(l)[b] == keep_live(t)[b]);
                    }
                }
            }
            assert(keep_live(t).push(l).drop_last() =~= keep_live(t));
            assert(jobs_map(keep_live(s)) =~= live_jobs(jobs_map(s)));
        } else {
            assert(jobs_map(keep_live(s)) =~= live_jobs(jobs_map(s)));
        }
    }
}

proof fn lemma_keep_live_origin(s: Seq<BackgroundJob>)
    ensures
        forall|k: int|
            0 <= k < keep_live(s).len() ==> exists|j: int|
                0 <= j < s.len() && #[trigger] keep_live(s)[k] == (#[trigger] s[j]),
    decreases s.len(),
{
    if s.len() > 0 {
        let t = s.drop_last();
        lemma_keep_live_origin(t);
        assert forall|k: int| 0 <= k < keep_live(s).len() implies exists|j: int|
            0 <= j < s.len() && #[trigger] keep_live(s)[k] == (#[trigger] s[j]) by {
            if s.last().status != JobStatus::Done && k == keep_live(s).len() - 1 {
                assert(keep_live(s)[k] == s[s.len() - 1]);
            } else {
                assert(keep_live(s)[k] == keep_live(t)[k]);
                let j = choose|j: int| 0 <= j < t.len() && keep_live(t)[k] == (#[trigger] t[j]);
                assert(t[j] == s[j]);
            }
        }
    }
}

/// Applies the caller's observations, one per polled process id, to the job
/// statuses, and prunes every job seen to be done. Commands and start times
/// stay; unknown pids are ignored.
pub fn update_jobs(jobs: &mut JobTable, observed: &Vec<(i32, JobObservation)>)
    requires
        old(jobs).wf(),
    ensures
        final(jobs).wf(),
        final(jobs)@ == live_jobs(apply_observations(old(jobs)@, observed@)),
{
    let ghost m0 = jobs@;
    let mut k: usize = 0;
    proof {
        assert(observed@.subrange(0, observed@.len() as int) =~= observed@);
    }
    while k < observed.len()
        invariant
            k <= observed@.len(),
            unique_pids(jobs.jobs@),
            apply_observations(jobs@, observed@.subrange(k as int, observed@.len() as int))
                == apply_observations(m0, observed@),
        decreases observed@.len() - k,
    {
        let (pid, o) = observed[k];
        let ghost cur = jobs@;
        match jobs.position(pid) {
            Some(i) => {
                proof {
                    lemma_jobs_map_at(jobs.jobs@, i as int);
                }
                let status = match o {
                    JobObservation::Ended => JobStatus::Done,
                    JobObservation::Paused => JobStatus::Stopped,
                    JobObservation::Unchanged => jobs.jobs[i].status,
                };
                let ghost pre = jobs.jobs@;
                let updated_job = BackgroundJob {
                    pid: jobs.jobs[i].pid,
                    command: jobs.jobs[i].command.clone(),
                    started_secs: jobs.jobs[i].started_secs,
                    status,
                };
                jobs.jobs[i] = updated_job;
                proof {
                    lemma_replace_at(pre, jobs.jobs@, i as int);
                    assert(jobs@ =~= apply_observation(cur, pid as int, o));
                }
            },
            None => {
                proof {
                    lemma_jobs_map_dom(jobs.jobs@);
                    assert(!cur.contains_key(pid as int));
                }
            },
        }
        k += 1;
        proof {
            let tail = observed@.subrange(k - 1, observed@.len() as int);
            assert(tail[0] == observed@[k - 1]);
            assert(tail.drop_first() =~= observed@.subrange(k as int, observed@.len() as int));
        }
    }
    proof {
        assert(observed@.subrange(observed@.len() as int, observed@.len() as int)
            =~= Seq::<(i32, JobObservation)>::empty());
    }
    let ghost s_all = jobs.jobs@;
    let mut kept: Vec<BackgroundJob> = Vec::new();
    let mut i: usize = 0;
    proof {
        assert(s_all.subrange(0, 0) =~= Seq::<BackgroundJob>::empty());
    }
    while i < jobs.jobs.len()
        invariant
            s_all == jobs.jobs@,
            i <= s_all.len(),
            kept@ == keep_live(s_all.subrange(0, i as int)),
        decreases s_all.len() - i,
    {
        let job = &jobs.jobs[i];
        let keep = match job.status {
            JobStatus::Done => false,
            _ => true,
        };
        if keep {
            let copied = BackgroundJob {
                pid: job.pid,
                command: job.command.clone(),
                started_secs: job.started_secs,
                status: job.status,
            };
            kept.push(copied);
        }
        i += 1;
        proof {
            assert(s_all.subrange(0, i as int).drop_last() =~= s_all.subrange(0, i - 1));
            assert(s_all.subrange(0, i as int).last() == s_all[i - 1]);
            assert(kept@ =~= keep_live(s_all.subrange(0, i as int)));
        }
    }
    proof {
        assert(s_all.subrange(0, s_all.len() as int) =~= s_all);
    }
    jobs.jobs = kept;
    proof {
        lemma_keep_live(s_all);
    }
}

} // verus!
