use vstd::prelude::*;

use crate::cache::{name_set, previous, pruned, Cache, CacheModel, Name, Timestamp};
use crate::carlo::Event;
use crate::config::JenkinsConfig;

verus! {

/// Sequence number of a build on its job.
#[derive(Debug, Clone, Copy, PartialEq, Eq, Structural, PartialOrd, Ord, Hash)]
pub struct BuildNumber(pub u32);

/// Length of a build in milliseconds.
#[derive(Debug, Clone, Copy, PartialEq, Eq, Structural, PartialOrd, Ord, Hash)]
pub struct BuildDuration(pub u32);

/// Where a build can be seen on the CI server.
#[derive(Debug)]
pub struct BuildUrl(pub String);

/// The last build of a job; `result` is `None` while the build is running.
#[derive(Debug)]
pub struct JBuild {
    pub result: Option<String>,
    pub timestamp: Timestamp,
    pub number: BuildNumber,
    pub duration: BuildDuration,
    pub url: BuildUrl,
}

/// A job as listed by the CI server.
#[derive(Debug)]
pub struct JJob {
    pub name: Name,
    pub last_build: JBuild,
}

/// The cache after one job of a response has been looked at: a completed
/// build records its timestamp, a running one changes nothing.
pub open spec fn step_cache(m: CacheModel, server: Seq<char>, job: JJob) -> CacheModel {
    match job.last_build.result {
        Some(_) => m.insert((server, job.name@), job.last_build.timestamp.0),
        None => m,
    }
}

/// Whether looking at `job` announces it: its build is complete and newer than
/// the one recorded before.
pub open spec fn step_emits(m: CacheModel, server: Seq<char>, job: JJob) -> bool {
    &&& job.last_build.result is Some
    &&& match previous(m, server, job.name@) {
        Some(t) => t < job.last_build.timestamp.0,
        None => false,
    }
}

/// The cache after looking at `jobs` in order.
pub open spec fn cache_after(m: CacheModel, server: Seq<char>, jobs: Seq<JJob>) -> CacheModel
    decreases jobs.len(),
{
    if jobs.len() == 0 {
        m
    } else {
        step_cache(cache_after(m, server, jobs.drop_last()), server, jobs.last())
    }
}

/// The jobs that are announced while looking at `jobs` in order.
pub open spec fn announced(m: CacheModel, server: Seq<char>, jobs: Seq<JJob>) -> Seq<JJob>
    decreases jobs.len(),
{
    if jobs.len() == 0 {
        Seq::empty()
    } else {
        let rest = announced(m, server, jobs.drop_last());
        if step_emits(cache_after(m, server, jobs.drop_last()), server, jobs.last()) {
            rest.push(jobs.last())
        } else {
            rest
        }
    }
}

/// The names of the jobs of a response.
pub open spec fn job_names(jobs: Seq<JJob>) -> Set<Seq<char>> {
    Set::new(|n: Seq<char>| exists|i: int| 0 <= i < jobs.len() && jobs[i].name@ == n)
}

/// The cache after a whole response: prune to the names listed, then look at each job.
pub open spec fn polled(m: CacheModel, server: Seq<char>, jobs: Seq<JJob>) -> CacheModel {
    cache_after(pruned(m, server, job_names(jobs)), server, jobs)
}

/// The jobs announced for a whole response.
pub open spec fn poll_announced(m: CacheModel, server: Seq<char>, jobs: Seq<JJob>) -> Seq<JJob> {
    announced(pruned(m, server, job_names(jobs)), server, jobs)
}

/// `e` is the announcement of `job`, a job of the server that `cfg` describes.
pub open spec fn announces(e: Event, job: JJob, cfg: JenkinsConfig) -> bool {
    match e {
        Event::UpdatedJob(id, name, result, number, duration, url, notify) => {
            &&& id@ == cfg.id@
            &&& name@ == job.name@
            &&& job.last_build.result matches Some(r) && r@ == result@
            &&& number == job.last_build.number
            &&& duration == job.last_build.duration
            &&& url.0@ == job.last_build.url.0@
            &&& notify@ == cfg.notify@
        },
        Event::IncomingIrcMessage(_) => false,
    }
}

/// `events` are the announcements of `jobs`, one for one and in order.
pub open spec fn announces_all(events: Seq<Event>, jobs: Seq<JJob>, cfg: JenkinsConfig) -> bool {
    &&& events.len() == jobs.len()
    &&& forall|i: int| 0 <= i < events.len() ==> announces(#[trigger] events[i], jobs[i], cfg)
}

/// The polling state: what has been seen of every CI server so far.
pub struct JListener {
    most_recent: Cache,
}

impl View for JListener {
    type V = CacheModel;

    closed spec fn view(&self) -> CacheModel {
        self.most_recent@
    }
}

impl JListener {
    pub closed spec fn wf(&self) -> bool {
        self.most_recent.wf()
    }

    /// A listener that has seen nothing yet.
    pub fn new() -> (r: JListener)
        ensures
            r.wf(),
            r@ == CacheModel::empty(),
    {
        JListener { most_recent: Cache::new() }
    }

    /// Forgets, for this server, the jobs that the response no longer lists.
    fn prune_missing_builds(&mut self, job_vec: &Vec<JJob>, j_config: &JenkinsConfig)
        requires
            old(self).wf(),
        ensures
            final(self).wf(),
            final(self)@ == pruned(old(self)@, j_config.server@, job_names(job_vec@)),
    {
        let mut build_names: Vec<&Name> = Vec::new();
        let mut i: usize = 0;
        while i < job_vec.len()
            invariant
                0 <= i <= job_vec@.len(),
                build_names@.len() == i,
                forall|k: int| 0 <= k < i ==> (#[trigger] build_names@[k])@ == job_vec@[k].name@,
            decreases job_vec@.len() - i,
        {
            build_names.push(&job_vec[i].name);
            i += 1;
        }
        proof {
            assert forall|n: Seq<char>| #[trigger] name_set(build_names@).contains(n) == job_names(
                job_vec@,
            ).contains(n) by {
                if name_set(build_names@).contains(n) {
                    let k = choose|k: int| 0 <= k < build_names@.len() && build_names@[k]@ == n;
                    assert(job_vec@[k].name@ == n);
                }
                if job_names(job_vec@).contains(n) {
                    let k = choose|k: int| 0 <= k < job_vec@.len() && job_vec@[k].name@ == n;
                    assert(build_names@[k]@ == n);
                }
            }
            assert(name_set(build_names@) =~= job_names(job_vec@));
        }
        self.most_recent.prune_except(&j_config.server, &build_names);
    }

    /// Looks at each job in order, records completed builds, and returns the
    /// announcements of the builds newer than the ones recorded before.
    fn update_builds(&mut self, job_vec: Vec<JJob>, j_config: &JenkinsConfig) -> (events: Vec<Event>)
        requires
            old(self).wf(),
        ensures
            final(self).wf(),
            final(self)@ == cache_after(old(self)@, j_config.server@, job_vec@),
            announces_all(events@, announced(old(self)@, j_config.server@, job_vec@), *j_config),
    {
        let ghost m0 = self@;
        let ghost server = j_config.server@;
        let mut events: Vec<Event> = Vec::new();
        let mut i: usize = 0;
        while i < job_vec.len()
            invariant
                self.wf(),
                0 <= i <= job_vec@.len(),
                server == j_config.server@,
                self@ == cache_after(m0, server, job_vec@.subrange(0, i as int)),
                announces_all(events@, announced(m0, server, job_vec@.subrange(0, i as int)), *j_config),
            decreases job_vec@.len() - i,
        {
            let ghost before = self@;
            let ghost done = job_vec@.subrange(0, i as int);
            let ghost next = job_vec@.subrange(0, i as int + 1);
            proof {
                assert(next.drop_last() =~= done);
                assert(next.last() == job_vec@[i as int]);
            }
            let job = &job_vec[i];
            match &job.last_build.result {
                None => {},
                Some(result) => {
                    let new_timestamp = job.last_build.timestamp;
                    let prev = self.most_recent.insert(&j_config.server, &job.name, &new_timestamp);
                    match prev {
                        Some(old_timestamp) => {
                            if old_timestamp.0 < new_timestamp.0 {
                                let event = Event::UpdatedJob(
                                    j_config.id.clone(),
                                    job.name.copy_of(),
                                    result.clone(),
                                    job.last_build.number,
                                    job.last_build.duration,
                                    BuildUrl(job.last_build.url.0.clone()),
                                    j_config.notify.clone(),
                                );
                                let ghost old_events = events@;
                                events.push(event);
                                proof {
                                    let a = announced(m0, server, next);
                                    assert(a == announced(m0, server, done).push(job_vec@[i as int]));
                                    assert forall|k: int| 0 <= k < events@.len() implies announces(
                                        #[trigger] events@[k],
                                        a[k],
                                        *j_config,
                                    ) by {
                                        if k < old_events.len() {
                                            assert(events@[k] == old_events[k]);
                                        }
                                    }
                                }
                            }
                        },
                        None => {},
                    }
                },
            }
            i += 1;
        }
        proof {
            assert(job_vec@.subrange(0, job_vec@.len() as int) =~= job_vec@);
        }
        events
    }

    /// Handles one successful response of a CI server: prunes the jobs it no
    /// longer lists, then records and announces new builds.
    pub fn update(&mut self, job_vec: Vec<JJob>, j_config: &JenkinsConfig) -> (events: Vec<Event>)
        requires
            old(self).wf(),
        ensures
            final(self).wf(),
            final(self)@ == polled(old(self)@, j_config.server@, job_vec@),
            announces_all(events@, poll_announced(old(self)@, j_config.server@, job_vec@), *j_config),
    {
        self.prune_missing_builds(&job_vec, j_config);
        self.update_builds(job_vec, j_config)
    }

    /// Handles the outcome of one request to a CI server. A failed request
    /// leaves the state alone and announces nothing.
    pub fn handle_response(&mut self, response: Result<Vec<JJob>, String>, j_config: &JenkinsConfig) -> (events: Vec<Event>)
        requires
            old(self).wf(),
        ensures
            final(self).wf(),
            match response {
                Ok(jobs) => {
                    &&& final(self)@ == polled(old(self)@, j_config.server@, jobs@)
                    &&& announces_all(events@, poll_announced(old(self)@, j_config.server@, jobs@), *j_config)
                },
                Err(_) => final(self)@ == old(self)@ && events@.len() == 0,
            },
    {
        match response {
            Ok(jobs) => self.update(jobs, j_config),
            Err(_) => Vec::new(),
        }
    }
}

/// The timestamps of the jobs named `n`, in order.
pub open spec fn times_for(jobs: Seq<JJob>, n: Seq<char>) -> Seq<u64>
    decreases jobs.len(),
{
    if jobs.len() == 0 {
        Seq::empty()
    } else if jobs.last().name@ == n {
        times_for(jobs.drop_last(), n).push(jobs.last().last_build.timestamp.0)
    } else {
        times_for(jobs.drop_last(), n)
    }
}

/// The cache after a run of responses from one server, oldest first.
pub open spec fn after_ticks(m: CacheModel, server: Seq<char>, ticks: Seq<Seq<JJob>>) -> CacheModel
    decreases ticks.len(),
{
    if ticks.len() == 0 {
        m
    } else {
        polled(after_ticks(m, server, ticks.drop_last()), server, ticks.last())
    }
}

/// The timestamps of the announcements of job `n` over a run of responses.
pub open spec fn announced_times(m: CacheModel, server: Seq<char>, n: Seq<char>, ticks: Seq<Seq<JJob>>) -> Seq<u64>
    decreases ticks.len(),
{
    if ticks.len() == 0 {
        Seq::empty()
    } else {
        announced_times(m, server, n, ticks.drop_last()) + times_for(
            poll_announced(after_ticks(m, server, ticks.drop_last()), server, ticks.last()),
            n,
        )
    }
}

/// The number of times a timestamp is greater than the one before it.
pub open spec fn advances(ts: Seq<u64>) -> nat
    decreases ts.len(),
{
    if ts.len() < 2 {
        0
    } else {
        advances(ts.drop_last()) + if ts[ts.len() - 2] < ts.last() {
            1nat
        } else {
            0nat
        }
    }
}

/// `jobs` lists job `n` once, with a completed build of timestamp `t`.
pub open spec fn lists_once(jobs: Seq<JJob>, n: Seq<char>, t: u64) -> bool {
    exists|i: int|
        0 <= i < jobs.len() && #[trigger] jobs[i].name@ == n && jobs[i].last_build.result is Some
            && jobs[i].last_build.timestamp.0 == t && forall|j: int|
            0 <= j < jobs.len() && j != i ==> jobs[j].name@ != n
}

/// No two jobs of `jobs` have the same name.
pub open spec fn distinct_names(jobs: Seq<JJob>) -> bool {
    forall|i: int, j: int| 0 <= i < j < jobs.len() ==> #[trigger] jobs[i].name@ != #[trigger] jobs[j].name@
}

/// A job whose build is still running is not announced, and leaves the cache
/// as it was.
pub proof fn lemma_running_build_ignored(m: CacheModel, server: Seq<char>, job: JJob)
    requires
        job.last_build.result is None,
    ensures
        step_cache(m, server, job) == m,
        !step_emits(m, server, job),
{
}

/// Where every job named `n` in a response is still running, the response
/// announces nothing for `n` and leaves the value stored for `n` alone.
pub proof fn lemma_running_jobs_untouched(m: CacheModel, server: Seq<char>, jobs: Seq<JJob>, n: Seq<char>)
    requires
        forall|i: int| 0 <= i < jobs.len() && #[trigger] jobs[i].name@ == n ==> jobs[i].last_build.result is None,
    ensures
        previous(cache_after(m, server, jobs), server, n) == previous(m, server, n),
        times_for(announced(m, server, jobs), n).len() == 0,
    decreases jobs.len(),
{
    if jobs.len() > 0 {
        let pre = jobs.drop_last();
        assert forall|i: int| 0 <= i < pre.len() && #[trigger] pre[i].name@ == n implies pre[i].last_build.result is None by {
            assert(pre[i] == jobs[i]);
        }
        lemma_running_jobs_untouched(m, server, pre, n);
        assert(jobs.last() == jobs[jobs.len() - 1]);
        let a = announced(m, server, pre);
        if step_emits(cache_after(m, server, pre), server, jobs.last()) {
            assert(announced(m, server, jobs) == a.push(jobs.last()));
            assert(a.push(jobs.last()).drop_last() == a);
        }
    }
}

/// A response that lists `n` once, completed at `t`, stores `t` for `n` and
/// announces `n` once exactly when `t` is newer than what was stored.
proof fn lemma_listed_once(m: CacheModel, server: Seq<char>, jobs: Seq<JJob>, n: Seq<char>, t: u64)
    requires
        lists_once(jobs, n, t),
    ensures
        previous(cache_after(m, server, jobs), server, n) == Some(t),
        times_for(announced(m, server, jobs), n) == (match previous(m, server, n) {
            Some(p) => if p < t {
                seq![t]
            } else {
                Seq::<u64>::empty()
            },
            None => Seq::<u64>::empty(),
        }),
    decreases jobs.len(),
{
    let i = choose|i: int|
        0 <= i < jobs.len() && #[trigger] jobs[i].name@ == n && jobs[i].last_build.result is Some
            && jobs[i].last_build.timestamp.0 == t && forall|j: int|
            0 <= j < jobs.len() && j != i ==> jobs[j].name@ != n;
    let pre = jobs.drop_last();
    let last = jobs.last();
    assert(last == jobs[jobs.len() - 1]);
    let a = announced(m, server, pre);
    if i == jobs.len() - 1 {
        assert forall|k: int| 0 <= k < pre.len() && #[trigger] pre[k].name@ == n implies pre[k].last_build.result is None by {
            assert(pre[k] == jobs[k]);
        }
        lemma_running_jobs_untouched(m, server, pre, n);
        if step_emits(cache_after(m, server, pre), server, last) {
            assert(announced(m, server, jobs) == a.push(last));
            assert(a.push(last).drop_last() == a);
            assert(times_for(a, n).len() == 0);
            assert(times_for(a.push(last), n) =~= seq![t]);
        }
    } else {
        assert(pre[i] == jobs[i]);
        assert forall|j: int| 0 <= j < pre.len() && j != i implies pre[j].name@ != n by {
            assert(pre[j] == jobs[j]);
        }
        assert(lists_once(pre, n, t));
        lemma_listed_once(m, server, pre, n, t);
        assert(last.name@ != n);
        if step_emits(cache_after(m, server, pre), server, last) {
            assert(announced(m, server, jobs) == a.push(last));
            assert(a.push(last).drop_last() == a);
        }
    }
}

/// Pruning to the names of a response keeps what is stored for a listed name.
proof fn lemma_prune_keeps_listed(m: CacheModel, server: Seq<char>, jobs: Seq<JJob>, n: Seq<char>, t: u64)
    requires
        lists_once(jobs, n, t),
    ensures
        previous(pruned(m, server, job_names(jobs)), server, n) == previous(m, server, n),
{
    let i = choose|i: int|
        0 <= i < jobs.len() && #[trigger] jobs[i].name@ == n && jobs[i].last_build.result is Some
            && jobs[i].last_build.timestamp.0 == t && forall|j: int|
            0 <= j < jobs.len() && j != i ==> jobs[j].name@ != n;
    assert(job_names(jobs).contains(n));
}

/// What is stored for `n` after a run of responses that each list `n` once
/// with a completed build, and the announcements of `n` in the last response.
proof fn lemma_last_tick(m: CacheModel, server: Seq<char>, n: Seq<char>, ticks: Seq<Seq<JJob>>, ts: Seq<u64>)
    requires
        previous(m, server, n) is None,
        ticks.len() == ts.len(),
        forall|k: int| 0 <= k < ticks.len() ==> lists_once(#[trigger] ticks[k], n, ts[k]),
    ensures
        previous(after_ticks(m, server, ticks), server, n) == if ticks.len() == 0 {
            None
        } else {
            Some(ts.last())
        },
        ticks.len() > 0 ==> times_for(
            poll_announced(after_ticks(m, server, ticks.drop_last()), server, ticks.last()),
            n,
        ) == if ticks.len() >= 2 && ts[ts.len() - 2] < ts.last() {
            seq![ts.last()]
        } else {
            Seq::<u64>::empty()
        },
    decreases ticks.len(),
{
    if ticks.len() > 0 {
        let pre = ticks.drop_last();
        let ts_pre = ts.drop_last();
        assert forall|k: int| 0 <= k < pre.len() implies lists_once(#[trigger] pre[k], n, ts_pre[k]) by {
            assert(pre[k] == ticks[k]);
        }
        lemma_last_tick(m, server, n, pre, ts_pre);
        let before = after_ticks(m, server, pre);
        let jobs = ticks.last();
        assert(lists_once(ticks[ticks.len() - 1], n, ts[ts.len() - 1]));
        lemma_prune_keeps_listed(before, server, jobs, n, ts.last());
        lemma_listed_once(pruned(before, server, job_names(jobs)), server, jobs, n, ts.last());
        if ticks.len() >= 2 {
            assert(ts_pre.last() == ts[ts.len() - 2]);
        }
    }
}

/// Starting from a cache that has never seen job `n`, over a run of responses
/// that each list `n` once with a completed build, the number of announcements
/// of `n` is the number of times a timestamp is greater than the one before
/// it; the first response announces nothing.
pub proof fn lemma_announcements_count(m: CacheModel, server: Seq<char>, n: Seq<char>, ticks: Seq<Seq<JJob>>, ts: Seq<u64>)
    requires
        previous(m, server, n) is None,
        ticks.len() == ts.len(),
        forall|k: int| 0 <= k < ticks.len() ==> lists_once(#[trigger] ticks[k], n, ts[k]),
    ensures
        announced_times(m, server, n, ticks).len() == advances(ts),
    decreases ticks.len(),
{
    if ticks.len() > 0 {
        let pre = ticks.drop_last();
        let ts_pre = ts.drop_last();
        assert forall|k: int| 0 <= k < pre.len() implies lists_once(#[trigger] pre[k], n, ts_pre[k]) by {
            assert(pre[k] == ticks[k]);
        }
        lemma_announcements_count(m, server, n, pre, ts_pre);
        lemma_last_tick(m, server, n, ticks, ts);
        if ticks.len() >= 2 {
            assert(ts_pre.last() == ts[ts.len() - 2]);
        }
    }
}

/// With timestamps that never go back, successive announcements of job `n`
/// carry strictly increasing timestamps, none later than the latest one.
pub proof fn lemma_announcements_increase(m: CacheModel, server: Seq<char>, n: Seq<char>, ticks: Seq<Seq<JJob>>, ts: Seq<u64>)
    requires
        previous(m, server, n) is None,
        ticks.len() == ts.len(),
        forall|k: int| 0 <= k < ticks.len() ==> lists_once(#[trigger] ticks[k], n, ts[k]),
        forall|i: int, j: int| 0 <= i < j < ts.len() ==> #[trigger] ts[i] <= #[trigger] ts[j],
    ensures
        forall|i: int, j: int|
            0 <= i < j < announced_times(m, server, n, ticks).len() ==> #[trigger] announced_times(m, server, n, ticks)[i]
                < #[trigger] announced_times(m, server, n, ticks)[j],
        ts.len() > 0 ==> forall|i: int|
            0 <= i < announced_times(m, server, n, ticks).len() ==> #[trigger] announced_times(m, server, n, ticks)[i]
                <= ts.last(),
    decreases ticks.len(),
{
    if ticks.len() > 0 {
        let pre = ticks.drop_last();
        let ts_pre = ts.drop_last();
        assert forall|k: int| 0 <= k < pre.len() implies lists_once(#[trigger] pre[k], n, ts_pre[k]) by {
            assert(pre[k] == ticks[k]);
        }
        assert forall|i: int, j: int| 0 <= i < j < ts_pre.len() implies #[trigger] ts_pre[i] <= #[trigger] ts_pre[j] by {
            assert(ts_pre[i] == ts[i] && ts_pre[j] == ts[j]);
        }
        lemma_announcements_increase(m, server, n, pre, ts_pre);
        lemma_last_tick(m, server, n, ticks, ts);
        let old_times = announced_times(m, server, n, pre);
        let times = announced_times(m, server, n, ticks);
        if ticks.len() >= 2 {
            assert(ts_pre.last() == ts[ts.len() - 2]);
            assert(ts[ts.len() - 2] <= ts[ts.len() - 1]);
        }
        assert forall|i: int| 0 <= i < old_times.len() implies #[trigger] old_times[i] <= ts.last() by {
            if ts_pre.len() > 0 {
                assert(ts_pre.last() == ts[ts.len() - 2]);
                assert(ts[ts.len() - 2] <= ts[ts.len() - 1]);
            }
        }
        assert forall|i: int| 0 <= i < times.len() implies #[trigger] times[i] <= ts.last() by {
            if i < old_times.len() {
                assert(times[i] == old_times[i]);
            }
        }
        assert forall|i: int, j: int| 0 <= i < j < times.len() implies #[trigger] times[i] < #[trigger] times[j] by {
            if j < old_times.len() {
                assert(times[i] == old_times[i] && times[j] == old_times[j]);
            } else {
                assert(times[i] == old_times[i]);
                assert(ts_pre.last() == ts[ts.len() - 2]);
            }
        }
    }
}

/// Looking at a response adds keys only under its server, for its names.
proof fn lemma_keys_added(m: CacheModel, server: Seq<char>, jobs: Seq<JJob>)
    ensures
        forall|k: (Seq<char>, Seq<char>)|
            #[trigger] cache_after(m, server, jobs).contains_key(k) ==> m.contains_key(k) || (k.0 == server
                && job_names(jobs).contains(k.1)),
    decreases jobs.len(),
{
    if jobs.len() > 0 {
        let pre = jobs.drop_last();
        lemma_keys_added(m, server, pre);
        assert forall|k: (Seq<char>, Seq<char>)|
            #[trigger] cache_after(m, server, jobs).contains_key(k) implies m.contains_key(k) || (k.0 == server
                && job_names(jobs).contains(k.1)) by {
            if cache_after(m, server, pre).contains_key(k) && !m.contains_key(k) {
                let i = choose|i: int| 0 <= i < pre.len() && pre[i].name@ == k.1;
                assert(jobs[i] == pre[i]);
            } else if !m.contains_key(k) {
                assert(jobs[jobs.len() - 1].name@ == k.1);
            }
        }
    }
}

/// Where the cache already holds, for each completed job of a response, that
/// job's timestamp, looking at the response changes nothing and announces nothing.
proof fn lemma_seen_response(m: CacheModel, server: Seq<char>, jobs: Seq<JJob>)
    requires
        forall|i: int|
            0 <= i < jobs.len() && (#[trigger] jobs[i]).last_build.result is Some ==> previous(m, server, jobs[i].name@)
                == Some(jobs[i].last_build.timestamp.0),
    ensures
        cache_after(m, server, jobs) == m,
        announced(m, server, jobs).len() == 0,
    decreases jobs.len(),
{
    if jobs.len() > 0 {
        let pre = jobs.drop_last();
        assert forall|i: int|
            0 <= i < pre.len() && (#[trigger] pre[i]).last_build.result is Some implies previous(m, server, pre[i].name@)
                == Some(pre[i].last_build.timestamp.0) by {
            assert(pre[i] == jobs[i]);
        }
        lemma_seen_response(m, server, pre);
        let last = jobs.last();
        assert(last == jobs[jobs.len() - 1]);
        if last.last_build.result is Some {
            assert(m.insert((server, last.name@), last.last_build.timestamp.0) =~= m);
        }
    }
}

/// Polling the same response twice in a row: the second poll announces
/// nothing and leaves the cache as the first one left it. (Job names within a
/// response are distinct.)
pub proof fn lemma_repoll_silent(m: CacheModel, server: Seq<char>, jobs: Seq<JJob>)
    requires
        distinct_names(jobs),
    ensures
        poll_announced(polled(m, server, jobs), server, jobs).len() == 0,
        polled(polled(m, server, jobs), server, jobs) == polled(m, server, jobs),
{
    let names = job_names(jobs);
    let p = pruned(m, server, names);
    let m1 = polled(m, server, jobs);
    lemma_keys_added(p, server, jobs);
    assert(pruned(m1, server, names) =~= m1);
    assert forall|i: int|
        0 <= i < jobs.len() && (#[trigger] jobs[i]).last_build.result is Some implies previous(m1, server, jobs[i].name@)
            == Some(jobs[i].last_build.timestamp.0) by {
        assert(lists_once(jobs, jobs[i].name@, jobs[i].last_build.timestamp.0));
        lemma_listed_once(p, server, jobs, jobs[i].name@, jobs[i].last_build.timestamp.0);
    }
    lemma_seen_response(m1, server, jobs);
}

} // verus!
