//! Bookkeeping of running conversions, so that a job can be cancelled: the
//! process each job is waiting on, and the jobs asked to stop.

use vstd::prelude::*;

verus! {

/// Some entry of `s` has key `k`.
pub open spec fn has_key(s: Seq<(String, u32)>, k: Seq<char>) -> bool {
    exists|i: int| 0 <= i < s.len() && (#[trigger] s[i]).0@ == k
}

/// The position of an entry with key `k`.
pub open spec fn key_index(s: Seq<(String, u32)>, k: Seq<char>) -> int {
    choose|i: int| 0 <= i < s.len() && (#[trigger] s[i]).0@ == k
}

/// No two entries have the same key.
pub open spec fn distinct_keys(s: Seq<(String, u32)>) -> bool {
    forall|i: int, j: int|
        0 <= i < s.len() && 0 <= j < s.len() && i != j ==> (#[trigger] s[i]).0@ != (#[trigger] s[j]).0@
}

/// No id occurs twice.
pub open spec fn distinct_ids(s: Seq<String>) -> bool {
    forall|i: int, j: int|
        0 <= i < s.len() && 0 <= j < s.len() && i != j ==> (#[trigger] s[i])@ != (#[trigger] s[j])@
}

/// The entries as a map from job id to process id.
pub open spec fn pid_map(s: Seq<(String, u32)>) -> Map<Seq<char>, u32> {
    Map::new(|k: Seq<char>| has_key(s, k), |k: Seq<char>| s[key_index(s, k)].1)
}

/// The ids as a set.
pub open spec fn id_set(s: Seq<String>) -> Set<Seq<char>> {
    Set::new(|k: Seq<char>| exists|i: int| 0 <= i < s.len() && (#[trigger] s[i])@ == k)
}

/// The process each running job waits on and the jobs asked to stop.
#[verifier::ext_equal]
pub struct JobStateView {
    pub pids: Map<Seq<char>, u32>,
    pub cancelled: Set<Seq<char>>,
}

impl JobStateView {
    /// The process job `id` waits on, if any.
    pub open spec fn pid_for(self, id: Seq<char>) -> Option<u32> {
        if self.pids.contains_key(id) {
            Some(self.pids[id])
        } else {
            None
        }
    }

    /// Job `id` now waits on process `pid`.
    pub open spec fn with_pid(self, id: Seq<char>, pid: u32) -> JobStateView {
        JobStateView { pids: self.pids.insert(id, pid), cancelled: self.cancelled }
    }

    /// Job `id` waits on no process.
    pub open spec fn without_pid(self, id: Seq<char>) -> JobStateView {
        JobStateView { pids: self.pids.remove(id), cancelled: self.cancelled }
    }

    /// Job `id` is asked to stop.
    pub open spec fn with_cancel(self, id: Seq<char>) -> JobStateView {
        JobStateView { pids: self.pids, cancelled: self.cancelled.insert(id) }
    }

    /// Job `id` is not asked to stop.
    pub open spec fn without_cancel(self, id: Seq<char>) -> JobStateView {
        JobStateView { pids: self.pids, cancelled: self.cancelled.remove(id) }
    }

    /// Job `id` is forgotten: no process, no request to stop.
    pub open spec fn finished(self, id: Seq<char>) -> JobStateView {
        JobStateView { pids: self.pids.remove(id), cancelled: self.cancelled.remove(id) }
    }
}

/// Job bookkeeping shared by the conversion workers and the cancel command.
pub struct JobState {
    pids: Vec<(String, u32)>,
    cancelled: Vec<String>,
}

impl View for JobState {
    type V = JobStateView;

    closed spec fn view(&self) -> JobStateView {
        JobStateView { pids: pid_map(self.pids@), cancelled: id_set(self.cancelled@) }
    }
}

proof fn lemma_key_index(s: Seq<(String, u32)>, i: int)
    requires
        distinct_keys(s),
        0 <= i < s.len(),
    ensures
        has_key(s, s[i].0@),
        key_index(s, s[i].0@) == i,
{
    assert(has_key(s, s[i].0@));
    let j = key_index(s, s[i].0@);
    assert(s[j].0@ == s[i].0@);
}

/// Finds the entry of `id`.
fn find_entry(s: &Vec<(String, u32)>, id: &String) -> (r: Option<usize>)
    ensures
        match r {
            Some(i) => i < s@.len() && s@[i as int].0@ == id@,
            None => !has_key(s@, id@),
        },
{
    let mut i: usize = 0;
    while i < s.len()
        invariant
            i <= s.len(),
            forall|j: int| 0 <= j < i ==> (#[trigger] s@[j]).0@ != id@,
        decreases s.len() - i,
    {
        if s[i].0 == *id {
            return Some(i);
        }
        i = i + 1;
    }
    None
}

/// Finds `id` among the ids.
fn find_id(s: &Vec<String>, id: &String) -> (r: Option<usize>)
    ensures
        match r {
            Some(i) => i < s@.len() && s@[i as int]@ == id@,
            None => !id_set(s@).contains(id@),
        },
{
    let mut i: usize = 0;
    while i < s.len()
        invariant
            i <= s.len(),
            forall|j: int| 0 <= j < i ==> (#[trigger] s@[j])@ != id@,
        decreases s.len() - i,
    {
        if s[i] == *id {
            return Some(i);
        }
        i = i + 1;
    }
    None
}

impl JobState {
    /// The invariant: no job id occurs twice in either list.
    pub closed spec fn wf(&self) -> bool {
        distinct_keys(self.pids@) && distinct_ids(self.cancelled@)
    }

    /// No jobs.
    pub fn new() -> (r: JobState)
        ensures
            r.wf(),
            r@.pids == Map::<Seq<char>, u32>::empty(),
            r@.cancelled == Set::<Seq<char>>::empty(),
    {
        let r = JobState { pids: Vec::new(), cancelled: Vec::new() };
        assert(r@.pids =~= Map::<Seq<char>, u32>::empty());
        assert(r@.cancelled =~= Set::<Seq<char>>::empty());
        r
    }

    /// The process job `id` waits on, if any.
    pub fn pid_of(&self, id: &String) -> (r: Option<u32>)
        requires
            self.wf(),
        ensures
            r == self@.pid_for(id@),
    {
        match find_entry(&self.pids, id) {
            Some(i) => {
                proof {
                    lemma_key_index(self.pids@, i as int);
                }
                Some(self.pids[i].1)
            },
            None => None,
        }
    }

    /// Whether job `id` was asked to stop.
    pub fn is_cancelled(&self, id: &String) -> (r: bool)
        ensures
            r == self@.cancelled.contains(id@),
    {
        match find_id(&self.cancelled, id) {
            Some(i) => {
                assert(id_set(self.cancelled@).contains(id@)) by {
                    assert(self.cancelled@[i as int]@ == id@);
                }
                true
            },
            None => false,
        }
    }

    /// Records that job `id` now waits on process `pid`.
    pub fn set_pid(&mut self, id: &String, pid: u32)
        requires
            old(self).wf(),
        ensures
            final(self).wf(),
            final(self)@ == old(self)@.with_pid(id@, pid),
    {
        let ghost old_s = self.pids@;
        match find_entry(&self.pids, id) {
            Some(i) => {
                self.pids.set(i, (id.clone(), pid));
                let ghost new_s = self.pids@;
                assert(new_s[i as int].0@ == id@);
                assert(distinct_keys(new_s)) by {
                    assert forall|a: int, b: int|
                        0 <= a < new_s.len() && 0 <= b < new_s.len() && a != b implies (
                    #[trigger] new_s[a]).0@ != (#[trigger] new_s[b]).0@ by {
                        if a != i && b != i {
                            assert(new_s[a] == old_s[a] && new_s[b] == old_s[b]);
                        } else if a == i {
                            assert(new_s[b] == old_s[b]);
                            assert(old_s[i as int].0@ == id@);
                        } else {
                            assert(new_s[a] == old_s[a]);
                            assert(old_s[i as int].0@ == id@);
                        }
                    }
                }
                assert(pid_map(new_s) =~= pid_map(old_s).insert(id@, pid)) by {
                    assert forall|k: Seq<char>| has_key(new_s, k) == (has_key(old_s, k) || k == id@) by {
                        if has_key(old_s, k) {
                            let j = key_index(old_s, k);
                            if j == i {
                                assert(new_s[i as int].0@ == k);
                            } else {
                                assert(new_s[j] == old_s[j]);
                            }
                        }
                        if has_key(new_s, k) {
                            let j = key_index(new_s, k);
                            if j != i {
                                assert(new_s[j] == old_s[j]);
                            } else {
                                assert(k == id@);
                            }
                        }
                        if k == id@ {
                            assert(new_s[i as int].0@ == k);
                        }
                    }
                    assert forall|k: Seq<char>| #[trigger] has_key(new_s, k) implies pid_map(new_s)[k]
                        == pid_map(old_s).insert(id@, pid)[k] by {
                        let j = key_index(new_s, k);
                        lemma_key_index(new_s, j);
                        if j == i {
                            assert(k == id@);
                        } else {
                            assert(new_s[j] == old_s[j]);
                            lemma_key_index(old_s, j);
                            assert(k != id@);
                        }
                    }
                }
            },
            None => {
                self.pids.push((id.clone(), pid));
                let ghost new_s = self.pids@;
                let ghost n = old_s.len() as int;
                assert(distinct_keys(new_s)) by {
                    assert forall|a: int, b: int|
                        0 <= a < new_s.len() && 0 <= b < new_s.len() && a != b implies (
                    #[trigger] new_s[a]).0@ != (#[trigger] new_s[b]).0@ by {
                        if a < n && b < n {
                            assert(new_s[a] == old_s[a] && new_s[b] == old_s[b]);
                        } else if a == n {
                            assert(new_s[b] == old_s[b]);
                            assert(!has_key(old_s, id@));
                            assert(old_s[b].0@ != id@);
                        } else {
                            assert(new_s[a] == old_s[a]);
                            assert(old_s[a].0@ != id@);
                        }
                    }
                }
                assert(pid_map(new_s) =~= pid_map(old_s).insert(id@, pid)) by {
                    assert forall|k: Seq<char>| has_key(new_s, k) == (has_key(old_s, k) || k == id@) by {
                        if has_key(old_s, k) {
                            let j = key_index(old_s, k);
                            assert(new_s[j] == old_s[j]);
                        }
                        if has_key(new_s, k) {
                            let j = key_index(new_s, k);
                            if j < n {
                                assert(new_s[j] == old_s[j]);
                            }
                        }
                        if k == id@ {
                            assert(new_s[n].0@ == k);
                        }
                    }
                    assert forall|k: Seq<char>| #[trigger] has_key(new_s, k) implies pid_map(new_s)[k]
                        == pid_map(old_s).insert(id@, pid)[k] by {
                        let j = key_index(new_s, k);
                        lemma_key_index(new_s, j);
                        if j == n {
                            assert(k == id@);
                        } else {
                            assert(new_s[j] == old_s[j]);
                            lemma_key_index(old_s, j);
                        }
                    }
                }
            },
        }
    }

    /// Forgets the process of job `id` (it has ended).
    pub fn clear_pid(&mut self, id: &String)
        requires
            old(self).wf(),
        ensures
            final(self).wf(),
            final(self)@ == old(self)@.without_pid(id@),
    {
        let ghost old_s = self.pids@;
        match find_entry(&self.pids, id) {
            Some(i) => {
                self.pids.remove(i);
                let ghost new_s = self.pids@;
                assert(new_s =~= old_s.remove(i as int));
                assert(distinct_keys(new_s)) by {
                    assert forall|a: int, b: int|
                        0 <= a < new_s.len() && 0 <= b < new_s.len() && a != b implies (
                    #[trigger] new_s[a]).0@ != (#[trigger] new_s[b]).0@ by {
                        let oa = if a < i { a } else { a + 1 };
                        let ob = if b < i { b } else { b + 1 };
                        assert(new_s[a] == old_s[oa] && new_s[b] == old_s[ob]);
                    }
                }
                assert(pid_map(new_s) =~= pid_map(old_s).remove(id@)) by {
                    assert forall|k: Seq<char>| has_key(new_s, k) == (has_key(old_s, k) && k != id@) by {
                        if has_key(old_s, k) && k != id@ {
                            let j = key_index(old_s, k);
                            assert(j != i);
                            if j < i {
                                assert(new_s[j] == old_s[j]);
                            } else {
                                assert(new_s[j - 1] == old_s[j]);
                            }
                        }
                        if has_key(new_s, k) {
                            let j = key_index(new_s, k);
                            let oj = if j < i { j } else { j + 1 };
                            assert(new_s[j] == old_s[oj]);
                            assert(oj != i);
                            assert(k != id@);
                        }
                    }
                    assert forall|k: Seq<char>| #[trigger] has_key(new_s, k) implies pid_map(new_s)[k]
                        == pid_map(old_s).remove(id@)[k] by {
                        let j = key_index(new_s, k);
                        lemma_key_index(new_s, j);
                        let oj = if j < i { j } else { j + 1 };
                        assert(new_s[j] == old_s[oj]);
                        lemma_key_index(old_s, oj);
                    }
                }
            },
            None => {
                assert(pid_map(old_s) =~= pid_map(old_s).remove(id@));
            },
        }
    }

    /// Withdraws a request to stop job `id`.
    pub fn clear_cancelled(&mut self, id: &String)
        requires
            old(self).wf(),
        ensures
            final(self).wf(),
            final(self)@ == old(self)@.without_cancel(id@),
    {
        let ghost old_s = self.cancelled@;
        match find_id(&self.cancelled, id) {
            Some(i) => {
                self.cancelled.remove(i);
                let ghost new_s = self.cancelled@;
                assert(new_s =~= old_s.remove(i as int));
                assert(distinct_ids(new_s)) by {
                    assert forall|a: int, b: int|
                        0 <= a < new_s.len() && 0 <= b < new_s.len() && a != b implies (
                    #[trigger] new_s[a])@ != (#[trigger] new_s[b])@ by {
                        let oa = if a < i { a } else { a + 1 };
                        let ob = if b < i { b } else { b + 1 };
                        assert(new_s[a] == old_s[oa] && new_s[b] == old_s[ob]);
                    }
                }
                assert(id_set(new_s) =~= id_set(old_s).remove(id@)) by {
                    assert forall|k: Seq<char>| id_set(new_s).contains(k) == (id_set(old_s).contains(
                        k,
                    ) && k != id@) by {
                        if id_set(old_s).contains(k) && k != id@ {
                            let j = choose|j: int| 0 <= j < old_s.len() && (#[trigger] old_s[j])@ == k;
                            assert(j != i);
                            if j < i {
                                assert(new_s[j] == old_s[j]);
                            } else {
                                assert(new_s[j - 1] == old_s[j]);
                            }
                        }
                        if id_set(new_s).contains(k) {
                            let j = choose|j: int| 0 <= j < new_s.len() && (#[trigger] new_s[j])@ == k;
                            let oj = if j < i { j } else { j + 1 };
                            assert(new_s[j] == old_s[oj]);
                            assert(oj != i);
                        }
                    }
                }
            },
            None => {
                assert(id_set(old_s) =~= id_set(old_s).remove(id@));
            },
        }
    }

    /// Asks job `id` to stop and gives the process it waits on, which the
    /// caller then kills. The job notices the request at its next check
    /// even when no process could be killed.
    pub fn cancel(&mut self, id: &String) -> (r: Option<u32>)
        requires
            old(self).wf(),
        ensures
            final(self).wf(),
            final(self)@ == old(self)@.with_cancel(id@),
            r == old(self)@.pid_for(id@),
    {
        let ghost old_s = self.cancelled@;
        match find_id(&self.cancelled, id) {
            Some(i) => {
                assert(id_set(old_s) =~= id_set(old_s).insert(id@)) by {
                    assert(old_s[i as int]@ == id@);
                }
            },
            None => {
                self.cancelled.push(id.clone());
                let ghost new_s = self.cancelled@;
                let ghost n = old_s.len() as int;
                assert(distinct_ids(new_s)) by {
                    assert forall|a: int, b: int|
                        0 <= a < new_s.len() && 0 <= b < new_s.len() && a != b implies (
                    #[trigger] new_s[a])@ != (#[trigger] new_s[b])@ by {
                        if a < n && b < n {
                            assert(new_s[a] == old_s[a] && new_s[b] == old_s[b]);
                        } else if a == n {
                            assert(new_s[b] == old_s[b]);
                            assert(!id_set(old_s).contains(id@));
                        } else {
                            assert(new_s[a] == old_s[a]);
                            assert(!id_set(old_s).contains(id@));
                        }
                    }
                }
                assert(id_set(new_s) =~= id_set(old_s).insert(id@)) by {
                    assert forall|k: Seq<char>| id_set(new_s).contains(k) == (id_set(old_s).contains(
                        k,
                    ) || k == id@) by {
                        if id_set(old_s).contains(k) {
                            let j = choose|j: int| 0 <= j < old_s.len() && (#[trigger] old_s[j])@ == k;
                            assert(new_s[j] == old_s[j]);
                        }
                        if id_set(new_s).contains(k) {
                            let j = choose|j: int| 0 <= j < new_s.len() && (#[trigger] new_s[j])@ == k;
                            if j < n {
                                assert(new_s[j] == old_s[j]);
                            }
                        }
                        if k == id@ {
                            assert(new_s[n]@ == k);
                        }
                    }
                }
            },
        }
        self.pid_of(id)
    }

    /// Prepares job `id` for a (new) run: an earlier request to stop it no
    /// longer applies.
    pub fn begin(&mut self, id: &String)
        requires
            old(self).wf(),
        ensures
            final(self).wf(),
            final(self)@ == old(self)@.without_cancel(id@),
    {
        self.clear_cancelled(id);
    }

    /// Forgets job `id` once it has ended, whatever the outcome.
    pub fn finish(&mut self, id: &String)
        requires
            old(self).wf(),
        ensures
            final(self).wf(),
            final(self)@ == old(self)@.finished(id@),
    {
        self.clear_pid(id);
        self.clear_cancelled(id);
    }
}

/// Registering a process for a job and then cancelling the job hands that
/// process back for killing, keeps it registered, and leaves the job
/// marked as cancelled.
pub proof fn cancel_after_set_pid(v: JobStateView, id: Seq<char>, pid: u32)
    ensures
        v.with_pid(id, pid).pid_for(id) == Some(pid),
        v.with_pid(id, pid).with_cancel(id).pid_for(id) == Some(pid),
        v.with_pid(id, pid).with_cancel(id).cancelled.contains(id),
{
}

/// Starting a job again withdraws an earlier cancel; finishing a job
/// withdraws it and forgets its process.
pub proof fn begin_and_finish_clear(v: JobStateView, id: Seq<char>)
    ensures
        !v.with_cancel(id).without_cancel(id).cancelled.contains(id),
        !v.finished(id).cancelled.contains(id),
        v.finished(id).pid_for(id) is None,
{
}

/// What is done to one job leaves every other job as it was.
pub proof fn jobs_independent(v: JobStateView, id: Seq<char>, other: Seq<char>, pid: u32)
    requires
        id != other,
    ensures
        v.with_pid(id, pid).pid_for(other) == v.pid_for(other),
        v.without_pid(id).pid_for(other) == v.pid_for(other),
        v.with_cancel(id).pid_for(other) == v.pid_for(other),
        v.without_cancel(id).pid_for(other) == v.pid_for(other),
        v.finished(id).pid_for(other) == v.pid_for(other),
        v.with_pid(id, pid).cancelled.contains(other) == v.cancelled.contains(other),
        v.without_pid(id).cancelled.contains(other) == v.cancelled.contains(other),
        v.with_cancel(id).cancelled.contains(other) == v.cancelled.contains(other),
        v.without_cancel(id).cancelled.contains(other) == v.cancelled.contains(other),
        v.finished(id).cancelled.contains(other) == v.cancelled.contains(other),
{
}

} // verus!
