//! Debounced re-indexing of files that change while they are edited.
use vstd::prelude::*;

use crate::text::eq_str;

verus! {

/// How long a changed file is left alone before it is indexed, in milliseconds.
pub const REINDEX_DELAY_MS: u64 = 300;

/// The re-index tasks that wait; `H` is what a task is cancelled through.
pub struct FileChangeHandler<H> {
    pub pending_reindex: Vec<(String, H)>,
}

/// The task that waits for the file.
pub open spec fn task_for<H>(pending: Seq<(String, H)>, uri: Seq<char>) -> Option<H>
    decreases pending.len(),
{
    if pending.len() == 0 {
        None
    } else if pending.last().0@ == uri {
        Some(pending.last().1)
    } else {
        task_for(pending.drop_last(), uri)
    }
}

/// At most one task waits for each file.
pub open spec fn one_per_file<H>(pending: Seq<(String, H)>) -> bool {
    forall|i: int, j: int|
        0 <= i < j < pending.len() ==> (#[trigger] pending[i]).0@ != (#[trigger] pending[j]).0@
}

/// The tasks whose flag is not set.
pub open spec fn unfinished<H>(pending: Seq<(String, H)>, finished: Seq<bool>) -> Seq<(String, H)>
    decreases pending.len(),
{
    if pending.len() == 0 {
        Seq::empty()
    } else {
        let before = unfinished(pending.drop_last(), finished);
        if pending.len() <= finished.len() && finished[pending.len() - 1] {
            before
        } else {
            before.push(pending.last())
        }
    }
}

proof fn lemma_task_for_none<H>(pending: Seq<(String, H)>, uri: Seq<char>)
    requires
        forall|i: int| 0 <= i < pending.len() ==> (#[trigger] pending[i]).0@ != uri,
    ensures
        task_for(pending, uri) is None,
    decreases pending.len(),
{
    if pending.len() > 0 {
        assert(pending[pending.len() - 1].0@ != uri);
        assert forall|i: int| 0 <= i < pending.drop_last().len() implies (
        #[trigger] pending.drop_last()[i]).0@ != uri by {
            assert(pending[i].0@ != uri);
        }
        lemma_task_for_none(pending.drop_last(), uri);
    }
}

proof fn lemma_task_for_at<H>(pending: Seq<(String, H)>, i: int)
    requires
        0 <= i < pending.len(),
        one_per_file(pending),
    ensures
        task_for(pending, pending[i].0@) == Some(pending[i].1),
    decreases pending.len(),
{
    if i < pending.len() - 1 {
        assert(pending[i].0@ != pending[pending.len() - 1].0@);
        assert(pending.drop_last()[i] == pending[i]);
        lemma_task_for_at(pending.drop_last(), i);
    }
}

proof fn lemma_task_for_removed<H>(pending: Seq<(String, H)>, i: int, uri: Seq<char>)
    requires
        0 <= i < pending.len(),
        one_per_file(pending),
        uri != pending[i].0@,
    ensures
        task_for(pending.remove(i), uri) == task_for(pending, uri),
    decreases pending.len(),
{
    if i == pending.len() - 1 {
        assert(pending.remove(i) =~= pending.drop_last());
    } else {
        assert(one_per_file(pending.drop_last()));
        lemma_task_for_removed(pending.drop_last(), i, uri);
        assert(pending.remove(i).drop_last() =~= pending.drop_last().remove(i));
        assert(pending.remove(i).last() == pending.last());
    }
}

proof fn lemma_unfinished<H>(pending: Seq<(String, H)>, finished: Seq<bool>)
    requires
        one_per_file(pending),
    ensures
        one_per_file(unfinished(pending, finished)),
        forall|k: int|
            0 <= k < unfinished(pending, finished).len() ==> pending.contains(
                #[trigger] unfinished(pending, finished)[k],
            ),
    decreases pending.len(),
{
    if pending.len() > 0 {
        let d = pending.drop_last();
        assert(one_per_file(d));
        lemma_unfinished(d, finished);
        let before = unfinished(d, finished);
        let r = unfinished(pending, finished);
        assert forall|k: int| 0 <= k < before.len() implies pending.contains(#[trigger] before[k])
            && before[k].0@ != pending.last().0@ by {
            assert(d.contains(before[k]));
            let m = d.index_of(before[k]);
            assert(pending[m] == before[k]);
            assert(pending[m].0@ != pending[pending.len() - 1].0@);
        }
        assert(pending[pending.len() - 1] == pending.last());
        assert forall|k: int| 0 <= k < r.len() implies pending.contains(#[trigger] r[k]) by {
            if k < before.len() {
                assert(r[k] == before[k]);
            }
        }
        assert forall|i: int, j: int| 0 <= i < j < r.len() implies (#[trigger] r[i]).0@ != (
        #[trigger] r[j]).0@ by {
            assert(r[i] == before[i]);
            if j < before.len() {
                assert(r[j] == before[j]);
            }
        }
    }
}

/// The text that a batch of changes leaves: that of the last one.
pub fn drain_file_changed_batch(changes: Vec<String>) -> (r: Option<String>)
    ensures
        match r {
            Some(text) => changes@.len() > 0 && text@ == changes@.last()@,
            None => changes@.len() == 0,
        },
{
    let mut changes = changes;
    changes.pop()
}

impl<H> FileChangeHandler<H> {
    /// At most one task waits for each file.
    pub open spec fn wf(&self) -> bool {
        one_per_file(self.pending_reindex@)
    }

    /// The task that waits for the file.
    pub open spec fn pending_for(&self, uri: Seq<char>) -> Option<H> {
        task_for(self.pending_reindex@, uri)
    }

    /// What making room does: nothing waits for the file any more, the task that waited and has
    /// not finished is handed back, and of the other files' tasks those that have not finished
    /// stay.
    pub open spec fn superseded(
        &self,
        before: Self,
        uri: Seq<char>,
        finished: Seq<bool>,
        handed_back: Option<H>,
    ) -> bool {
        let left = unfinished(before.pending_reindex@, finished);
        &&& self.wf()
        &&& handed_back == task_for(left, uri)
        &&& self.pending_for(uri) is None
        &&& forall|other: Seq<char>|
            other != uri ==> #[trigger] self.pending_for(other) == task_for(left, other)
    }

    /// What scheduling does: the task waits for the file, and the other files' tasks stay.
    pub open spec fn scheduled(&self, before: Self, uri: Seq<char>, task: H) -> bool {
        &&& self.wf()
        &&& self.pending_for(uri) == Some(task)
        &&& forall|other: Seq<char>|
            other != uri ==> #[trigger] self.pending_for(other) == before.pending_for(other)
    }

    /// The file's task, where one waits, has not finished.
    pub open spec fn still_waits(&self, uri: Seq<char>, finished: Seq<bool>) -> bool {
        forall|i: int|
            0 <= i < self.pending_reindex@.len() && i < finished.len() && (
            #[trigger] self.pending_reindex@[i]).0@ == uri ==> !finished[i]
    }

    /// Nothing waits.
    pub fn new() -> (r: Self)
        ensures
            r.wf(),
            r.pending_reindex@.len() == 0,
    {
        FileChangeHandler { pending_reindex: Vec::new() }
    }

    /// Forgets the tasks that have finished.
    pub fn drop_finished(&mut self, finished: &[bool])
        requires
            old(self).wf(),
        ensures
            final(self).wf(),
            final(self).pending_reindex@ == unfinished(old(self).pending_reindex@, finished@),
    {
        let ghost all = self.pending_reindex@;
        let n: usize = self.pending_reindex.len();
        let mut i: usize = 0;
        let mut k: usize = 0;
        assert(unfinished(all.take(0), finished@) + all.skip(0) =~= all);
        while i < self.pending_reindex.len()
            invariant
                one_per_file(all),
                k <= all.len(),
                i == unfinished(all.take(k as int), finished@).len(),
                self.pending_reindex@ == unfinished(all.take(k as int), finished@) + all.skip(
                    k as int,
                ),
                n == all.len(),
            decreases all.len() - k,
        {
            let ghost before = unfinished(all.take(k as int), finished@);
            assert(all.take(k + 1).drop_last() =~= all.take(k as int));
            assert(all.skip(k as int) =~= seq![all[k as int]] + all.skip(k + 1));
            if k < finished.len() && finished[k] {
                self.pending_reindex.remove(i);
                assert(self.pending_reindex@ =~= before + all.skip(k + 1));
            } else {
                i += 1;
                assert(self.pending_reindex@ =~= before.push(all[k as int]) + all.skip(k + 1));
            }
            k += 1;
        }
        assert(all.take(k as int) =~= all);
        assert(self.pending_reindex@ =~= unfinished(all, finished@));
        proof {
            lemma_unfinished(all, finished@);
        }
    }

    /// Takes the waiting task of the file out, for it to be cancelled.
    pub fn cancel_pending_reindex(&mut self, uri: &str) -> (r: Option<H>)
        requires
            old(self).wf(),
        ensures
            final(self).wf(),
            r == old(self).pending_for(uri@),
            final(self).pending_for(uri@) is None,
            forall|other: Seq<char>|
                other != uri@ ==> #[trigger] final(self).pending_for(other) == old(
                    self,
                ).pending_for(other),
    {
        let ghost all = self.pending_reindex@;
        let mut i: usize = 0;
        while i < self.pending_reindex.len()
            invariant
                i <= self.pending_reindex@.len(),
                self.pending_reindex@ == all,
                all == old(self).pending_reindex@,
                one_per_file(all),
                forall|j: int| 0 <= j < i ==> (#[trigger] all[j]).0@ != uri@,
            decreases self.pending_reindex@.len() - i,
        {
            if eq_str(self.pending_reindex[i].0.as_str(), uri) {
                proof {
                    lemma_task_for_at(all, i as int);
                    assert forall|other: Seq<char>| other != uri@ implies #[trigger] task_for(
                        all.remove(i as int),
                        other,
                    ) == task_for(all, other) by {
                        lemma_task_for_removed(all, i as int, other);
                    }
                    let rest = all.remove(i as int);
                    assert forall|j: int| 0 <= j < rest.len() implies (#[trigger] rest[j]).0@
                        != uri@ by {
                        if j < i {
                            assert(rest[j] == all[j]);
                        } else {
                            assert(rest[j] == all[j + 1]);
                            assert(all[i as int].0@ != all[j + 1].0@);
                        }
                    }
                    lemma_task_for_none(rest, uri@);
                    assert(one_per_file(rest)) by {
                        assert forall|a: int, b: int| 0 <= a < b < rest.len() implies (
                        #[trigger] rest[a]).0@ != (#[trigger] rest[b]).0@ by {
                            let x = if a < i {
                                a
                            } else {
                                a + 1
                            };
                            let y = if b < i {
                                b
                            } else {
                                b + 1
                            };
                            assert(rest[a] == all[x] && rest[b] == all[y]);
                        }
                    }
                }
                let (_uri, task) = self.pending_reindex.remove(i);
                return Some(task);
            }
            i += 1;
        }
        proof {
            lemma_task_for_none(all, uri@);
        }
        None
    }

    /// Makes room for a new task of the file: forgets the tasks that have finished and takes
    /// the waiting one out, for it to be cancelled.
    pub fn supersede(&mut self, uri: &str, finished: &[bool]) -> (r: Option<H>)
        requires
            old(self).wf(),
        ensures
            final(self).superseded(*old(self), uri@, finished@, r),
    {
        self.drop_finished(finished);
        self.cancel_pending_reindex(uri)
    }

    /// Takes note of the task that now waits for the file.
    pub fn schedule(&mut self, uri: &str, task: H)
        requires
            old(self).wf(),
            old(self).pending_for(uri@) is None,
        ensures
            final(self).scheduled(*old(self), uri@, task),
    {
        let ghost all = self.pending_reindex@;
        proof {
            assert forall|i: int| 0 <= i < all.len() implies (#[trigger] all[i]).0@ != uri@ by {
                lemma_task_for_at(all, i);
            }
        }
        self.pending_reindex.push((uri.to_owned(), task));
        assert(self.pending_reindex@.drop_last() =~= all);
    }
}

/// A task that has not finished is among those that have not.
proof fn lemma_task_for_unfinished<H>(
    pending: Seq<(String, H)>,
    finished: Seq<bool>,
    uri: Seq<char>,
)
    requires
        forall|i: int|
            0 <= i < pending.len() && i < finished.len() && (#[trigger] pending[i]).0@ == uri
                ==> !finished[i],
    ensures
        task_for(unfinished(pending, finished), uri) == task_for(pending, uri),
    decreases pending.len(),
{
    if pending.len() > 0 {
        let d = pending.drop_last();
        assert forall|i: int|
            0 <= i < d.len() && i < finished.len() && (#[trigger] d[i]).0@ == uri
                implies !finished[i] by {
            assert(pending[i] == d[i]);
        }
        lemma_task_for_unfinished(d, finished, uri);
        let before = unfinished(d, finished);
        assert(pending[pending.len() - 1] == pending.last());
        if !(pending.len() <= finished.len() && finished[pending.len() - 1]) {
            assert(before.push(pending.last()).drop_last() =~= before);
        }
    }
}

/// Rescheduling: once room is made for a new task and it is scheduled, exactly that task waits
/// for the file; the earlier task, where it had not finished, was handed back to be cancelled;
/// and every other file's task that had not finished still waits.
pub proof fn rescheduling_replaces_the_task<H>(
    before: FileChangeHandler<H>,
    between: FileChangeHandler<H>,
    after: FileChangeHandler<H>,
    uri: Seq<char>,
    finished: Seq<bool>,
    handed_back: Option<H>,
    task: H,
)
    requires
        before.wf(),
        between.superseded(before, uri, finished, handed_back),
        after.scheduled(between, uri, task),
    ensures
        after.wf(),
        after.pending_for(uri) == Some(task),
        before.still_waits(uri, finished) ==> handed_back == before.pending_for(uri),
        forall|other: Seq<char>|
            other != uri && before.still_waits(other, finished) ==> #[trigger] after.pending_for(
                other,
            ) == before.pending_for(other),
{
    let all = before.pending_reindex@;
    if before.still_waits(uri, finished) {
        lemma_task_for_unfinished(all, finished, uri);
    }
    assert forall|other: Seq<char>|
        other != uri && before.still_waits(other, finished) implies #[trigger] after.pending_for(
        other,
    ) == before.pending_for(other) by {
        lemma_task_for_unfinished(all, finished, other);
        assert(after.pending_for(other) == between.pending_for(other));
    }
}

/// A task that is superseded before it has finished is handed back, so of two tasks scheduled
/// for a file one after the other only the later one is left to run.
pub proof fn superseded_tasks_are_handed_back<H>(
    start: FileChangeHandler<H>,
    first: FileChangeHandler<H>,
    between: FileChangeHandler<H>,
    second: FileChangeHandler<H>,
    uri: Seq<char>,
    finished: Seq<bool>,
    handed_back: Option<H>,
    t1: H,
    t2: H,
)
    requires
        first.scheduled(start, uri, t1),
        first.still_waits(uri, finished),
        between.superseded(first, uri, finished, handed_back),
        second.scheduled(between, uri, t2),
    ensures
        handed_back == Some(t1),
        second.pending_for(uri) == Some(t2),
{
    rescheduling_replaces_the_task(first, between, second, uri, finished, handed_back, t2);
}

} // verus!
