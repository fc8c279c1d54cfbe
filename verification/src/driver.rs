//! The run: repository fetch plan, context order, and the exit code.
//!
//! A run fetches the repository once, then processes the configured
//! contexts strictly in input order: the `Driver` hands out context indices
//! one at a time, and work for the next context can begin only after the
//! current one is ended.  File failures are tallied, never fatal; the exit
//! code at the end says whether every file reconciled cleanly.

use vstd::prelude::*;
use crate::errors::run_exit_code;

verus! {

/// One invocation of the version-control client.
pub enum GitStep {
    Clone { url: String, dir: String },
    Pull { dir: String },
    Checkout { dir: String, branch: String },
}

/// The fetch protocol: clone the repository into the storage path when that
/// path does not exist, pull inside it when it does; then check the branch
/// out in either case.  The shell runs the steps in order and fails the run
/// on the first non-zero exit.
pub fn fetch_plan(storage_exists: bool, url: &String, storage: &String, branch: &String) -> (r: Vec<
    GitStep,
>)
    ensures
        r@.len() == 2,
        r@[0] == if storage_exists {
            GitStep::Pull { dir: *storage }
        } else {
            GitStep::Clone { url: *url, dir: *storage }
        },
        r@[1] == (GitStep::Checkout { dir: *storage, branch: *branch }),
{
    let mut steps: Vec<GitStep> = Vec::new();
    if storage_exists {
        steps.push(GitStep::Pull { dir: storage.clone() });
    } else {
        steps.push(GitStep::Clone { url: url.clone(), dir: storage.clone() });
    }
    steps.push(GitStep::Checkout { dir: storage.clone(), branch: branch.clone() });
    steps
}

/// The state machine of one run over its contexts.
///
/// Contexts are processed in input order, one at a time: `begin_context`
/// hands out the index of the next unprocessed context and opens it, file
/// results are recorded only while a context is open, and `end_context`
/// closes it.  Work for context `k + 1` can begin only after context `k`
/// has ended, because the index only advances in `end_context`.  The ghost
/// trace remembers which context each recorded file belonged to, in order;
/// it never decreases, so a file of a later context is always recorded
/// after every file of an earlier one.
pub struct Driver {
    num_contexts: usize,
    completed: usize,
    in_context: bool,
    files_failed: u64,
    trace: Ghost<Seq<usize>>,
}

impl Driver {
    pub closed spec fn num_contexts(&self) -> usize {
        self.num_contexts
    }

    pub closed spec fn completed(&self) -> usize {
        self.completed
    }

    pub closed spec fn in_context(&self) -> bool {
        self.in_context
    }

    pub closed spec fn files_failed(&self) -> u64 {
        self.files_failed
    }

    /// The context index of each file recorded so far, in recording order.
    pub closed spec fn trace(&self) -> Seq<usize> {
        self.trace@
    }

    /// A driver is sound while it has completed no more contexts than there
    /// are, and every recorded file belongs to an already-opened context.
    pub open spec fn wf(&self) -> bool {
        &&& self.completed() <= self.num_contexts()
        &&& (self.in_context() ==> self.completed() < self.num_contexts())
        &&& forall|i: int| 0 <= i < self.trace().len() ==> #[trigger] self.trace()[i] <= self.completed()
        &&& forall|i: int, j: int|
            #![trigger self.trace()[i], self.trace()[j]]
            0 <= i <= j < self.trace().len() ==> self.trace()[i] <= self.trace()[j]
    }

    /// A fresh run over `num_contexts` contexts.
    pub fn new(num_contexts: usize) -> (r: Driver)
        ensures
            r.wf(),
            r.num_contexts() == num_contexts,
            r.completed() == 0,
            !r.in_context(),
            r.files_failed() == 0,
            r.trace() == Seq::<usize>::empty(),
    {
        Driver {
            num_contexts,
            completed: 0,
            in_context: false,
            files_failed: 0,
            trace: Ghost(Seq::empty()),
        }
    }

    /// Open the next context and say which one it is.  Only the earliest
    /// unprocessed context can be opened: processing order is input order.
    pub fn begin_context(&mut self) -> (idx: usize)
        requires
            old(self).wf(),
            !old(self).in_context(),
            old(self).completed() < old(self).num_contexts(),
        ensures
            final(self).wf(),
            idx == old(self).completed(),
            final(self).completed() == old(self).completed(),
            final(self).num_contexts() == old(self).num_contexts(),
            final(self).in_context(),
            final(self).files_failed() == old(self).files_failed(),
            final(self).trace() == old(self).trace(),
    {
        self.in_context = true;
        proof {
            assert(self.trace() == old(self).trace());
            assert forall|i: int| 0 <= i < self.trace().len() implies #[trigger] self.trace()[i]
                <= self.completed by {
                assert(self.trace()[i] == old(self).trace()[i]);
            }
        }
        self.completed
    }

    /// Record one file of the open context; a failure raises the tally and
    /// the run goes on.
    pub fn record_file(&mut self, ok: bool)
        requires
            old(self).wf(),
            old(self).in_context(),
        ensures
            final(self).wf(),
            final(self).completed() == old(self).completed(),
            final(self).num_contexts() == old(self).num_contexts(),
            final(self).in_context(),
            final(self).trace() == old(self).trace().push(old(self).completed()),
            final(self).files_failed() == if ok {
                old(self).files_failed()
            } else if old(self).files_failed() < u64::MAX {
                (old(self).files_failed() + 1) as u64
            } else {
                u64::MAX
            },
    {
        if !ok {
            if self.files_failed < u64::MAX {
                self.files_failed = self.files_failed + 1;
            }
        }
        proof {
            self.trace@ = self.trace@.push(self.completed);
            let t = self.trace@;
            let prior = old(self).trace();
            assert forall|i: int| 0 <= i < t.len() implies #[trigger] t[i] <= self.completed by {
                if i < t.len() - 1 {
                    assert(t[i] == prior[i]);
                }
            }
            assert forall|i: int, j: int|
                #![trigger t[i], t[j]]
                0 <= i <= j < t.len() implies t[i] <= t[j] by {
                if j < t.len() - 1 {
                    assert(t[i] == prior[i]);
                    assert(t[j] == prior[j]);
                } else if i < t.len() - 1 {
                    assert(t[i] == prior[i]);
                    assert(prior[i] <= self.completed);
                }
            }
        }
    }

    /// Close the open context; only then does the index advance.
    pub fn end_context(&mut self)
        requires
            old(self).wf(),
            old(self).in_context(),
        ensures
            final(self).wf(),
            final(self).completed() == old(self).completed() + 1,
            final(self).num_contexts() == old(self).num_contexts(),
            !final(self).in_context(),
            final(self).files_failed() == old(self).files_failed(),
            final(self).trace() == old(self).trace(),
    {
        self.completed = self.completed + 1;
        self.in_context = false;
        proof {
            assert(self.trace() == old(self).trace());
            assert forall|i: int| 0 <= i < self.trace().len() implies #[trigger] self.trace()[i]
                <= self.completed by {
                assert(self.trace()[i] == old(self).trace()[i]);
                assert(old(self).trace()[i] <= old(self).completed());
            }
        }
    }

    /// Order of reconciliation: in any sound run, the context index of a
    /// later recorded file is never smaller than that of an earlier one — a
    /// file of context `k + 1` is reconciled only after every file of
    /// context `k`, because the index a driver hands out advances only when
    /// a context ends.
    pub proof fn lemma_files_in_context_order(&self)
        requires
            self.wf(),
        ensures
            forall|i: int, j: int|
                #![trigger self.trace()[i], self.trace()[j]]
                0 <= i <= j < self.trace().len() ==> self.trace()[i] <= self.trace()[j],
    {
    }

    /// The exit code of a finished run: `0` when every file of every
    /// context reconciled cleanly, `1` otherwise.
    pub fn exit_code(&self) -> (code: u8)
        requires
            self.wf(),
            !self.in_context(),
            self.completed() == self.num_contexts(),
        ensures
            code == if self.files_failed() == 0 {
                0u8
            } else {
                1u8
            },
    {
        run_exit_code(self.files_failed)
    }
}

} // verus!
