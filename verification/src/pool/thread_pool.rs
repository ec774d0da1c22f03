//! A pool of worker threads fed in round-robin order.
//!
//! Each worker owns the receiving end of a bounded channel; the pool holds the sending
//! ends and chooses, for each job, the worker after the one that got the previous job.
//! The caller sends the job on the chosen sender.
use vstd::prelude::*;

verus! {

#[verifier::external_type_specification]
#[verifier::external_body]
#[verifier::reject_recursive_types(T)]
pub struct ExSyncSender<T>(std::sync::mpsc::SyncSender<T>);

/// The worker that follows worker `cursor` in a pool of `n` workers.
pub open spec fn next_cursor(cursor: nat, n: nat) -> nat {
    (cursor + 1) % n
}

/// The cursor after `k` jobs were handed out, starting from `cursor`.
pub open spec fn cursor_after(cursor: nat, n: nat, k: nat) -> nat
    decreases k,
{
    if k == 0 {
        cursor
    } else {
        next_cursor(cursor_after(cursor, n, (k - 1) as nat), n)
    }
}

/// Senders to the pool's workers and the index of the worker that gets the next job.
#[verifier::reject_recursive_types(J)]
pub struct HoochPool<J> {
    num_threads: usize,
    cursor: usize,
    senders: Vec<std::sync::mpsc::SyncSender<J>>,
}

impl<J> HoochPool<J> {
    /// The number of workers.
    pub closed spec fn spec_num_threads(&self) -> nat {
        self.num_threads as nat
    }

    /// The workers' senders, by index.
    pub closed spec fn spec_senders(&self) -> Seq<std::sync::mpsc::SyncSender<J>> {
        self.senders@
    }

    /// The index of the worker that gets the next job.
    pub closed spec fn spec_cursor(&self) -> nat {
        self.cursor as nat
    }

    /// Well-formedness: one sender per worker, and the cursor names a worker.
    pub closed spec fn wf(&self) -> bool {
        &&& self.senders@.len() == self.num_threads
        &&& self.num_threads > 0 ==> self.cursor < self.num_threads
        &&& self.num_threads == 0 ==> self.cursor == 0
    }

    /// A pool over the given workers' senders; the first job goes to worker 0.
    pub fn from_senders(senders: Vec<std::sync::mpsc::SyncSender<J>>) -> (r: Self)
        ensures
            r.wf(),
            r.spec_num_threads() == senders@.len(),
            r.spec_senders() == senders@,
            r.spec_cursor() == 0,
    {
        let num_threads = senders.len();
        HoochPool { num_threads, cursor: 0, senders }
    }

    /// The index of the worker that gets the next job.
    pub fn cursor(&self) -> (r: usize)
        ensures
            r == self.spec_cursor(),
    {
        self.cursor
    }

    /// The number of workers.
    pub fn num_threads(&self) -> (r: usize)
        ensures
            r == self.spec_num_threads(),
    {
        self.num_threads
    }

    /// Returns the current cursor and moves it on to the next worker, wrapping around.
    fn get_and_update_index(&mut self) -> (r: usize)
        requires
            old(self).wf(),
            old(self).spec_num_threads() > 0,
        ensures
            final(self).wf(),
            r == old(self).spec_cursor(),
            r < old(self).spec_num_threads(),
            final(self).spec_cursor() == next_cursor(
                old(self).spec_cursor(),
                old(self).spec_num_threads(),
            ),
            final(self).spec_num_threads() == old(self).spec_num_threads(),
            final(self).spec_senders() == old(self).spec_senders(),
    {
        let current_value = self.cursor;
        let new_idx = (current_value + 1) % self.num_threads;
        self.cursor = new_idx;
        current_value
    }

    /// Chooses the worker for the next job: returns the sender of the worker at the
    /// cursor and moves the cursor on to the next worker, wrapping around.
    pub fn next_sender(&mut self) -> (r: &std::sync::mpsc::SyncSender<J>)
        requires
            old(self).wf(),
            old(self).spec_num_threads() > 0,
        ensures
            final(self).wf(),
            *r == old(self).spec_senders()[old(self).spec_cursor() as int],
            final(self).spec_senders() == old(self).spec_senders(),
            final(self).spec_num_threads() == old(self).spec_num_threads(),
            final(self).spec_cursor() == next_cursor(
                old(self).spec_cursor(),
                old(self).spec_num_threads(),
            ),
    {
        let idx = self.get_and_update_index();
        &self.senders[idx]
    }
}

/// Round robin: from a cursor that names one of `n > 0` workers, `k` jobs in a row
/// leave the cursor at `(cursor + k) % n`.
pub proof fn law_round_robin(cursor: nat, n: nat, k: nat)
    requires
        n > 0,
        cursor < n,
    ensures
        cursor_after(cursor, n, k) == (cursor + k) % n,
    decreases k,
{
    if k == 0 {
        vstd::arithmetic::div_mod::lemma_small_mod(cursor, n);
    } else {
        law_round_robin(cursor, n, (k - 1) as nat);
        vstd::arithmetic::div_mod::lemma_add_mod_noop_right(1, (cursor + k - 1) as int, n as int);
    }
}

/// Every worker gets a job in turn: `n` jobs in a row bring the cursor back to where it
/// started.
pub proof fn law_full_cycle_returns(cursor: nat, n: nat)
    requires
        n > 0,
        cursor < n,
    ensures
        cursor_after(cursor, n, n) == cursor,
{
    law_round_robin(cursor, n, n);
    vstd::arithmetic::div_mod::lemma_add_mod_noop(cursor as int, n as int, n as int);
    vstd::arithmetic::div_mod::lemma_mod_self_0(n as int);
    vstd::arithmetic::div_mod::lemma_small_mod(cursor, n);
}

} // verus!
