//! The bookkeeping of the manager, which owns no atoms: it counts the
//! workers that are done, keeps the header of the output, gathers the values
//! the workers report for a row, and adds up the partial sums of a
//! collective.

use crate::error::Error;
use crate::output::OutputSpec;
use vstd::prelude::*;

verus! {

/// What the manager remembers between messages.
pub struct Manager {
    num_workers: usize,
    complete: usize,
    header: Vec<OutputSpec>,
    header_set: bool,
}

impl Manager {
    pub closed spec fn spec_num_workers(&self) -> usize {
        self.num_workers
    }

    /// How many workers have said that they are done.
    pub closed spec fn spec_complete(&self) -> usize {
        self.complete
    }

    /// The columns of the output, once a worker has named them.
    pub closed spec fn spec_header(&self) -> Option<Seq<OutputSpec>> {
        if self.header_set {
            Some(self.header@)
        } else {
            None
        }
    }

    /// No more workers are done than there are, and without a header no
    /// columns are kept.
    pub closed spec fn wf(&self) -> bool {
        &&& self.complete <= self.num_workers
        &&& !self.header_set ==> self.header@.len() == 0
    }

    /// A manager of `num_workers` workers, none of them done, no header yet.
    pub fn new(num_workers: usize) -> (m: Self)
        ensures
            m.wf(),
            m.spec_num_workers() == num_workers,
            m.spec_complete() == 0,
            m.spec_header() is None,
    {
        Manager { num_workers, complete: 0, header: Vec::new(), header_set: false }
    }

    pub fn num_workers(&self) -> (n: usize)
        ensures
            n == self.spec_num_workers(),
    {
        self.num_workers
    }

    /// Takes note of the columns a worker names. The first worker to name
    /// them decides; what comes later is dropped.
    pub fn setup_output(&mut self, specs: Vec<OutputSpec>)
        requires
            old(self).wf(),
        ensures
            final(self).wf(),
            final(self).spec_num_workers() == old(self).spec_num_workers(),
            final(self).spec_complete() == old(self).spec_complete(),
            final(self).spec_header() == match old(self).spec_header() {
                Some(first) => Some(first),
                None => Some(specs@),
            },
    {
        if !self.header_set {
            self.header = specs;
            self.header_set = true;
        }
    }

    /// The columns of the output; none while no worker has named them.
    pub fn header(&self) -> (r: &Vec<OutputSpec>)
        requires
            self.wf(),
        ensures
            r@ == match self.spec_header() {
                Some(h) => h,
                None => Seq::empty(),
            },
    {
        assert(!self.header_set ==> self.header@ =~= Seq::empty());
        &self.header
    }

    /// Counts a worker that is done, and says whether all are. A worker
    /// beyond the last one is not counted and reported as an error.
    pub fn complete(&mut self) -> (r: Result<bool, Error>)
        requires
            old(self).wf(),
        ensures
            final(self).wf(),
            final(self).spec_num_workers() == old(self).spec_num_workers(),
            final(self).spec_header() == old(self).spec_header(),
            match r {
                Ok(all) => old(self).spec_complete() < old(self).spec_num_workers() && final(self).spec_complete() == old(self).spec_complete() + 1 && all == (final(self).spec_complete() == final(self).spec_num_workers()),
                Err(e) => old(self).spec_complete() == old(self).spec_num_workers() && final(self).spec_complete() == old(self).spec_complete() && e == Error::OtherError,
            },
    {
        if self.complete < self.num_workers {
            self.complete = self.complete + 1;
            Ok(self.complete == self.num_workers)
        } else {
            Err(Error::OtherError)
        }
    }

    /// Where a posted sender goes: to the worker `peer` if the posting holds
    /// a sender and `peer` is a worker; a posting without a sender goes
    /// nowhere.
    pub fn route_sender(&self, has_sender: bool, peer: usize) -> (to: Option<usize>)
        ensures
            to == if has_sender && peer < self.spec_num_workers() {
                Some(peer)
            } else {
                None
            },
    {
        if has_sender && peer < self.num_workers {
            Some(peer)
        } else {
            None
        }
    }
}

/// The values the workers have reported for the row that is being gathered,
/// one list per worker, in the order of the columns.
pub struct RowCollector<V> {
    per_worker: Vec<Vec<V>>,
    columns: usize,
}

impl<V> RowCollector<V> {
    /// What each worker has reported so far.
    pub closed spec fn spec_rows(&self) -> Seq<Seq<V>> {
        Seq::new(self.per_worker@.len(), |w: int| self.per_worker@[w]@)
    }

    pub closed spec fn spec_columns(&self) -> usize {
        self.columns
    }

    /// No worker has reported more values than there are columns.
    pub open spec fn wf(&self) -> bool {
        forall|w: int|
            0 <= w < self.spec_rows().len() ==> (#[trigger] self.spec_rows()[w]).len()
                <= self.spec_columns()
    }

    /// Whether every worker has reported every column.
    pub open spec fn spec_complete(&self) -> bool {
        forall|w: int|
            0 <= w < self.spec_rows().len() ==> (#[trigger] self.spec_rows()[w]).len()
                == self.spec_columns()
    }

    /// A collector for `num_workers` workers and `columns` columns, with
    /// nothing reported yet.
    pub fn new(num_workers: usize, columns: usize) -> (c: Self)
        ensures
            c.wf(),
            c.spec_columns() == columns,
            c.spec_rows().len() == num_workers,
            forall|w: int| 0 <= w < num_workers ==> (#[trigger] c.spec_rows()[w]).len() == 0,
    {
        let mut per_worker: Vec<Vec<V>> = Vec::new();
        let mut w: usize = 0;
        while w < num_workers
            invariant
                w <= num_workers,
                per_worker@.len() == w,
                forall|k: int| 0 <= k < w ==> (#[trigger] per_worker@[k])@.len() == 0,
            decreases num_workers - w,
        {
            per_worker.push(Vec::new());
            w += 1;
        }
        RowCollector { per_worker, columns }
    }

    /// The number of values that make a row: one per worker and column.
    /// `None` where that number does not fit the machine word.
    pub fn expected_messages(&self) -> (n: Option<usize>)
        ensures
            match n {
                Some(count) => count == self.spec_rows().len() * self.spec_columns(),
                None => self.spec_rows().len() * self.spec_columns() > usize::MAX,
            },
    {
        self.per_worker.len().checked_mul(self.columns)
    }

    /// Takes the next value of worker `worker`. A value from a worker that
    /// does not exist, or from one whose row is full, is an error and
    /// changes nothing.
    pub fn push(&mut self, worker: usize, value: V) -> (r: Result<(), Error>)
        requires
            old(self).wf(),
        ensures
            final(self).wf(),
            final(self).spec_columns() == old(self).spec_columns(),
            final(self).spec_rows().len() == old(self).spec_rows().len(),
            r is Ok <==> (worker < old(self).spec_rows().len() && old(self).spec_rows()[worker as int].len() < old(self).spec_columns()),
            r is Ok ==> final(self).spec_rows() == old(self).spec_rows().update(
                worker as int,
                old(self).spec_rows()[worker as int].push(value),
            ),
            r matches Err(e) ==> e == Error::OtherError && final(self).spec_rows() == old(self).spec_rows(),
    {
        if worker >= self.per_worker.len() {
            return Err(Error::OtherError);
        }
        if self.per_worker[worker].len() >= self.columns {
            assert(self.spec_rows()[worker as int].len() >= self.spec_columns());
            return Err(Error::OtherError);
        }
        let ghost before = self.spec_rows();
        assert(before[worker as int].len() < self.columns);
        self.per_worker[worker].push(value);
        proof {
            assert(self.spec_rows() =~= before.update(
                worker as int,
                before[worker as int].push(value),
            ));
        }
        Ok(())
    }

    /// Whether every worker has reported every column.
    pub fn is_complete(&self) -> (b: bool)
        ensures
            b == self.spec_complete(),
    {
        let mut w: usize = 0;
        while w < self.per_worker.len()
            invariant
                w <= self.per_worker@.len(),
                forall|k: int|
                    0 <= k < w ==> (#[trigger] self.spec_rows()[k]).len() == self.spec_columns(),
            decreases self.per_worker@.len() - w,
        {
            if self.per_worker[w].len() != self.columns {
                assert(self.spec_rows()[w as int].len() != self.spec_columns());
                return false;
            }
            w += 1;
        }
        true
    }
}

impl<V: Copy> RowCollector<V> {
    /// The values the workers reported for column `column`, first worker
    /// first.
    pub fn column(&self, column: usize) -> (values: Vec<V>)
        requires
            self.spec_complete(),
            column < self.spec_columns(),
        ensures
            values@.len() == self.spec_rows().len(),
            forall|w: int|
                0 <= w < values@.len() ==> #[trigger] values@[w] == self.spec_rows()[w][column as int],
    {
        let mut values: Vec<V> = Vec::new();
        let mut w: usize = 0;
        while w < self.per_worker.len()
            invariant
                self.spec_complete(),
                column < self.spec_columns(),
                w <= self.per_worker@.len(),
                values@.len() == w,
                forall|k: int|
                    0 <= k < w ==> #[trigger] values@[k] == self.spec_rows()[k][column as int],
            decreases self.per_worker@.len() - w,
        {
            assert(self.spec_rows()[w as int].len() == self.spec_columns());
            values.push(self.per_worker[w][column]);
            w += 1;
        }
        values
    }
}

/// A sum over all workers in the making: every worker hands in one part, and
/// the last part completes the sum.
pub struct SumCollective {
    num_workers: usize,
    received: usize,
    total: usize,
}

impl SumCollective {
    pub closed spec fn spec_num_workers(&self) -> usize {
        self.num_workers
    }

    /// How many parts of the sum in the making have come in.
    pub closed spec fn spec_received(&self) -> usize {
        self.received
    }

    /// The sum of the parts that have come in.
    pub closed spec fn spec_total(&self) -> usize {
        self.total
    }

    /// There is a worker, and a part is still missing.
    pub open spec fn wf(&self) -> bool {
        self.spec_received() < self.spec_num_workers()
    }

    /// A collective of `num_workers` workers with no part handed in.
    pub fn new(num_workers: usize) -> (s: Self)
        requires
            num_workers > 0,
        ensures
            s.wf(),
            s.spec_num_workers() == num_workers,
            s.spec_received() == 0,
            s.spec_total() == 0,
    {
        SumCollective { num_workers, received: 0, total: 0 }
    }

    /// How many parts of the sum in the making have come in.
    pub fn received(&self) -> (n: usize)
        ensures
            n == self.spec_received(),
    {
        self.received
    }

    /// The sum of the parts that have come in.
    pub fn total(&self) -> (n: usize)
        ensures
            n == self.spec_total(),
    {
        self.total
    }

    /// Takes in the part of one worker. With the part of the last worker the
    /// sum is complete: it is returned, and the next sum starts from
    /// nothing.
    pub fn add(&mut self, value: usize) -> (r: Option<usize>)
        requires
            old(self).wf(),
            old(self).spec_total() + value <= usize::MAX,
        ensures
            final(self).wf(),
            final(self).spec_num_workers() == old(self).spec_num_workers(),
            r is Some <==> old(self).spec_received() + 1 == old(self).spec_num_workers(),
            match r {
                Some(sum) => sum == old(self).spec_total() + value && final(self).spec_received()
                    == 0 && final(self).spec_total() == 0,
                None => final(self).spec_received() == old(self).spec_received() + 1 && final(self).spec_total() == old(self).spec_total() + value,
            },
    {
        let total: usize = self.total + value;
        if self.received + 1 == self.num_workers {
            self.received = 0;
            self.total = 0;
            Some(total)
        } else {
            self.received = self.received + 1;
            self.total = total;
            None
        }
    }
}

} // verus!
