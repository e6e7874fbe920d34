//! The order of the persistent job queue: stored jobs are keyed by ids
//! handed out in increasing order, and leave first-in, first-out.

use vstd::prelude::*;

verus! {

/// The ids of the stored jobs in queue order, and the next id to hand out.
pub struct PersistentQueue {
    ids: Vec<u64>,
    next_id: u64,
}

/// The largest id, 0 for none.
pub open spec fn max_id(ids: Seq<u64>) -> u64
    decreases ids.len(),
{
    if ids.len() == 0 {
        0
    } else {
        let m = max_id(ids.drop_last());
        if ids.last() > m {
            ids.last()
        } else {
            m
        }
    }
}

impl PersistentQueue {
    /// The ids in queue order, front first.
    pub closed spec fn spec_ids(&self) -> Seq<u64> {
        self.ids@
    }

    pub closed spec fn spec_next_id(&self) -> u64 {
        self.next_id
    }

    /// The queue of the jobs found stored (in key order): the next id follows
    /// the largest.
    pub fn recover(stored: &Vec<u64>) -> (r: Self)
        requires
            max_id(stored@) < u64::MAX,
        ensures
            r.spec_ids() == stored@,
            r.spec_next_id() == max_id(stored@) + 1,
    {
        let mut ids: Vec<u64> = Vec::new();
        let mut max: u64 = 0;
        let mut i: usize = 0;
        assert(stored@.take(0) =~= Seq::<u64>::empty());
        while i < stored.len()
            invariant
                i <= stored@.len(),
                ids@ == stored@.take(i as int),
                max == max_id(stored@.take(i as int)),
            decreases stored@.len() - i,
        {
            assert(stored@.take(i + 1).drop_last() =~= stored@.take(i as int));
            assert(stored@.take(i + 1).last() == stored@[i as int]);
            ids.push(stored[i]);
            if stored[i] > max {
                max = stored[i];
            }
            i += 1;
            assert(ids@ =~= stored@.take(i as int));
        }
        assert(stored@.take(stored@.len() as int) =~= stored@);
        PersistentQueue { ids, next_id: max + 1 }
    }

    /// Hands out the id for a job about to be stored (the counter wraps).
    pub fn allocate_id(&mut self) -> (r: u64)
        ensures
            r == old(self).spec_next_id(),
            final(self).spec_next_id() == (if r == u64::MAX { 0 } else { (r + 1) as u64 }),
            final(self).spec_ids() == old(self).spec_ids(),
    {
        let id = self.next_id;
        self.next_id = if id == u64::MAX {
            0
        } else {
            id + 1
        };
        id
    }

    /// A stored job joins the back of the queue.
    pub fn push_id(&mut self, id: u64)
        ensures
            final(self).spec_ids() == old(self).spec_ids().push(id),
            final(self).spec_next_id() == old(self).spec_next_id(),
    {
        self.ids.push(id);
    }

    /// The id at the front of the queue leaves it.
    pub fn pop_id(&mut self) -> (r: Option<u64>)
        ensures
            old(self).spec_ids().len() == 0 ==> r is None && final(self).spec_ids() == old(self).spec_ids(),
            old(self).spec_ids().len() > 0 ==> r == Some(old(self).spec_ids()[0]) && final(self).spec_ids()
                == old(self).spec_ids().drop_first(),
            final(self).spec_next_id() == old(self).spec_next_id(),
    {
        if self.ids.len() == 0 {
            return None;
        }
        let id = self.ids.remove(0);
        assert(self.ids@ =~= old(self).spec_ids().drop_first());
        Some(id)
    }

    /// Every job leaves the queue.
    pub fn clear(&mut self)
        ensures
            final(self).spec_ids().len() == 0,
            final(self).spec_next_id() == old(self).spec_next_id(),
    {
        self.ids = Vec::new();
    }

    pub fn len(&self) -> (r: usize)
        ensures
            r == self.spec_ids().len(),
    {
        self.ids.len()
    }
}

/// First in, first out: a job pushed onto an empty queue is the next to
/// leave it, and a push does not change which job leaves next otherwise.
pub proof fn law_fifo(ids: Seq<u64>, id: u64)
    ensures
        ids.len() == 0 ==> ids.push(id)[0] == id,
        ids.len() > 0 ==> ids.push(id)[0] == ids[0],
        ids.push(id).drop_first() == (if ids.len() == 0 {
            Seq::<u64>::empty()
        } else {
            ids.drop_first().push(id)
        }),
{
    if ids.len() == 0 {
        assert(ids.push(id).drop_first() =~= Seq::<u64>::empty());
    } else {
        assert(ids.push(id).drop_first() =~= ids.drop_first().push(id));
    }
}

} // verus!
