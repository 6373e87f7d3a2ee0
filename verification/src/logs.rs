//! The activity log: what happened, told in order.

use vstd::prelude::*;

verus! {

/// The record of narrated events, oldest first. Entries are only ever added
/// at the end.
#[derive(Debug)]
pub struct Log {
    pub entries: Vec<String>,
}

/// The texts of a sequence of strings, in the same order.
pub open spec fn texts(entries: Seq<String>) -> Seq<Seq<char>> {
    Seq::new(entries.len(), |i: int| entries[i]@)
}

/// The `limit` newest entries of `log`, newest first; all of them if there
/// are fewer.
pub open spec fn newest_first(log: Seq<Seq<char>>, limit: nat) -> Seq<Seq<char>> {
    Seq::new(
        if log.len() < limit {
            log.len()
        } else {
            limit
        },
        |i: int| log[log.len() - 1 - i],
    )
}

impl View for Log {
    type V = Seq<Seq<char>>;

    open spec fn view(&self) -> Seq<Seq<char>> {
        texts(self.entries@)
    }
}

impl Log {
    /// A log without entries.
    pub fn new() -> (log: Log)
        ensures
            log@ == Seq::<Seq<char>>::empty(),
    {
        let log = Log { entries: Vec::new() };
        assert(log@ =~= Seq::<Seq<char>>::empty());
        log
    }

    /// The number of entries.
    pub fn len(&self) -> (n: usize)
        ensures
            n == self@.len(),
    {
        self.entries.len()
    }

    /// Adds `entry` as the newest entry.
    pub fn push(&mut self, entry: String)
        ensures
            final(self)@ == old(self)@.push(entry@),
    {
        self.entries.push(entry);
        assert(self@ =~= old(self)@.push(entry@));
    }

    /// The `limit` newest entries, newest first; all of them if there are
    /// fewer.
    pub fn recent(&self, limit: usize) -> (shown: Vec<String>)
        ensures
            texts(shown@) == newest_first(self@, limit as nat),
    {
        let total = self.entries.len();
        let count = if total < limit {
            total
        } else {
            limit
        };
        let mut shown: Vec<String> = Vec::new();
        let mut taken: usize = 0;
        while taken < count
            invariant
                total == self.entries.len(),
                count <= total,
                taken <= count,
                shown.len() == taken,
                forall|i: int| 0 <= i < taken ==> (#[trigger] shown[i])@ == self.entries[total - 1 - i]@,
            decreases count - taken,
        {
            shown.push(self.entries[total - 1 - taken].clone());
            taken += 1;
        }
        assert(texts(shown@) =~= newest_first(self@, limit as nat));
        shown
    }
}

} // verus!
