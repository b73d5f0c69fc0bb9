//! In-memory ring buffer of log records, so the app can show its own logs.
//!
//! The application feeds it every record the log file receives and the logs
//! page polls it with the highest sequence number it has seen; nothing is
//! pushed. At most `CAPACITY` records are kept; the oldest go first.

use std::collections::VecDeque;
use vstd::prelude::*;

verus! {

/// Maximum number of records kept in memory. Older ones are dropped.
pub const CAPACITY: usize = 5000;

#[derive(Debug)]
pub struct LogEntry {
    /// Monotonic, never reused: lets the frontend ask for "everything after N".
    pub seq: u64,
    pub timestamp: String,
    pub level: String,
    pub target: String,
    pub message: String,
}

/// A log record as a value: sequence number, timestamp, level, target, message.
pub type Record = (u64, Seq<char>, Seq<char>, Seq<char>, Seq<char>);

impl View for LogEntry {
    type V = Record;

    open spec fn view(&self) -> Record {
        (self.seq, self.timestamp@, self.level@, self.target@, self.message@)
    }
}

impl DeepView for LogEntry {
    type V = Record;

    open spec fn deep_view(&self) -> Record {
        self@
    }
}

impl LogEntry {
    /// A copy of this entry.
    pub fn duplicate(&self) -> (res: LogEntry)
        ensures
            res@ == self@,
    {
        LogEntry {
            seq: self.seq,
            timestamp: self.timestamp.clone(),
            level: self.level.clone(),
            target: self.target.clone(),
            message: self.message.clone(),
        }
    }
}

/// The records kept after `rec` is added to `recs`: the oldest one is dropped
/// when the buffer is full.
pub open spec fn records_after_write(recs: Seq<Record>, rec: Record) -> Seq<Record> {
    if recs.len() >= CAPACITY {
        recs.drop_first().push(rec)
    } else {
        recs.push(rec)
    }
}

/// The records numbered after `seq`, oldest first.
pub open spec fn records_since(recs: Seq<Record>, seq: u64) -> Seq<Record> {
    recs.filter(|r: Record| r.0 > seq)
}

/// Sequence numbers strictly increase along the buffer and stay below `next`.
pub open spec fn seqs_ordered_below(recs: Seq<Record>, next: u64) -> bool {
    &&& forall|i: int, j: int| 0 <= i < j < recs.len() ==> recs[i].0 < recs[j].0
    &&& forall|i: int| 0 <= i < recs.len() ==> #[trigger] recs[i].0 < next
    &&& forall|i: int| 0 <= i < recs.len() ==> #[trigger] recs[i].0 >= 1
}

/// The buffer of recent log records together with the next sequence number.
pub struct BufferWriter {
    entries: VecDeque<LogEntry>,
    next_seq: u64,
}

impl BufferWriter {
    /// The records held, oldest first.
    pub closed spec fn records(&self) -> Seq<Record> {
        self.entries@.map_values(|e: LogEntry| e@)
    }

    /// The sequence number the next record gets.
    pub closed spec fn next(&self) -> u64 {
        self.next_seq
    }

    /// At most `CAPACITY` records, numbered in increasing order below `next`,
    /// and `next` is never 0.
    pub open spec fn wf(&self) -> bool {
        &&& self.records().len() <= CAPACITY
        &&& seqs_ordered_below(self.records(), self.next())
        &&& self.next() >= 1
    }

    /// An empty buffer whose first record will be number 1.
    pub fn new() -> (res: BufferWriter)
        ensures
            res.wf(),
            res.records() == Seq::<Record>::empty(),
            res.next() == 1,
    {
        let res = BufferWriter { entries: VecDeque::new(), next_seq: 1 };
        assert(res.records() =~= Seq::<Record>::empty());
        res
    }

    /// The sequence number the next record gets.
    pub fn next_seq(&self) -> (res: u64)
        ensures
            res == self.next(),
    {
        self.next_seq
    }

    /// Number of records held.
    pub fn len(&self) -> (res: usize)
        ensures
            res == self.records().len(),
    {
        self.entries.len()
    }

    /// Record one log line; returns the sequence number it got. When the
    /// buffer is full the oldest record is dropped first. Numbers are never
    /// reused: once they are used up (after `u64::MAX - 1` records) the line
    /// is not kept and `None` is returned.
    pub fn write(&mut self, timestamp: String, level: String, target: String, message: String) -> (res: Option<u64>)
        requires
            old(self).wf(),
        ensures
            final(self).wf(),
            res is None <==> old(self).next() == u64::MAX,
            res is None ==> final(self).records() == old(self).records() && final(self).next() == old(self).next(),
            res matches Some(seq) ==> {
                &&& seq == old(self).next()
                &&& final(self).next() == old(self).next() + 1
                &&& forall|i: int| 0 <= i < old(self).records().len() ==> #[trigger] old(self).records()[i].0 < seq
                &&& final(self).records() == records_after_write(
                    old(self).records(),
                    (seq, timestamp@, level@, target@, message@),
                )
            },
    {
        if self.next_seq == u64::MAX {
            return None;
        }
        let ghost old_recs = self.records();
        let seq = self.next_seq;
        let entry = LogEntry { seq, timestamp, level, target, message };
        if self.entries.len() == CAPACITY {
            self.entries.pop_front();
            assert(self.records() =~= old_recs.drop_first());
        }
        let ghost mid = self.records();
        self.entries.push_back(entry);
        self.next_seq = seq + 1;
        assert(self.records() =~= mid.push(entry@));
        proof {
            let recs = self.records();
            assert forall|i: int, j: int| 0 <= i < j < recs.len() implies recs[i].0 < recs[j].0 by {
                if j == recs.len() - 1 {
                    assert(mid[i].0 < seq);
                } else {
                    assert(recs[i] == mid[i] && recs[j] == mid[j]);
                }
            }
            assert forall|i: int| 0 <= i < recs.len() implies #[trigger] recs[i].0 < self.next() && recs[i].0 >= 1 by {
                if i < recs.len() - 1 {
                    assert(recs[i] == mid[i]);
                }
            }
        }
        Some(seq)
    }
}

/// Returns every entry recorded after `seq`, oldest first.
pub fn snapshot_since(buffer: &BufferWriter, seq: u64) -> (res: Vec<LogEntry>)
    ensures
        res.deep_view() == records_since(buffer.records(), seq),
{
    let mut res: Vec<LogEntry> = Vec::new();
    let n = buffer.entries.len();
    let mut i: usize = 0;
    while i < n
        invariant
            n == buffer.records().len(),
            i <= n,
            res.deep_view() == records_since(buffer.records().take(i as int), seq),
        decreases n - i,
    {
        let e = &buffer.entries[i];
        let ghost recs = buffer.records();
        proof {
            reveal(Seq::filter);
            assert(recs.take(i + 1).drop_last() =~= recs.take(i as int));
            assert(recs.take(i + 1).last() == e@);
        }
        if e.seq > seq {
            res.push(e.duplicate());
            assert(res.deep_view() =~= records_since(buffer.records().take(i as int), seq).push(e@));
        }
        i += 1;
    }
    assert(buffer.records().take(n as int) =~= buffer.records());
    res
}

/// Empties the buffer. Numbering goes on where it was, so numbers are never reused.
pub fn clear(buffer: &mut BufferWriter)
    requires
        old(buffer).wf(),
    ensures
        final(buffer).wf(),
        final(buffer).records() == Seq::<Record>::empty(),
        final(buffer).next() == old(buffer).next(),
{
    buffer.entries.clear();
    assert(buffer.records() =~= Seq::<Record>::empty());
}

/// Holding at most `CAPACITY` records stays true when one is written.
pub proof fn law_capacity_kept(recs: Seq<Record>, rec: Record)
    requires
        recs.len() <= CAPACITY,
    ensures
        records_after_write(recs, rec).len() <= CAPACITY,
        records_after_write(recs, rec).last() == rec,
{
}

/// A write keeps every record while the buffer has room; when it is full it
/// drops exactly the oldest record. Either way the new record comes last.
pub proof fn law_write_drops_only_the_oldest(recs: Seq<Record>, rec: Record)
    requires
        recs.len() <= CAPACITY,
    ensures
        recs.len() < CAPACITY ==> records_after_write(recs, rec).len() == recs.len() + 1
            && records_after_write(recs, rec).take(recs.len() as int) == recs,
        recs.len() == CAPACITY ==> records_after_write(recs, rec).len() == CAPACITY
            && records_after_write(recs, rec).take(CAPACITY - 1) == recs.subrange(1, CAPACITY as int),
        records_after_write(recs, rec)[records_after_write(recs, rec).len() - 1] == rec,
{
    let after = records_after_write(recs, rec);
    if recs.len() < CAPACITY {
        assert(after.take(recs.len() as int) =~= recs);
    } else {
        assert(after.take(CAPACITY - 1) =~= recs.subrange(1, CAPACITY as int));
    }
}

/// Writing a record numbered `next` keeps the numbers strictly increasing and
/// below the new `next`: a number is never handed out twice.
pub proof fn law_numbers_fresh(recs: Seq<Record>, next: u64, rec: Record)
    requires
        seqs_ordered_below(recs, next),
        next >= 1,
        next < u64::MAX,
        rec.0 == next,
    ensures
        seqs_ordered_below(records_after_write(recs, rec), (next + 1) as u64),
        forall|i: int| 0 <= i < recs.len() ==> #[trigger] recs[i].0 < rec.0,
{
    let after = records_after_write(recs, rec);
    let base = if recs.len() >= CAPACITY { recs.drop_first() } else { recs };
    assert(after == base.push(rec));
    assert forall|i: int, j: int| 0 <= i < j < after.len() implies after[i].0 < after[j].0 by {
        if recs.len() >= CAPACITY {
            if j < after.len() - 1 {
                assert(after[i] == recs[i + 1] && after[j] == recs[j + 1]);
            } else {
                assert(after[i] == recs[i + 1]);
            }
        } else {
            if j < after.len() - 1 {
                assert(after[i] == recs[i] && after[j] == recs[j]);
            } else {
                assert(after[i] == recs[i]);
            }
        }
    }
    assert forall|i: int| 0 <= i < after.len() implies #[trigger] after[i].0 < next + 1 && after[i].0 >= 1 by {
        if i < after.len() - 1 {
            if recs.len() >= CAPACITY {
                assert(after[i] == recs[i + 1]);
            } else {
                assert(after[i] == recs[i]);
            }
        }
    }
}

/// Asking for everything after number 0 returns the whole buffer.
pub proof fn law_since_zero_is_all(recs: Seq<Record>, next: u64)
    requires
        seqs_ordered_below(recs, next),
    ensures
        records_since(recs, 0) == recs,
    decreases recs.len(),
{
    reveal(Seq::filter);
    if recs.len() > 0 {
        let d = recs.drop_last();
        assert(seqs_ordered_below(d, next)) by {
            assert forall|i: int, j: int| 0 <= i < j < d.len() implies d[i].0 < d[j].0 by {
                assert(d[i] == recs[i] && d[j] == recs[j]);
            }
            assert forall|i: int| 0 <= i < d.len() implies #[trigger] d[i].0 < next && d[i].0 >= 1 by {
                assert(d[i] == recs[i]);
            }
        }
        law_since_zero_is_all(d, next);
        assert(recs.last().0 >= 1);
        assert(recs =~= d.push(recs.last()));
    }
}

/// Polling: when the records before position `k` are numbered at most `seen`
/// and those from `k` on above it, asking for the records after `seen`
/// returns exactly those from `k` on, in order.
pub proof fn law_poll_returns_new(recs: Seq<Record>, k: int, seen: u64)
    requires
        0 <= k <= recs.len(),
        forall|i: int| 0 <= i < k ==> #[trigger] recs[i].0 <= seen,
        forall|i: int| k <= i < recs.len() ==> #[trigger] recs[i].0 > seen,
    ensures
        records_since(recs, seen) == recs.subrange(k, recs.len() as int),
    decreases recs.len(),
{
    if recs.len() == k {
        lemma_none_since(recs, seen);
        assert(recs.subrange(k, recs.len() as int) =~= Seq::<Record>::empty());
    } else {
        let d = recs.drop_last();
        let r = recs.last();
        assert(recs[recs.len() - 1].0 > seen);
        assert forall|i: int| 0 <= i < k implies #[trigger] d[i].0 <= seen by {
            assert(d[i] == recs[i]);
        }
        assert forall|i: int| k <= i < d.len() implies #[trigger] d[i].0 > seen by {
            assert(d[i] == recs[i]);
        }
        law_poll_returns_new(d, k, seen);
        assert(recs =~= d.push(r));
        lemma_since_push(d, r, seen);
        assert(recs.subrange(k, recs.len() as int) =~= d.subrange(k, d.len() as int).push(r));
    }
}

proof fn lemma_since_push(s: Seq<Record>, r: Record, seen: u64)
    ensures
        records_since(s.push(r), seen) == if r.0 > seen {
            records_since(s, seen).push(r)
        } else {
            records_since(s, seen)
        },
{
    reveal(Seq::filter);
    assert(s.push(r).drop_last() =~= s);
}

proof fn lemma_none_since(recs: Seq<Record>, seen: u64)
    requires
        forall|i: int| 0 <= i < recs.len() ==> #[trigger] recs[i].0 <= seen,
    ensures
        records_since(recs, seen) == Seq::<Record>::empty(),
    decreases recs.len(),
{
    reveal(Seq::filter);
    if recs.len() > 0 {
        let d = recs.drop_last();
        assert forall|i: int| 0 <= i < d.len() implies #[trigger] d[i].0 <= seen by {
            assert(d[i] == recs[i]);
        }
        lemma_none_since(d, seen);
        assert(recs.last().0 <= seen);
    }
}

/// Right after a write, asking for the records after the previous number
/// returns just the new record.
pub proof fn law_write_then_poll(recs: Seq<Record>, next: u64, rec: Record)
    requires
        seqs_ordered_below(recs, next),
        next >= 1,
        rec.0 == next,
    ensures
        records_since(records_after_write(recs, rec), (next - 1) as u64) == seq![rec],
{
    let base = if recs.len() >= CAPACITY { recs.drop_first() } else { recs };
    assert forall|i: int| 0 <= i < base.len() implies #[trigger] base[i].0 <= next - 1 by {
        if recs.len() >= CAPACITY {
            assert(base[i] == recs[i + 1]);
        } else {
            assert(base[i] == recs[i]);
        }
    }
    let after = records_after_write(recs, rec);
    assert(after =~= base.push(rec));
    assert forall|i: int| 0 <= i < base.len() implies #[trigger] after[i].0 <= next - 1 by {
        assert(after[i] == base[i]);
    }
    law_poll_returns_new(after, base.len() as int, (next - 1) as u64);
    assert(after.subrange(base.len() as int, after.len() as int) =~= seq![rec]);
}

} // verus!
