//! Shard transfers: the record of one copy-in-progress, conflict checks, and
//! the pool that tracks running transfer tasks and caches their outcomes.

use vstd::prelude::*;

use crate::types::{PeerId, ShardId};

verus! {

broadcast use vstd::seq_lib::group_seq_properties;

/// One shard transfer: copy shard `shard_id` from peer `from` to peer `to`.
/// `sync` means the sender keeps routing through the destination afterwards
/// instead of keeping its own copy.
#[derive(Clone, Copy, PartialEq, Eq, Structural, Debug)]
pub struct ShardTransfer {
    pub shard_id: ShardId,
    pub from: PeerId,
    pub to: PeerId,
    pub sync: bool,
}

/// Identity of a transfer: the `sync` flag is not part of it.
#[derive(Clone, Copy, PartialEq, Eq, Structural, Debug)]
pub struct ShardTransferKey {
    pub shard_id: ShardId,
    pub from: PeerId,
    pub to: PeerId,
}

impl ShardTransfer {
    pub open spec fn spec_key(self) -> ShardTransferKey {
        ShardTransferKey { shard_id: self.shard_id, from: self.from, to: self.to }
    }

    pub fn key(&self) -> (r: ShardTransferKey)
        ensures
            r == self.spec_key(),
    {
        ShardTransferKey { shard_id: self.shard_id, from: self.from, to: self.to }
    }
}

impl ShardTransferKey {
    /// Does this key identify the given transfer?
    pub fn check(&self, transfer: &ShardTransfer) -> (r: bool)
        ensures
            r == (transfer.spec_key() == *self),
    {
        self.shard_id == transfer.shard_id && self.from == transfer.from && self.to
            == transfer.to
    }
}

/// Two transfers conflict when they touch the same shard and share an
/// endpoint peer on either side.
pub open spec fn spec_conflicts(a: ShardTransfer, b: ShardTransfer) -> bool {
    a.shard_id == b.shard_id && (b.from == a.from || b.to == a.from || b.from == a.to
        || b.to == a.to)
}

/// First transfer in `s` that conflicts with `t`, if any.
pub open spec fn spec_first_conflict(s: Seq<ShardTransfer>, t: ShardTransfer) -> Option<
    ShardTransfer,
>
    decreases s.len(),
{
    if s.len() == 0 {
        None
    } else if spec_conflicts(t, s[0]) {
        Some(s[0])
    } else {
        spec_first_conflict(s.drop_first(), t)
    }
}

proof fn lemma_first_conflict_at(s: Seq<ShardTransfer>, t: ShardTransfer, i: int)
    requires
        0 <= i <= s.len(),
        forall|j: int| 0 <= j < i ==> !spec_conflicts(t, s[j]),
        i == s.len() || spec_conflicts(t, s[i]),
    ensures
        spec_first_conflict(s, t) == if i == s.len() {
            None::<ShardTransfer>
        } else {
            Some(s[i])
        },
    decreases i,
{
    if i == 0 {
    } else {
        lemma_first_conflict_at(s.drop_first(), t, i - 1);
    }
}

/// Find a transfer that would conflict with starting `transfer`. Must be
/// consulted before a transfer is started.
pub fn check_transfer_conflicts_strict(transfer: &ShardTransfer, current: &Vec<
    ShardTransfer,
>) -> (r: Option<ShardTransfer>)
    ensures
        r == spec_first_conflict(current@, *transfer),
        r is None <==> forall|i: int|
            0 <= i < current@.len() ==> !spec_conflicts(*transfer, current@[i]),
{
    let n = current.len();
    let mut i: usize = 0;
    while i < n && !(current[i].shard_id == transfer.shard_id && (current[i].from
        == transfer.from || current[i].to == transfer.from || current[i].from == transfer.to
        || current[i].to == transfer.to))
        invariant
            0 <= i <= n,
            n == current@.len(),
            forall|j: int| 0 <= j < i ==> !spec_conflicts(*transfer, current@[j]),
        decreases n - i,
    {
        i = i + 1;
    }
    proof {
        lemma_first_conflict_at(current@, *transfer, i as int);
    }
    if i < n {
        Some(current[i])
    } else {
        None
    }
}

/// What `stop_if_exists` found for a transfer key.
#[derive(Clone, Copy, PartialEq, Eq, Structural, Debug)]
pub enum TaskResult {
    /// No task was ever registered, or it was dropped.
    NotFound,
    /// The task existed and is now stopped without a recorded outcome.
    Stopped,
    /// The task had already finished with the given success flag.
    Finished(bool),
}

impl TaskResult {
    pub open spec fn spec_is_finished(self) -> bool {
        self matches TaskResult::Finished(_)
    }

    pub fn is_finished(&self) -> (r: bool)
        ensures
            r == self.spec_is_finished(),
    {
        match self {
            TaskResult::Finished(_) => true,
            _ => false,
        }
    }
}

/// Bookkeeping entry of one transfer task.
#[derive(Clone, Copy, PartialEq, Eq, Structural, Debug)]
pub struct TransferTaskEntry {
    pub key: ShardTransferKey,
    /// Still being polled by the runtime.
    pub running: bool,
    /// Recorded outcome once the task finished on its own.
    pub outcome_success: bool,
    pub has_outcome: bool,
}

/// First entry for `key`, if any.
pub open spec fn spec_find_task(s: Seq<TransferTaskEntry>, key: ShardTransferKey) -> Option<
    TransferTaskEntry,
>
    decreases s.len(),
{
    if s.len() == 0 {
        None
    } else if s[0].key == key {
        Some(s[0])
    } else {
        spec_find_task(s.drop_first(), key)
    }
}

proof fn lemma_find_task_at(s: Seq<TransferTaskEntry>, key: ShardTransferKey, i: int)
    requires
        0 <= i <= s.len(),
        forall|j: int| 0 <= j < i ==> s[j].key != key,
        i == s.len() || s[i].key == key,
    ensures
        spec_find_task(s, key) == if i == s.len() {
            None::<TransferTaskEntry>
        } else {
            Some(s[i])
        },
    decreases i,
{
    if i == 0 {
    } else {
        lemma_find_task_at(s.drop_first(), key, i - 1);
    }
}

proof fn lemma_find_task_update(s: Seq<TransferTaskEntry>, i: int, e: TransferTaskEntry)
    requires
        0 <= i < s.len(),
        e.key == s[i].key,
        forall|a: int, b: int| 0 <= a < b < s.len() ==> s[a].key != s[b].key,
    ensures
        forall|key: ShardTransferKey|
            #[trigger] spec_find_task(s.update(i, e), key) == if key == e.key {
                Some(e)
            } else {
                spec_find_task(s, key)
            },
{
    assert forall|key: ShardTransferKey| #[trigger]
        spec_find_task(s.update(i, e), key) == if key == e.key {
        Some(e)
    } else {
        spec_find_task(s, key)
    } by {
        lemma_find_task_update_one(s, i, e, key);
    }
}

proof fn lemma_find_task_update_one(
    s: Seq<TransferTaskEntry>,
    i: int,
    e: TransferTaskEntry,
    key: ShardTransferKey,
)
    requires
        0 <= i < s.len(),
        e.key == s[i].key,
        forall|a: int, b: int| 0 <= a < b < s.len() ==> s[a].key != s[b].key,
    ensures
        spec_find_task(s.update(i, e), key) == if key == e.key {
            Some(e)
        } else {
            spec_find_task(s, key)
        },
    decreases s.len(),
{
    if s.len() == 0 {
    } else if i == 0 {
        assert(s.update(0, e)[0] == e);
        assert(s.update(0, e).drop_first() =~= s.drop_first());
    } else {
        assert(s.update(i, e)[0] == s[0]);
        assert(s.update(i, e).drop_first() =~= s.drop_first().update(i - 1, e));
        assert forall|a: int, b: int|
            0 <= a < b < s.drop_first().len() implies s.drop_first()[a].key != s.drop_first()[
            b
        ].key by {
            assert(s.drop_first()[a] == s[a + 1]);
            assert(s.drop_first()[b] == s[b + 1]);
        }
        lemma_find_task_update_one(s.drop_first(), i - 1, e, key);
        assert(s.drop_first()[i - 1] == s[i]);
    }
}

proof fn lemma_find_task_push(s: Seq<TransferTaskEntry>, e: TransferTaskEntry, key:
    ShardTransferKey)
    requires
        spec_find_task(s, e.key) is None,
    ensures
        spec_find_task(s.push(e), key) == if key == e.key {
            Some(e)
        } else {
            spec_find_task(s, key)
        },
    decreases s.len(),
{
    if s.len() == 0 {
        assert(s.push(e)[0] == e);
        assert(s.push(e).drop_first() =~= Seq::<TransferTaskEntry>::empty());
    } else {
        assert(s.push(e)[0] == s[0]);
        assert(s.push(e).drop_first() =~= s.drop_first().push(e));
        lemma_find_task_push(s.drop_first(), e, key);
    }
}

/// Tracks the running transfer task of each transfer key and caches each
/// outcome for later reporting.
pub struct TransferTasksPool {
    pub tasks: Vec<TransferTaskEntry>,
}

impl TransferTasksPool {
    /// At most one entry per transfer key.
    pub open spec fn wf(self) -> bool {
        forall|a: int, b: int|
            0 <= a < b < self.tasks@.len() ==> self.tasks@[a].key != self.tasks@[b].key
    }

    pub open spec fn spec_task(self, key: ShardTransferKey) -> Option<TransferTaskEntry> {
        spec_find_task(self.tasks@, key)
    }

    /// Is a task for `key` still being polled?
    pub open spec fn spec_still_running(self, key: ShardTransferKey) -> bool {
        match self.spec_task(key) {
            Some(e) => e.running,
            None => false,
        }
    }

    /// The cached outcome of a finished task for `key`, if any.
    pub open spec fn spec_task_result(self, key: ShardTransferKey) -> Option<bool> {
        match self.spec_task(key) {
            Some(e) => if e.has_outcome {
                Some(e.outcome_success)
            } else {
                None
            },
            None => None,
        }
    }

    pub fn new() -> (r: TransferTasksPool)
        ensures
            r.wf(),
            r.tasks@.len() == 0,
    {
        TransferTasksPool { tasks: Vec::new() }
    }

    fn find_index(&self, key: &ShardTransferKey) -> (r: Option<usize>)
        ensures
            match r {
                Some(i) => 0 <= i < self.tasks@.len() && self.tasks@[i as int].key == *key
                    && self.spec_task(*key) == Some(self.tasks@[i as int]),
                None => self.spec_task(*key) is None,
            },
    {
        let n = self.tasks.len();
        let mut i: usize = 0;
        while i < n && !(self.tasks[i].key.shard_id == key.shard_id && self.tasks[i].key.from
            == key.from && self.tasks[i].key.to == key.to)
            invariant
                0 <= i <= n,
                n == self.tasks@.len(),
                forall|j: int| 0 <= j < i ==> self.tasks@[j].key != *key,
            decreases n - i,
        {
            i = i + 1;
        }
        proof {
            lemma_find_task_at(self.tasks@, *key, i as int);
        }
        if i < n {
            Some(i)
        } else {
            None
        }
    }

    /// Register the running task of a freshly started transfer. An older
    /// entry for the same key is replaced.
    pub fn add_task(&mut self, transfer: &ShardTransfer)
        requires
            old(self).wf(),
        ensures
            final(self).wf(),
            forall|k: ShardTransferKey|
                #[trigger] final(self).spec_task(k) == if k == transfer.spec_key() {
                    Some(
                        TransferTaskEntry {
                            key: transfer.spec_key(),
                            running: true,
                            outcome_success: false,
                            has_outcome: false,
                        },
                    )
                } else {
                    old(self).spec_task(k)
                },
    {
        let key = transfer.key();
        let e = TransferTaskEntry { key, running: true, outcome_success: false, has_outcome:
            false };
        match self.find_index(&key) {
            Some(i) => {
                proof {
                    lemma_find_task_update(self.tasks@, i as int, e);
                }
                self.tasks.set(i, e);
            },
            None => {
                proof {
                    assert forall|k: ShardTransferKey| #[trigger]
                        spec_find_task(self.tasks@.push(e), k) == if k == e.key {
                        Some(e)
                    } else {
                        spec_find_task(self.tasks@, k)
                    } by {
                        lemma_find_task_push(self.tasks@, e, k);
                    }
                }
                let ghost pre = self.tasks@;
                self.tasks.push(e);
                assert forall|a: int, b: int|
                    0 <= a < b < self.tasks@.len() implies self.tasks@[a].key != self.tasks@[
                    b
                ].key by {
                    if b == self.tasks@.len() - 1 {
                        assert(self.tasks@[a] == pre[a]);
                        lemma_find_task_at_key(pre, a);
                    }
                }
            },
        }
    }

    /// Record that the running task for `key` finished on its own with the
    /// given success flag. Without a running entry this changes nothing.
    pub fn complete_task(&mut self, key: &ShardTransferKey, success: bool)
        requires
            old(self).wf(),
        ensures
            final(self).wf(),
            forall|k: ShardTransferKey|
                #[trigger] final(self).spec_task(k) == if k == *key && old(self).spec_still_running(
                    k,
                ) {
                    Some(
                        TransferTaskEntry {
                            key: *key,
                            running: false,
                            outcome_success: success,
                            has_outcome: true,
                        },
                    )
                } else {
                    old(self).spec_task(k)
                },
    {
        match self.find_index(key) {
            Some(i) => {
                if self.tasks[i].running {
                    let e = TransferTaskEntry {
                        key: *key,
                        running: false,
                        outcome_success: success,
                        has_outcome: true,
                    };
                    proof {
                        lemma_find_task_update(self.tasks@, i as int, e);
                    }
                    self.tasks.set(i, e);
                }
            },
            None => {},
        }
    }

    /// Stop the task for `key` if one exists. After the call nothing for
    /// `key` is still polled; a finished task's outcome stays cached.
    pub fn stop_if_exists(&mut self, key: &ShardTransferKey) -> (r: TaskResult)
        requires
            old(self).wf(),
        ensures
            final(self).wf(),
            !final(self).spec_still_running(*key),
            r == (match old(self).spec_task(*key) {
                Some(e) => if e.has_outcome {
                    TaskResult::Finished(e.outcome_success)
                } else {
                    TaskResult::Stopped
                },
                None => TaskResult::NotFound,
            }),
            final(self).spec_task_result(*key) == old(self).spec_task_result(*key),
            forall|k: ShardTransferKey|
                k != *key ==> #[trigger] final(self).spec_task(k) == old(self).spec_task(k),
    {
        match self.find_index(key) {
            Some(i) => {
                let e = self.tasks[i];
                if e.has_outcome {
                    let e2 = TransferTaskEntry { running: false, ..e };
                    proof {
                        lemma_find_task_update(self.tasks@, i as int, e2);
                    }
                    self.tasks.set(i, e2);
                    TaskResult::Finished(e.outcome_success)
                } else {
                    let e2 = TransferTaskEntry { running: false, ..e };
                    proof {
                        lemma_find_task_update(self.tasks@, i as int, e2);
                    }
                    self.tasks.set(i, e2);
                    TaskResult::Stopped
                }
            },
            None => TaskResult::NotFound,
        }
    }

    /// Cached outcome of the task for `key`: `true` or `false` once it
    /// finished, nothing while it runs or when it never existed.
    pub fn get_task_result(&self, key: &ShardTransferKey) -> (r: Option<bool>)
        ensures
            r == self.spec_task_result(*key),
    {
        match self.find_index(key) {
            Some(i) => {
                if self.tasks[i].has_outcome {
                    Some(self.tasks[i].outcome_success)
                } else {
                    None
                }
            },
            None => None,
        }
    }

    /// Is the task for `key` still being polled?
    pub fn check_if_still_running(&self, key: &ShardTransferKey) -> (r: bool)
        ensures
            r == self.spec_still_running(*key),
    {
        match self.find_index(key) {
            Some(i) => self.tasks[i].running,
            None => false,
        }
    }
}

proof fn lemma_find_task_at_key(s: Seq<TransferTaskEntry>, i: int)
    requires
        0 <= i < s.len(),
        forall|a: int, b: int| 0 <= a < b < s.len() ==> s[a].key != s[b].key,
    ensures
        spec_find_task(s, s[i].key) is Some,
    decreases s.len(),
{
    if i == 0 {
    } else {
        assert forall|a: int, b: int|
            0 <= a < b < s.drop_first().len() implies s.drop_first()[a].key != s.drop_first()[
            b
        ].key by {
            assert(s.drop_first()[a] == s[a + 1]);
            assert(s.drop_first()[b] == s[b + 1]);
        }
        lemma_find_task_at_key(s.drop_first(), i - 1);
        assert(s.drop_first()[i - 1] == s[i]);
    }
}

} // verus!
