//! Bounded undo/redo history of editor transactions.
//!
//! A record moves between the two stacks only when its replay succeeds; a failed replay
//! leaves both stacks as they were, so it can be retried. Recording clears the redo stack
//! and drops the oldest record once `max_history_entries` records are retained.
use std::collections::VecDeque;
use vstd::prelude::*;

verus! {

/// Limits for retained history and names copied into history records.
#[derive(Clone, Copy, Debug, PartialEq, Eq, Structural)]
pub struct EditorLimits {
    /// Maximum combined undo/redo records. Zero disables recording, not editing.
    pub max_history_entries: usize,
    /// Maximum UTF-8 bytes in either the old or the new name of a rename.
    pub max_name_bytes: usize,
}

impl Default for EditorLimits {
    fn default() -> (r: Self)
        ensures
            r == (EditorLimits { max_history_entries: 256, max_name_bytes: 4096 }),
    {
        EditorLimits { max_history_entries: 256, max_name_bytes: 4096 }
    }
}

/// Stacks after a successful undo: the newest undo record moves onto the redo stack.
pub open spec fn undo_moved<R>(undo: Seq<R>, redo: Seq<R>) -> (Seq<R>, Seq<R>) {
    (undo.drop_last(), redo.push(undo.last()))
}

/// Stacks after a successful redo: the newest redo record moves onto the undo stack.
pub open spec fn redo_moved<R>(undo: Seq<R>, redo: Seq<R>) -> (Seq<R>, Seq<R>) {
    (undo.push(redo.last()), redo.drop_last())
}

/// Undo stack after recording `record` under a limit of `max` retained records.
pub open spec fn recorded<R>(undo: Seq<R>, record: R, max: usize) -> Seq<R> {
    if max == 0 {
        undo
    } else if undo.len() >= max {
        undo.drop_first().push(record)
    } else {
        undo.push(record)
    }
}

/// Undo and redo stacks of transaction records, newest last.
pub struct EditHistory<R> {
    undo_stack: VecDeque<R>,
    redo_stack: VecDeque<R>,
    limits: EditorLimits,
}

impl<R> EditHistory<R> {
    pub closed spec fn undo_spec(&self) -> Seq<R> {
        self.undo_stack@
    }

    pub closed spec fn redo_spec(&self) -> Seq<R> {
        self.redo_stack@
    }

    pub closed spec fn limits_spec(&self) -> EditorLimits {
        self.limits
    }

    /// At most `max_history_entries` records are retained over both stacks.
    pub open spec fn wf(&self) -> bool {
        self.undo_spec().len() + self.redo_spec().len() <= self.limits_spec().max_history_entries
    }

    pub fn with_limits(limits: EditorLimits) -> (h: Self)
        ensures
            h.wf(),
            h.limits_spec() == limits,
            h.undo_spec() == Seq::<R>::empty(),
            h.redo_spec() == Seq::<R>::empty(),
    {
        EditHistory { undo_stack: VecDeque::new(), redo_stack: VecDeque::new(), limits }
    }

    pub fn limits(&self) -> (r: EditorLimits)
        ensures
            r == self.limits_spec(),
    {
        self.limits
    }

    pub fn undo_len(&self) -> (r: usize)
        ensures
            r == self.undo_spec().len(),
    {
        self.undo_stack.len()
    }

    pub fn redo_len(&self) -> (r: usize)
        ensures
            r == self.redo_spec().len(),
    {
        self.redo_stack.len()
    }

    /// Drops every retained record.
    pub fn clear_history(&mut self)
        ensures
            final(self).wf(),
            final(self).limits_spec() == old(self).limits_spec(),
            final(self).undo_spec() == Seq::<R>::empty(),
            final(self).redo_spec() == Seq::<R>::empty(),
    {
        self.undo_stack.clear();
        self.redo_stack.clear();
    }

    /// Records a transaction that has just been applied: the redo stack is cleared and the
    /// oldest record is dropped when the limit is reached. A limit of zero records nothing.
    pub fn record(&mut self, record: R)
        requires
            old(self).wf(),
        ensures
            final(self).wf(),
            final(self).limits_spec() == old(self).limits_spec(),
            final(self).redo_spec() == Seq::<R>::empty(),
            final(self).undo_spec() == recorded(old(self).undo_spec(), record, old(self).limits_spec().max_history_entries),
            old(self).limits_spec().max_history_entries > 0 ==> {
                let all = old(self).undo_spec().push(record);
                let max = old(self).limits_spec().max_history_entries as int;
                let keep = if all.len() < max { all.len() as int } else { max };
                final(self).undo_spec() == all.subrange(all.len() - keep, all.len() as int)
            },
    {
        self.redo_stack.clear();
        if self.limits.max_history_entries > 0 {
            if self.undo_stack.len() >= self.limits.max_history_entries {
                let _ = self.undo_stack.pop_front();
            }
            self.undo_stack.push_back(record);
        }
        proof {
            let u = old(self).undo_spec();
            if old(self).limits_spec().max_history_entries > 0 && u.len() >= old(self).limits_spec().max_history_entries {
                assert(self.undo_stack@ =~= u.drop_first().push(record));
            }
            if old(self).limits_spec().max_history_entries > 0 {
                lemma_record_keeps_newest(u, record, old(self).limits_spec().max_history_entries);
            }
        }
    }

    /// Replays the newest undo record with `replay`. On success the record moves to the redo
    /// stack; on failure both stacks are kept so the undo can be retried. `Ok(false)` when
    /// there is nothing to undo.
    pub fn undo_with<E, F: FnOnce(&R) -> Result<(), E>>(&mut self, replay: F) -> (r: Result<bool, E>)
        requires
            old(self).wf(),
            forall|x: &R| #[trigger] replay.requires((x,)),
        ensures
            final(self).wf(),
            final(self).limits_spec() == old(self).limits_spec(),
            old(self).undo_spec().len() == 0 ==> (r matches Ok(false) && final(self).undo_spec() == old(self).undo_spec()
                && final(self).redo_spec() == old(self).redo_spec()),
            old(self).undo_spec().len() > 0 && r is Ok ==> replay.ensures(
                (&old(self).undo_spec().last(),),
                Ok::<(), E>(()),
            ),
            old(self).undo_spec().len() > 0 ==> (r matches Err(e) ==> replay.ensures(
                (&old(self).undo_spec().last(),),
                Err::<(), E>(e),
            )),
            old(self).undo_spec().len() > 0 ==> match r {
                Ok(b) => b && (final(self).undo_spec(), final(self).redo_spec()) == undo_moved(
                    old(self).undo_spec(),
                    old(self).redo_spec(),
                ),
                Err(_) => final(self).undo_spec() == old(self).undo_spec() && final(self).redo_spec() == old(
                    self,
                ).redo_spec(),
            },
    {
        let record = match self.undo_stack.pop_back() {
            None => return Ok(false),
            Some(record) => record,
        };
        let outcome = replay(&record);
        proof {
            assert(replay.ensures((&old(self).undo_spec().last(),), outcome));
        }
        match outcome {
            Err(error) => {
                self.undo_stack.push_back(record);
                proof {
                    assert(self.undo_stack@ =~= old(self).undo_spec());
                }
                Err(error)
            },
            Ok(done) => {
                proof {
                    assert(done == ());
                }
                self.redo_stack.push_back(record);
                Ok(true)
            },
        }
    }

    /// Replays the newest redo record with `replay`. On success the record moves back to the
    /// undo stack; on failure both stacks are kept so the redo can be retried. `Ok(false)`
    /// when there is nothing to redo.
    pub fn redo_with<E, F: FnOnce(&R) -> Result<(), E>>(&mut self, replay: F) -> (r: Result<bool, E>)
        requires
            old(self).wf(),
            forall|x: &R| #[trigger] replay.requires((x,)),
        ensures
            final(self).wf(),
            final(self).limits_spec() == old(self).limits_spec(),
            old(self).redo_spec().len() == 0 ==> (r matches Ok(false) && final(self).undo_spec() == old(self).undo_spec()
                && final(self).redo_spec() == old(self).redo_spec()),
            old(self).redo_spec().len() > 0 && r is Ok ==> replay.ensures(
                (&old(self).redo_spec().last(),),
                Ok::<(), E>(()),
            ),
            old(self).redo_spec().len() > 0 ==> (r matches Err(e) ==> replay.ensures(
                (&old(self).redo_spec().last(),),
                Err::<(), E>(e),
            )),
            old(self).redo_spec().len() > 0 ==> match r {
                Ok(b) => b && (final(self).undo_spec(), final(self).redo_spec()) == redo_moved(
                    old(self).undo_spec(),
                    old(self).redo_spec(),
                ),
                Err(_) => final(self).undo_spec() == old(self).undo_spec() && final(self).redo_spec() == old(
                    self,
                ).redo_spec(),
            },
    {
        let record = match self.redo_stack.pop_back() {
            None => return Ok(false),
            Some(record) => record,
        };
        let outcome = replay(&record);
        proof {
            assert(replay.ensures((&old(self).redo_spec().last(),), outcome));
        }
        match outcome {
            Err(error) => {
                self.redo_stack.push_back(record);
                proof {
                    assert(self.redo_stack@ =~= old(self).redo_spec());
                }
                Err(error)
            },
            Ok(done) => {
                proof {
                    assert(done == ());
                }
                self.undo_stack.push_back(record);
                Ok(true)
            },
        }
    }
}

/// Recording keeps the newest records: under a limit of `max > 0`, the undo stack after
/// recording is the last `min(len + 1, max)` records of the old stack followed by `record`,
/// oldest first; the oldest records are the ones dropped.
pub proof fn lemma_record_keeps_newest<R>(undo: Seq<R>, record: R, max: usize)
    requires
        max > 0,
        undo.len() <= max,
    ensures
        ({
            let all = undo.push(record);
            let keep = if all.len() < max { all.len() as int } else { max as int };
            &&& recorded(undo, record, max).len() == keep
            &&& recorded(undo, record, max) == all.subrange(all.len() - keep, all.len() as int)
            &&& recorded(undo, record, max).last() == record
        }),
{
    let all = undo.push(record);
    if undo.len() >= max {
        assert(undo.drop_first().push(record) =~= all.subrange(all.len() - max, all.len() as int));
    } else {
        assert(undo.push(record) =~= all.subrange(0, all.len() as int));
    }
}

/// An undo followed by a redo, both replayed successfully, restores both stacks exactly.
pub proof fn lemma_undo_then_redo_restores<R>(undo: Seq<R>, redo: Seq<R>)
    requires
        undo.len() > 0,
    ensures
        redo_moved(undo_moved(undo, redo).0, undo_moved(undo, redo).1) == (undo, redo),
{
    assert(undo.drop_last().push(undo.last()) =~= undo);
    assert(redo.push(undo.last()).drop_last() =~= redo);
}

/// A redo followed by an undo, both replayed successfully, restores both stacks exactly.
pub proof fn lemma_redo_then_undo_restores<R>(undo: Seq<R>, redo: Seq<R>)
    requires
        redo.len() > 0,
    ensures
        undo_moved(redo_moved(undo, redo).0, redo_moved(undo, redo).1) == (undo, redo),
{
    assert(redo.drop_last().push(redo.last()) =~= redo);
    assert(undo.push(redo.last()).drop_last() =~= undo);
}

} // verus!
