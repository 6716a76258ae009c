//! Undo history: snapshots of the task list and its text anchors.
use vstd::prelude::*;
use crate::doc::{tasks_view, Text};
use crate::todo::{Task, TaskView};

verus! {

/// The task list and its text, as they were before a mutation.
pub struct Snapshot {
    pub tasks: Vec<Task>,
    pub text: Text,
}

pub open spec fn snapshot_view(s: Snapshot) -> (Seq<TaskView>, Seq<(int, Seq<char>)>) {
    (tasks_view(s.tasks@), s.text@)
}

/// Snapshots, oldest first.
pub struct History {
    pub snapshots: Vec<Snapshot>,
}

impl History {
    pub open spec fn view_seq(&self) -> Seq<(Seq<TaskView>, Seq<(int, Seq<char>)>)> {
        self.snapshots@.map_values(|s: Snapshot| snapshot_view(s))
    }

    pub fn new() -> (h: History)
        ensures
            h.snapshots@.len() == 0,
    {
        History { snapshots: Vec::new() }
    }

    pub fn len(&self) -> (n: usize)
        ensures
            n == self.snapshots@.len(),
    {
        self.snapshots.len()
    }

    pub fn is_empty(&self) -> (b: bool)
        ensures
            b == (self.snapshots@.len() == 0),
    {
        self.snapshots.len() == 0
    }

    /// Records a snapshot as the newest.
    pub fn push(&mut self, tasks: Vec<Task>, text: Text)
        ensures
            final(self).view_seq() == old(self).view_seq().push((tasks_view(tasks@), text@)),
    {
        self.snapshots.push(Snapshot { tasks, text });
        assert(self.view_seq() =~= old(self).view_seq().push((tasks_view(tasks@), text@)));
    }

    /// Takes the newest snapshot.
    pub fn pop(&mut self) -> (s: Option<Snapshot>)
        ensures
            old(self).snapshots@.len() == 0 ==> s is None && final(self).snapshots@.len() == 0,
            old(self).snapshots@.len() > 0 ==> (s matches Some(v) && snapshot_view(v) == old(
                self,
            ).view_seq().last() && final(self).view_seq() == old(self).view_seq().drop_last()),
    {
        let r = self.snapshots.pop();
        proof {
            if old(self).snapshots@.len() > 0 {
                assert(self.view_seq() =~= old(self).view_seq().drop_last());
            }
        }
        r
    }
}

impl Default for History {
    fn default() -> (h: History)
        ensures
            h.snapshots@.len() == 0,
    {
        History::new()
    }
}

} // verus!
