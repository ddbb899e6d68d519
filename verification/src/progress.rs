//! Progress tracking for long-running ingest steps: a table of tasks,
//! grouped per ingest, with create / increment / complete semantics. The
//! table is empty on construction; task identifiers are their positions.

use vstd::prelude::*;

verus! {

#[derive(Debug, Clone, Copy, PartialEq, Eq, Structural)]
pub struct ProgressTaskId(pub u64);

#[derive(Debug, Clone, Copy, PartialEq, Eq, Structural)]
pub struct ProgressGroupId(pub u64);

/// The closed set of task kinds the ingester reports.
#[derive(Debug, Clone, Copy, PartialEq, Eq, Structural)]
pub enum ProgressTaskType {
    LoadJson,
    MergeJson,
    DbInsertAll,
    CopyStaticAssets,
}

impl ProgressTaskType {
    /// The wire name of the task kind.
    pub fn name(&self) -> (r: &'static str)
        ensures
            (*self == ProgressTaskType::LoadJson ==> r@ == "LoadJson"@) && (*self
                == ProgressTaskType::MergeJson ==> r@ == "MergeJson"@) && (*self
                == ProgressTaskType::DbInsertAll ==> r@ == "DbInsertAll"@) && (*self
                == ProgressTaskType::CopyStaticAssets ==> r@ == "CopyStaticAssets"@),
    {
        match self {
            ProgressTaskType::LoadJson => "LoadJson",
            ProgressTaskType::MergeJson => "MergeJson",
            ProgressTaskType::DbInsertAll => "DbInsertAll",
            ProgressTaskType::CopyStaticAssets => "CopyStaticAssets",
        }
    }
}

/// What a new task is created from.
#[derive(Debug)]
pub struct CreateTaskParams {
    pub task_type: ProgressTaskType,
    pub dictionary_title: String,
    pub dictionary_revision: String,
    pub schema_name: Option<String>,
    pub total: i64,
}

/// One row of the progress table.
#[derive(Debug)]
pub struct ProgressData {
    pub task_id: ProgressTaskId,
    pub group_id: ProgressGroupId,
    pub task_type: ProgressTaskType,
    pub dictionary_title: String,
    pub dictionary_revision: String,
    pub schema_name: String,
    pub current: i64,
    pub total: i64,
}

pub struct ProgressDataV {
    pub task_id: int,
    pub group_id: int,
    pub task_type: ProgressTaskType,
    pub dictionary_title: Seq<char>,
    pub dictionary_revision: Seq<char>,
    pub schema_name: Seq<char>,
    pub current: int,
    pub total: int,
}

impl View for ProgressData {
    type V = ProgressDataV;

    open spec fn view(&self) -> ProgressDataV {
        ProgressDataV {
            task_id: self.task_id.0 as int,
            group_id: self.group_id.0 as int,
            task_type: self.task_type,
            dictionary_title: self.dictionary_title@,
            dictionary_revision: self.dictionary_revision@,
            schema_name: self.schema_name@,
            current: self.current as int,
            total: self.total as int,
        }
    }
}

pub open spec fn tasks_view(ts: Seq<ProgressData>) -> Seq<ProgressDataV> {
    ts.map_values(|t: ProgressData| t@)
}

/// The progress table: each task's identifier is its position, so rows
/// never move once created.
pub struct ProgressStateTable {
    tasks: Vec<ProgressData>,
}

impl View for ProgressStateTable {
    type V = Seq<ProgressDataV>;

    closed spec fn view(&self) -> Seq<ProgressDataV> {
        tasks_view(self.tasks@)
    }
}

/// A task is complete when its counter has reached a positive total.
pub open spec fn task_complete(t: ProgressDataV) -> bool {
    t.current == t.total && t.total > 0
}

fn clone_progress_data(t: &ProgressData) -> (r: ProgressData)
    ensures
        r@ == t@,
{
    ProgressData {
        task_id: t.task_id,
        group_id: t.group_id,
        task_type: t.task_type,
        dictionary_title: t.dictionary_title.clone(),
        dictionary_revision: t.dictionary_revision.clone(),
        schema_name: t.schema_name.clone(),
        current: t.current,
        total: t.total,
    }
}

impl ProgressStateTable {
    /// A fresh table holds no tasks.
    pub fn new() -> (r: Self)
        ensures
            r@ == Seq::<ProgressDataV>::empty(),
    {
        let r = ProgressStateTable { tasks: Vec::new() };
        proof {
            assert(r@ =~= Seq::<ProgressDataV>::empty());
        }
        r
    }

    /// Creates a task with a zero counter; the new identifier is the
    /// table's previous length, and older rows do not move.
    pub fn create_task(&mut self, params: CreateTaskParams, group_id: ProgressGroupId) -> (r:
        ProgressTaskId)
        requires
            old(self)@.len() < u64::MAX,
        ensures
            r.0 == old(self)@.len(),
            final(self)@.len() == old(self)@.len() + 1,
            final(self)@ =~= old(self)@.push(
                ProgressDataV {
                    task_id: r.0 as int,
                    group_id: group_id.0 as int,
                    task_type: params.task_type,
                    dictionary_title: params.dictionary_title@,
                    dictionary_revision: params.dictionary_revision@,
                    schema_name: match params.schema_name {
                        Some(s) => s@,
                        None => Seq::empty(),
                    },
                    current: 0,
                    total: params.total as int,
                },
            ),
    {
        let task_id = ProgressTaskId(self.tasks.len() as u64);
        let schema_name = match params.schema_name {
            Some(s) => s,
            None => String::new(),
        };
        let row = ProgressData {
            task_id,
            group_id,
            task_type: params.task_type,
            dictionary_title: params.dictionary_title,
            dictionary_revision: params.dictionary_revision,
            schema_name,
            current: 0,
            total: params.total,
        };
        self.tasks.push(row);
        task_id
    }

    /// Advances a task's counter, clamping at the 64-bit bounds; any other
    /// task keeps its row exactly. An unknown identifier changes nothing.
    pub fn increment(&mut self, task_id: &ProgressTaskId, amount: i64)
        ensures
            final(self)@.len() == old(self)@.len(),
            forall|j: int|
                0 <= j < old(self)@.len() && j != task_id.0 as int ==> final(self)@[j] == old(
                    self,
                )@[j],
            task_id.0 < old(self)@.len() ==> {
                let before = old(self)@[task_id.0 as int];
                let after = final(self)@[task_id.0 as int];
                after == ProgressDataV {
                    current: if before.current + amount > i64::MAX {
                        i64::MAX as int
                    } else if before.current + amount < i64::MIN {
                        i64::MIN as int
                    } else {
                        before.current + amount
                    },
                    ..before
                }
            },
            task_id.0 >= old(self)@.len() ==> final(self)@ == old(self)@,
    {
        let n = self.tasks.len();
        let idx = task_id.0;
        if idx < n as u64 {
            let i = idx as usize;
            let cur = self.tasks[i].current;
            let next: i64 = if amount > 0 && cur > i64::MAX - amount {
                i64::MAX
            } else if amount < 0 && cur < i64::MIN - amount {
                i64::MIN
            } else {
                cur + amount
            };
            let old_row = &self.tasks[i];
            let row = ProgressData {
                task_id: old_row.task_id,
                group_id: old_row.group_id,
                task_type: old_row.task_type,
                dictionary_title: old_row.dictionary_title.clone(),
                dictionary_revision: old_row.dictionary_revision.clone(),
                schema_name: old_row.schema_name.clone(),
                current: next,
                total: old_row.total,
            };
            self.tasks.set(i, row);
            proof {
                assert(final(self)@ =~= old(self)@.update(
                    task_id.0 as int,
                    final(self)@[task_id.0 as int],
                ));
            }
        } else {
            proof {
                assert(final(self)@ =~= old(self)@);
            }
        }
    }

    /// The row of a task, if the identifier names one.
    pub fn get_progress(&self, task_id: &ProgressTaskId) -> (r: Option<ProgressData>)
        ensures
            match r {
                Some(t) => task_id.0 < self@.len() && t@ == self@[task_id.0 as int],
                None => task_id.0 >= self@.len(),
            },
    {
        let n = self.tasks.len();
        if task_id.0 < n as u64 {
            Some(clone_progress_data(&self.tasks[task_id.0 as usize]))
        } else {
            None
        }
    }

    /// Every row of the table, in creation order.
    pub fn get_all_tasks(&self) -> (r: Vec<ProgressData>)
        ensures
            tasks_view(r@) =~= self@,
    {
        let mut out: Vec<ProgressData> = Vec::new();
        let n = self.tasks.len();
        let mut i: usize = 0;
        while i < n
            invariant
                i <= n,
                n == self.tasks@.len(),
                out@.len() == i,
                forall|j: int| 0 <= j < i ==> (#[trigger] out@[j]@) == self.tasks@[j]@,
            decreases n - i,
        {
            out.push(clone_progress_data(&self.tasks[i]));
            i = i + 1;
        }
        proof {
            assert(tasks_view(out@) =~= self@);
        }
        out
    }

    /// Whether a task's counter has reached its positive total; an unknown
    /// identifier is never complete.
    pub fn is_task_complete(&self, task_id: &ProgressTaskId) -> (r: bool)
        ensures
            r == (task_id.0 < self@.len() && task_complete(self@[task_id.0 as int])),
    {
        match self.get_progress(task_id) {
            Some(t) => t.current == t.total && t.total > 0,
            None => false,
        }
    }
}

} // verus!
