//! The task store: every task in insertion order, and the next id to give.
//! Ids are handed out in increasing order and never reused; a subtask names
//! a task created before it.

use crate::summary::{
    asset_key_of, asset_path, html_of, image_dir, render_html, rewrite_summary, rewritten,
    summary_key, summary_key_of, Asset,
};
use crate::task::{started, stop_effect, StopOutcome, Task, TaskStaus};
use vstd::prelude::*;

verus! {

/// Why a store operation was refused.
#[derive(Debug, Clone, Copy, PartialEq, Eq, Structural)]
pub enum TaskError {
    /// No task has the given id.
    TaskNotFound,
    /// Every `u64` id has been given out.
    IdsExhausted,
}

/// Whether some task carries `id`.
pub open spec fn has_id(tasks: Seq<Task>, id: u64) -> bool {
    exists|i: int| 0 <= i < tasks.len() && #[trigger] tasks[i].id == id
}

/// The task that carries `id`.
pub open spec fn find(tasks: Seq<Task>, id: u64) -> Option<Task> {
    if has_id(tasks, id) {
        Some(tasks[choose|i: int| 0 <= i < tasks.len() && #[trigger] tasks[i].id == id])
    } else {
        None
    }
}

/// Ids strictly increase along the list and stay below `next`; each parent
/// is an earlier task.
pub open spec fn well_formed(tasks: Seq<Task>, next: u64) -> bool {
    &&& forall|i: int, j: int| 0 <= i < j < tasks.len() ==> tasks[i].id < tasks[j].id
    &&& forall|i: int| 0 <= i < tasks.len() ==> #[trigger] tasks[i].id < next
    &&& forall|i: int|
        0 <= i < tasks.len() ==> (#[trigger] tasks[i].parent_id matches Some(p) ==> p
            < tasks[i].id && has_id(tasks, p))
}

/// Whether starting task `id` also starts task `target`: it is `id` itself,
/// or the parent of `id` is still Incomplete and starting the parent starts
/// `target`.
pub open spec fn cascades_to(tasks: Seq<Task>, id: u64, target: u64) -> bool
    decreases id,
{
    if target == id {
        true
    } else {
        match find(tasks, id) {
            Some(t) => match t.parent_id {
                Some(p) => if p < id {
                    &&& find(tasks, p) matches Some(pt) && pt.status == TaskStaus::Incomplete
                    &&& cascades_to(tasks, p, target)
                } else {
                    false
                },
                None => false,
            },
            None => false,
        }
    }
}

/// Tasks changed in place, each keeping its id and its parent, keep a store
/// well formed.
proof fn lemma_same_keys_well_formed(before: Seq<Task>, after: Seq<Task>, next: u64)
    requires
        well_formed(before, next),
        before.len() == after.len(),
        forall|i: int|
            0 <= i < before.len() ==> #[trigger] after[i].id == before[i].id && after[i].parent_id
                == before[i].parent_id,
    ensures
        well_formed(after, next),
{
    assert forall|i: int| 0 <= i < after.len() implies (#[trigger] after[i].parent_id matches Some(
        p,
    ) ==> p < after[i].id && has_id(after, p)) by {
        if after[i].parent_id is Some {
            let p = after[i].parent_id->0;
            assert(after[i].id == before[i].id);
            assert(before[i].parent_id == Some(p));
            let y = choose|y: int| 0 <= y < before.len() && #[trigger] before[y].id == p;
            assert(after[y].id == p);
        }
    }
    assert forall|i: int, j: int| 0 <= i < j < after.len() implies after[i].id < after[j].id by {
        assert(after[i].id == before[i].id);
        assert(after[j].id == before[j].id);
    }
}

/// In a well-formed store, `find` gives the task at the position of its id.
pub proof fn lemma_find(tasks: Seq<Task>, next: u64, x: int)
    requires
        well_formed(tasks, next),
        0 <= x < tasks.len(),
    ensures
        find(tasks, tasks[x].id) == Some(tasks[x]),
{
    let y = choose|y: int| 0 <= y < tasks.len() && #[trigger] tasks[y].id == tasks[x].id;
    assert(tasks[y].id == tasks[x].id);
    if y < x {
        assert(tasks[y].id < tasks[x].id);
    } else if x < y {
        assert(tasks[x].id < tasks[y].id);
    }
}

/// Ids are never repeated and follow the order of creation: along a
/// well-formed store each id is larger than every id before it, and the id
/// that the next task gets is larger than all of them.
pub proof fn lemma_ids_increase(tasks: Seq<Task>, next: u64)
    requires
        well_formed(tasks, next),
    ensures
        forall|i: int, j: int| 0 <= i < j < tasks.len() ==> tasks[i].id < tasks[j].id,
        forall|i: int, j: int|
            0 <= i < tasks.len() && 0 <= j < tasks.len() && i != j ==> tasks[i].id != tasks[j].id,
        forall|i: int| 0 <= i < tasks.len() ==> tasks[i].id < next,
{
    assert forall|i: int, j: int|
        0 <= i < tasks.len() && 0 <= j < tasks.len() && i != j implies tasks[i].id != tasks[j].id by {
        if i < j {
            assert(tasks[i].id < tasks[j].id);
        } else {
            assert(tasks[j].id < tasks[i].id);
        }
    }
}

/// Starting a subtask also starts its parent exactly when the parent is
/// still Incomplete; a parent that has progressed is left alone.
pub proof fn lemma_start_reaches_parent(tasks: Seq<Task>, next: u64, child: int, parent: int)
    requires
        well_formed(tasks, next),
        0 <= child < tasks.len(),
        0 <= parent < tasks.len(),
        tasks[child].parent_id == Some(tasks[parent].id),
    ensures
        cascades_to(tasks, tasks[child].id, tasks[parent].id) <==> tasks[parent].status
            == TaskStaus::Incomplete,
{
    lemma_find(tasks, next, child);
    lemma_find(tasks, next, parent);
    assert(tasks[parent].id < tasks[child].id);
    assert(cascades_to(tasks, tasks[parent].id, tasks[parent].id));
}

/// A start reaches only tasks with ids at most its own.
proof fn lemma_cascade_below(tasks: Seq<Task>, id: u64, target: u64)
    requires
        cascades_to(tasks, id, target),
    ensures
        target <= id,
    decreases id,
{
    if target != id {
        let p = find(tasks, id)->0.parent_id->0;
        lemma_cascade_below(tasks, p, target);
    }
}

/// Where a start from `id` goes depends only on tasks with ids up to `id`.
proof fn lemma_cascade_frame(a: Seq<Task>, b: Seq<Task>, next: u64, id: u64, target: u64)
    requires
        well_formed(a, next),
        well_formed(b, next),
        a.len() == b.len(),
        forall|x: int|
            0 <= x < a.len() ==> #[trigger] b[x].id == a[x].id && b[x].parent_id == a[x].parent_id
                && (a[x].id <= id ==> b[x].status == a[x].status),
    ensures
        cascades_to(a, id, target) == cascades_to(b, id, target),
    decreases id,
{
    if target != id {
        if has_id(a, id) {
            let x = choose|x: int| 0 <= x < a.len() && #[trigger] a[x].id == id;
            lemma_find(a, next, x);
            assert(b[x].id == a[x].id);
            lemma_find(b, next, x);
            if let Some(p) = a[x].parent_id {
                if p < id {
                    assert(has_id(a, p));
                    let y = choose|y: int| 0 <= y < a.len() && #[trigger] a[y].id == p;
                    lemma_find(a, next, y);
                    assert(b[y].id == a[y].id);
                    lemma_find(b, next, y);
                    lemma_cascade_frame(a, b, next, p, target);
                }
            }
        } else {
            assert(!has_id(b, id)) by {
                if has_id(b, id) {
                    let x = choose|x: int| 0 <= x < b.len() && #[trigger] b[x].id == id;
                    assert(a[x].id == id);
                }
            }
        }
    }
}

/// What completing a staged summary leaves for the caller to store.
#[derive(Debug)]
pub struct Resolution {
    /// Where each supplied asset is to be stored, in the order given.
    pub image_paths: Vec<String>,
    /// The staged summary with its image links rewritten.
    pub text: String,
    /// The rendered summary, to be stored under `key`.
    pub html: String,
    pub key: String,
}

pub struct App {
    tasks: Vec<Task>,
    running_id: u64,
}

impl App {
    #[verifier::type_invariant]
    spec fn inv(&self) -> bool {
        well_formed(self.tasks@, self.running_id)
    }

    /// Every task, in insertion order.
    pub closed spec fn tasks(&self) -> Seq<Task> {
        self.tasks@
    }

    /// The id that the next task will get.
    pub closed spec fn next_id(&self) -> u64 {
        self.running_id
    }

    pub fn new() -> (r: App)
        ensures
            r.tasks() == Seq::<Task>::empty(),
            r.next_id() == 0,
            well_formed(r.tasks(), r.next_id()),
    {
        App { tasks: Vec::new(), running_id: 0 }
    }

    /// A store holding `tasks` with `running_id` as its next id, if they
    /// form a well-formed store.
    pub fn restore(tasks: Vec<Task>, running_id: u64) -> (r: Option<App>)
        ensures
            r is Some <==> well_formed(tasks@, running_id),
            r matches Some(a) ==> a.tasks() == tasks@ && a.next_id() == running_id,
    {
        let mut i: usize = 0;
        while i < tasks.len()
            invariant
                i <= tasks.len(),
                well_formed(tasks@.take(i as int), running_id),
            decreases tasks.len() - i,
        {
            let ghost pre = tasks@.take(i as int);
            let ghost next = tasks@.take(i + 1);
            assert(next =~= pre.push(tasks@[i as int]));
            if tasks[i].id >= running_id {
                assert(!well_formed(tasks@, running_id));
                return None;
            }
            if i > 0 && tasks[i - 1].id >= tasks[i].id {
                assert(!well_formed(tasks@, running_id));
                return None;
            }
            match tasks[i].parent_id {
                Some(p) => {
                    if p >= tasks[i].id {
                        assert(!well_formed(tasks@, running_id));
                        return None;
                    }
                    let mut j: usize = 0;
                    let mut found = false;
                    while j < i
                        invariant
                            j <= i < tasks.len(),
                            !found ==> forall|x: int| 0 <= x < j ==> tasks@[x].id != p,
                            found ==> has_id(pre, p),
                            pre == tasks@.take(i as int),
                        decreases i - j,
                    {
                        if tasks[j].id == p {
                            found = true;
                            assert(pre[j as int].id == p);
                        }
                        j = j + 1;
                    }
                    if !found {
                        assert(!well_formed(tasks@, running_id)) by {
                            if well_formed(tasks@, running_id) {
                                assert(tasks@[i as int].parent_id == Some(p));
                                let x = choose|x: int|
                                    0 <= x < tasks@.len() && #[trigger] tasks@[x].id == p;
                                if x > i {
                                    assert(tasks@[i as int].id < tasks@[x].id);
                                }
                            }
                        }
                        return None;
                    }
                    assert(has_id(next, p));
                },
                None => {},
            }
            assert forall|x: int| 0 <= x < i && #[trigger] next[x].parent_id is Some implies has_id(
                next,
                next[x].parent_id->0,
            ) by {
                let q = next[x].parent_id->0;
                assert(pre[x].parent_id == Some(q));
                let y = choose|y: int| 0 <= y < pre.len() && #[trigger] pre[y].id == q;
                assert(next[y].id == q);
            }
            assert forall|a: int, b: int| 0 <= a < b < next.len() implies next[a].id < next[b].id by {
                if b == i && a < i - 1 {
                    assert(pre[a].id < pre[i - 1].id);
                }
            }
            assert forall|x: int| 0 <= x < next.len() implies (#[trigger] next[x].parent_id matches Some(
                q,
            ) ==> q < next[x].id && has_id(next, q)) by {
                if x < i && next[x].parent_id is Some {
                    assert(pre[x].parent_id == next[x].parent_id);
                }
            }
            i = i + 1;
        }
        assert(tasks@.take(tasks.len() as int) =~= tasks@);
        Some(App { tasks, running_id })
    }

    /// Moves the task list out, leaving the store empty until it is put back.
    fn take_tasks(&mut self) -> (r: Vec<Task>)
        ensures
            r@ == old(self).tasks(),
            final(self).tasks() == Seq::<Task>::empty(),
            final(self).next_id() == old(self).next_id(),
            well_formed(r@, old(self).next_id()),
    {
        proof {
            use_type_invariant(&*self);
        }
        let mut tasks: Vec<Task> = Vec::new();
        core::mem::swap(&mut self.tasks, &mut tasks);
        tasks
    }

    /// Position of the task that carries `id`.
    fn position(&self, id: u64) -> (r: Option<usize>)
        ensures
            match r {
                Some(i) => i < self.tasks().len() && self.tasks()[i as int].id == id,
                None => !has_id(self.tasks(), id),
            },
    {
        let mut i: usize = 0;
        while i < self.tasks.len()
            invariant
                i <= self.tasks@.len(),
                forall|x: int| 0 <= x < i ==> self.tasks@[x].id != id,
            decreases self.tasks@.len() - i,
        {
            if self.tasks[i].id == id {
                return Some(i);
            }
            i = i + 1;
        }
        None
    }

    /// Gives `name` to the task that carries `id`.
    pub fn rename_task(&mut self, id: u64, name: String) -> (r: Result<(), TaskError>)
        ensures
            r is Ok <==> has_id(old(self).tasks(), id),
            final(self).next_id() == old(self).next_id(),
            well_formed(final(self).tasks(), final(self).next_id()),
            final(self).tasks().len() == old(self).tasks().len(),
            forall|i: int|
                0 <= i < old(self).tasks().len() ==> #[trigger] final(self).tasks()[i] == if old(self).tasks()[i].id == id {
                    Task { name, ..old(self).tasks()[i] }
                } else {
                    old(self).tasks()[i]
                },
    {
        proof {
            use_type_invariant(&*self);
        }
        match self.position(id) {
            Some(i) => {
                let mut tasks = self.take_tasks();
                tasks[i].rename(name);
                proof {
                    lemma_same_keys_well_formed(old(self).tasks(), tasks@, self.running_id);
                }
                self.tasks = tasks;
                Ok(())
            },
            None => Err(TaskError::TaskNotFound),
        }
    }

    /// Adds a root task and returns its id.
    pub fn add_task(&mut self, name: String) -> (r: Result<u64, TaskError>)
        ensures
            well_formed(final(self).tasks(), final(self).next_id()),
            old(self).next_id() == u64::MAX ==> r == Err::<u64, TaskError>(TaskError::IdsExhausted)
                && final(self).tasks() == old(self).tasks() && final(self).next_id() == old(self).next_id(),
            old(self).next_id() < u64::MAX ==> r == Ok::<u64, TaskError>(old(self).next_id())
                && final(self).next_id() == old(self).next_id() + 1 && final(self).tasks() == old(self).tasks().push(Task::new_spec(old(self).next_id(), None, name)),
    {
        proof {
            use_type_invariant(&*self);
        }
        self.add(None, name)
    }

    /// Adds a subtask of `parent_id` and returns its id.
    pub fn add_subtask(&mut self, parent_id: u64, name: String) -> (r: Result<u64, TaskError>)
        ensures
            well_formed(final(self).tasks(), final(self).next_id()),
            !has_id(old(self).tasks(), parent_id) ==> r == Err::<u64, TaskError>(
                TaskError::TaskNotFound,
            ),
            has_id(old(self).tasks(), parent_id) && old(self).next_id() == u64::MAX ==> r == Err::<
                u64,
                TaskError,
            >(TaskError::IdsExhausted),
            r is Err ==> final(self).tasks() == old(self).tasks() && final(self).next_id() == old(self).next_id(),
            has_id(old(self).tasks(), parent_id) && old(self).next_id() < u64::MAX ==> r == Ok::<
                u64,
                TaskError,
            >(old(self).next_id()) && final(self).next_id() == old(self).next_id() + 1 && final(self).tasks() == old(self).tasks().push(
                Task::new_spec(old(self).next_id(), Some(parent_id), name),
            ),
    {
        proof {
            use_type_invariant(&*self);
        }
        if self.position(parent_id).is_none() {
            return Err(TaskError::TaskNotFound);
        }
        self.add(Some(parent_id), name)
    }

    fn add(&mut self, parent_id: Option<u64>, name: String) -> (r: Result<u64, TaskError>)
        requires
            parent_id matches Some(p) ==> has_id(old(self).tasks(), p),
        ensures
            well_formed(final(self).tasks(), final(self).next_id()),
            old(self).next_id() == u64::MAX ==> r == Err::<u64, TaskError>(TaskError::IdsExhausted)
                && final(self).tasks() == old(self).tasks() && final(self).next_id() == old(self).next_id(),
            old(self).next_id() < u64::MAX ==> r == Ok::<u64, TaskError>(old(self).next_id())
                && final(self).next_id() == old(self).next_id() + 1 && final(self).tasks() == old(self).tasks().push(Task::new_spec(old(self).next_id(), parent_id, name)),
    {
        proof {
            use_type_invariant(&*self);
        }
        if self.running_id == u64::MAX {
            return Err(TaskError::IdsExhausted);
        }
        let id = self.running_id;
        let mut tasks = self.take_tasks();
        let ghost before = tasks@;
        tasks.push(Task::new(id, parent_id, name));
        self.running_id = id + 1;
        proof {
            let after = tasks@;
            assert forall|i: int| 0 <= i < after.len() implies (#[trigger] after[i].parent_id matches Some(
                p,
            ) ==> p < after[i].id && has_id(after, p)) by {
                if let Some(p) = after[i].parent_id {
                    if i < before.len() {
                        assert(before[i].parent_id == Some(p));
                    }
                    let y = choose|y: int| 0 <= y < before.len() && #[trigger] before[y].id == p;
                    assert(after[y].id == p);
                }
            }
        }
        self.tasks = tasks;
        Ok(id)
    }

    /// Every task, in insertion order.
    pub fn get_tasks(&self) -> (r: &Vec<Task>)
        ensures
            r@ == self.tasks(),
            well_formed(self.tasks(), self.next_id()),
    {
        proof {
            use_type_invariant(self);
        }
        &self.tasks
    }

    /// The id that the next task will get.
    pub fn get_next_id(&self) -> (r: u64)
        ensures
            r == self.next_id(),
    {
        self.running_id
    }

    /// Marks the task `id` complete and handles its summary as `Task::stop`
    /// does.
    pub fn stop_task(&mut self, id: u64, summary: Option<String>) -> (r: Result<
        StopOutcome,
        TaskError,
    >)
        ensures
            r is Ok <==> has_id(old(self).tasks(), id),
            final(self).next_id() == old(self).next_id(),
            well_formed(final(self).tasks(), final(self).next_id()),
            final(self).tasks().len() == old(self).tasks().len(),
            forall|i: int|
                0 <= i < old(self).tasks().len() && old(self).tasks()[i].id != id ==> #[trigger] final(self).tasks()[i] == old(self).tasks()[i],
            forall|i: int|
                0 <= i < old(self).tasks().len() && old(self).tasks()[i].id == id ==> (
                r matches Ok(o) && stop_effect(
                    old(self).tasks()[i],
                    #[trigger] final(self).tasks()[i],
                    summary,
                    o,
                )),
    {
        proof {
            use_type_invariant(&*self);
        }
        match self.position(id) {
            Some(i) => {
                let mut tasks = self.take_tasks();
                let out = tasks[i].stop(summary);
                proof {
                    lemma_same_keys_well_formed(old(self).tasks(), tasks@, self.running_id);
                }
                self.tasks = tasks;
                Ok(out)
            },
            None => Err(TaskError::TaskNotFound),
        }
    }

    /// Marks task `id` in progress, and with it each ancestor up the chain of
    /// parents for as long as the next one is still Incomplete.
    pub fn start_task(&mut self, id: u64) -> (r: Result<(), TaskError>)
        ensures
            r is Ok <==> has_id(old(self).tasks(), id),
            final(self).next_id() == old(self).next_id(),
            well_formed(final(self).tasks(), final(self).next_id()),
            final(self).tasks().len() == old(self).tasks().len(),
            forall|i: int|
                0 <= i < old(self).tasks().len() ==> if r is Ok && cascades_to(
                    old(self).tasks(),
                    id,
                    old(self).tasks()[i].id,
                ) {
                    started(old(self).tasks()[i], #[trigger] final(self).tasks()[i])
                } else {
                    final(self).tasks()[i] == old(self).tasks()[i]
                },
        decreases id,
    {
        proof {
            use_type_invariant(&*self);
        }
        let ghost t0 = self.tasks@;
        let i = match self.position(id) {
            Some(i) => i,
            None => {
                return Err(TaskError::TaskNotFound);
            },
        };
        let mut tasks = self.take_tasks();
        tasks[i].start();
        let parent = tasks[i].parent_id;
        proof {
            lemma_same_keys_well_formed(t0, tasks@, self.running_id);
            lemma_find(t0, self.running_id, i as int);
        }
        self.tasks = tasks;
        let ghost t1 = self.tasks@;
        match parent {
            Some(p) => {
                let j = match self.position(p) {
                    Some(j) => j,
                    None => {
                        return Err(TaskError::TaskNotFound);
                    },
                };
                proof {
                    lemma_find(t0, self.running_id, j as int);
                }
                if self.tasks[j].status == TaskStaus::Incomplete {
                    let res = self.start_task(p);
                    proof {
                        assert forall|x: int| 0 <= x < t0.len() implies if cascades_to(
                            t0,
                            id,
                            t0[x].id,
                        ) {
                            started(t0[x], #[trigger] self.tasks@[x])
                        } else {
                            self.tasks@[x] == t0[x]
                        } by {
                            lemma_cascade_frame(t0, t1, self.running_id, p, t0[x].id);
                            if cascades_to(t1, p, t1[x].id) {
                                lemma_cascade_below(t1, p, t1[x].id);
                            }
                            if x == i {
                                assert(!cascades_to(t1, p, t1[x].id));
                            }
                        }
                    }
                    res
                } else {
                    proof {
                        assert forall|x: int| 0 <= x < t0.len() implies if cascades_to(
                            t0,
                            id,
                            t0[x].id,
                        ) {
                            started(t0[x], #[trigger] self.tasks@[x])
                        } else {
                            self.tasks@[x] == t0[x]
                        } by {
                            if x != i {
                                assert(t0[x].id != id);
                            }
                        }
                    }
                    Ok(())
                }
            },
            None => {
                proof {
                    assert forall|x: int| 0 <= x < t0.len() implies if cascades_to(
                        t0,
                        id,
                        t0[x].id,
                    ) {
                        started(t0[x], #[trigger] self.tasks@[x])
                    } else {
                        self.tasks@[x] == t0[x]
                    } by {
                        if x != i {
                            assert(t0[x].id != id);
                        }
                    }
                }
                Ok(())
            },
        }
    }

    /// Completes the staged summary `staged` of task `id` with the uploaded
    /// `assets`: each asset gets a stored path, the summary's links to them
    /// are rewritten, and the result is rendered and recorded on the task.
    pub fn resolve_assets(&mut self, id: u64, staged: &str, assets: &Vec<Asset>) -> (r: Result<
        Resolution,
        TaskError,
    >)
        ensures
            r is Ok <==> has_id(old(self).tasks(), id),
            final(self).next_id() == old(self).next_id(),
            well_formed(final(self).tasks(), final(self).next_id()),
            final(self).tasks().len() == old(self).tasks().len(),
            forall|i: int|
                0 <= i < old(self).tasks().len() && old(self).tasks()[i].id != id ==> #[trigger] final(self).tasks()[i] == old(self).tasks()[i],
            forall|i: int|
                0 <= i < old(self).tasks().len() && old(self).tasks()[i].id == id ==> (
                r matches Ok(res) && #[trigger] final(self).tasks()[i] == (Task {
                    summary: Some(res.key),
                    ..old(self).tasks()[i]
                })),
            r matches Ok(res) ==> {
                &&& res.text@ == rewritten(staged@, 0, id, assets@)
                &&& res.html@ == html_of(res.text@)
                &&& res.key@ == summary_key_of(id)
                &&& res.image_paths@.len() == assets@.len()
                &&& forall|k: int|
                    0 <= k < assets@.len() ==> #[trigger] res.image_paths@[k]@ == image_dir()
                        + asset_key_of(id, assets@[k].name@, assets@[k].extension@)
            },
    {
        proof {
            use_type_invariant(&*self);
        }
        let i = match self.position(id) {
            Some(i) => i,
            None => {
                return Err(TaskError::TaskNotFound);
            },
        };
        let mut image_paths: Vec<String> = Vec::new();
        let mut k: usize = 0;
        while k < assets.len()
            invariant
                k <= assets@.len(),
                image_paths@.len() == k,
                forall|x: int|
                    0 <= x < k ==> #[trigger] image_paths@[x]@ == image_dir() + asset_key_of(
                        id,
                        assets@[x].name@,
                        assets@[x].extension@,
                    ),
            decreases assets@.len() - k,
        {
            image_paths.push(asset_path(id, &assets[k]));
            k = k + 1;
        }
        let text = rewrite_summary(staged, id, assets);
        let html = render_html(text.as_str());
        let key = summary_key(id);
        let mut tasks = self.take_tasks();
        tasks[i].summary = Some(key.clone());
        proof {
            lemma_same_keys_well_formed(old(self).tasks(), tasks@, self.running_id);
        }
        self.tasks = tasks;
        Ok(Resolution { image_paths, text, html, key })
    }
}

} // verus!
