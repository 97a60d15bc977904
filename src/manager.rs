use vstd::prelude::*;

use crate::codec::{
    decode_tasks, enc_list, encode_tasks, lemma_round_trip, parse_list, stored_list, DecodeError,
};
use crate::datetime::{due_status, status_spec, DateTime, DueStatus};
use crate::priority::{color_of, rank, Color, Priority};
use crate::task::{task_wf, Task, TaskView};

verus! {

/// The views of a sequence of tasks.
pub open spec fn views(s: Seq<Task>) -> Seq<TaskView> {
    s.map_values(|t: Task| t@)
}

pub open spec fn priority_is(p: Priority) -> spec_fn(TaskView) -> bool {
    |t: TaskView| t.priority == p
}

/// Stable sort by priority: the high tasks, then the medium ones, then the
/// low ones, each group in its original order.
pub open spec fn by_priority(s: Seq<TaskView>) -> Seq<TaskView> {
    s.filter(priority_is(Priority::High)) + s.filter(priority_is(Priority::Medium)) + s.filter(
        priority_is(Priority::Low),
    )
}

pub open spec fn sorted_by_priority(s: Seq<TaskView>) -> bool {
    forall|i: int, j: int|
        0 <= i < j < s.len() ==> rank(#[trigger] s[i].priority) <= rank(#[trigger] s[j].priority)
}

/// A filter keeps a sequence whose elements all pass it.
proof fn lemma_filter_all<A>(s: Seq<A>, p: spec_fn(A) -> bool)
    requires
        forall|i: int| 0 <= i < s.len() ==> p(#[trigger] s[i]),
    ensures
        s.filter(p) == s,
    decreases s.len(),
{
    reveal(Seq::filter);
    if s.len() > 0 {
        lemma_filter_all(s.drop_last(), p);
        assert(s.drop_last().push(s.last()) =~= s);
    }
}

/// A filter empties a sequence whose elements all fail it.
proof fn lemma_filter_none<A>(s: Seq<A>, p: spec_fn(A) -> bool)
    requires
        forall|i: int| 0 <= i < s.len() ==> !p(#[trigger] s[i]),
    ensures
        s.filter(p) == Seq::<A>::empty(),
    decreases s.len(),
{
    reveal(Seq::filter);
    if s.len() > 0 {
        lemma_filter_none(s.drop_last(), p);
    }
}

/// Where an element of `by_priority(s)` comes from, and which group it is in.
proof fn lemma_by_priority_at(s: Seq<TaskView>, i: int)
    requires
        0 <= i < by_priority(s).len(),
    ensures
        s.contains(by_priority(s)[i]),
        (by_priority(s)[i].priority == Priority::High) == (i < s.filter(
            priority_is(Priority::High),
        ).len()),
        (by_priority(s)[i].priority == Priority::Low) == (i >= s.filter(
            priority_is(Priority::High),
        ).len() + s.filter(priority_is(Priority::Medium)).len()),
{
    broadcast use vstd::seq_lib::group_filter_ensures;

    let h = s.filter(priority_is(Priority::High));
    let m = s.filter(priority_is(Priority::Medium));
    let l = s.filter(priority_is(Priority::Low));
    let r = by_priority(s);
    if i < h.len() {
        assert(r[i] == h[i]);
        assert(h.contains(r[i]));
        s.lemma_filter_contains_rev(priority_is(Priority::High), r[i]);
    } else if i < h.len() + m.len() {
        assert(r[i] == m[i - h.len()]);
        assert(m.contains(r[i]));
        s.lemma_filter_contains_rev(priority_is(Priority::Medium), r[i]);
    } else {
        assert(r[i] == l[i - h.len() - m.len()]);
        assert(l.contains(r[i]));
        s.lemma_filter_contains_rev(priority_is(Priority::Low), r[i]);
    }
}

/// Sorting by priority puts high tasks before medium ones before low ones.
pub proof fn lemma_by_priority_sorted(s: Seq<TaskView>)
    ensures
        sorted_by_priority(by_priority(s)),
{
    let r = by_priority(s);
    assert forall|i: int, j: int| 0 <= i < j < r.len() implies rank(#[trigger] r[i].priority)
        <= rank(#[trigger] r[j].priority) by {
        lemma_by_priority_at(s, i);
        lemma_by_priority_at(s, j);
    }
}

/// Sorting by priority keeps, within each priority, the order the tasks came in.
pub proof fn lemma_by_priority_stable(s: Seq<TaskView>, p: Priority)
    ensures
        by_priority(s).filter(priority_is(p)) == s.filter(priority_is(p)),
{
    broadcast use vstd::seq_lib::group_filter_ensures;

    let h = s.filter(priority_is(Priority::High));
    let m = s.filter(priority_is(Priority::Medium));
    let l = s.filter(priority_is(Priority::Low));
    Seq::filter_distributes_over_add(h + m, l, priority_is(p));
    Seq::filter_distributes_over_add(h, m, priority_is(p));
    match p {
        Priority::High => {
            lemma_filter_all(h, priority_is(p));
            lemma_filter_none(m, priority_is(p));
            lemma_filter_none(l, priority_is(p));
            assert(h + Seq::<TaskView>::empty() + Seq::<TaskView>::empty() =~= h);
        },
        Priority::Medium => {
            lemma_filter_none(h, priority_is(p));
            lemma_filter_all(m, priority_is(p));
            lemma_filter_none(l, priority_is(p));
            assert(Seq::<TaskView>::empty() + m + Seq::<TaskView>::empty() =~= m);
        },
        Priority::Low => {
            lemma_filter_none(h, priority_is(p));
            lemma_filter_none(m, priority_is(p));
            lemma_filter_all(l, priority_is(p));
            assert(Seq::<TaskView>::empty() + Seq::<TaskView>::empty() + l =~= l);
        },
    }
}

/// Adding a task leaves the list sorted by priority; the tasks of each
/// priority keep the order they had, and the new task follows those of its own
/// priority.
pub proof fn lemma_add_keeps_order(before: Seq<TaskView>, t: TaskView, p: Priority)
    ensures
        sorted_by_priority(by_priority(before.push(t))),
        by_priority(before.push(t)).filter(priority_is(p)) == if t.priority == p {
            before.filter(priority_is(p)).push(t)
        } else {
            before.filter(priority_is(p))
        },
{
    lemma_by_priority_sorted(before.push(t));
    lemma_by_priority_stable(before.push(t), p);
    before.lemma_filter_push(t, priority_is(p));
}

/// Re-sorting a sorted list after one more task gives the same as sorting
/// all the tasks at once.
pub proof fn lemma_resort_push(s: Seq<TaskView>, t: TaskView)
    ensures
        by_priority(by_priority(s).push(t)) == by_priority(s.push(t)),
{
    let r = by_priority(s);
    assert forall|p: Priority| r.push(t).filter(priority_is(p)) == s.push(t).filter(priority_is(p)) by {
        lemma_by_priority_stable(s, p);
        r.lemma_filter_push(t, priority_is(p));
        s.lemma_filter_push(t, priority_is(p));
    }
    assert(r.push(t).filter(priority_is(Priority::High)) == s.push(t).filter(priority_is(Priority::High)));
    assert(r.push(t).filter(priority_is(Priority::Medium)) == s.push(t).filter(priority_is(Priority::Medium)));
    assert(r.push(t).filter(priority_is(Priority::Low)) == s.push(t).filter(priority_is(Priority::Low)));
}

/// The list after adding the tasks of `ts` one by one, in order, to an empty list.
pub open spec fn after_adds(ts: Seq<TaskView>) -> Seq<TaskView>
    decreases ts.len(),
{
    if ts.len() == 0 {
        Seq::empty()
    } else {
        by_priority(after_adds(ts.drop_last()).push(ts.last()))
    }
}

/// After any sequence of adds to an empty list, the list holds the high
/// tasks, then the medium ones, then the low ones, each group in the order of
/// the calls.
pub proof fn lemma_after_adds(ts: Seq<TaskView>)
    ensures
        after_adds(ts) == by_priority(ts),
        sorted_by_priority(after_adds(ts)),
    decreases ts.len(),
{
    if ts.len() == 0 {
        assert(by_priority(ts) =~= Seq::<TaskView>::empty()) by {
            reveal(Seq::filter);
        }
    } else {
        let pre = ts.drop_last();
        lemma_after_adds(pre);
        lemma_resort_push(pre, ts.last());
        assert(pre.push(ts.last()) =~= ts);
    }
    lemma_by_priority_sorted(ts);
}

/// A stable sort by priority of `v`: high, then medium, then low.
fn sorted_copy(v: &Vec<Task>) -> (r: Vec<Task>)
    ensures
        views(r@) == by_priority(views(v@)),
{
    let ghost s = views(v@);
    let mut hi: Vec<Task> = Vec::new();
    let mut me: Vec<Task> = Vec::new();
    let mut lo: Vec<Task> = Vec::new();
    let mut i: usize = 0;
    while i < v.len()
        invariant
            i <= v.len(),
            s == views(v@),
            views(hi@) == s.take(i as int).filter(priority_is(Priority::High)),
            views(me@) == s.take(i as int).filter(priority_is(Priority::Medium)),
            views(lo@) == s.take(i as int).filter(priority_is(Priority::Low)),
        decreases v.len() - i,
    {
        let t = v[i].duplicate();
        assert(s.take(i + 1) =~= s.take(i as int).push(t@));
        proof {
            s.take(i as int).lemma_filter_push(t@, priority_is(Priority::High));
            s.take(i as int).lemma_filter_push(t@, priority_is(Priority::Medium));
            s.take(i as int).lemma_filter_push(t@, priority_is(Priority::Low));
        }
        match t.priority {
            Priority::High => {
                assert(views(hi@.push(t)) =~= views(hi@).push(t@));
                hi.push(t);
            },
            Priority::Medium => {
                assert(views(me@.push(t)) =~= views(me@).push(t@));
                me.push(t);
            },
            Priority::Low => {
                assert(views(lo@.push(t)) =~= views(lo@).push(t@));
                lo.push(t);
            },
        }
        i = i + 1;
    }
    assert(s.take(i as int) =~= s);
    let ghost (h0, m0, l0) = (hi@, me@, lo@);
    hi.append(&mut me);
    hi.append(&mut lo);
    assert(views(hi@) =~= views(h0) + views(m0) + views(l0));
    hi
}

/// Owner of the task list, kept in the order in which tasks are shown.
pub struct TaskManager {
    tasks: Vec<Task>,
}

impl View for TaskManager {
    type V = Seq<TaskView>;

    closed spec fn view(&self) -> Seq<TaskView> {
        views(self.tasks@)
    }
}

impl TaskManager {
    /// Every due time in the list is a real moment.
    pub open spec fn wf(&self) -> bool {
        forall|i: int| 0 <= i < self@.len() ==> task_wf(#[trigger] self@[i])
    }

    /// An empty list.
    pub fn new() -> (r: TaskManager)
        ensures
            r@ == Seq::<TaskView>::empty(),
            r.wf(),
    {
        let r = TaskManager { tasks: Vec::new() };
        assert(r@ =~= Seq::<TaskView>::empty());
        r
    }

    /// Number of tasks.
    pub fn len(&self) -> (r: usize)
        ensures
            r == self@.len(),
    {
        self.tasks.len()
    }

    /// The task at position `index`.
    pub fn get(&self, index: usize) -> (r: &Task)
        requires
            index < self@.len(),
        ensures
            r@ == self@[index as int],
    {
        &self.tasks[index]
    }

    /// Appends a new, uncompleted task and re-sorts the list stably by priority.
    pub fn add_task(&mut self, description: String, priority: Priority, due_time: Option<DateTime>)
        requires
            old(self).wf(),
            due_time matches Some(d) ==> d.wf(),
        ensures
            final(self)@ == by_priority(
                old(self)@.push(
                    TaskView { description: description@, completed: false, priority, due_time },
                ),
            ),
            sorted_by_priority(final(self)@),
            final(self).wf(),
    {
        let t = Task::new(description, priority, due_time);
        let ghost tv = t@;
        let ghost before = self@;
        self.tasks.push(t);
        assert(self@ =~= before.push(tv));
        let sorted = sorted_copy(&self.tasks);
        let ghost pushed = self@;
        self.tasks = sorted;
        proof {
            lemma_by_priority_sorted(pushed);
            assert forall|i: int| 0 <= i < self@.len() implies task_wf(#[trigger] self@[i]) by {
                lemma_by_priority_at(pushed, i);
            }
        }
    }

    /// Marks the task at `index` completed; an index past the end changes nothing.
    pub fn complete_task(&mut self, index: usize)
        requires
            old(self).wf(),
        ensures
            index < old(self)@.len() ==> final(self)@ == old(self)@.update(
                index as int,
                TaskView { completed: true, ..old(self)@[index as int] },
            ),
            index >= old(self)@.len() ==> final(self)@ == old(self)@,
            final(self).wf(),
    {
        if index < self.tasks.len() {
            let ghost before = self@;
            let mut t = self.tasks[index].duplicate();
            t.completed = true;
            self.tasks.set(index, t);
            assert(self@ =~= before.update(
                index as int,
                TaskView { completed: true, ..before[index as int] },
            ));
        }
    }

    /// The persistence text of the list, in its current order.
    pub fn save_text(&self) -> (r: String)
        requires
            self.wf(),
        ensures
            r@ == enc_list(self@),
    {
        assert forall|i: int| 0 <= i < self.tasks@.len() implies task_wf(
            #[trigger] self.tasks@[i]@,
        ) by {
            assert(self@[i] == self.tasks@[i]@);
        }
        encode_tasks(&self.tasks)
    }

    /// Replaces the list with the one that `text` holds; on malformed text the
    /// list stays as it was and an error is returned.
    pub fn load_text(&mut self, text: &str) -> (r: Result<(), DecodeError>)
        ensures
            match stored_list(text@) {
                Some(ts) => r is Ok && final(self)@ == ts && final(self).wf(),
                None => r is Err && final(self)@ == old(self)@,
            },
    {
        match decode_tasks(text) {
            Ok(v) => {
                self.tasks = v;
                Ok(())
            },
            Err(e) => Err(e),
        }
    }

    /// What the list shows for each task, with deadlines seen at the moment
    /// `now`; without a present moment no deadline status is shown.
    pub fn entries(&self, now: Option<DateTime>) -> (r: Vec<Entry>)
        requires
            self.wf(),
            now matches Some(n) ==> n.wf(),
        ensures
            r@.len() == self@.len(),
            forall|i: int| 0 <= i < r@.len() ==> #[trigger] entry_matches(r@[i], i, self@[i], now),
    {
        let mut out: Vec<Entry> = Vec::new();
        let mut i: usize = 0;
        while i < self.tasks.len()
            invariant
                self.wf(),
                now matches Some(n) ==> n.wf(),
                i <= self@.len(),
                out@.len() == i,
                forall|k: int| 0 <= k < i ==> #[trigger] entry_matches(out@[k], k, self@[k], now),
            decreases self@.len() - i,
        {
            let t = &self.tasks[i];
            assert(task_wf(self@[i as int]));
            let status = match (&t.due_time, &now) {
                (Some(d), Some(n)) => Some(due_status(d, n)),
                _ => None,
            };
            out.push(
                Entry {
                    index: i,
                    completed: t.completed,
                    description: t.description.clone(),
                    color: t.priority.color(),
                    status,
                },
            );
            i = i + 1;
        }
        out
    }
}

/// One line of the shown list.
pub struct Entry {
    pub index: usize,
    pub completed: bool,
    pub description: String,
    /// The colour of the task's priority.
    pub color: Color,
    /// Where the deadline stands, for a task that has one.
    pub status: Option<DueStatus>,
}

/// `e` shows task `t` at position `i`, with its deadline seen at `now`.
pub open spec fn entry_matches(e: Entry, i: int, t: TaskView, now: Option<DateTime>) -> bool {
    &&& e.index == i
    &&& e.completed == t.completed
    &&& e.description@ == t.description
    &&& e.color == color_of(t.priority)
    &&& e.status == match (t.due_time, now) {
        (Some(d), Some(n)) => Some(status_spec(d.seconds(), n.seconds())),
        _ => None,
    }
}

impl Entry {
    /// The completion marker: `[x]` for a completed task, `[ ]` otherwise.
    pub fn marker(&self) -> (r: &'static str)
        ensures
            r@ == (if self.completed {
                "[x]"@
            } else {
                "[ ]"@
            }),
    {
        if self.completed {
            "[x]"
        } else {
            "[ ]"
        }
    }
}

/// Saving, loading what was saved and saving again writes the same text:
/// the text depends on the list alone, and loading it restores the list.
pub proof fn lemma_save_idempotent(ts: Seq<TaskView>)
    requires
        forall|k: int| 0 <= k < ts.len() ==> task_wf(#[trigger] ts[k]),
    ensures
        stored_list(enc_list(ts)) == Some(ts),
        enc_list(stored_list(enc_list(ts))->0) == enc_list(ts),
{
    lemma_round_trip(ts);
}

} // verus!
