use crate::id::TaskId;
use crate::status::{rank, spec_next, spec_prev, TaskStatus};
use crate::timestamp::Timestamp;
use vstd::prelude::*;
use vstd::multiset::Multiset;
use vstd::seq_lib::lemma_multiset_commutative;

verus! {

/// A task with its metadata and lifecycle status.
#[derive(Debug)]
pub struct Task {
    pub id: TaskId,
    pub name: String,
    pub status: TaskStatus,
    pub created_at: Timestamp,
    pub updated_at: Timestamp,
}

/// What a task is, with its name as a sequence of characters.
pub struct TaskView {
    pub id: TaskId,
    pub name: Seq<char>,
    pub status: TaskStatus,
    pub created_at: Timestamp,
    pub updated_at: Timestamp,
}

impl View for Task {
    type V = TaskView;

    open spec fn view(&self) -> TaskView {
        TaskView {
            id: self.id,
            name: self.name@,
            status: self.status,
            created_at: self.created_at,
            updated_at: self.updated_at,
        }
    }
}

impl TaskView {
    /// Both timestamps are valid.
    pub open spec fn wf(&self) -> bool {
        self.created_at.wf() && self.updated_at.wf()
    }
}

impl Clone for Task {
    fn clone(&self) -> (r: Task)
        ensures
            r == *self,
    {
        Task {
            id: self.id,
            name: self.name.clone(),
            status: self.status,
            created_at: self.created_at,
            updated_at: self.updated_at,
        }
    }
}

/// A task after a step forward at time `now`: the next status and `now` as its update
/// time; from `Done`, the task unchanged.
pub open spec fn forwarded(t: Task, now: Timestamp) -> Task {
    match spec_next(t.status) {
        Some(s) => Task { status: s, updated_at: now, ..t },
        None => t,
    }
}

/// A task after a step backward at time `now`: the previous status and `now` as its
/// update time; from `Todo`, the task unchanged.
pub open spec fn backwarded(t: Task, now: Timestamp) -> Task {
    match spec_prev(t.status) {
        Some(s) => Task { status: s, updated_at: now, ..t },
        None => t,
    }
}

/// Three steps forward from `Todo` give the statuses `Doing`, `Done`, `Done`; the third
/// step changes nothing (neither the status, hence the file's path, nor the update time).
pub proof fn law_forward_three_steps(t: Task, n1: Timestamp, n2: Timestamp, n3: Timestamp)
    requires
        t.status == TaskStatus::Todo,
    ensures
        forwarded(t, n1).status == TaskStatus::Doing,
        forwarded(forwarded(t, n1), n2).status == TaskStatus::Done,
        forwarded(forwarded(forwarded(t, n1), n2), n3) == forwarded(forwarded(t, n1), n2),
{
}

/// Three steps backward from `Done` give the statuses `Doing`, `Todo`, `Todo`; the third
/// step changes nothing.
pub proof fn law_backward_three_steps(t: Task, n1: Timestamp, n2: Timestamp, n3: Timestamp)
    requires
        t.status == TaskStatus::Done,
    ensures
        backwarded(t, n1).status == TaskStatus::Doing,
        backwarded(backwarded(t, n1), n2).status == TaskStatus::Todo,
        backwarded(backwarded(backwarded(t, n1), n2), n3) == backwarded(backwarded(t, n1), n2),
{
}

/// The tasks of `s` that have status `st`, in their order in `s`.
pub open spec fn with_status(s: Seq<Task>, st: TaskStatus) -> Seq<Task> {
    s.filter(|t: Task| t.status == st)
}

/// `s` (ordered by creation) with `t` inserted after every task not created later than `t`.
pub open spec fn insert_by_created(s: Seq<Task>, t: Task) -> Seq<Task>
    decreases s.len(),
{
    if s.len() == 0 {
        seq![t]
    } else if t.created_at.spec_precedes(s.last().created_at) {
        insert_by_created(s.drop_last(), t).push(s.last())
    } else {
        s.push(t)
    }
}

/// The stable sort of `s` by creation time: tasks created at the same instant keep
/// their relative order.
pub open spec fn sort_by_created(s: Seq<Task>) -> Seq<Task>
    decreases s.len(),
{
    if s.len() == 0 {
        s
    } else {
        insert_by_created(sort_by_created(s.drop_last()), s.last())
    }
}

/// The display order: the `Todo` tasks, then the `Doing` tasks, then the `Done` tasks,
/// each group sorted stably by creation time.
pub open spec fn grouped(s: Seq<Task>) -> Seq<Task> {
    sort_by_created(with_status(s, TaskStatus::Todo)) + sort_by_created(
        with_status(s, TaskStatus::Doing),
    ) + sort_by_created(with_status(s, TaskStatus::Done))
}

/// No task of `s` stands before one created strictly earlier.
pub open spec fn is_created_ordered(s: Seq<Task>) -> bool {
    forall|i: int, j: int|
        0 <= i < j < s.len() ==> !#[trigger] s[j].created_at.spec_precedes(#[trigger] s[i].created_at)
}

impl Task {
    /// Both timestamps are valid.
    pub open spec fn wf(&self) -> bool {
        self.created_at.wf() && self.updated_at.wf()
    }

    /// Creates a task with the given name and identifier, status `Todo`, and `now` as
    /// both its creation and its update time. Callers pass `TaskId::new_random()` and
    /// the time that `Timestamp::now` reads.
    pub fn new(name: String, id: TaskId, now: Timestamp) -> (r: Task)
        ensures
            r == (Task { id, name, status: TaskStatus::Todo, created_at: now, updated_at: now }),
    {
        Task { id, name, status: TaskStatus::Todo, created_at: now, updated_at: now }
    }

    /// Sets the status and records `now` as the time of the change.
    pub fn update_status(&mut self, new_status: TaskStatus, now: Timestamp)
        ensures
            *final(self) == (Task { status: new_status, updated_at: now, ..*old(self) }),
    {
        self.status = new_status;
        self.updated_at = now;
    }

    /// Moves the task one step forward (`Todo -> Doing -> Done`) and stamps it with
    /// `now`. From `Done` nothing changes. Returns whether the status changed.
    pub fn forward_status(&mut self, now: Timestamp) -> (moved: bool)
        ensures
            moved == spec_next(old(self).status).is_some(),
            *final(self) == forwarded(*old(self), now),
            moved ==> *final(self) == (Task {
                status: spec_next(old(self).status).unwrap(),
                updated_at: now,
                ..*old(self)
            }),
            !moved ==> *final(self) == *old(self),
    {
        match self.status.next() {
            Some(s) => {
                self.update_status(s, now);
                true
            },
            None => false,
        }
    }

    /// Moves the task one step backward (`Done -> Doing -> Todo`) and stamps it with
    /// `now`. From `Todo` nothing changes. Returns whether the status changed.
    pub fn backward_status(&mut self, now: Timestamp) -> (moved: bool)
        ensures
            moved == spec_prev(old(self).status).is_some(),
            *final(self) == backwarded(*old(self), now),
            moved ==> *final(self) == (Task {
                status: spec_prev(old(self).status).unwrap(),
                updated_at: now,
                ..*old(self)
            }),
            !moved ==> *final(self) == *old(self),
    {
        match self.status.prev() {
            Some(s) => {
                self.update_status(s, now);
                true
            },
            None => false,
        }
    }

    /// Copies of the tasks that have the given status, in their original order.
    pub fn filter_by_status(tasks: &[Task], status: TaskStatus) -> (r: Vec<Task>)
        ensures
            r@ == with_status(tasks@, status),
    {
        let mut r: Vec<Task> = Vec::new();
        let mut i: usize = 0;
        while i < tasks.len()
            invariant
                i <= tasks@.len(),
                r@ == with_status(tasks@.subrange(0, i as int), status),
            decreases tasks@.len() - i,
        {
            proof {
                assert(tasks@.subrange(0, i as int + 1).drop_last() == tasks@.subrange(0, i as int));
            }
            let ghost prev = tasks@.subrange(0, i as int);
            let ghost next = tasks@.subrange(0, i as int + 1);
            proof {
                assert(next.last() == tasks@[i as int]);
                assert(next.drop_last() == prev);
                reveal(Seq::filter);
                assert(with_status(next, status) == if next.last().status == status {
                    with_status(prev, status).push(next.last())
                } else {
                    with_status(prev, status)
                });
            }
            if tasks[i].status == status {
                r.push(tasks[i].clone());
                proof {
                    assert(with_status(next, status) == with_status(prev, status).push(tasks@[i as int]));
                }
            } else {
                proof {
                    assert(with_status(next, status) == with_status(prev, status));
                }
            }
            i += 1;
        }
        proof {
            assert(tasks@.subrange(0, i as int) == tasks@);
        }
        r
    }

    /// Copies of the tasks that do not have the given status, in their original order.
    pub fn without_status(tasks: &[Task], status: TaskStatus) -> (r: Vec<Task>)
        ensures
            r@ == tasks@.filter(|t: Task| t.status != status),
    {
        let mut r: Vec<Task> = Vec::new();
        let mut i: usize = 0;
        while i < tasks.len()
            invariant
                i <= tasks@.len(),
                r@ == tasks@.subrange(0, i as int).filter(|t: Task| t.status != status),
            decreases tasks@.len() - i,
        {
            let ghost prev = tasks@.subrange(0, i as int);
            let ghost next = tasks@.subrange(0, i as int + 1);
            proof {
                assert(next.last() == tasks@[i as int]);
                assert(next.drop_last() == prev);
                reveal(Seq::filter);
            }
            if tasks[i].status != status {
                r.push(tasks[i].clone());
            }
            i += 1;
        }
        proof {
            assert(tasks@.subrange(0, i as int) == tasks@);
        }
        r
    }

    /// Sorts tasks into the display order: grouped by status (`Todo`, `Doing`,
    /// `Done`) and, within each group, stably by creation time.
    pub fn sort(tasks: Vec<Task>) -> (r: Vec<Task>)
        ensures
            r@ == grouped(tasks@),
    {
        let mut todos = sort_by_created_at(Self::filter_by_status(tasks.as_slice(), TaskStatus::Todo));
        let mut doings = sort_by_created_at(Self::filter_by_status(tasks.as_slice(), TaskStatus::Doing));
        let mut dones = sort_by_created_at(Self::filter_by_status(tasks.as_slice(), TaskStatus::Done));
        todos.append(&mut doings);
        todos.append(&mut dones);
        todos
    }
}

/// Inserts `t` into `out` after every task not created later than `t`.
fn insert_by_created_at(out: &mut Vec<Task>, t: Task)
    ensures
        final(out)@ == insert_by_created(old(out)@, t),
{
    let ghost s = out@;
    let mut j: usize = out.len();
    proof {
        assert(s.subrange(0, s.len() as int) == s);
        assert(s.subrange(s.len() as int, s.len() as int) == Seq::<Task>::empty());
        assert(s + Seq::<Task>::empty() == s);
    }
    while j > 0 && t.created_at.precedes(&out[j - 1].created_at)
        invariant
            out@ == s,
            j <= s.len(),
            insert_by_created(s, t) == insert_by_created(s.subrange(0, j as int), t) + s.subrange(
                j as int,
                s.len() as int,
            ),
        decreases j,
    {
        proof {
            let p = s.subrange(0, j as int);
            assert(p.drop_last() == s.subrange(0, j - 1));
            assert(s.subrange(j - 1, s.len() as int) == seq![p.last()] + s.subrange(j as int, s.len() as int));
            assert(insert_by_created(p, t) == insert_by_created(s.subrange(0, j - 1), t).push(p.last()));
            assert(insert_by_created(s.subrange(0, j - 1), t).push(p.last()) + s.subrange(j as int, s.len() as int)
                == insert_by_created(s.subrange(0, j - 1), t) + s.subrange(j - 1, s.len() as int));
        }
        j -= 1;
    }
    proof {
        let p = s.subrange(0, j as int);
        assert(insert_by_created(p, t) == p.push(t));
        assert(s.insert(j as int, t) == p.push(t) + s.subrange(j as int, s.len() as int));
    }
    out.insert(j, t);
}

/// The stable sort of `tasks` by creation time.
pub(crate) fn sort_by_created_at(tasks: Vec<Task>) -> (r: Vec<Task>)
    ensures
        r@ == sort_by_created(tasks@),
{
    let mut out: Vec<Task> = Vec::new();
    let mut i: usize = 0;
    while i < tasks.len()
        invariant
            i <= tasks@.len(),
            out@ == sort_by_created(tasks@.subrange(0, i as int)),
        decreases tasks@.len() - i,
    {
        proof {
            assert(tasks@.subrange(0, i as int + 1).drop_last() == tasks@.subrange(0, i as int));
        }
        insert_by_created_at(&mut out, tasks[i].clone());
        i += 1;
    }
    proof {
        assert(tasks@.subrange(0, i as int) == tasks@);
    }
    out
}

/// Inserting keeps every task and adds `t`.
proof fn lemma_insert_multiset(s: Seq<Task>, t: Task)
    ensures
        insert_by_created(s, t).to_multiset() == s.to_multiset().insert(t),
    decreases s.len(),
{
    broadcast use vstd::seq_lib::group_to_multiset_ensures, vstd::multiset::group_multiset_axioms;

    if s.len() > 0 && t.created_at.spec_precedes(s.last().created_at) {
        lemma_insert_multiset(s.drop_last(), t);
        assert(s.drop_last().push(s.last()) == s);
        assert(insert_by_created(s, t).to_multiset() =~= s.to_multiset().insert(t));
    } else if s.len() == 0 {
        assert(seq![t] == s.push(t));
    }
}

/// Sorting by creation keeps exactly the given tasks.
proof fn lemma_sort_multiset(s: Seq<Task>)
    ensures
        sort_by_created(s).to_multiset() == s.to_multiset(),
    decreases s.len(),
{
    broadcast use vstd::seq_lib::group_to_multiset_ensures;

    if s.len() > 0 {
        lemma_sort_multiset(s.drop_last());
        lemma_insert_multiset(sort_by_created(s.drop_last()), s.last());
        assert(s.drop_last().push(s.last()) == s);
    }
}

/// Inserting into a sequence ordered by creation keeps it ordered.
proof fn lemma_insert_ordered(s: Seq<Task>, t: Task)
    requires
        is_created_ordered(s),
    ensures
        is_created_ordered(insert_by_created(s, t)),
    decreases s.len(),
{
    broadcast use vstd::seq_lib::group_to_multiset_ensures, vstd::multiset::group_multiset_axioms;

    if s.len() > 0 && t.created_at.spec_precedes(s.last().created_at) {
        let p = s.drop_last();
        let q = insert_by_created(p, t);
        lemma_insert_ordered(p, t);
        lemma_insert_multiset(p, t);
        assert forall|i: int| 0 <= i < q.len() implies !s.last().created_at.spec_precedes(
            #[trigger] q[i].created_at,
        ) by {
            assert(q.to_multiset().count(q[i]) > 0);
            if q[i] != t {
                assert(p.to_multiset().count(q[i]) > 0);
                let k = choose|k: int| 0 <= k < p.len() && p[k] == q[i];
                assert(s[k] == p[k]);
                assert(!s[s.len() - 1].created_at.spec_precedes(s[k].created_at));
            }
        }
        let r = q.push(s.last());
        assert forall|i: int, j: int| 0 <= i < j < r.len() implies !#[trigger] r[j].created_at.spec_precedes(
            #[trigger] r[i].created_at,
        ) by {
            if j < q.len() {
                assert(r[j] == q[j] && r[i] == q[i]);
            } else {
                assert(r[i] == q[i]);
            }
        }
    } else if s.len() > 0 {
        let r = s.push(t);
        assert forall|i: int, j: int| 0 <= i < j < r.len() implies !#[trigger] r[j].created_at.spec_precedes(
            #[trigger] r[i].created_at,
        ) by {
            if j < s.len() {
                assert(r[j] == s[j] && r[i] == s[i]);
            } else {
                assert(r[i] == s[i]);
                if i < s.len() - 1 {
                    assert(!s[s.len() - 1].created_at.spec_precedes(s[i].created_at));
                }
            }
        }
    }
}

/// Sorting by creation yields a sequence ordered by creation.
proof fn lemma_sort_ordered(s: Seq<Task>)
    ensures
        is_created_ordered(sort_by_created(s)),
    decreases s.len(),
{
    if s.len() > 0 {
        lemma_sort_ordered(s.drop_last());
        lemma_insert_ordered(sort_by_created(s.drop_last()), s.last());
    }
}

/// Every task of the sorted group of status `st` has status `st`.
proof fn lemma_sorted_group_status(s: Seq<Task>, st: TaskStatus)
    ensures
        forall|i: int|
            0 <= i < sort_by_created(with_status(s, st)).len() ==> (#[trigger] sort_by_created(
                with_status(s, st),
            )[i]).status == st,
{
    broadcast use vstd::seq_lib::group_to_multiset_ensures, vstd::seq::group_seq_axioms;

    let f = with_status(s, st);
    let g = sort_by_created(f);
    lemma_sort_multiset(f);
    assert forall|i: int| 0 <= i < g.len() implies (#[trigger] g[i]).status == st by {
        assert(g.to_multiset().count(g[i]) > 0);
        assert(f.contains(g[i]));
        let k = choose|k: int| 0 <= k < f.len() && f[k] == g[i];
        s.lemma_filter_pred(|t: Task| t.status == st, k);
    }
}

/// The three status groups together hold exactly the tasks of `s`.
proof fn lemma_groups_multiset(s: Seq<Task>)
    ensures
        with_status(s, TaskStatus::Todo).to_multiset().add(
            with_status(s, TaskStatus::Doing).to_multiset(),
        ).add(with_status(s, TaskStatus::Done).to_multiset()) == s.to_multiset(),
    decreases s.len(),
{
    broadcast use vstd::seq_lib::group_to_multiset_ensures, vstd::multiset::group_multiset_axioms;

    if s.len() == 0 {
        reveal(Seq::filter);
        assert(with_status(s, TaskStatus::Todo).to_multiset() =~= Multiset::empty());
        assert(with_status(s, TaskStatus::Doing).to_multiset() =~= Multiset::empty());
        assert(with_status(s, TaskStatus::Done).to_multiset() =~= Multiset::empty());
        assert(s.to_multiset() =~= Multiset::empty());
    } else {
        let p = s.drop_last();
        let x = s.last();
        lemma_groups_multiset(p);
        assert(p.push(x) == s);
        p.lemma_filter_push(x, |t: Task| t.status == TaskStatus::Todo);
        p.lemma_filter_push(x, |t: Task| t.status == TaskStatus::Doing);
        p.lemma_filter_push(x, |t: Task| t.status == TaskStatus::Done);
        assert(with_status(s, TaskStatus::Todo).to_multiset().add(
            with_status(s, TaskStatus::Doing).to_multiset(),
        ).add(with_status(s, TaskStatus::Done).to_multiset()) =~= s.to_multiset());
    }
}

/// Sorting keeps exactly the given tasks; it puts every `Todo` task before every
/// `Doing` task and every `Doing` task before every `Done` task; and no task stands
/// before a task of the same status that was created strictly earlier.
pub proof fn law_sort_groups_and_orders(tasks: Seq<Task>)
    ensures
        grouped(tasks).to_multiset() == tasks.to_multiset(),
        forall|i: int, j: int|
            0 <= i < j < grouped(tasks).len() ==> rank((#[trigger] grouped(tasks)[i]).status) <= rank(
                (#[trigger] grouped(tasks)[j]).status,
            ),
        forall|i: int, j: int|
            0 <= i < j < grouped(tasks).len() && (#[trigger] grouped(tasks)[i]).status == (
            #[trigger] grouped(tasks)[j]).status ==> !grouped(tasks)[j].created_at.spec_precedes(
                grouped(tasks)[i].created_at,
            ),
{
    broadcast use vstd::multiset::group_multiset_axioms;

    let a = sort_by_created(with_status(tasks, TaskStatus::Todo));
    let b = sort_by_created(with_status(tasks, TaskStatus::Doing));
    let c = sort_by_created(with_status(tasks, TaskStatus::Done));
    let r = grouped(tasks);
    lemma_sort_multiset(with_status(tasks, TaskStatus::Todo));
    lemma_sort_multiset(with_status(tasks, TaskStatus::Doing));
    lemma_sort_multiset(with_status(tasks, TaskStatus::Done));
    lemma_multiset_commutative(a, b);
    lemma_multiset_commutative(a + b, c);
    lemma_groups_multiset(tasks);
    lemma_sorted_group_status(tasks, TaskStatus::Todo);
    lemma_sorted_group_status(tasks, TaskStatus::Doing);
    lemma_sorted_group_status(tasks, TaskStatus::Done);
    lemma_sort_ordered(with_status(tasks, TaskStatus::Todo));
    lemma_sort_ordered(with_status(tasks, TaskStatus::Doing));
    lemma_sort_ordered(with_status(tasks, TaskStatus::Done));
    assert forall|k: int| 0 <= k < r.len() implies #[trigger] r[k] == if k < a.len() {
        a[k]
    } else if k < a.len() + b.len() {
        b[k - a.len()]
    } else {
        c[k - a.len() - b.len()]
    } by {}
    assert forall|i: int, j: int| 0 <= i < j < r.len() implies rank((#[trigger] r[i]).status) <= rank(
        (#[trigger] r[j]).status,
    ) by {
        if i < a.len() {
            assert(r[i] == a[i]);
        } else if i < a.len() + b.len() {
            assert(r[i] == b[i - a.len()]);
            assert(r[j] == if j < a.len() + b.len() { b[j - a.len()] } else { c[j - a.len() - b.len()] });
        } else {
            assert(r[i] == c[i - a.len() - b.len()]);
            assert(r[j] == c[j - a.len() - b.len()]);
        }
    }
    assert forall|i: int, j: int|
        0 <= i < j < r.len() && (#[trigger] r[i]).status == (#[trigger] r[j]).status implies !r[j].created_at.spec_precedes(
        r[i].created_at,
    ) by {
        assert(r[i] == if i < a.len() { a[i] } else if i < a.len() + b.len() { b[i - a.len()] } else { c[i - a.len() - b.len()] });
        assert(r[j] == if j < a.len() { a[j] } else if j < a.len() + b.len() { b[j - a.len()] } else { c[j - a.len() - b.len()] });
        if j < a.len() {
            assert(!a[j].created_at.spec_precedes(a[i].created_at));
        } else if j < a.len() + b.len() {
            if i >= a.len() {
                assert(!b[j - a.len()].created_at.spec_precedes(b[i - a.len()].created_at));
            }
        } else if i >= a.len() + b.len() {
            assert(!c[j - a.len() - b.len()].created_at.spec_precedes(c[i - a.len() - b.len()].created_at));
        }
    }
}

/// Tasks of status `st` created at instant `c`.
pub open spec fn in_slot(st: TaskStatus, c: Timestamp) -> spec_fn(Task) -> bool {
    |t: Task| t.status == st && t.created_at == c
}

/// Inserting `t` keeps the order of the tasks of one status and instant, with `t` last
/// among them.
proof fn lemma_insert_slot(s: Seq<Task>, t: Task, st: TaskStatus, c: Timestamp)
    ensures
        insert_by_created(s, t).filter(in_slot(st, c)) == if in_slot(st, c)(t) {
            s.filter(in_slot(st, c)).push(t)
        } else {
            s.filter(in_slot(st, c))
        },
    decreases s.len(),
{
    let p = in_slot(st, c);
    if s.len() == 0 {
        reveal(Seq::filter);
        assert(seq![t] == s.push(t));
        s.lemma_filter_push(t, p);
    } else {
        let d = s.drop_last();
        let l = s.last();
        assert(d.push(l) == s);
        d.lemma_filter_push(l, p);
        if t.created_at.spec_precedes(l.created_at) {
            lemma_insert_slot(d, t, st, c);
            insert_by_created(d, t).lemma_filter_push(l, p);
            assert(t.created_at != l.created_at);
        } else {
            s.lemma_filter_push(t, p);
        }
    }
}

/// Sorting by creation keeps the order of the tasks of one status and instant.
proof fn lemma_sort_slot(s: Seq<Task>, st: TaskStatus, c: Timestamp)
    ensures
        sort_by_created(s).filter(in_slot(st, c)) == s.filter(in_slot(st, c)),
    decreases s.len(),
{
    if s.len() == 0 {
    } else {
        let d = s.drop_last();
        assert(d.push(s.last()) == s);
        lemma_sort_slot(d, st, c);
        lemma_insert_slot(sort_by_created(d), s.last(), st, c);
        d.lemma_filter_push(s.last(), in_slot(st, c));
    }
}

/// The tasks of one status and instant within the group of status `x`: all of them
/// when `x` is their status, none otherwise.
proof fn lemma_group_slot(s: Seq<Task>, x: TaskStatus, st: TaskStatus, c: Timestamp)
    ensures
        with_status(s, x).filter(in_slot(st, c)) == if x == st {
            s.filter(in_slot(st, c))
        } else {
            Seq::<Task>::empty()
        },
    decreases s.len(),
{
    let p = in_slot(st, c);
    if s.len() == 0 {
        reveal(Seq::filter);
    } else {
        let d = s.drop_last();
        let l = s.last();
        assert(d.push(l) == s);
        lemma_group_slot(d, x, st, c);
        d.lemma_filter_push(l, |t: Task| t.status == x);
        d.lemma_filter_push(l, p);
        with_status(d, x).lemma_filter_push(l, p);
    }
}

/// Sorting is stable: the tasks of one status that were created at the same instant
/// come out in the order in which they went in.
pub proof fn law_sort_stable(tasks: Seq<Task>, st: TaskStatus, c: Timestamp)
    ensures
        grouped(tasks).filter(in_slot(st, c)) == tasks.filter(in_slot(st, c)),
{
    let p = in_slot(st, c);
    let a = sort_by_created(with_status(tasks, TaskStatus::Todo));
    let b = sort_by_created(with_status(tasks, TaskStatus::Doing));
    let d = sort_by_created(with_status(tasks, TaskStatus::Done));
    Seq::filter_distributes_over_add(a, b, p);
    Seq::filter_distributes_over_add(a + b, d, p);
    lemma_sort_slot(with_status(tasks, TaskStatus::Todo), st, c);
    lemma_sort_slot(with_status(tasks, TaskStatus::Doing), st, c);
    lemma_sort_slot(with_status(tasks, TaskStatus::Done), st, c);
    lemma_group_slot(tasks, TaskStatus::Todo, st, c);
    lemma_group_slot(tasks, TaskStatus::Doing, st, c);
    lemma_group_slot(tasks, TaskStatus::Done, st, c);
    let e = Seq::<Task>::empty();
    let f = tasks.filter(p);
    assert(e + f == f && f + e == f && e + e == e);
}

/// No two tasks of `s` share an identifier.
pub open spec fn unique_ids(s: Seq<Task>) -> bool {
    forall|x: int, y: int| 0 <= x < y < s.len() ==> #[trigger] s[x].id != #[trigger] s[y].id
}

/// The list after a committed step forward of its task `i` at time `now`: the task
/// moved on and the list sorted again; from `Done` there is nothing to commit and the
/// list stays as it is.
pub open spec fn committed_forward(s: Seq<Task>, i: int, now: Timestamp) -> Seq<Task> {
    if spec_next(s[i].status) is None {
        s
    } else {
        grouped(s.update(i, forwarded(s[i], now)))
    }
}

/// The list after a committed step backward of its task `i` at time `now`; from `Todo`
/// the list stays as it is.
pub open spec fn committed_backward(s: Seq<Task>, i: int, now: Timestamp) -> Seq<Task> {
    if spec_prev(s[i].status) is None {
        s
    } else {
        grouped(s.update(i, backwarded(s[i], now)))
    }
}

/// Two places that hold one value make it count at least twice.
proof fn lemma_count_two(s: Seq<Task>, p: int, q: int)
    requires
        0 <= p < q < s.len(),
        s[p] == s[q],
    ensures
        s.to_multiset().count(s[p]) >= 2,
    decreases s.len(),
{
    broadcast use vstd::seq_lib::group_to_multiset_ensures, vstd::multiset::group_multiset_axioms;

    let d = s.drop_last();
    assert(d.push(s.last()) == s);
    if q == s.len() - 1 {
        assert(d[p] == s[p]);
        assert(d.contains(s[p]));
    } else {
        assert(d[p] == s[p] && d[q] == s[q]);
        lemma_count_two(d, p, q);
    }
}

/// In a list with unique identifiers every task occurs at most once.
proof fn lemma_unique_count(s: Seq<Task>, v: Task)
    requires
        unique_ids(s),
    ensures
        s.to_multiset().count(v) <= 1,
    decreases s.len(),
{
    broadcast use vstd::seq_lib::group_to_multiset_ensures, vstd::multiset::group_multiset_axioms;

    if s.len() > 0 {
        let d = s.drop_last();
        assert(d.push(s.last()) == s);
        assert(unique_ids(d)) by {
            assert forall|x: int, y: int| 0 <= x < y < d.len() implies #[trigger] d[x].id
                != #[trigger] d[y].id by {
                assert(d[x] == s[x] && d[y] == s[y]);
            }
        }
        lemma_unique_count(d, v);
        assert(s.to_multiset() == d.to_multiset().insert(s.last()));
        if s.last() == v && d.to_multiset().count(v) > 0 {
            assert(d.contains(v));
            let k = choose|k: int| 0 <= k < d.len() && d[k] == v;
            assert(s[k] == v && s[s.len() - 1] == v);
            assert(s[k].id != s[s.len() - 1].id);
        }
    } else {
        assert(s.to_multiset().len() == 0);
        assert(s.to_multiset() =~= Multiset::empty());
    }
}

/// Replacing a task by one with the same identifier and sorting again: the task found
/// under that identifier is the replacement, and identifiers stay unique.
proof fn lemma_step_finds_task(a: Seq<Task>, i: int, m: Task, j: int)
    requires
        unique_ids(a),
        0 <= i < a.len(),
        m.id == a[i].id,
        0 <= j < grouped(a.update(i, m)).len(),
        grouped(a.update(i, m))[j].id == a[i].id,
    ensures
        grouped(a.update(i, m))[j] == m,
        unique_ids(grouped(a.update(i, m))),
{
    broadcast use vstd::seq_lib::group_to_multiset_ensures, vstd::multiset::group_multiset_axioms;

    let u = a.update(i, m);
    let b = grouped(u);
    law_sort_groups_and_orders(u);
    assert(unique_ids(u)) by {
        assert forall|x: int, y: int| 0 <= x < y < u.len() implies #[trigger] u[x].id
            != #[trigger] u[y].id by {
            if x != i && y != i {
                assert(u[x] == a[x] && u[y] == a[y]);
            } else if x == i {
                assert(u[y] == a[y]);
            } else {
                assert(u[x] == a[x]);
            }
        }
    }
    assert(b.to_multiset().count(b[j]) > 0);
    assert(u.contains(b[j]));
    let x = choose|x: int| 0 <= x < u.len() && u[x] == b[j];
    if x != i {
        assert(u[x] == a[x]);
    }
    assert forall|p: int, q: int| 0 <= p < q < b.len() implies #[trigger] b[p].id
        != #[trigger] b[q].id by {
        if b[p].id == b[q].id {
            assert(b.to_multiset().count(b[p]) > 0);
            assert(b.to_multiset().count(b[q]) > 0);
            assert(u.contains(b[p]) && u.contains(b[q]));
            let xp = choose|x: int| 0 <= x < u.len() && u[x] == b[p];
            let xq = choose|x: int| 0 <= x < u.len() && u[x] == b[q];
            if xp == xq {
                lemma_count_two(b, p, q);
                lemma_unique_count(u, b[p]);
            } else if xp < xq {
                assert(u[xp].id != u[xq].id);
            } else {
                assert(u[xq].id != u[xp].id);
            }
        }
    }
}

/// Three committed steps forward of the task that starts at place `i` with status
/// `Todo`, finding it again by its identifier after each sort (at `j1`, then `j2`),
/// give it the statuses `Doing`, `Done`, `Done`; the third step leaves the list as it is.
pub proof fn law_forward_chain_committed(
    a: Seq<Task>,
    i: int,
    j1: int,
    j2: int,
    n1: Timestamp,
    n2: Timestamp,
    n3: Timestamp,
)
    requires
        unique_ids(a),
        0 <= i < a.len(),
        a[i].status == TaskStatus::Todo,
        0 <= j1 < committed_forward(a, i, n1).len(),
        committed_forward(a, i, n1)[j1].id == a[i].id,
        0 <= j2 < committed_forward(committed_forward(a, i, n1), j1, n2).len(),
        committed_forward(committed_forward(a, i, n1), j1, n2)[j2].id == a[i].id,
    ensures
        committed_forward(a, i, n1)[j1].status == TaskStatus::Doing,
        committed_forward(committed_forward(a, i, n1), j1, n2)[j2].status == TaskStatus::Done,
        committed_forward(committed_forward(committed_forward(a, i, n1), j1, n2), j2, n3)
            == committed_forward(committed_forward(a, i, n1), j1, n2),
{
    let b = committed_forward(a, i, n1);
    lemma_step_finds_task(a, i, forwarded(a[i], n1), j1);
    lemma_step_finds_task(b, j1, forwarded(b[j1], n2), j2);
}

/// Three committed steps backward of the task that starts at place `i` with status
/// `Done`, found again by its identifier after each sort, give it the statuses `Doing`,
/// `Todo`, `Todo`; the third step leaves the list as it is.
pub proof fn law_backward_chain_committed(
    a: Seq<Task>,
    i: int,
    j1: int,
    j2: int,
    n1: Timestamp,
    n2: Timestamp,
    n3: Timestamp,
)
    requires
        unique_ids(a),
        0 <= i < a.len(),
        a[i].status == TaskStatus::Done,
        0 <= j1 < committed_backward(a, i, n1).len(),
        committed_backward(a, i, n1)[j1].id == a[i].id,
        0 <= j2 < committed_backward(committed_backward(a, i, n1), j1, n2).len(),
        committed_backward(committed_backward(a, i, n1), j1, n2)[j2].id == a[i].id,
    ensures
        committed_backward(a, i, n1)[j1].status == TaskStatus::Doing,
        committed_backward(committed_backward(a, i, n1), j1, n2)[j2].status == TaskStatus::Todo,
        committed_backward(committed_backward(committed_backward(a, i, n1), j1, n2), j2, n3)
            == committed_backward(committed_backward(a, i, n1), j1, n2),
{
    let b = committed_backward(a, i, n1);
    lemma_step_finds_task(a, i, backwarded(a[i], n1), j1);
    lemma_step_finds_task(b, j1, backwarded(b[j1], n2), j2);
}

} // verus!
