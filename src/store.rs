use crate::id::{law_uuid_text_roundtrip, uuid_text, TaskId};
use crate::record::{decode, parse_record};
use crate::status::{spec_dir_name, spec_next, spec_prev, TaskStatus};
use crate::task::{sort_by_created, sort_by_created_at, Task, TaskView};
use crate::text::push_char;
use vstd::prelude::*;

verus! {

/// A file found in a status directory: the directory's status, the file's name and its text.
pub struct StoredFile {
    pub status: TaskStatus,
    pub name: String,
    pub text: String,
}

/// The extension of a task's file.
pub open spec fn record_ext() -> Seq<char> {
    seq!['.', 'm', 'd']
}

/// A file name of the form `<stem>.md` with a stem that is not empty.
pub open spec fn is_record_name(n: Seq<char>) -> bool {
    n.len() > 3 && n.skip(n.len() - 3) == record_ext()
}

/// The task a stored file holds: `None` unless its name has the record extension and
/// its text decodes.
pub open spec fn stored_task(f: StoredFile) -> Option<TaskView> {
    if is_record_name(f.name@) {
        parse_record(f.text@, f.status)
    } else {
        None
    }
}

/// The tasks that the stored files hold, in the order of the files; files that hold
/// none are skipped.
pub open spec fn decoded(files: Seq<StoredFile>) -> Seq<TaskView> {
    files.filter_map(|f: StoredFile| stored_task(f))
}

/// The views of a sequence of tasks.
pub open spec fn views(s: Seq<Task>) -> Seq<TaskView> {
    s.map_values(|t: Task| t@)
}

/// The directory of a status under the storage root: `<root>/<status dir>`.
pub open spec fn spec_status_dir(root: Seq<char>, st: TaskStatus) -> Seq<char> {
    root + seq!['/'] + spec_dir_name(st)
}

/// The name of a task's file: `<id>.md`.
pub open spec fn spec_file_name(id: TaskId) -> Seq<char> {
    uuid_text(id) + record_ext()
}

/// Where the file of a task with this status and identifier lives: `<root>/<status dir>/<id>.md`.
pub open spec fn spec_file_path(root: Seq<char>, st: TaskStatus, id: TaskId) -> Seq<char> {
    spec_status_dir(root, st) + seq!['/'] + spec_file_name(id)
}

impl Task {
    /// The directory that holds the files of tasks with the given status.
    pub fn status_dir(root: &str, status: TaskStatus) -> (r: String)
        ensures
            r@ == spec_status_dir(root@, status),
    {
        let mut r = root.to_owned();
        push_char(&mut r, '/');
        r.append(status.dir_name());
        r
    }

    /// The name of the task's file: its identifier with the `.md` extension.
    pub fn file_name(&self) -> (r: String)
        ensures
            r@ == spec_file_name(self.id),
    {
        let mut r = self.id.to_text();
        r.append(".md");
        proof {
            reveal_strlit(".md");
        }
        r
    }

    /// The full path of the task's file under the storage root.
    pub fn file_path(&self, root: &str) -> (r: String)
        ensures
            r@ == spec_file_path(root@, self.status, self.id),
    {
        let mut r = Self::status_dir(root, self.status);
        push_char(&mut r, '/');
        r.append(self.file_name().as_str());
        r
    }

    /// Loads the tasks that the stored files hold, sorted stably by creation time. A
    /// file without the `.md` extension, or whose text does not decode, is skipped.
    pub fn load_by_status(files: &[StoredFile]) -> (r: Vec<Task>)
        ensures
            exists|u: Seq<Task>| views(u) == decoded(files@) && r@ == #[trigger] sort_by_created(u),
    {
        let mut found: Vec<Task> = Vec::new();
        let mut i: usize = 0;
        while i < files.len()
            invariant
                i <= files@.len(),
                views(found@) == decoded(files@.take(i as int)),
            decreases files@.len() - i,
        {
            let f = &files[i];
            let ghost before = found@;
            proof {
                assert(files@.take(i + 1).drop_last() == files@.take(i as int));
                assert(files@.take(i + 1).last() == *f);
            }
            if is_record_file_name(f.name.as_str()) {
                match decode(f.text.as_str(), f.status) {
                    Ok(t) => {
                        found.push(t);
                    },
                    Err(_) => {},
                }
            }
            proof {
                assert(views(found@) == decoded(files@.take(i + 1)));
            }
            i += 1;
        }
        proof {
            assert(files@.take(i as int) == files@);
        }
        let r = sort_by_created_at(found);
        proof {
            assert(views(found@) == decoded(files@) && r@ == sort_by_created(found@));
        }
        r
    }
}

/// Whether a file name has the form `<stem>.md` with a stem that is not empty.
pub fn is_record_file_name(n: &str) -> (r: bool)
    ensures
        r == is_record_name(n@),
{
    let k = n.unicode_len();
    if k <= 3 {
        return false;
    }
    let r = n.get_char(k - 3) == '.' && n.get_char(k - 2) == 'm' && n.get_char(k - 1) == 'd';
    proof {
        let tail = n@.skip(k - 3);
        assert(tail[0] == n@[k - 3] && tail[1] == n@[k - 2] && tail[2] == n@[k - 1]);
        if r {
            assert(tail =~= record_ext());
        }
    }
    r
}

/// A task's file has exactly one place: two tasks' paths under one root agree only
/// when their statuses and identifiers do.
pub proof fn law_file_path_unique(root: Seq<char>, s1: TaskStatus, id1: TaskId, s2: TaskStatus, id2: TaskId)
    ensures
        spec_file_path(root, s1, id1) == spec_file_path(root, s2, id2) <==> (s1 == s2 && id1 == id2),
{
    let first = spec_file_path(root, s1, id1);
    let second = spec_file_path(root, s2, id2);
    let b: int = root.len() as int + 1;
    if first == second {
        let d1 = spec_dir_name(s1);
        let d2 = spec_dir_name(s2);
        assert(first[b] == d1[0] && second[b] == d2[0]);
        assert(first[b + 2] == d1[2] && second[b + 2] == d2[2]);
        assert(s1 == s2);
        let k: int = b + d1.len() as int + 1;
        assert(first.skip(k) == spec_file_name(id1));
        assert(second.skip(k) == spec_file_name(id2));
        law_uuid_text_roundtrip(id1);
        law_uuid_text_roundtrip(id2);
        assert(spec_file_name(id1).take(36) == uuid_text(id1));
        assert(spec_file_name(id2).take(36) == uuid_text(id2));
    }
}

/// Every status change moves the task's file: the path after a step forward or
/// backward differs from the path before.
pub proof fn law_transition_moves_file(root: Seq<char>, st: TaskStatus, id: TaskId)
    ensures
        spec_next(st) is Some ==> spec_file_path(root, st, id) != spec_file_path(root, spec_next(st).unwrap(), id),
        spec_prev(st) is Some ==> spec_file_path(root, st, id) != spec_file_path(root, spec_prev(st).unwrap(), id),
{
    if spec_next(st) is Some {
        law_file_path_unique(root, st, id, spec_next(st).unwrap(), id);
    }
    if spec_prev(st) is Some {
        law_file_path_unique(root, st, id, spec_prev(st).unwrap(), id);
    }
}

/// A well-formed record file next to a file that does not decode gives exactly the
/// one task, and no error.
pub proof fn law_lenient_load(good: StoredFile, bad: StoredFile)
    requires
        stored_task(good) is Some,
        stored_task(bad) is None,
    ensures
        decoded(seq![good, bad]) == seq![stored_task(good).unwrap()],
        decoded(seq![bad, good]) == seq![stored_task(good).unwrap()],
{
    let f = |x: StoredFile| stored_task(x);
    assert(seq![good, bad].drop_last() == seq![good]);
    assert(seq![good].drop_last() == Seq::<StoredFile>::empty());
    assert(seq![bad, good].drop_last() == seq![bad]);
    assert(seq![bad].drop_last() == Seq::<StoredFile>::empty());
    assert(decoded(Seq::<StoredFile>::empty()) == Seq::<TaskView>::empty());
    assert(seq![good].last() == good);
    assert(seq![bad].last() == bad);
    assert(decoded(seq![good]) == decoded(Seq::<StoredFile>::empty()) + seq![stored_task(good).unwrap()]);
    assert(Seq::<TaskView>::empty() + seq![stored_task(good).unwrap()] == seq![stored_task(good).unwrap()]);
    assert(decoded(seq![bad]) == Seq::<TaskView>::empty());
}

} // verus!
