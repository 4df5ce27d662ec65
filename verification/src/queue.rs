//! The upload queue's bookkeeping: task ids in creation order, each naming
//! the task it stands for, kept in an `IndexMap` as the service keeps them.
use crate::error::AppError;
use crate::text::concat2;
use indexmap::IndexMap;
use vstd::prelude::*;

verus! {

#[verifier::external_type_specification]
#[verifier::external_body]
#[verifier::reject_recursive_types(K)]
#[verifier::reject_recursive_types(V)]
#[verifier::reject_recursive_types(S)]
pub struct ExIndexMap<K, V, S>(IndexMap<K, V, S>);

/// What an `IndexMap<String, u64>` holds: its entries (key text and value)
/// in the map's order.
pub uninterp spec fn map_entries(m: IndexMap<String, u64>) -> Seq<(Seq<char>, u64)>;

/// The keys of a list of entries, in order.
pub open spec fn entry_keys(s: Seq<(Seq<char>, u64)>) -> Seq<Seq<char>> {
    s.map_values(|e: (Seq<char>, u64)| e.0)
}

/// `IndexMap::new`: an empty map.
#[verifier::external_body]
fn map_new() -> (m: IndexMap<String, u64>)
    ensures
        map_entries(m) == Seq::<(Seq<char>, u64)>::empty(),
{
    IndexMap::new()
}

/// `IndexMap::len`: the number of entries.
#[verifier::external_body]
fn map_len(m: &IndexMap<String, u64>) -> (n: usize)
    ensures
        n == map_entries(*m).len(),
{
    m.len()
}

/// `IndexMap::contains_key`: whether an entry has the key.
#[verifier::external_body]
fn map_contains(m: &IndexMap<String, u64>, key: &str) -> (b: bool)
    ensures
        b == entry_keys(map_entries(*m)).contains(key@),
{
    m.contains_key(key)
}

/// `IndexMap::get`: the value of the entry with the key.
#[verifier::external_body]
fn map_get(m: &IndexMap<String, u64>, key: &str) -> (r: Option<u64>)
    ensures
        match r {
            Some(v) => exists|i: int|
                0 <= i < map_entries(*m).len() && #[trigger] map_entries(*m)[i] == (key@, v),
            None => !entry_keys(map_entries(*m)).contains(key@),
        },
{
    m.get(key).copied()
}

/// `IndexMap::insert`: an existing key keeps its place and takes the new
/// value (the old one is returned); a new key goes last.
#[verifier::external_body]
fn map_insert(m: &mut IndexMap<String, u64>, key: String, value: u64) -> (r: Option<u64>)
    ensures
        match r {
            Some(old_v) => exists|i: int|
                0 <= i < map_entries(*old(m)).len() && #[trigger] map_entries(*old(m))[i] == (
                    key@,
                    old_v,
                ) && map_entries(*final(m)) == map_entries(*old(m)).update(i, (key@, value)),
            None => !entry_keys(map_entries(*old(m))).contains(key@) && map_entries(*final(m))
                == map_entries(*old(m)).push((key@, value)),
        },
{
    m.insert(key, value)
}

/// `IndexMap::shift_remove`: the entry with the key leaves, the entries
/// after it keep their order; its value is returned.
#[verifier::external_body]
fn map_shift_remove(m: &mut IndexMap<String, u64>, key: &str) -> (r: Option<u64>)
    ensures
        match r {
            Some(v) => exists|i: int|
                0 <= i < map_entries(*old(m)).len() && #[trigger] map_entries(*old(m))[i] == (
                    key@,
                    v,
                ) && map_entries(*final(m)) == map_entries(*old(m)).remove(i),
            None => !entry_keys(map_entries(*old(m))).contains(key@) && map_entries(*final(m))
                == map_entries(*old(m)),
        },
{
    m.shift_remove(key)
}

/// `IndexMap::get_index`: the entry at a position.
#[verifier::external_body]
fn map_entry_at(m: &IndexMap<String, u64>, i: usize) -> (r: Option<(String, u64)>)
    ensures
        match r {
            Some((k, v)) => i < map_entries(*m).len() && map_entries(*m)[i as int] == (k@, v),
            None => i >= map_entries(*m).len(),
        },
{
    m.get_index(i).map(|(k, v)| (k.clone(), *v))
}

/// The upload queue: each task id, in creation order, with the number of
/// the task it stands for.
pub struct UploadQueue {
    tasks: IndexMap<String, u64>,
}

/// The failure for an unknown task id.
pub open spec fn unknown_task_message(id: Seq<char>) -> Seq<char> {
    "任务ID不存在: "@ + id
}

impl UploadQueue {
    /// The queued tasks: id and task number, in creation order.
    pub closed spec fn entries(&self) -> Seq<(Seq<char>, u64)> {
        map_entries(self.tasks)
    }

    #[verifier::type_invariant]
    closed spec fn ids_distinct(&self) -> bool {
        entry_keys(map_entries(self.tasks)).no_duplicates()
    }

    pub fn new() -> (q: Self)
        ensures
            q.entries() == Seq::<(Seq<char>, u64)>::empty(),
    {
        let tasks = map_new();
        assert(entry_keys(map_entries(tasks)) =~= Seq::<Seq<char>>::empty());
        UploadQueue { tasks }
    }

    pub fn len(&self) -> (n: usize)
        ensures
            n == self.entries().len(),
    {
        map_len(&self.tasks)
    }

    /// Queues a task under `id`, last; an id already queued is left as it
    /// is and `false` is returned.
    pub fn create_task(&mut self, id: String, task: u64) -> (created: bool)
        ensures
            created == !entry_keys(old(self).entries()).contains(id@),
            created ==> final(self).entries() == old(self).entries().push((id@, task)),
            !created ==> final(self).entries() == old(self).entries(),
    {
        proof {
            use_type_invariant(&*self);
        }
        if map_contains(&self.tasks, id.as_str()) {
            return false;
        }
        let ghost before = map_entries(self.tasks);
        let mut tasks = map_new();
        assert(entry_keys(map_entries(tasks)) =~= Seq::<Seq<char>>::empty());
        std::mem::swap(&mut tasks, &mut self.tasks);
        let r = map_insert(&mut tasks, id, task);
        proof {
            if r is Some {
                let ov = r->0;
                let i = choose|i: int|
                    0 <= i < before.len() && #[trigger] before[i] == (id@, ov) && map_entries(tasks)
                        == before.update(i, (id@, task));
                assert(entry_keys(before)[i] == id@);
                assert(false);
            }
            assert(entry_keys(map_entries(tasks)) =~= entry_keys(before).push(id@));
            crate::named_map::lemma_push_distinct(entry_keys(before), id@);
        }
        self.tasks = tasks;
        true
    }

    /// The task queued under `id`; an unknown id is an error.
    pub fn task(&self, id: &str) -> (r: Result<u64, AppError>)
        ensures
            match r {
                Ok(t) => self.entries().contains((id@, t)),
                Err(e) => !entry_keys(self.entries()).contains(id@) && (e matches AppError::Internal(
                    m,
                ) && m@ == unknown_task_message(id@)),
            },
    {
        proof {
            reveal_strlit("任务ID不存在: ");
        }
        match map_get(&self.tasks, id) {
            Some(t) => {
                proof {
                    let i = choose|i: int|
                        0 <= i < map_entries(self.tasks).len() && #[trigger] map_entries(
                            self.tasks,
                        )[i] == (id@, t);
                    assert(self.entries()[i] == (id@, t));
                }
                Ok(t)
            },
            None => Err(AppError::Internal(concat2("任务ID不存在: ", id))),
        }
    }

    /// Takes the task queued under `id` out of the queue (the others keep
    /// their order); an unknown id is an error.
    pub fn remove_task(&mut self, id: &str) -> (r: Result<u64, AppError>)
        ensures
            match r {
                Ok(t) => exists|i: int|
                    0 <= i < old(self).entries().len() && #[trigger] old(self).entries()[i] == (
                        id@,
                        t,
                    ) && final(self).entries() == old(self).entries().remove(i),
                Err(e) => !entry_keys(old(self).entries()).contains(id@) && final(self).entries()
                    == old(self).entries() && (e matches AppError::Internal(m) && m@
                    == unknown_task_message(id@)),
            },
    {
        proof {
            use_type_invariant(&*self);
            reveal_strlit("任务ID不存在: ");
        }
        let ghost before = map_entries(self.tasks);
        let mut tasks = map_new();
        assert(entry_keys(map_entries(tasks)) =~= Seq::<Seq<char>>::empty());
        std::mem::swap(&mut tasks, &mut self.tasks);
        let r = map_shift_remove(&mut tasks, id);
        match r {
            Some(t) => {
                proof {
                    let i = choose|i: int|
                        0 <= i < before.len() && #[trigger] before[i] == (id@, t) && map_entries(
                            tasks,
                        ) == before.remove(i);
                    assert(entry_keys(map_entries(tasks)) =~= entry_keys(before).remove(i));
                    crate::named_map::lemma_remove_distinct(entry_keys(before), i);
                    assert(old(self).entries()[i] == (id@, t));
                }
                self.tasks = tasks;
                Ok(t)
            },
            None => {
                self.tasks = tasks;
                Err(AppError::Internal(concat2("任务ID不存在: ", id)))
            },
        }
    }

    /// The queued tasks, in order.
    pub fn list(&self) -> (r: Vec<(String, u64)>)
        ensures
            r@.map_values(|e: (String, u64)| (e.0@, e.1)) == self.entries(),
    {
        let n = map_len(&self.tasks);
        let mut r: Vec<(String, u64)> = Vec::new();
        let mut i: usize = 0;
        while i < n
            invariant
                n == map_entries(self.tasks).len(),
                i <= n,
                r@.map_values(|e: (String, u64)| (e.0@, e.1)) == map_entries(self.tasks).subrange(
                    0,
                    i as int,
                ),
            decreases n - i,
        {
            let ghost prev = r@.map_values(|e: (String, u64)| (e.0@, e.1));
            match map_entry_at(&self.tasks, i) {
                Some(e) => {
                    r.push(e);
                    assert(r@.map_values(|e: (String, u64)| (e.0@, e.1)) =~= prev.push(
                        map_entries(self.tasks)[i as int],
                    ));
                },
                None => {
                    assert(false);
                },
            }
            i = i + 1;
            assert(r@.map_values(|e: (String, u64)| (e.0@, e.1)) =~= map_entries(
                self.tasks,
            ).subrange(0, i as int));
        }
        assert(map_entries(self.tasks).subrange(0, n as int) =~= map_entries(self.tasks));
        r
    }
}

/// After a task is queued under a new id, looking the id up finds exactly
/// that task.
pub proof fn law_created_task_found(
    before: Seq<(Seq<char>, u64)>,
    id: Seq<char>,
    task: u64,
    t: u64,
)
    requires
        !entry_keys(before).contains(id),
    ensures
        entry_keys(before.push((id, task))).contains(id),
        before.push((id, task)).contains((id, t)) <==> t == task,
{
    let after = before.push((id, task));
    assert(after[before.len() as int] == (id, task));
    assert(entry_keys(after)[before.len() as int] == id);
    if after.contains((id, t)) {
        let j = choose|j: int| 0 <= j < after.len() && after[j] == (id, t);
        if j < before.len() {
            assert(entry_keys(before)[j] == id);
        }
    }
}

/// A removed task's id is no longer queued.
pub proof fn law_removed_task_gone(before: Seq<(Seq<char>, u64)>, i: int)
    requires
        entry_keys(before).no_duplicates(),
        0 <= i < before.len(),
    ensures
        !entry_keys(before.remove(i)).contains(before[i].0),
{
    let after = before.remove(i);
    if entry_keys(after).contains(before[i].0) {
        let j = choose|j: int| 0 <= j < entry_keys(after).len() && entry_keys(after)[j] == before[i].0;
        let j0 = if j < i {
            j
        } else {
            j + 1
        };
        assert(after[j] == before[j0]);
        assert(entry_keys(before)[j0] == entry_keys(before)[i]);
    }
}

/// Queuing a task under a new id and then removing that id gives back the
/// queue as it was.
pub proof fn law_create_then_remove_restores(
    before: Seq<(Seq<char>, u64)>,
    id: Seq<char>,
    task: u64,
    i: int,
)
    requires
        !entry_keys(before).contains(id),
        0 <= i <= before.len(),
        before.push((id, task))[i].0 == id,
    ensures
        before.push((id, task)).remove(i) == before,
{
    if i < before.len() {
        assert(entry_keys(before)[i] == id);
    }
    assert(before.push((id, task)).remove(before.len() as int) =~= before);
}

} // verus!
