use vstd::prelude::*;

use crate::pagination::{
    clamped_page, clamped_per_page, page_slice, total_pages_of, Paginate, PaginationResult,
};

verus! {

/// A task as the store persists it.
#[verifier::ext_equal]
#[derive(Debug, PartialEq)]
pub struct Task {
    pub id: i32,
    pub description: String,
    pub completed: bool,
}

impl Clone for Task {
    fn clone(&self) -> (res: Self)
        ensures
            res == *self,
    {
        Task { id: self.id, description: self.description.clone(), completed: self.completed }
    }
}

/// A task as it stands right before insertion, when no id is assigned yet.
#[derive(Debug)]
pub struct NewTask {
    pub description: String,
    pub completed: bool,
}

/// The input for creating a task: only the description; `completed`
/// starts out false.
#[derive(Debug)]
pub struct Todo {
    pub description: String,
}

/// How a store operation fails: the addressed row does not exist, or the
/// underlying data access gave out. Out-of-range pagination parameters are
/// clamped, never rejected, so they produce no error.
#[derive(Clone, Copy, Debug, PartialEq, Eq, Structural)]
pub enum StoreError {
    NotFound,
    DataAccessFailure,
}

/// The task table: rows in insertion order, and the id the next insert
/// will assign.
#[derive(Debug)]
pub struct TaskStore {
    pub rows: Vec<Task>,
    pub next_id: i32,
}

/// Row ids strictly increase with position; insertion order and id order agree.
pub open spec fn ids_increasing(rows: Seq<Task>) -> bool {
    forall|i: int, j: int|
        0 <= i < j < rows.len() ==> #[trigger] rows[i].id < #[trigger] rows[j].id
}

/// Some row carries this id.
pub open spec fn contains_id(rows: Seq<Task>, id: int) -> bool {
    exists|i: int| 0 <= i < rows.len() && (#[trigger] rows[i]).id == id
}

/// The position of the row with this id (meaningful when `contains_id` holds;
/// unique because ids strictly increase).
pub open spec fn idx_of(rows: Seq<Task>, id: int) -> int {
    choose|i: int| 0 <= i < rows.len() && (#[trigger] rows[i]).id == id
}

/// When ids strictly increase, a position whose row carries the id is the
/// one `idx_of` names.
pub proof fn lemma_idx_of(rows: Seq<Task>, id: int, k: int)
    requires
        ids_increasing(rows),
        0 <= k < rows.len(),
        rows[k].id == id,
    ensures
        contains_id(rows, id),
        idx_of(rows, id) == k,
{
    assert(contains_id(rows, id));
    let c = idx_of(rows, id);
    if c < k {
        assert(rows[c].id < rows[k].id);
    } else if c > k {
        assert(rows[k].id < rows[c].id);
    }
}

/// The table after one row's `completed` value was flipped: `t` is the row
/// written at position `k`; it keeps the id and the description and negates
/// `completed`.
pub open spec fn toggled(before: Seq<Task>, after: Seq<Task>, k: int, t: Task) -> bool {
    &&& 0 <= k < before.len()
    &&& t.id == before[k].id
    &&& t.description == before[k].description
    &&& t.completed == !before[k].completed
    &&& after == before.update(k, t)
}

impl TaskStore {
    /// Every id is at least 1 and below `next_id`, and ids strictly
    /// increase with position: ids are unique and stable, and the id order
    /// is the insertion order.
    pub open spec fn wf(self) -> bool {
        &&& 1 <= self.next_id
        &&& forall|i: int|
            0 <= i < self.rows@.len() ==> 1 <= (#[trigger] self.rows@[i]).id < self.next_id
        &&& ids_increasing(self.rows@)
    }

    /// An empty table; the first insert assigns id 1.
    pub fn new() -> (r: Self)
        ensures
            r.wf(),
            r.rows@.len() == 0,
            r.next_id == 1,
    {
        TaskStore { rows: Vec::new(), next_id: 1 }
    }
}

fn find_index(store: &TaskStore, id: i32) -> (r: Option<usize>)
    requires
        store.wf(),
    ensures
        match r {
            Option::Some(k) => {
                &&& k < store.rows@.len()
                &&& store.rows@[k as int].id == id
                &&& contains_id(store.rows@, id as int)
                &&& k as int == idx_of(store.rows@, id as int)
            },
            Option::None => !contains_id(store.rows@, id as int),
        },
{
    let mut k: usize = 0;
    while k < store.rows.len()
        invariant
            store.wf(),
            k <= store.rows@.len(),
            forall|i: int| 0 <= i < k ==> (#[trigger] store.rows@[i]).id != id,
        decreases store.rows@.len() - k,
    {
        if store.rows[k].id == id {
            proof {
                lemma_idx_of(store.rows@, id as int, k as int);
            }
            return Option::Some(k);
        }
        k = k + 1;
    }
    Option::None
}

impl Task {
    /// Every task, ordered by id descending: the reverse of the table's
    /// insertion order.
    pub fn all(store: &TaskStore) -> (r: Vec<Task>)
        ensures
            r@ == store.rows@.reverse(),
    {
        let mut r: Vec<Task> = Vec::new();
        let mut i: usize = store.rows.len();
        while i > 0
            invariant
                i <= store.rows@.len(),
                r@.len() == store.rows@.len() - i,
                forall|j: int|
                    0 <= j < r@.len() ==> #[trigger] r@[j] == store.rows@[store.rows@.len() - 1
                        - j],
            decreases i,
        {
            i = i - 1;
            let t = store.rows[i].clone();
            r.push(t);
        }
        proof {
            assert(r@ =~= store.rows@.reverse());
        }
        r
    }

    /// Appends a task with the next id, the submitted description and
    /// `completed == false`, and returns the persisted row. Fails only when
    /// the id space is exhausted.
    pub fn insert(todo: Todo, store: &mut TaskStore) -> (r: Result<Task, StoreError>)
        requires
            old(store).wf(),
        ensures
            final(store).wf(),
            r is Ok <==> old(store).next_id < i32::MAX,
            match r {
                Result::Ok(t) => {
                    &&& t.id == old(store).next_id
                    &&& t.description == todo.description
                    &&& t.completed == false
                    &&& final(store).rows@ == old(store).rows@.push(t)
                    &&& final(store).next_id == old(store).next_id + 1
                },
                Result::Err(e) => e == StoreError::DataAccessFailure && *final(store) == *old(
                    store,
                ),
            },
    {
        if store.next_id == i32::MAX {
            return Result::Err(StoreError::DataAccessFailure);
        }
        let new_task = NewTask { description: todo.description, completed: false };
        let t = Task {
            id: store.next_id,
            description: new_task.description,
            completed: new_task.completed,
        };
        let ret = t.clone();
        store.rows.push(t);
        store.next_id = store.next_id + 1;
        proof {
            assert(store.rows@ =~= old(store).rows@.push(ret));
            assert forall|i: int, j: int| 0 <= i < j < store.rows@.len() implies (
            #[trigger] store.rows@[i]).id < (#[trigger] store.rows@[j]).id by {
                if j < store.rows@.len() - 1 {
                    assert(old(store).rows@[i].id < old(store).rows@[j].id);
                } else {
                    assert(old(store).rows@[i].id < old(store).next_id);
                }
            }
        }
        Result::Ok(ret)
    }

    /// Reads the row with this id, writes back the negated `completed`
    /// value, and returns the post-update row. `NotFound` when no row
    /// carries the id.
    pub fn toggle_with_id(id: i32, store: &mut TaskStore) -> (r: Result<Task, StoreError>)
        requires
            old(store).wf(),
        ensures
            final(store).wf(),
            final(store).next_id == old(store).next_id,
            r is Ok <==> contains_id(old(store).rows@, id as int),
            match r {
                Result::Ok(t) => {
                    &&& t.id == id
                    &&& toggled(
                        old(store).rows@,
                        final(store).rows@,
                        idx_of(old(store).rows@, id as int),
                        t,
                    )
                },
                Result::Err(e) => e == StoreError::NotFound && *final(store) == *old(store),
            },
    {
        match find_index(store, id) {
            Option::Some(k) => {
                let t = store.rows.remove(k);
                let new_task = Task {
                    id: t.id,
                    description: t.description,
                    completed: !t.completed,
                };
                let ret = new_task.clone();
                store.rows.insert(k, new_task);
                proof {
                    assert(store.rows@ =~= old(store).rows@.update(k as int, ret));
                    lemma_update_keeps_wf(*old(store), *store, k as int, ret);
                }
                Result::Ok(ret)
            },
            Option::None => Result::Err(StoreError::NotFound),
        }
    }

    /// Writes this description into the row with this id and returns the
    /// post-update row; `completed` is untouched. `NotFound` when no row
    /// carries the id.
    pub fn update_description(id: i32, new_description: String, store: &mut TaskStore) -> (r:
        Result<Task, StoreError>)
        requires
            old(store).wf(),
        ensures
            final(store).wf(),
            final(store).next_id == old(store).next_id,
            r is Ok <==> contains_id(old(store).rows@, id as int),
            match r {
                Result::Ok(t) => {
                    let k = idx_of(old(store).rows@, id as int);
                    &&& 0 <= k < old(store).rows@.len()
                    &&& t.id == id
                    &&& t.description == new_description
                    &&& t.completed == old(store).rows@[k].completed
                    &&& final(store).rows@ == old(store).rows@.update(k, t)
                },
                Result::Err(e) => e == StoreError::NotFound && *final(store) == *old(store),
            },
    {
        match find_index(store, id) {
            Option::Some(k) => {
                let t = store.rows.remove(k);
                let new_task = Task {
                    id: t.id,
                    description: new_description,
                    completed: t.completed,
                };
                let ret = new_task.clone();
                store.rows.insert(k, new_task);
                proof {
                    assert(store.rows@ =~= old(store).rows@.update(k as int, ret));
                    lemma_update_keeps_wf(*old(store), *store, k as int, ret);
                }
                Result::Ok(ret)
            },
            Option::None => Result::Err(StoreError::NotFound),
        }
    }

    /// Removes the row with this id. The affected row count is 1 when such
    /// a row existed and 0 when none did; a missing row is no error.
    pub fn delete_with_id(id: i32, store: &mut TaskStore) -> (r: Result<usize, StoreError>)
        requires
            old(store).wf(),
        ensures
            final(store).wf(),
            final(store).next_id == old(store).next_id,
            match r {
                Result::Ok(n) => if contains_id(old(store).rows@, id as int) {
                    &&& n == 1
                    &&& final(store).rows@ == old(store).rows@.remove(
                        idx_of(old(store).rows@, id as int),
                    )
                } else {
                    &&& n == 0
                    &&& *final(store) == *old(store)
                },
                Result::Err(_) => false,
            },
    {
        match find_index(store, id) {
            Option::Some(k) => {
                store.rows.remove(k);
                proof {
                    let rows = old(store).rows@;
                    assert forall|i: int, j: int|
                        0 <= i < j < store.rows@.len() implies (#[trigger] store.rows@[i]).id < (
                    #[trigger] store.rows@[j]).id by {
                        let i0 = if i < k as int {
                            i
                        } else {
                            i + 1
                        };
                        let j0 = if j < k as int {
                            j
                        } else {
                            j + 1
                        };
                        assert(store.rows@[i] == rows[i0]);
                        assert(store.rows@[j] == rows[j0]);
                        assert(rows[i0].id < rows[j0].id);
                    }
                    assert forall|i: int| 0 <= i < store.rows@.len() implies 1 <= (
                    #[trigger] store.rows@[i]).id < store.next_id by {
                        let i0 = if i < k as int {
                            i
                        } else {
                            i + 1
                        };
                        assert(store.rows@[i] == rows[i0]);
                    }
                }
                Result::Ok(1)
            },
            Option::None => Result::Ok(0),
        }
    }

    /// Empties the table and returns how many rows were removed. Assigned
    /// ids are never reused: `next_id` stands.
    pub fn delete_all(store: &mut TaskStore) -> (r: Result<usize, StoreError>)
        requires
            old(store).wf(),
        ensures
            final(store).wf(),
            final(store).next_id == old(store).next_id,
            match r {
                Result::Ok(n) => n == old(store).rows@.len() && final(store).rows@.len() == 0,
                Result::Err(_) => false,
            },
    {
        let n = store.rows.len();
        store.rows.clear();
        Result::Ok(n)
    }

    /// The page of the full table ordered by id descending, with the total
    /// row count and page count. The requested bounds are clamped into
    /// range; a page past the end gives an empty slice while the totals
    /// still describe the whole table.
    pub fn all_paginated(page: i64, per_page: i64, store: &TaskStore) -> (r: Result<
        PaginationResult<Task>,
        StoreError,
    >)
        requires
            store.wf(),
            store.rows@.len() <= i64::MAX,
        ensures
            match r {
                Result::Ok(pr) => {
                    &&& pr.page == clamped_page(page as int)
                    &&& pr.per_page == clamped_per_page(per_page as int)
                    &&& pr.total_items == store.rows@.len()
                    &&& pr.total_pages == total_pages_of(
                        store.rows@.len() as int,
                        clamped_per_page(per_page as int),
                    )
                    &&& pr.items@ == page_slice(
                        store.rows@.reverse(),
                        clamped_page(page as int),
                        clamped_per_page(per_page as int),
                    )
                },
                Result::Err(_) => false,
            },
    {
        let rows = Task::all(store);
        let result = rows.paginate(page).per_page(per_page).load_and_count_pages();
        Result::Ok(result)
    }
}

/// An update that keeps a row's id keeps the table well formed.
proof fn lemma_update_keeps_wf(before: TaskStore, after: TaskStore, k: int, t: Task)
    requires
        before.wf(),
        0 <= k < before.rows@.len(),
        t.id == before.rows@[k].id,
        after.rows@ == before.rows@.update(k, t),
        after.next_id == before.next_id,
    ensures
        after.wf(),
{
    assert forall|i: int, j: int| 0 <= i < j < after.rows@.len() implies (
    #[trigger] after.rows@[i]).id < (#[trigger] after.rows@[j]).id by {
        assert(after.rows@[i].id == before.rows@[i].id);
        assert(after.rows@[j].id == before.rows@[j].id);
        assert(before.rows@[i].id < before.rows@[j].id);
    }
    assert forall|i: int| 0 <= i < after.rows@.len() implies 1 <= (#[trigger] after.rows@[i]).id
        < after.next_id by {
        assert(after.rows@[i].id == before.rows@[i].id);
    }
}

/// Round trip of insert and list: a freshly inserted task comes back
/// first from a listing, a record with the id the store assigned, the
/// submitted description, and `completed == false`.
pub proof fn lemma_insert_round_trip(
    before: Seq<Task>,
    after: Seq<Task>,
    listing: Seq<Task>,
    t: Task,
    assigned_id: int,
    submitted: Seq<char>,
)
    requires
        after == before.push(t),
        t.id == assigned_id,
        1 <= assigned_id,
        t.description@ == submitted,
        t.completed == false,
        listing == after.reverse(),
    ensures
        listing.len() == before.len() + 1,
        listing[0] == t,
        listing[0].id == assigned_id,
        1 <= listing[0].id,
        listing[0].description@ == submitted,
        listing[0].completed == false,
{
    assert(listing[0] == after[after.len() - 1]);
}

/// Toggling the same task twice in strict sequence restores the original
/// `completed` value, and with it the whole table.
pub proof fn lemma_toggle_twice(
    before: Seq<Task>,
    mid: Seq<Task>,
    after: Seq<Task>,
    k: int,
    t1: Task,
    t2: Task,
)
    requires
        toggled(before, mid, k, t1),
        toggled(mid, after, k, t2),
    ensures
        t2.completed == before[k].completed,
        t2 == before[k],
        after == before,
{
    assert(mid[k] == t1);
    assert(t2 =~= before[k]);
    assert(after =~= before);
}

} // verus!
