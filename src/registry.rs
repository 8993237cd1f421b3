//! The registry of active tasks: at most one task per id.
use vstd::prelude::*;

verus! {

/// Whether an id already starts with the version prefix `v`.
pub open spec fn has_version_prefix(id: Seq<char>) -> bool {
    id.len() > 0 && id[0] == 'v'
}

/// The version form of an id: `v` put in front unless it is already there.
pub open spec fn version_id(id: Seq<char>) -> Seq<char> {
    if has_version_prefix(id) {
        id
    } else {
        seq!['v'] + id
    }
}

/// The key under which a lookup of `id` finds its task: the id itself, else
/// its version form.
pub open spec fn resolve_key<H>(m: Map<Seq<char>, H>, id: Seq<char>) -> Option<Seq<char>> {
    if m.contains_key(id) {
        Some(id)
    } else if !has_version_prefix(id) && m.contains_key(seq!['v'] + id) {
        Some(seq!['v'] + id)
    } else {
        None
    }
}

/// Whether a registration of `id` into a registry holding `m` is accepted.
pub open spec fn register_accepted<H>(m: Map<Seq<char>, H>, id: Seq<char>) -> bool {
    !m.contains_key(id)
}

/// The registry's contents after a registration of `id` with `handles`.
pub open spec fn after_register<H>(m: Map<Seq<char>, H>, id: Seq<char>, handles: H) -> Map<
    Seq<char>,
    H,
> {
    if register_accepted(m, id) {
        m.insert(id, handles)
    } else {
        m
    }
}

/// Prefixes `id` with `v` unless it already starts with it.
pub fn normalize_version(id: &str) -> (r: String)
    ensures
        r@ == version_id(id@),
{
    if id.unicode_len() > 0 && id.get_char(0) == 'v' {
        String::from_str(id)
    } else {
        proof {
            reveal_strlit("v");
        }
        String::from_str("v").concat(id)
    }
}

/// Why a registry operation was refused.
pub enum TaskError {
    /// A task with this id is already active.
    AlreadyRunning(String),
    /// No active task has this id, in either form.
    NotFound(String),
}

/// The control handles of one active task, under its id.
pub struct TaskEntry<H> {
    pub id: String,
    pub handles: H,
}

/// The active tasks, each under a distinct id.
pub struct TaskRegistry<H> {
    entries: Vec<TaskEntry<H>>,
}

impl<H> View for TaskRegistry<H> {
    type V = Map<Seq<char>, H>;

    closed spec fn view(&self) -> Map<Seq<char>, H> {
        Map::new(
            |k: Seq<char>| exists|i: int| 0 <= i < self.entries@.len() && #[trigger] self.entries@[i].id@ == k,
            |k: Seq<char>|
                self.entries@[choose|i: int|
                    0 <= i < self.entries@.len() && #[trigger] self.entries@[i].id@ == k].handles,
        )
    }
}

impl<H> TaskRegistry<H> {
    /// No two entries share an id.
    pub closed spec fn wf(&self) -> bool {
        forall|i: int, j: int|
            0 <= i < self.entries@.len() && 0 <= j < self.entries@.len() && i != j
                ==> #[trigger] self.entries@[i].id@ != #[trigger] self.entries@[j].id@
    }

    proof fn lemma_view_at(&self, i: int)
        requires
            self.wf(),
            0 <= i < self.entries@.len(),
        ensures
            self@.contains_key(self.entries@[i].id@),
            self@[self.entries@[i].id@] == self.entries@[i].handles,
    {
        let k = self.entries@[i].id@;
        assert(0 <= i < self.entries@.len() && self.entries@[i].id@ == k);
        let j = choose|j: int| 0 <= j < self.entries@.len() && #[trigger] self.entries@[j].id@ == k;
        assert(j == i);
    }

    /// An empty registry.
    pub fn new() -> (r: Self)
        ensures
            r.wf(),
            r@ == Map::<Seq<char>, H>::empty(),
    {
        let r = TaskRegistry { entries: Vec::new() };
        assert(r@ =~= Map::<Seq<char>, H>::empty());
        r
    }

    fn find(&self, id: &String) -> (r: Option<usize>)
        ensures
            match r {
                Some(i) => i < self.entries@.len() && self.entries@[i as int].id@ == id@,
                None => forall|i: int|
                    0 <= i < self.entries@.len() ==> #[trigger] self.entries@[i].id@ != id@,
            },
    {
        let mut i: usize = 0;
        while i < self.entries.len()
            invariant
                i <= self.entries@.len(),
                forall|j: int| 0 <= j < i ==> #[trigger] self.entries@[j].id@ != id@,
            decreases self.entries@.len() - i,
        {
            if self.entries[i].id == *id {
                return Some(i);
            }
            i = i + 1;
        }
        None
    }

    /// Whether a task with exactly this id is active.
    pub fn contains(&self, id: &str) -> (r: bool)
        requires
            self.wf(),
        ensures
            r == self@.contains_key(id@),
    {
        let key = String::from_str(id);
        match self.find(&key) {
            Some(i) => {
                proof {
                    self.lemma_view_at(i as int);
                }
                true
            },
            None => false,
        }
    }

    /// The number of active tasks.
    pub fn len(&self) -> (r: usize)
        requires
            self.wf(),
        ensures
            r == self@.dom().len(),
    {
        proof {
            self.lemma_len();
        }
        self.entries.len()
    }

    proof fn lemma_len(&self)
        requires
            self.wf(),
        ensures
            self@.dom().len() == self.entries@.len(),
            self@.dom().finite(),
        decreases self.entries@.len(),
    {
        let ids = self.entries@.map_values(|e: TaskEntry<H>| e.id@);
        assert forall|i: int, j: int| 0 <= i < j < ids.len() implies ids[i] != ids[j] by {
            assert(self.entries@[i].id@ != self.entries@[j].id@);
        }
        assert(ids.no_duplicates());
        ids.unique_seq_to_set();
        assert forall|k: Seq<char>| self@.dom().contains(k) <==> ids.to_set().contains(k) by {
            if self@.dom().contains(k) {
                let i = choose|i: int| 0 <= i < self.entries@.len() && #[trigger] self.entries@[i].id@ == k;
                assert(ids[i] == k);
            }
            if ids.to_set().contains(k) {
                let i = choose|i: int| 0 <= i < ids.len() && ids[i] == k;
                assert(self.entries@[i].id@ == k);
            }
        }
        assert(self@.dom() =~= ids.to_set());
    }

    /// Registers `id` with its control handles, unless a task with this
    /// exact id is already active.
    pub fn register(&mut self, id: &str, handles: H) -> (r: Result<(), TaskError>)
        requires
            old(self).wf(),
        ensures
            final(self).wf(),
            final(self)@ == after_register(old(self)@, id@, handles),
            r is Ok <==> register_accepted(old(self)@, id@),
            r matches Err(e) ==> e matches TaskError::AlreadyRunning(s) && s@ == id@,
    {
        let key = String::from_str(id);
        match self.find(&key) {
            Some(i) => {
                proof {
                    self.lemma_view_at(i as int);
                }
                Err(TaskError::AlreadyRunning(key))
            },
            None => {
                let ghost before = *self;
                proof {
                    assert(!self@.contains_key(id@));
                }
                self.entries.push(TaskEntry { id: key, handles });
                let ghost n: int = self.entries@.len() - 1;
                assert(self.wf()) by {
                    assert forall|i: int, j: int|
                        0 <= i < self.entries@.len() && 0 <= j < self.entries@.len() && i != j
                            implies #[trigger] self.entries@[i].id@ != #[trigger] self.entries@[j].id@ by {
                        if i < n && j < n {
                            assert(before.entries@[i] == self.entries@[i]);
                            assert(before.entries@[j] == self.entries@[j]);
                        } else if i == n {
                            assert(before.entries@[j].id@ != id@);
                        } else {
                            assert(before.entries@[i].id@ != id@);
                        }
                    }
                }
                assert forall|k: Seq<char>|
                    #![auto]
                    self@.contains_key(k) == before@.insert(id@, handles).contains_key(k) by {
                    if self@.contains_key(k) {
                        let i = choose|i: int| 0 <= i < self.entries@.len() && #[trigger] self.entries@[i].id@ == k;
                        if i < n {
                            assert(before.entries@[i] == self.entries@[i]);
                        }
                    }
                    if before@.contains_key(k) {
                        let i = choose|i: int| 0 <= i < before.entries@.len() && #[trigger] before.entries@[i].id@ == k;
                        assert(before.entries@[i] == self.entries@[i]);
                    }
                    if k == id@ {
                        assert(self.entries@[n].id@ == k);
                    }
                }
                assert forall|k: Seq<char>| #[trigger]
                    self@.contains_key(k) implies self@[k] == before@.insert(id@, handles)[k] by {
                    let i = choose|i: int| 0 <= i < self.entries@.len() && #[trigger] self.entries@[i].id@ == k;
                    self.lemma_view_at(i);
                    if i < n {
                        assert(before.entries@[i] == self.entries@[i]);
                        before.lemma_view_at(i);
                    }
                }
                assert(self@ =~= before@.insert(id@, handles));
                Ok(())
            },
        }
    }
    /// Removes the task with exactly this id, handing back its handles; does
    /// nothing where no such task is active.
    pub fn unregister(&mut self, id: &str) -> (r: Option<H>)
        requires
            old(self).wf(),
        ensures
            final(self).wf(),
            final(self)@ == old(self)@.remove(id@),
            match r {
                Some(h) => old(self)@.contains_key(id@) && h == old(self)@[id@],
                None => !old(self)@.contains_key(id@),
            },
    {
        let key = String::from_str(id);
        match self.find(&key) {
            Some(i) => {
                let ghost before = *self;
                proof {
                    before.lemma_view_at(i as int);
                }
                let entry = self.entries.remove(i);
                assert(self.wf()) by {
                    assert forall|a: int, b: int|
                        0 <= a < self.entries@.len() && 0 <= b < self.entries@.len() && a != b
                            implies #[trigger] self.entries@[a].id@ != #[trigger] self.entries@[b].id@ by {
                        let a0 = if a < i { a } else { a + 1 };
                        let b0 = if b < i { b } else { b + 1 };
                        assert(self.entries@[a] == before.entries@[a0]);
                        assert(self.entries@[b] == before.entries@[b0]);
                    }
                }
                assert forall|k: Seq<char>|
                    #![auto]
                    self@.contains_key(k) == before@.remove(id@).contains_key(k) by {
                    if self@.contains_key(k) {
                        let a = choose|a: int| 0 <= a < self.entries@.len() && #[trigger] self.entries@[a].id@ == k;
                        let a0 = if a < i { a } else { a + 1 };
                        assert(self.entries@[a] == before.entries@[a0]);
                    }
                    if before@.contains_key(k) && k != id@ {
                        let a0 = choose|a: int| 0 <= a < before.entries@.len() && #[trigger] before.entries@[a].id@ == k;
                        let a = if a0 < i { a0 } else { a0 - 1 };
                        assert(self.entries@[a] == before.entries@[a0]);
                    }
                }
                assert forall|k: Seq<char>| #[trigger]
                    self@.contains_key(k) implies self@[k] == before@.remove(id@)[k] by {
                    let a = choose|a: int| 0 <= a < self.entries@.len() && #[trigger] self.entries@[a].id@ == k;
                    let a0 = if a < i { a } else { a + 1 };
                    assert(self.entries@[a] == before.entries@[a0]);
                    self.lemma_view_at(a);
                    before.lemma_view_at(a0);
                }
                assert(self@ =~= before@.remove(id@));
                Some(entry.handles)
            },
            None => {
                assert(self@ =~= self@.remove(id@));
                None
            },
        }
    }

    /// Finds the task that a pause, resume or cancel of `id` addresses: the
    /// task with exactly this id, else the one under its version form.
    pub fn lookup(&self, id: &str) -> (r: Result<&TaskEntry<H>, TaskError>)
        requires
            self.wf(),
        ensures
            match r {
                Ok(e) => resolve_key(self@, id@) == Some(e.id@) && self@[e.id@] == e.handles,
                Err(e) => resolve_key(self@, id@) is None && (e matches TaskError::NotFound(s)
                    && s@ == id@),
            },
    {
        let key = String::from_str(id);
        if let Some(i) = self.find(&key) {
            proof {
                self.lemma_view_at(i as int);
            }
            return Ok(&self.entries[i]);
        }
        let prefixed = id.unicode_len() > 0 && id.get_char(0) == 'v';
        if !prefixed {
            let alt = normalize_version(id);
            if let Some(i) = self.find(&alt) {
                proof {
                    self.lemma_view_at(i as int);
                }
                return Ok(&self.entries[i]);
            }
        }
        Err(TaskError::NotFound(key))
    }
}

/// A second start of an id while the first task under it is still active is
/// refused, and leaves the registry as the first start left it.
pub proof fn second_start_is_refused<H>(tasks: Map<Seq<char>, H>, id: Seq<char>, first: H, second: H)
    ensures
        !register_accepted(after_register(tasks, id, first), id),
        after_register(after_register(tasks, id, first), id, second) == after_register(
            tasks,
            id,
            first,
        ),
{
}

/// A pause, resume or cancel of an id with no active task, under the id
/// itself or under its version form, is not found.
pub proof fn unknown_id_is_not_found<H>(tasks: Map<Seq<char>, H>, id: Seq<char>)
    requires
        !tasks.contains_key(id),
        !tasks.contains_key(version_id(id)),
    ensures
        resolve_key(tasks, id) is None,
{
}

/// Once a task's worker has unregistered it, a cancel of its id is not found
/// (where no task is active under the id's other form).
pub proof fn cancel_after_unregister_is_not_found<H>(tasks: Map<Seq<char>, H>, id: Seq<char>)
    requires
        !tasks.contains_key(version_id(id)) || version_id(id) == id,
    ensures
        resolve_key(tasks.remove(id), id) is None,
{
}

} // verus!
