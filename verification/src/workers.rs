//! The workers: which tasks are executing, and how many more can.

use vstd::prelude::*;

verus! {

/// How many tasks may execute at one time.
pub const WORKER_PERMITS: usize = 100;

/// The texts of a sequence of strings.
spec fn texts(strings: Seq<String>) -> Seq<Seq<char>> {
    strings.map_values(|s: String| s@)
}

/// The tasks that are executing, one worker each.
pub struct Workers {
    executing: Vec<String>,
}

impl View for Workers {
    type V = Set<Seq<char>>;

    closed spec fn view(&self) -> Set<Seq<char>> {
        texts(self.executing@).to_set()
    }
}

impl Workers {
    #[verifier::type_invariant]
    spec fn well_formed(self) -> bool {
        &&& self.executing@.len() <= WORKER_PERMITS
        &&& texts(self.executing@).no_duplicates()
    }

    /// All workers are free.
    pub fn new() -> (workers: Workers)
        ensures
            workers@ == Set::<Seq<char>>::empty(),
    {
        let workers = Workers { executing: Vec::new() };
        assert(workers@ =~= Set::<Seq<char>>::empty());
        workers
    }

    fn position(&self, task_id: &String) -> (position: Option<usize>)
        ensures
            position matches Some(i) ==> {
                &&& i < self.executing@.len()
                &&& self.executing@[i as int]@ == task_id@
            },
            position is Some == self@.contains(task_id@),
    {
        let mut i: usize = 0;
        while i < self.executing.len()
            invariant
                0 <= i <= self.executing@.len(),
                forall|k: int| 0 <= k < i ==> #[trigger] self.executing@[k]@ != task_id@,
            decreases self.executing.len() - i,
        {
            if self.executing[i] == *task_id {
                assert(texts(self.executing@)[i as int] == task_id@);
                return Some(i);
            }
            i = i + 1;
        }
        assert(!texts(self.executing@).contains(task_id@)) by {
            if texts(self.executing@).contains(task_id@) {
                let k = choose|k: int|
                    0 <= k < self.executing@.len() && texts(self.executing@)[k] == task_id@;
                assert(self.executing@[k]@ != task_id@);
            }
        }
        None
    }

    /// How many workers are free.
    pub fn free(&self) -> (n: usize)
        ensures
            self@.finite(),
            self@.len() <= WORKER_PERMITS,
            n == WORKER_PERMITS - self@.len(),
    {
        proof {
            use_type_invariant(self);
            texts(self.executing@).unique_seq_to_set();
        }
        WORKER_PERMITS - self.executing.len()
    }

    /// Takes a worker for a task: true unless the task is executing already or no worker is free.
    pub fn claim(&mut self, task_id: &str) -> (claimed: bool)
        ensures
            claimed == (!old(self)@.contains(task_id@) && old(self)@.len() < WORKER_PERMITS),
            final(self)@ == if claimed {
                old(self)@.insert(task_id@)
            } else {
                old(self)@
            },
    {
        proof {
            use_type_invariant(&*self);
            texts(self.executing@).unique_seq_to_set();
        }
        let id = task_id.to_string();
        if self.position(&id).is_some() || self.executing.len() >= WORKER_PERMITS {
            return false;
        }
        let mut executing: Vec<String> = Vec::new();
        std::mem::swap(&mut executing, &mut self.executing);
        let ghost before = texts(executing@);
        executing.push(id);
        proof {
            let after = texts(executing@);
            assert(after =~= before.push(task_id@));
            assert(!before.contains(task_id@));
            assert(after.no_duplicates()) by {
                assert forall|i: int, j: int|
                    0 <= i < after.len() && 0 <= j < after.len() && i != j implies after[i]
                    != after[j] by {
                    if i < before.len() && j < before.len() {
                        assert(before[i] != before[j]);
                    } else if i < before.len() {
                        assert(before.contains(before[i]));
                    } else {
                        assert(before.contains(before[j]));
                    }
                }
            }
            assert(after.to_set() =~= before.to_set().insert(task_id@)) by {
                assert forall|id: Seq<char>| after.contains(id) == (id == task_id@
                    || before.contains(id)) by {
                    if before.contains(id) {
                        let i = choose|i: int| 0 <= i < before.len() && before[i] == id;
                        assert(after[i] == id);
                    }
                    if id == task_id@ {
                        assert(after[before.len() as int] == id);
                    }
                }
            }
        }
        self.executing = executing;
        true
    }

    /// Gives the worker of a task free.
    pub fn release(&mut self, task_id: &str)
        ensures
            final(self)@ == old(self)@.remove(task_id@),
    {
        proof {
            use_type_invariant(&*self);
        }
        let id = task_id.to_string();
        match self.position(&id) {
            Some(at) => {
                let mut executing: Vec<String> = Vec::new();
                std::mem::swap(&mut executing, &mut self.executing);
                let ghost before = texts(executing@);
                executing.remove(at);
                proof {
                    let after = texts(executing@);
                    assert(after =~= before.remove(at as int));
                    assert(after.no_duplicates()) by {
                        assert forall|i: int, j: int|
                            0 <= i < after.len() && 0 <= j < after.len() && i != j implies after[i]
                            != after[j] by {
                            let from_i = if i < at {
                                i
                            } else {
                                i + 1
                            };
                            let from_j = if j < at {
                                j
                            } else {
                                j + 1
                            };
                            assert(before[from_i] != before[from_j]);
                        }
                    }
                    assert(after.to_set() =~= before.to_set().remove(task_id@)) by {
                        assert forall|id: Seq<char>| after.contains(id) == (id != task_id@
                            && before.contains(id)) by {
                            if after.contains(id) {
                                let i = choose|i: int| 0 <= i < after.len() && after[i] == id;
                                let from = if i < at {
                                    i
                                } else {
                                    i + 1
                                };
                                assert(before[from] == id);
                                assert(before[from] != before[at as int]);
                            }
                            if id != task_id@ && before.contains(id) {
                                let i = choose|i: int| 0 <= i < before.len() && before[i] == id;
                                let to = if i < at {
                                    i
                                } else {
                                    i - 1
                                };
                                assert(after[to] == id);
                            }
                        }
                    }
                }
                self.executing = executing;
            },
            None => {
                assert(self@.remove(task_id@) =~= self@);
            },
        }
    }
}

} // verus!
