//! The scheduler's table of jobs by task name.
use vstd::prelude::*;

use crate::text::same_str;

verus! {

broadcast use vstd::string::group_string_axioms;

/// Jobs (or tasks) by task name; each name at most once.
///
/// The entries are held as a vector of pairs with that invariant rather
/// than a `HashMap<String, J>`: vstd's contracts for `HashMap` hold only
/// for key types with a key model, which `String` lacks, so nothing could
/// be proved of what such a table returns.
pub struct JobTable<J> {
    entries: Vec<(String, J)>,
}

/// Whether no name occurs twice.
pub open spec fn distinct_names<J>(s: Seq<(String, J)>) -> bool {
    forall|i: int, j: int| 0 <= i < j < s.len() ==> (#[trigger] s[i]).0@ != (#[trigger] s[j]).0@
}

/// Whether `name` occurs in `s`.
pub open spec fn has_name<J>(s: Seq<(String, J)>, name: Seq<char>) -> bool {
    exists|i: int| 0 <= i < s.len() && (#[trigger] s[i]).0@ == name
}

/// The entries as a map from name to job.
pub open spec fn entries_map<J>(s: Seq<(String, J)>) -> Map<Seq<char>, J> {
    Map::new(
        |name: Seq<char>| has_name(s, name),
        |name: Seq<char>| s[choose|i: int| 0 <= i < s.len() && (#[trigger] s[i]).0@ == name].1,
    )
}

proof fn lemma_entry_value<J>(s: Seq<(String, J)>, i: int)
    requires
        distinct_names(s),
        0 <= i < s.len(),
    ensures
        entries_map(s).contains_key(s[i].0@),
        entries_map(s)[s[i].0@] == s[i].1,
{
    let name = s[i].0@;
    assert(has_name(s, name));
    let c = choose|c: int| 0 <= c < s.len() && (#[trigger] s[c]).0@ == name;
    if c != i {
        if c < i {
            assert(s[c].0@ != s[i].0@);
        } else {
            assert(s[i].0@ != s[c].0@);
        }
    }
}

impl<J> JobTable<J> {
    #[verifier::type_invariant]
    spec fn wf(self) -> bool {
        distinct_names(self.entries@)
    }

    /// The jobs by name.
    pub closed spec fn view(&self) -> Map<Seq<char>, J> {
        entries_map(self.entries@)
    }

    /// An empty table.
    pub fn new() -> (t: JobTable<J>)
        ensures
            t@ == Map::<Seq<char>, J>::empty(),
    {
        let t = JobTable { entries: Vec::new() };
        assert(t@ =~= Map::<Seq<char>, J>::empty());
        t
    }

    fn position(&self, name: &str) -> (p: Option<usize>)
        ensures
            match p {
                Some(i) => i < self.entries@.len() && self.entries@[i as int].0@ == name@,
                None => !has_name(self.entries@, name@),
            },
    {
        let mut i: usize = 0;
        while i < self.entries.len()
            invariant
                i <= self.entries.len(),
                forall|j: int| 0 <= j < i ==> (#[trigger] self.entries@[j]).0@ != name@,
            decreases self.entries.len() - i,
        {
            if same_str(self.entries[i].0.as_str(), name) {
                return Some(i);
            }
            i += 1;
        }
        None
    }

    /// The job of `name`, if any.
    pub fn get(&self, name: &str) -> (r: Option<&J>)
        ensures
            match r {
                Some(j) => self@.contains_key(name@) && *j == self@[name@],
                None => !self@.contains_key(name@),
            },
    {
        proof {
            use_type_invariant(self);
        }
        match self.position(name) {
            Some(i) => {
                proof {
                    lemma_entry_value(self.entries@, i as int);
                }
                Some(&self.entries[i].1)
            },
            None => None,
        }
    }

    /// Takes out the job of `name`, if any.
    pub fn remove(&mut self, name: &str) -> (r: Option<J>)
        ensures
            final(self)@ == old(self)@.remove(name@),
            match r {
                Some(j) => old(self)@.contains_key(name@) && j == old(self)@[name@],
                None => !old(self)@.contains_key(name@),
            },
    {
        proof {
            use_type_invariant(&*self);
        }
        match self.position(name) {
            Some(i) => {
                let ghost s = self.entries@;
                proof {
                    lemma_entry_value(s, i as int);
                }
                let mut entries = Vec::new();
                std::mem::swap(&mut entries, &mut self.entries);
                let (_, job) = entries.remove(i);
                let ghost t = entries@;
                assert(t == s.remove(i as int));
                assert(distinct_names(t)) by {
                    assert forall|a: int, b: int| 0 <= a < b < t.len() implies (#[trigger] t[a]).0@ != (#[trigger] t[b]).0@ by {
                        let a2 = if a < i { a } else { a + 1 };
                        let b2 = if b < i { b } else { b + 1 };
                        assert(t[a] == s[a2] && t[b] == s[b2]);
                    }
                }
                assert(entries_map(t) =~= entries_map(s).remove(name@)) by {
                    assert forall|k: Seq<char>| #[trigger] entries_map(t).contains_key(k) <==> entries_map(s).remove(name@).contains_key(k) by {
                        if has_name(t, k) {
                            let a = choose|a: int| 0 <= a < t.len() && (#[trigger] t[a]).0@ == k;
                            let a2 = if a < i { a } else { a + 1 };
                            assert(t[a] == s[a2]);
                            assert(has_name(s, k));
                            assert(k != name@) by {
                                if k == name@ {
                                    if a2 < i {
                                        assert(s[a2].0@ != s[i as int].0@);
                                    } else {
                                        assert(s[i as int].0@ != s[a2].0@);
                                    }
                                }
                            }
                        }
                        if has_name(s, k) && k != name@ {
                            let a = choose|a: int| 0 <= a < s.len() && (#[trigger] s[a]).0@ == k;
                            assert(a != i);
                            let a2 = if a < i { a } else { a - 1 };
                            assert(t[a2] == s[a]);
                            assert(has_name(t, k));
                        }
                    }
                    assert forall|k: Seq<char>| #[trigger] entries_map(t).contains_key(k) implies entries_map(t)[k]
                        == entries_map(s)[k] by {
                        let a = choose|a: int| 0 <= a < t.len() && (#[trigger] t[a]).0@ == k;
                        lemma_entry_value(t, a);
                        let a2 = if a < i { a } else { a + 1 };
                        assert(t[a] == s[a2]);
                        lemma_entry_value(s, a2);
                    }
                }
                self.entries = entries;
                Some(job)
            },
            None => {
                assert(self@ =~= self@.remove(name@));
                None
            },
        }
    }

    /// Sets the job of `name`, returning the one it replaces.
    pub fn insert(&mut self, name: String, job: J) -> (r: Option<J>)
        ensures
            final(self)@ == old(self)@.insert(name@, job),
            match r {
                Some(j) => old(self)@.contains_key(name@) && j == old(self)@[name@],
                None => !old(self)@.contains_key(name@),
            },
    {
        let old_job = self.remove(name.as_str());
        proof {
            use_type_invariant(&*self);
        }
        let ghost s = self.entries@;
        assert(!self@.contains_key(name@));
        assert(!entries_map(s).contains_key(name@));
        let mut entries = Vec::new();
        std::mem::swap(&mut entries, &mut self.entries);
        entries.push((name, job));
        let ghost t = entries@;
        assert(t == s.push((name, job)));
        assert(!has_name(s, name@));
        assert(distinct_names(t)) by {
            assert forall|a: int, b: int| 0 <= a < b < t.len() implies (#[trigger] t[a]).0@ != (#[trigger] t[b]).0@ by {
                if b == s.len() {
                    assert(t[a] == s[a]);
                } else {
                    assert(t[a] == s[a] && t[b] == s[b]);
                }
            }
        }
        assert(entries_map(t) =~= entries_map(s).insert(name@, job)) by {
            assert forall|k: Seq<char>| #[trigger] entries_map(t).contains_key(k) <==> entries_map(s).insert(name@, job).contains_key(k) by {
                if has_name(t, k) && k != name@ {
                    let a = choose|a: int| 0 <= a < t.len() && (#[trigger] t[a]).0@ == k;
                    assert(a < s.len());
                    assert(t[a] == s[a]);
                }
                if has_name(s, k) {
                    let a = choose|a: int| 0 <= a < s.len() && (#[trigger] s[a]).0@ == k;
                    assert(t[a] == s[a]);
                }
                if k == name@ {
                    assert(t[s.len() as int].0@ == k);
                }
            }
            assert forall|k: Seq<char>| #[trigger] entries_map(t).contains_key(k) implies entries_map(t)[k]
                == entries_map(s).insert(name@, job)[k] by {
                let a = choose|a: int| 0 <= a < t.len() && (#[trigger] t[a]).0@ == k;
                lemma_entry_value(t, a);
                if a < s.len() {
                    assert(t[a] == s[a]);
                    lemma_entry_value(s, a);
                }
            }
        }
        self.entries = entries;
        old_job
    }

    /// Moves the job of `old_name` to `new_name` (replacing any job there);
    /// nothing changes when `old_name` has none.
    pub fn rename(&mut self, old_name: &str, new_name: &str)
        ensures
            old(self)@.contains_key(old_name@) ==> final(self)@ == old(self)@.remove(old_name@).insert(
                new_name@,
                old(self)@[old_name@],
            ),
            !old(self)@.contains_key(old_name@) ==> final(self)@ == old(self)@,
    {
        match self.remove(old_name) {
            Some(job) => {
                self.insert(String::from_str(new_name), job);
            },
            None => {},
        }
    }
}

} // verus!
