//! The local data model: the secret store loaded once per run, mapping each
//! secret name to its plaintext value.

use vstd::prelude::*;

verus! {

/// The map described by an association list, later bindings winning.
pub open spec fn map_of(s: Seq<(String, String)>) -> Map<Seq<char>, Seq<char>>
    decreases s.len(),
{
    if s.len() == 0 {
        Map::empty()
    } else {
        map_of(s.drop_last()).insert(s.last().0@, s.last().1@)
    }
}

/// No name occurs twice.
pub open spec fn unique_names(s: Seq<(String, String)>) -> bool {
    forall|i: int, j: int| 0 <= i < j < s.len() ==> s[i].0@ != s[j].0@
}

/// A name is in the map exactly when some entry carries it.
pub proof fn lemma_map_of_dom(s: Seq<(String, String)>)
    ensures
        forall|n: Seq<char>|
            map_of(s).dom().contains(n) <==> exists|i: int| 0 <= i < s.len() && s[i].0@ == n,
    decreases s.len(),
{
    if s.len() > 0 {
        lemma_map_of_dom(s.drop_last());
        assert forall|n: Seq<char>| map_of(s).dom().contains(n)
            implies exists|i: int| 0 <= i < s.len() && s[i].0@ == n by {
            if n == s.last().0@ {
                assert(s[s.len() - 1].0@ == n);
            } else {
                assert(map_of(s.drop_last()).dom().contains(n));
                let i = choose|i: int| 0 <= i < s.drop_last().len() && s.drop_last()[i].0@ == n;
                assert(s.drop_last()[i] == s[i]);
                assert(s[i].0@ == n);
            }
        }
        assert forall|n: Seq<char>| (exists|i: int| 0 <= i < s.len() && s[i].0@ == n)
            implies map_of(s).dom().contains(n) by {
            let i = choose|i: int| 0 <= i < s.len() && s[i].0@ == n;
            if i < s.len() - 1 {
                assert(s.drop_last()[i].0@ == n);
                assert(map_of(s.drop_last()).dom().contains(n));
            } else {
                assert(n == s.last().0@);
            }
        }
    }
}

/// Under unique names, each entry gives its own value.
pub proof fn lemma_map_of_get(s: Seq<(String, String)>, i: int)
    requires
        unique_names(s),
        0 <= i < s.len(),
    ensures
        map_of(s).dom().contains(s[i].0@),
        map_of(s)[s[i].0@] == s[i].1@,
    decreases s.len(),
{
    lemma_map_of_dom(s);
    if i < s.len() - 1 {
        assert(s.drop_last()[i] == s[i]);
        lemma_map_of_get(s.drop_last(), i);
        assert(s[i].0@ != s.last().0@);
    }
}

/// The local name -> value mapping, the sole source of plaintext values.
/// Loaded once and read-only for the rest of the run.
pub struct SecretStore {
    entries: Vec<(String, String)>,
}

impl SecretStore {
    /// The mathematical content of the store.
    pub closed spec fn map_view(&self) -> Map<Seq<char>, Seq<char>> {
        map_of(self.entries@)
    }

    pub closed spec fn wf(&self) -> bool {
        unique_names(self.entries@)
    }

    pub fn new() -> (r: SecretStore)
        ensures
            r.wf(),
            r.map_view() == Map::<Seq<char>, Seq<char>>::empty(),
    {
        SecretStore { entries: Vec::new() }
    }

    /// Adds a binding for a name not yet present.
    pub fn insert(&mut self, name: String, value: String)
        requires
            old(self).wf(),
            !old(self).map_view().dom().contains(name@),
        ensures
            final(self).wf(),
            final(self).map_view() == old(self).map_view().insert(name@, value@),
    {
        proof {
            lemma_map_of_dom(self.entries@);
        }
        self.entries.push((name, value));
        proof {
            assert(self.entries@.drop_last() =~= old(self).entries@);
        }
    }

    /// Whether the store holds a value under `name`.
    pub fn contains(&self, name: &String) -> (r: bool)
        ensures
            r == self.map_view().dom().contains(name@),
    {
        proof {
            lemma_map_of_dom(self.entries@);
        }
        let mut i: usize = 0;
        while i < self.entries.len()
            invariant
                0 <= i <= self.entries@.len(),
                forall|j: int| 0 <= j < i ==> self.entries@[j].0@ != name@,
            decreases self.entries@.len() - i,
        {
            if self.entries[i].0 == *name {
                proof {
                    lemma_map_of_dom(self.entries@);
                }
                return true;
            }
            i = i + 1;
        }
        proof {
            lemma_map_of_dom(self.entries@);
        }
        false
    }

    /// Looks the value up; `Some` exactly when the name is bound.
    pub fn get(&self, name: &String) -> (r: Option<&String>)
        requires
            self.wf(),
        ensures
            match r {
                Some(v) => self.map_view().dom().contains(name@) && v@ == self.map_view()[name@],
                None => !self.map_view().dom().contains(name@),
            },
    {
        let mut i: usize = 0;
        while i < self.entries.len()
            invariant
                self.wf(),
                0 <= i <= self.entries@.len(),
                forall|j: int| 0 <= j < i ==> self.entries@[j].0@ != name@,
            decreases self.entries@.len() - i,
        {
            if self.entries[i].0 == *name {
                proof {
                    lemma_map_of_get(self.entries@, i as int);
                }
                return Some(&self.entries[i].1);
            }
            i = i + 1;
        }
        proof {
            lemma_map_of_dom(self.entries@);
        }
        None
    }
}

} // verus!
