//! Environments: where each variable in scope is stored.
use vstd::prelude::*;

verus! {

/// The mapping given by a list of (name, slot) entries, later entries
/// shadowing earlier ones.
pub open spec fn env_map(s: Seq<(String, u64)>) -> Map<Seq<char>, int>
    decreases s.len(),
{
    if s.len() == 0 {
        Map::empty()
    } else {
        env_map(s.drop_last()).insert(s.last().0@, s.last().1 as int)
    }
}

proof fn lemma_env_map_found(s: Seq<(String, u64)>, j: int, x: Seq<char>)
    requires
        0 <= j < s.len(),
        s[j].0@ == x,
        forall|k: int| j < k < s.len() ==> (#[trigger] s[k]).0@ != x,
    ensures
        env_map(s).contains_key(x),
        env_map(s)[x] == s[j].1 as int,
    decreases s.len(),
{
    if j < s.len() - 1 {
        let t = s.drop_last();
        assert forall|k: int| j < k < t.len() implies (#[trigger] t[k]).0@ != x by {
            assert(t[k] == s[k]);
        }
        lemma_env_map_found(t, j, x);
    }
}

proof fn lemma_env_map_absent(s: Seq<(String, u64)>, x: Seq<char>)
    requires
        forall|k: int| 0 <= k < s.len() ==> (#[trigger] s[k]).0@ != x,
    ensures
        !env_map(s).contains_key(x),
    decreases s.len(),
{
    if s.len() > 0 {
        let t = s.drop_last();
        assert forall|k: int| 0 <= k < t.len() implies (#[trigger] t[k]).0@ != x by {
            assert(t[k] == s[k]);
        }
        lemma_env_map_absent(t, x);
    }
}

proof fn lemma_env_map_views(s: Seq<(String, u64)>, t: Seq<(String, u64)>)
    requires
        s.len() == t.len(),
        forall|k: int| 0 <= k < s.len() ==> (#[trigger] s[k]).0@ == t[k].0@ && s[k].1 == t[k].1,
    ensures
        env_map(s) == env_map(t),
    decreases s.len(),
{
    if s.len() > 0 {
        let (s2, t2) = (s.drop_last(), t.drop_last());
        assert forall|k: int| 0 <= k < s2.len() implies (#[trigger] s2[k]).0@ == t2[k].0@ && s2[k].1 == t2[k].1 by {
            assert(s2[k] == s[k] && t2[k] == t[k]);
        }
        lemma_env_map_views(s2, t2);
    }
}

/// The slots of the variables in scope. A scope is extended into a new
/// environment, never changed in place.
pub struct Env {
    entries: Vec<(String, u64)>,
}

impl View for Env {
    type V = Map<Seq<char>, int>;

    closed spec fn view(&self) -> Map<Seq<char>, int> {
        env_map(self.entries@)
    }
}

impl Env {
    /// The environment with no variable.
    pub fn new() -> (r: Env)
        ensures
            r@ == Map::<Seq<char>, int>::empty(),
    {
        Env { entries: Vec::new() }
    }

    /// This environment with `name` bound to slot `offset`, shadowing any
    /// earlier binding of it.
    pub fn bind(&self, name: &String, offset: u64) -> (r: Env)
        ensures
            r@ == self@.insert(name@, offset as int),
    {
        let mut entries: Vec<(String, u64)> = Vec::new();
        let n = self.entries.len();
        let mut i: usize = 0;
        while i < n
            invariant
                n == self.entries@.len(),
                i <= n,
                entries@.len() == i,
                forall|k: int| 0 <= k < i ==> (#[trigger] entries@[k]).0@ == self.entries@[k].0@
                    && entries@[k].1 == self.entries@[k].1,
            decreases n - i,
        {
            let (x, k) = &self.entries[i];
            entries.push((x.clone(), *k));
            i = i + 1;
        }
        proof {
            lemma_env_map_views(entries@, self.entries@);
        }
        let ghost before = entries@;
        entries.push((name.clone(), offset));
        proof {
            assert(entries@.drop_last() == before);
        }
        Env { entries }
    }

    /// The slot of `name`, if it is bound.
    pub fn lookup(&self, name: &String) -> (r: Option<u64>)
        ensures
            r is Some <==> self@.contains_key(name@),
            r matches Some(k) ==> k as int == self@[name@],
    {
        let mut i: usize = self.entries.len();
        while i > 0
            invariant
                i <= self.entries@.len(),
                forall|k: int| i <= k < self.entries@.len() ==> (#[trigger] self.entries@[k]).0@ != name@,
            decreases i,
        {
            if self.entries[i - 1].0 == *name {
                proof {
                    lemma_env_map_found(self.entries@, i - 1, name@);
                }
                return Some(self.entries[i - 1].1);
            }
            i = i - 1;
        }
        proof {
            lemma_env_map_absent(self.entries@, name@);
        }
        None
    }
}

} // verus!
