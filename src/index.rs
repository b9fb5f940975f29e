//! The index binding scope: counters of the repetitions with a named index
//! that enclose the current point of a traversal.

use vstd::prelude::*;
use crate::store::ParameterBindingNotFound;

verus! {

/// A stack of named counters, innermost last.
pub type IndexEnv = Seq<(Seq<char>, nat)>;

/// The counter of the innermost repetition whose index is `name`.
pub open spec fn env_get(env: IndexEnv, name: Seq<char>) -> Option<nat>
    decreases env.len(),
{
    if env.len() == 0 {
        None
    } else if env.last().0 == name {
        Some(env.last().1)
    } else {
        env_get(env.drop_last(), name)
    }
}

/// The counters inside iteration `k` of a repetition with index `idx`.
pub open spec fn with_index(env: IndexEnv, idx: Option<Seq<char>>, k: nat) -> IndexEnv {
    match idx {
        Some(n) => env.push((n, k)),
        None => env,
    }
}

/// The counters of one traversal. Entering a repetition with a named index
/// pushes a counter at zero, each iteration increments it, and leaving the
/// repetition pops it.
#[derive(Debug)]
pub struct IndexBindings {
    scopes: Vec<(String, usize)>,
}

impl IndexBindings {
    pub closed spec fn view(&self) -> IndexEnv {
        self.scopes@.map_values(|e: (String, usize)| (e.0@, e.1 as nat))
    }

    /// No counters.
    pub fn new() -> (r: IndexBindings)
        ensures
            r.view() == Seq::<(Seq<char>, nat)>::empty(),
    {
        let r = IndexBindings { scopes: Vec::new() };
        assert(r.view() =~= Seq::<(Seq<char>, nat)>::empty());
        r
    }

    /// Enters a repetition whose index is `name`.
    pub fn push_scope(&mut self, name: String)
        ensures
            final(self).view() == old(self).view().push((name@, 0nat)),
    {
        self.scopes.push((name, 0));
        assert(self.view() =~= old(self).view().push((name@, 0nat)));
    }

    /// Counts one more iteration of the innermost repetition.
    pub fn increment(&mut self)
        requires
            old(self).view().len() > 0,
            old(self).view().last().1 < usize::MAX,
        ensures
            final(self).view() == old(self).view().drop_last().push(
                (old(self).view().last().0, old(self).view().last().1 + 1),
            ),
    {
        let last = self.scopes.len() - 1;
        assert(self.view()[last as int] == (self.scopes@[last as int].0@, self.scopes@[last as int].1 as nat));
        let (name, n) = self.scopes.pop().unwrap();
        self.scopes.push((name, n + 1));
        assert(self.view() =~= old(self).view().drop_last().push(
            (old(self).view().last().0, old(self).view().last().1 + 1),
        ));
    }

    /// Leaves the innermost repetition, giving its final count.
    pub fn pop_scope(&mut self) -> (r: usize)
        requires
            old(self).view().len() > 0,
        ensures
            final(self).view() == old(self).view().drop_last(),
            r == old(self).view().last().1,
    {
        let last = self.scopes.len() - 1;
        assert(self.view()[last as int] == (self.scopes@[last as int].0@, self.scopes@[last as int].1 as nat));
        let (_, n) = self.scopes.pop().unwrap();
        assert(self.view() =~= old(self).view().drop_last());
        n
    }

    /// The counter of the innermost repetition whose index is `name`, if
    /// any.
    pub fn get_maybe_index(&self, name: &String) -> (r: Option<usize>)
        ensures
            r matches Some(k) ==> env_get(self.view(), name@) == Some(k as nat),
            r is None ==> env_get(self.view(), name@) is None,
    {
        let mut i: usize = self.scopes.len();
        assert(self.view().subrange(0, i as int) == self.view());
        while i > 0
            invariant
                i <= self.scopes.len(),
                self.view().len() == self.scopes.len(),
                env_get(self.view(), name@) == env_get(self.view().subrange(0, i as int), name@),
            decreases i,
        {
            let ghost s = self.view().subrange(0, i as int);
            assert(s.last() == (self.scopes@[i - 1].0@, self.scopes@[i - 1].1 as nat));
            assert(s.drop_last() == self.view().subrange(0, i - 1));
            if self.scopes[i - 1].0.eq(name) {
                return Some(self.scopes[i - 1].1);
            }
            i = i - 1;
        }
        None
    }

    /// The counter of the innermost repetition whose index is `name`.
    pub fn get_index(&self, name: &String) -> (r: Result<usize, ParameterBindingNotFound>)
        ensures
            r matches Ok(k) ==> env_get(self.view(), name@) == Some(k as nat),
            r matches Err(e) ==> env_get(self.view(), name@) is None && e.parameter@ == name@,
    {
        match self.get_maybe_index(name) {
            Some(k) => Ok(k),
            None => Err(ParameterBindingNotFound { parameter: name.clone() }),
        }
    }
}

} // verus!
