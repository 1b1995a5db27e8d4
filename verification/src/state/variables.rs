//! The variables that one scope defines itself.

use vstd::prelude::*;

verus! {

/// The mapping that a list of bindings stands for. The bindings are entered in
/// order, so a later binding of a name replaces an earlier one.
pub open spec fn bindings_map(bindings: Seq<(String, String)>) -> Map<Seq<char>, Seq<char>>
    decreases bindings.len(),
{
    if bindings.len() == 0 {
        Map::empty()
    } else {
        bindings_map(bindings.drop_last()).insert(bindings.last().0@, bindings.last().1@)
    }
}

/// No binding of `bindings` is for `name`.
pub open spec fn unbound(bindings: Seq<(String, String)>, name: Seq<char>) -> bool {
    forall|j: int| 0 <= j < bindings.len() ==> (#[trigger] bindings[j]).0@ != name
}

/// A name that no binding mentions is not in the mapping.
pub proof fn lemma_unbound_is_absent(bindings: Seq<(String, String)>, name: Seq<char>)
    requires
        unbound(bindings, name),
    ensures
        !bindings_map(bindings).contains_key(name),
    decreases bindings.len(),
{
    if bindings.len() > 0 {
        let front = bindings.drop_last();
        assert forall|j: int| 0 <= j < front.len() implies (#[trigger] front[j]).0@ != name by {
            assert(front[j] == bindings[j]);
        }
        lemma_unbound_is_absent(front, name);
    }
}

/// The last binding of a name is the one that the mapping holds.
pub proof fn lemma_last_binding_wins(bindings: Seq<(String, String)>, i: int)
    requires
        0 <= i < bindings.len(),
        forall|j: int| i < j < bindings.len() ==> (#[trigger] bindings[j]).0@ != bindings[i].0@,
    ensures
        bindings_map(bindings).contains_key(bindings[i].0@),
        bindings_map(bindings)[bindings[i].0@] == bindings[i].1@,
    decreases bindings.len(),
{
    if i < bindings.len() - 1 {
        let front = bindings.drop_last();
        assert(front[i] == bindings[i]);
        assert forall|j: int| i < j < front.len() implies (#[trigger] front[j]).0@ != front[i].0@ by {
            assert(front[j] == bindings[j]);
        }
        lemma_last_binding_wins(front, i);
        assert(bindings.last().0@ != bindings[i].0@);
    }
}

/// Replacing the value of the last binding of a name enters that value in the
/// mapping and changes nothing else.
proof fn lemma_rebind(bindings: Seq<(String, String)>, i: int, rebound: Seq<(String, String)>)
    requires
        0 <= i < bindings.len(),
        forall|j: int| i < j < bindings.len() ==> (#[trigger] bindings[j]).0@ != bindings[i].0@,
        rebound.len() == bindings.len(),
        rebound[i].0@ == bindings[i].0@,
        forall|j: int| 0 <= j < bindings.len() && j != i ==> rebound[j] == bindings[j],
    ensures
        bindings_map(rebound) == bindings_map(bindings).insert(bindings[i].0@, rebound[i].1@),
    decreases bindings.len(),
{
    let name = bindings[i].0@;
    if i == bindings.len() - 1 {
        assert(rebound.drop_last() =~= bindings.drop_last());
        assert(bindings_map(rebound) =~= bindings_map(bindings).insert(name, rebound[i].1@));
    } else {
        let front = bindings.drop_last();
        let rebound_front = rebound.drop_last();
        assert(front[i] == bindings[i]);
        assert(rebound_front[i] == rebound[i]);
        assert forall|j: int| i < j < front.len() implies (#[trigger] front[j]).0@ != front[i].0@ by {
            assert(front[j] == bindings[j]);
        }
        assert forall|j: int| 0 <= j < front.len() && j != i implies rebound_front[j] == front[j] by {
            assert(rebound_front[j] == rebound[j]);
            assert(front[j] == bindings[j]);
        }
        lemma_rebind(front, i, rebound_front);
        assert(rebound.last() == bindings.last());
        assert(bindings.last().0@ != name);
        assert(bindings_map(rebound) =~= bindings_map(bindings).insert(name, rebound[i].1@));
    }
}

/// The variables of one scope: a mapping from names to their current values.
pub struct VariableStore {
    entries: Vec<(String, String)>,
}

impl View for VariableStore {
    type V = Map<Seq<char>, Seq<char>>;

    closed spec fn view(&self) -> Map<Seq<char>, Seq<char>> {
        bindings_map(self.entries@)
    }
}

impl VariableStore {
    /// A store without variables.
    pub fn new() -> (store: Self)
        ensures
            store@ == Map::<Seq<char>, Seq<char>>::empty(),
    {
        VariableStore { entries: Vec::new() }
    }

    /// A store that holds the given bindings.
    pub fn from_bindings(bindings: Vec<(String, String)>) -> (store: Self)
        ensures
            store@ == bindings_map(bindings@),
    {
        VariableStore { entries: bindings }
    }

    /// Where the binding of `name` that counts stands, if there is one.
    fn position(&self, name: &String) -> (found: Option<usize>)
        ensures
            match found {
                Some(i) => {
                    &&& i < self.entries.len()
                    &&& self.entries[i as int].0@ == name@
                    &&& forall|j: int|
                        i < j < self.entries.len() ==> (#[trigger] self.entries[j]).0@ != name@
                },
                None => unbound(self.entries@, name@),
            },
    {
        let mut i: usize = self.entries.len();
        while i > 0
            invariant
                i <= self.entries.len(),
                forall|j: int| i <= j < self.entries.len() ==> (#[trigger] self.entries[j]).0@ != name@,
            decreases i,
        {
            i -= 1;
            if self.entries[i].0 == *name {
                return Some(i);
            }
        }
        None
    }

    /// Whether the store defines `name`.
    pub fn contains(&self, name: &str) -> (defined: bool)
        ensures
            defined == self@.contains_key(name@),
    {
        let key = name.to_owned();
        self.defines(&key)
    }

    /// The current value of `name`, if the store defines it.
    pub fn get(&self, name: &str) -> (value: Option<String>)
        ensures
            value.is_some() == self@.contains_key(name@),
            value matches Some(v) ==> v@ == self@[name@],
    {
        let key = name.to_owned();
        self.value_of(&key)
    }

    /// Gives `name` a new value if the store defines it, and says whether it
    /// does. A name that the store does not define is not added.
    pub fn set(&mut self, name: &str, value: String) -> (defined: bool)
        ensures
            defined == old(self)@.contains_key(name@),
            defined ==> final(self)@ == old(self)@.insert(name@, value@),
            !defined ==> final(self)@ == old(self)@,
    {
        let key = name.to_owned();
        self.assign(&key, value)
    }

    /// `contains`, for a name that is at hand as a `String`.
    pub(crate) fn defines(&self, name: &String) -> (defined: bool)
        ensures
            defined == self@.contains_key(name@),
    {
        match self.position(name) {
            Some(i) => {
                proof {
                    lemma_last_binding_wins(self.entries@, i as int);
                }
                true
            },
            None => {
                proof {
                    lemma_unbound_is_absent(self.entries@, name@);
                }
                false
            },
        }
    }

    /// `get`, for a name that is at hand as a `String`.
    pub(crate) fn value_of(&self, name: &String) -> (value: Option<String>)
        ensures
            value.is_some() == self@.contains_key(name@),
            value matches Some(v) ==> v@ == self@[name@],
    {
        match self.position(name) {
            Some(i) => {
                proof {
                    lemma_last_binding_wins(self.entries@, i as int);
                }
                Some(self.entries[i].1.clone())
            },
            None => {
                proof {
                    lemma_unbound_is_absent(self.entries@, name@);
                }
                None
            },
        }
    }

    /// `set`, for a name that is at hand as a `String`.
    pub(crate) fn assign(&mut self, name: &String, value: String) -> (defined: bool)
        ensures
            defined == old(self)@.contains_key(name@),
            defined ==> final(self)@ == old(self)@.insert(name@, value@),
            !defined ==> final(self)@ == old(self)@,
    {
        match self.position(name) {
            Some(i) => {
                proof {
                    lemma_last_binding_wins(self.entries@, i as int);
                }
                self.entries[i].1 = value;
                proof {
                    lemma_rebind(old(self).entries@, i as int, self.entries@);
                }
                true
            },
            None => {
                proof {
                    lemma_unbound_is_absent(self.entries@, name@);
                }
                false
            },
        }
    }
}

} // verus!
