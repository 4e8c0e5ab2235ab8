//! Scopes: the variables of one lexical level.

use crate::value::{Literal, LiteralView};
use vstd::prelude::*;

verus! {

/// The variables of one lexical level: each name once, with its value.
#[derive(Debug)]
pub struct Scope {
    vars: Vec<(String, Literal)>,
}

/// Whether no name occurs twice among the entries.
pub open spec fn distinct_names(vars: Seq<(String, Literal)>) -> bool {
    forall|i: int, j: int|
        0 <= i < vars.len() && 0 <= j < vars.len() && (#[trigger] vars[i]).0@ == (
        #[trigger] vars[j]).0@ ==> i == j
}

/// Whether some entry has the name.
pub open spec fn names(vars: Seq<(String, Literal)>, name: Seq<char>) -> bool {
    exists|i: int| 0 <= i < vars.len() && (#[trigger] vars[i]).0@ == name
}

/// The index of an entry with the name.
pub open spec fn entry_of(vars: Seq<(String, Literal)>, name: Seq<char>) -> int {
    choose|i: int| 0 <= i < vars.len() && (#[trigger] vars[i]).0@ == name
}

/// The mapping from names to values that the entries write down.
pub open spec fn bindings(vars: Seq<(String, Literal)>) -> Map<Seq<char>, LiteralView> {
    Map::new(|name: Seq<char>| names(vars, name), |name: Seq<char>| vars[entry_of(vars, name)].1@)
}

proof fn lemma_entry(vars: Seq<(String, Literal)>, i: int)
    requires
        distinct_names(vars),
        0 <= i < vars.len(),
    ensures
        names(vars, vars[i].0@),
        entry_of(vars, vars[i].0@) == i,
        bindings(vars).contains_key(vars[i].0@),
        bindings(vars)[vars[i].0@] == vars[i].1@,
{
    let name = vars[i].0@;
    let j = entry_of(vars, name);
    assert(vars[j].0@ == vars[i].0@);
}

proof fn lemma_bindings_push(vars: Seq<(String, Literal)>, entry: (String, Literal))
    requires
        distinct_names(vars),
        !names(vars, entry.0@),
    ensures
        distinct_names(vars.push(entry)),
        bindings(vars.push(entry)) == bindings(vars).insert(entry.0@, entry.1@),
{
    let more = vars.push(entry);
    assert forall|i: int, j: int|
        0 <= i < more.len() && 0 <= j < more.len() && (#[trigger] more[i]).0@ == (
        #[trigger] more[j]).0@ implies i == j by {
        if i < vars.len() {
            assert(more[i] == vars[i]);
        }
        if j < vars.len() {
            assert(more[j] == vars[j]);
        }
    }
    assert forall|name: Seq<char>|
        bindings(more).contains_key(name) == bindings(vars).insert(
            entry.0@,
            entry.1@,
        ).contains_key(name) by {
        if names(vars, name) {
            let i = entry_of(vars, name);
            assert(more[i] == vars[i]);
        }
        if name == entry.0@ {
            assert(more[vars.len() as int] == entry);
        }
        if names(more, name) {
            let i = entry_of(more, name);
            if i < vars.len() {
                assert(more[i] == vars[i]);
            }
        }
    }
    assert forall|name: Seq<char>| bindings(more).contains_key(name) implies bindings(more)[name]
        == bindings(vars).insert(entry.0@, entry.1@)[name] by {
        let i = entry_of(more, name);
        lemma_entry(more, i);
        if i < vars.len() {
            assert(more[i] == vars[i]);
            lemma_entry(vars, i);
        }
    }
    assert(bindings(more) =~= bindings(vars).insert(entry.0@, entry.1@));
}

proof fn lemma_bindings_update(vars: Seq<(String, Literal)>, at: int, entry: (String, Literal))
    requires
        distinct_names(vars),
        0 <= at < vars.len(),
        vars[at].0@ == entry.0@,
    ensures
        distinct_names(vars.update(at, entry)),
        bindings(vars.update(at, entry)) == bindings(vars).insert(entry.0@, entry.1@),
{
    let changed = vars.update(at, entry);
    assert forall|i: int| 0 <= i < vars.len() implies (#[trigger] changed[i]).0@ == vars[i].0@ by {}
    assert forall|i: int, j: int|
        0 <= i < changed.len() && 0 <= j < changed.len() && (#[trigger] changed[i]).0@ == (
        #[trigger] changed[j]).0@ implies i == j by {
        assert(vars[i].0@ == vars[j].0@);
    }
    assert forall|name: Seq<char>|
        bindings(changed).contains_key(name) == bindings(vars).insert(
            entry.0@,
            entry.1@,
        ).contains_key(name) by {
        if names(vars, name) {
            let i = entry_of(vars, name);
            assert(changed[i].0@ == vars[i].0@);
        }
        if names(changed, name) {
            let i = entry_of(changed, name);
            assert(changed[i].0@ == vars[i].0@);
        }
        if name == entry.0@ {
            assert(changed[at].0@ == name);
        }
    }
    assert forall|name: Seq<char>|
        bindings(changed).contains_key(name) implies bindings(changed)[name] == bindings(
            vars,
        ).insert(entry.0@, entry.1@)[name] by {
        let i = entry_of(changed, name);
        lemma_entry(changed, i);
        assert(changed[i].0@ == vars[i].0@);
        lemma_entry(vars, i);
        lemma_entry(vars, at);
    }
    assert(bindings(changed) =~= bindings(vars).insert(entry.0@, entry.1@));
}

/// The mapping that a list of bindings writes down: each name with its
/// value, and where a name comes twice, with the later one.
pub open spec fn bound_by(pairs: Seq<(String, Literal)>) -> Map<Seq<char>, LiteralView>
    decreases pairs.len(),
{
    if pairs.len() == 0 {
        Map::empty()
    } else {
        bound_by(pairs.drop_last()).insert(pairs.last().0@, pairs.last().1@)
    }
}

impl View for Scope {
    type V = Map<Seq<char>, LiteralView>;

    closed spec fn view(&self) -> Map<Seq<char>, LiteralView> {
        bindings(self.vars@)
    }
}

impl Scope {
    /// Well-formedness: no name is held twice.
    pub closed spec fn wf(&self) -> bool {
        distinct_names(self.vars@)
    }

    /// A scope without variables.
    pub fn new() -> (scope: Self)
        ensures
            scope.wf(),
            scope@ == Map::<Seq<char>, LiteralView>::empty(),
    {
        let scope = Self { vars: Vec::new() };
        assert(scope@ =~= Map::<Seq<char>, LiteralView>::empty());
        scope
    }

    /// A scope with the given bindings. Where a name comes twice, the later
    /// binding holds.
    pub fn from_pairs(pairs: Vec<(String, Literal)>) -> (scope: Self)
        ensures
            scope.wf(),
            scope@ == bound_by(pairs@),
    {
        let mut scope = Scope::new();
        let mut i: usize = 0;
        assert(pairs@.take(0) =~= Seq::<(String, Literal)>::empty());
        while i < pairs.len()
            invariant
                i <= pairs@.len(),
                scope.wf(),
                scope@ == bound_by(pairs@.take(i as int)),
            decreases pairs@.len() - i,
        {
            proof {
                assert(pairs@.take(i + 1).drop_last() =~= pairs@.take(i as int));
            }
            let name = pairs[i].0.clone();
            let value = pairs[i].1.clone();
            scope.insert_var(name, value);
            i = i + 1;
        }
        proof {
            assert(pairs@.take(pairs@.len() as int) =~= pairs@);
        }
        scope
    }

    /// The index of the entry with the name, if there is one.
    fn find(&self, name: &String) -> (r: Option<usize>)
        ensures
            match r {
                Some(i) => i < self.vars@.len() && self.vars@[i as int].0@ == name@,
                None => !names(self.vars@, name@),
            },
    {
        let mut i: usize = 0;
        while i < self.vars.len()
            invariant
                i <= self.vars@.len(),
                forall|j: int| 0 <= j < i ==> (#[trigger] self.vars@[j]).0@ != name@,
            decreases self.vars@.len() - i,
        {
            if self.vars[i].0 == *name {
                return Some(i);
            }
            i = i + 1;
        }
        None
    }

    /// Binds the name to the value; a value that the name had before is
    /// replaced.
    pub fn insert_var(&mut self, name: String, value: Literal)
        requires
            old(self).wf(),
        ensures
            final(self).wf(),
            final(self)@ == old(self)@.insert(name@, value@),
    {
        match self.find(&name) {
            Some(i) => {
                proof {
                    lemma_bindings_update(self.vars@, i as int, (name, value));
                }
                self.vars.set(i, (name, value));
            },
            None => {
                proof {
                    lemma_bindings_push(self.vars@, (name, value));
                }
                self.vars.push((name, value));
            },
        }
    }

    /// Whether the scope has a variable of this name.
    pub fn contains(&self, name: &String) -> (r: bool)
        ensures
            r == self@.contains_key(name@),
    {
        self.find(name).is_some()
    }

    /// The value of the variable of this name, if the scope has one.
    pub fn get_var(&self, name: &String) -> (r: Option<&Literal>)
        requires
            self.wf(),
        ensures
            r.is_some() == self@.contains_key(name@),
            r.is_some() ==> r.unwrap()@ == self@[name@],
    {
        match self.find(name) {
            Some(i) => {
                proof {
                    lemma_entry(self.vars@, i as int);
                }
                Some(&self.vars[i].1)
            },
            None => None,
        }
    }

    /// How many variables the scope has.
    pub fn len(&self) -> (n: usize)
        requires
            self.wf(),
        ensures
            self@.dom().finite(),
            n == self@.dom().len(),
    {
        proof {
            lemma_bindings_len(self.vars@);
        }
        self.vars.len()
    }
}

proof fn lemma_bindings_len(vars: Seq<(String, Literal)>)
    requires
        distinct_names(vars),
    ensures
        bindings(vars).dom().finite(),
        bindings(vars).dom().len() == vars.len(),
    decreases vars.len(),
{
    if vars.len() == 0 {
        assert(bindings(vars).dom() =~= Set::<Seq<char>>::empty());
    } else {
        let rest = vars.drop_last();
        let last = vars.last();
        assert forall|i: int, j: int|
            0 <= i < rest.len() && 0 <= j < rest.len() && (#[trigger] rest[i]).0@ == (
            #[trigger] rest[j]).0@ implies i == j by {
            assert(rest[i] == vars[i]);
            assert(rest[j] == vars[j]);
        }
        if names(rest, last.0@) {
            let i = entry_of(rest, last.0@);
            assert(rest[i] == vars[i]);
            assert(vars[i].0@ == vars[vars.len() - 1].0@);
        }
        lemma_bindings_len(rest);
        lemma_bindings_push(rest, last);
        assert(rest.push(last) =~= vars);
        assert(bindings(vars).dom() =~= bindings(rest).dom().insert(last.0@));
        assert(!bindings(rest).dom().contains(last.0@));
    }
}

} // verus!
