use vstd::prelude::*;

use crate::equation::grammar::is_unicode_whitespace;
use crate::matrix::{option_cloned, refers_to};

verus! {

/// The end of `s` once the whitespace before position `e` is taken off.
pub open spec fn end_before_whitespace(s: Seq<char>, e: int) -> int
    decreases e,
{
    if 0 < e <= s.len() && is_unicode_whitespace(s[e - 1]) {
        end_before_whitespace(s, e - 1)
    } else {
        e
    }
}

/// The first position of `s` at or after `p` that is not whitespace.
pub open spec fn start_after_whitespace(s: Seq<char>, p: int) -> int
    decreases s.len() - p,
{
    if 0 <= p < s.len() && is_unicode_whitespace(s[p]) {
        start_after_whitespace(s, p + 1)
    } else {
        p
    }
}

/// `s` without its leading and trailing whitespace (Unicode `White_Space`).
pub open spec fn trimmed(s: Seq<char>) -> Seq<char> {
    let start = start_after_whitespace(s, 0);
    if start >= s.len() {
        Seq::empty()
    } else {
        s.subrange(start, end_before_whitespace(s, s.len() as int))
    }
}

/// `str::trim`, whose documentation says it returns the text with leading and
/// trailing whitespace removed, whitespace being the characters with the
/// Unicode `White_Space` property; the claim is that the result is
/// [`trimmed`] of the text.
#[verifier::external_body]
fn trim_text(text: &str) -> (t: &str)
    ensures
        t@ == trimmed(text@),
{
    text.trim()
}

/// The name of a variable written as `name`: the text without its leading
/// and trailing whitespace; `None` when nothing else is left.
pub fn variable_name(name: &str) -> (r: Option<String>)
    ensures
        trimmed(name@).len() == 0 ==> r is None,
        trimmed(name@).len() > 0 ==> (r matches Some(n) && n@ == trimmed(name@)),
{
    let t = trim_text(name);
    if t.is_empty() {
        None
    } else {
        Some(String::from_str(t))
    }
}

/// A variable that an environment does not hold.
#[derive(Debug, Clone, PartialEq, Eq)]
pub struct MissingVariable {
    /// The name asked for.
    pub name: String,
}

impl MissingVariable {
    /// A sentence that describes the error.
    pub fn message(&self) -> (m: String)
        ensures
            m@ == "Variable '"@ + self.name@ + "' not found in the environment"@,
    {
        let start = String::from_str("Variable '");
        let with_name = start.concat(self.name.as_str());
        with_name.concat("' not found in the environment")
    }
}

/// Values by name, each name at most once, in the order they were added.
pub struct Environment<V> {
    names: Vec<String>,
    values: Vec<V>,
}

/// What `after` holds is what `before` held, with `value` under `name`.
pub open spec fn holds_with<V>(before: Environment<V>, after: Environment<V>, name: Seq<char>, value: V) -> bool {
    &&& after.lookup(name) == Some(value)
    &&& forall|m: Seq<char>| m != name ==> #[trigger] after.lookup(m) == before.lookup(m)
}

/// What `after` holds is what `before` held, without anything under `name`.
pub open spec fn holds_without<V>(before: Environment<V>, after: Environment<V>, name: Seq<char>) -> bool {
    &&& after.lookup(name) is None
    &&& forall|m: Seq<char>| m != name ==> #[trigger] after.lookup(m) == before.lookup(m)
}

impl<V> Environment<V> {
    /// The names, in the order the environment keeps them.
    pub closed spec fn keys(&self) -> Seq<Seq<char>> {
        self.names@.map_values(|n: String| n@)
    }

    /// The values, in the order of their names.
    pub closed spec fn entries(&self) -> Seq<V> {
        self.values@
    }

    /// One value per name, and no name twice.
    pub closed spec fn well_formed(&self) -> bool {
        &&& self.names@.len() == self.values@.len()
        &&& forall|i: int, j: int|
            0 <= i < j < self.names@.len() ==> (#[trigger] self.names@[i])@ != (#[trigger] self.names@[j])@
    }

    /// The number of values.
    pub closed spec fn count(&self) -> nat {
        self.names@.len()
    }

    /// The value under `name`, if any.
    pub closed spec fn lookup(&self, name: Seq<char>) -> Option<V> {
        if exists|i: int| 0 <= i < self.names@.len() && (#[trigger] self.names@[i])@ == name {
            Some(self.values@[choose|i: int| 0 <= i < self.names@.len() && (#[trigger] self.names@[i])@ == name])
        } else {
            None
        }
    }

    /// The value at a position is the one under the name at that position,
    /// and a name at no position has no value.
    pub proof fn lemma_positions(&self)
        requires
            self.well_formed(),
        ensures
            self.keys().len() == self.count(),
            self.entries().len() == self.count(),
            forall|i: int| 0 <= i < self.count() ==> #[trigger] self.lookup(self.keys()[i]) == Some(self.entries()[i]),
            forall|i: int, j: int| 0 <= i < j < self.count() ==> #[trigger] self.keys()[i] != #[trigger] self.keys()[j],
            forall|n: Seq<char>| !self.keys().contains(n) ==> #[trigger] self.lookup(n) is None,
    {
        assert forall|i: int| 0 <= i < self.count() implies #[trigger] self.lookup(self.keys()[i]) == Some(self.entries()[i]) by {
            let n = self.names@[i]@;
            assert(self.keys()[i] == n);
            let k = choose|k: int| 0 <= k < self.names@.len() && (#[trigger] self.names@[k])@ == n;
            if k < i {
                assert(self.names@[k]@ != self.names@[i]@);
            } else if k > i {
                assert(self.names@[i]@ != self.names@[k]@);
            }
        }
        assert forall|n: Seq<char>| !self.keys().contains(n) implies #[trigger] self.lookup(n) is None by {
            if exists|i: int| 0 <= i < self.names@.len() && (#[trigger] self.names@[i])@ == n {
                let i = choose|i: int| 0 <= i < self.names@.len() && (#[trigger] self.names@[i])@ == n;
                assert(self.keys()[i] == n);
            }
        }
    }

    /// An environment without values.
    pub fn empty() -> (e: Self)
        ensures
            e.well_formed(),
            e.count() == 0,
            forall|n: Seq<char>| #[trigger] e.lookup(n) is None,
    {
        Environment { names: Vec::new(), values: Vec::new() }
    }

    /// The number of values.
    pub fn len(&self) -> (l: usize)
        requires
            self.well_formed(),
        ensures
            l == self.count(),
    {
        self.names.len()
    }

    /// The name at position `i`.
    pub fn name_at(&self, i: usize) -> (n: &str)
        requires
            self.well_formed(),
            i < self.count(),
        ensures
            n@ == self.keys()[i as int],
    {
        self.names[i].as_str()
    }

    /// The value at position `i`.
    pub fn value_at(&self, i: usize) -> (v: &V)
        requires
            self.well_formed(),
            i < self.count(),
        ensures
            *v == self.entries()[i as int],
    {
        &self.values[i]
    }

    /// The position of `name`, if the environment holds it.
    fn position_of(&self, name: &str) -> (r: Option<usize>)
        requires
            self.well_formed(),
        ensures
            r is None ==> !self.keys().contains(name@),
            r matches Some(i) ==> i < self.count() && self.keys()[i as int] == name@,
    {
        let key = String::from_str(name);
        let mut i: usize = 0;
        while i < self.names.len()
            invariant
                self.well_formed(),
                key@ == name@,
                i <= self.names@.len(),
                forall|k: int| 0 <= k < i ==> #[trigger] self.keys()[k] != name@,
            decreases self.names@.len() - i,
        {
            if self.names[i] == key {
                return Some(i);
            }
            i = i + 1;
        }
        proof {
            if self.keys().contains(name@) {
                let k = choose|k: int| 0 <= k < self.keys().len() && self.keys()[k] == name@;
                assert(self.keys()[k] != name@);
            }
        }
        None
    }

    /// The value under `name`, if any.
    pub fn get(&self, name: &str) -> (r: Option<&V>)
        requires
            self.well_formed(),
        ensures
            refers_to(r, self.lookup(name@)),
    {
        proof { self.lemma_positions(); }
        match self.position_of(name) {
            Some(i) => Some(&self.values[i]),
            None => None,
        }
    }

    /// Puts `value` under `name`, replacing the value that was there, and
    /// gives back that value, if any.
    pub fn add(&mut self, name: String, value: V) -> (r: Option<V>)
        requires
            old(self).well_formed(),
        ensures
            final(self).well_formed(),
            r == old(self).lookup(name@),
            holds_with(*old(self), *final(self), name@, value),
            final(self).count() == old(self).count() + (if r is None { 1int } else { 0int }),
    {
        proof { self.lemma_positions(); }
        match self.position_of(name.as_str()) {
            Some(i) => {
                let mut v = value;
                self.values.set_and_swap(i, &mut v);
                proof {
                    assert(self.keys() == old(self).keys());
                    self.lemma_positions();
                    assert forall|m: Seq<char>| m != name@ implies #[trigger] self.lookup(m) == old(self).lookup(m) by {
                        if old(self).keys().contains(m) {
                            let k = choose|k: int| 0 <= k < old(self).keys().len() && old(self).keys()[k] == m;
                            assert(self.lookup(self.keys()[k]) == Some(self.entries()[k]));
                        }
                    }
                }
                Some(v)
            },
            None => {
                let ghost n = name@;
                self.names.push(name);
                self.values.push(value);
                proof {
                    assert(self.keys() =~= old(self).keys().push(n));
                    assert forall|i: int, j: int| 0 <= i < j < self.names@.len() implies
                        (#[trigger] self.names@[i])@ != (#[trigger] self.names@[j])@ by {
                        assert(self.keys()[i] == self.names@[i]@);
                        assert(self.keys()[j] == self.names@[j]@);
                        if j == self.names@.len() - 1 {
                            assert(old(self).keys()[i] == self.keys()[i]);
                        }
                    }
                    self.lemma_positions();
                    let last = old(self).count() as int;
                    assert(self.lookup(self.keys()[last]) == Some(self.entries()[last]));
                    assert forall|m: Seq<char>| m != n implies #[trigger] self.lookup(m) == old(self).lookup(m) by {
                        if old(self).keys().contains(m) {
                            let k = choose|k: int| 0 <= k < old(self).keys().len() && old(self).keys()[k] == m;
                            assert(self.lookup(self.keys()[k]) == Some(self.entries()[k]));
                        } else {
                            assert(!self.keys().contains(m)) by {
                                if self.keys().contains(m) {
                                    let j = choose|j: int| 0 <= j < self.keys().len() && self.keys()[j] == m;
                                    if j < last {
                                        assert(old(self).keys()[j] == m);
                                    }
                                }
                            }
                        }
                    }
                }
                None
            },
        }
    }

    /// Takes the value under `name` out of the environment, if there is one.
    pub fn remove(&mut self, name: &str) -> (r: Option<V>)
        requires
            old(self).well_formed(),
        ensures
            final(self).well_formed(),
            r == old(self).lookup(name@),
            holds_without(*old(self), *final(self), name@),
            final(self).count() == old(self).count() - (if r is None { 0int } else { 1int }),
    {
        proof { self.lemma_positions(); }
        let p = match self.position_of(name) {
            Some(i) => i,
            None => {
                return None;
            },
        };
        self.names.remove(p);
        let v = self.values.remove(p);
        proof {
            assert(self.keys() =~= old(self).keys().remove(p as int));
            assert forall|i: int, j: int| 0 <= i < j < self.names@.len() implies
                (#[trigger] self.names@[i])@ != (#[trigger] self.names@[j])@ by {
                assert(self.keys()[i] == self.names@[i]@);
                assert(self.keys()[j] == self.names@[j]@);
                if i >= p {
                    assert(old(self).keys()[i + 1] != old(self).keys()[j + 1]);
                } else if j >= p {
                    assert(old(self).keys()[i] != old(self).keys()[j + 1]);
                } else {
                    assert(old(self).keys()[i] != old(self).keys()[j]);
                }
            }
            self.lemma_positions();
            assert(old(self).lookup(old(self).keys()[p as int]) == Some(old(self).entries()[p as int]));
            assert(!self.keys().contains(name@)) by {
                if self.keys().contains(name@) {
                    let j = choose|j: int| 0 <= j < self.keys().len() && self.keys()[j] == name@;
                    if j < p {
                        assert(old(self).keys()[j] != old(self).keys()[p as int]);
                    } else {
                        assert(old(self).keys()[p as int] != old(self).keys()[j + 1]);
                    }
                }
            }
            assert forall|m: Seq<char>| m != name@ implies #[trigger] self.lookup(m) == old(self).lookup(m) by {
                if old(self).keys().contains(m) {
                    let i = choose|i: int| 0 <= i < old(self).keys().len() && old(self).keys()[i] == m;
                    if i < p {
                        assert(self.lookup(self.keys()[i]) == Some(self.entries()[i]));
                    } else {
                        assert(i != p);
                        assert(self.lookup(self.keys()[i - 1]) == Some(self.entries()[i - 1]));
                    }
                } else {
                    assert(!self.keys().contains(m)) by {
                        if self.keys().contains(m) {
                            let j = choose|j: int| 0 <= j < self.keys().len() && self.keys()[j] == m;
                            if j < p {
                                assert(old(self).keys()[j] == m);
                            } else {
                                assert(old(self).keys()[j + 1] == m);
                            }
                        }
                    }
                }
            }
        }
        Some(v)
    }

    /// Replaces the value under `name`; an error that names it, with the
    /// environment unchanged, when there is no value under it.
    pub fn update(&mut self, name: &str, value: V) -> (r: Result<(), MissingVariable>)
        requires
            old(self).well_formed(),
        ensures
            final(self).well_formed(),
            old(self).lookup(name@) is Some ==> r is Ok && holds_with(*old(self), *final(self), name@, value)
                && final(self).count() == old(self).count(),
            old(self).lookup(name@) is None ==> (r matches Err(e) && e.name@ == name@)
                && *final(self) == *old(self),
    {
        proof { self.lemma_positions(); }
        match self.position_of(name) {
            Some(i) => {
                let mut v = value;
                self.values.set_and_swap(i, &mut v);
                proof {
                    assert(self.keys() == old(self).keys());
                    self.lemma_positions();
                    assert forall|m: Seq<char>| m != name@ implies #[trigger] self.lookup(m) == old(self).lookup(m) by {
                        if old(self).keys().contains(m) {
                            let k = choose|k: int| 0 <= k < old(self).keys().len() && old(self).keys()[k] == m;
                            assert(self.lookup(self.keys()[k]) == Some(self.entries()[k]));
                        }
                    }
                }
                Ok(())
            },
            None => Err(MissingVariable { name: String::from_str(name) }),
        }
    }
}

/// The value of the last of `entries` named `name`, if any.
pub open spec fn last_named<V>(entries: Seq<(Seq<char>, V)>, name: Seq<char>) -> Option<V>
    decreases entries.len(),
{
    if entries.len() == 0 {
        None
    } else if entries.last().0 == name {
        Some(entries.last().1)
    } else {
        last_named(entries.drop_last(), name)
    }
}

impl<V> Environment<V> {
    /// An environment of `entries`; of two entries with the same name, the
    /// later one stays.
    pub fn from_entries(entries: Vec<(String, V)>) -> (e: Self)
        ensures
            e.well_formed(),
            forall|n: Seq<char>| #[trigger] e.lookup(n) == last_named(
                entries@.map_values(|p: (String, V)| (p.0@, p.1)),
                n,
            ),
    {
        let ghost all = entries@.map_values(|p: (String, V)| (p.0@, p.1));
        let mut rest = entries;
        let mut env: Environment<V> = Environment::empty();
        let ghost mut k: int = 0;
        while rest.len() > 0
            invariant
                env.well_formed(),
                0 <= k <= all.len(),
                rest@.len() == all.len() - k,
                forall|j: int| 0 <= j < rest@.len() ==> (#[trigger] rest@[j]).0@ == all[k + j].0 && rest@[j].1 == all[k + j].1,
                forall|n: Seq<char>| #[trigger] env.lookup(n) == last_named(all.take(k), n),
            decreases rest@.len(),
        {
            let (name, value) = rest.remove(0);
            let ghost before = env;
            let ghost nm = name@;
            proof {
                assert(nm == all[k].0 && value == all[k].1);
            }
            env.add(name, value);
            proof {
                let taken = all.take(k + 1);
                assert(taken.drop_last() =~= all.take(k));
                assert(taken.last() == all[k]);
                assert forall|n: Seq<char>| #[trigger] env.lookup(n) == last_named(all.take(k + 1), n) by {
                    if n != nm {
                        assert(env.lookup(n) == before.lookup(n));
                    }
                }
                assert forall|j: int| 0 <= j < rest@.len() implies (#[trigger] rest@[j]).0@ == all[k + 1 + j].0 && rest@[j].1 == all[k + 1 + j].1 by {
                }
                k = k + 1;
            }
        }
        proof {
            assert(all.take(k) =~= all);
        }
        env
    }
}

impl<V: Clone> Environment<V> {
    /// A copy of this environment with copies of the values of `other` added
    /// under the names that this one does not hold.
    pub fn merge(&self, other: &Environment<V>) -> (m: Self)
        requires
            self.well_formed(),
            other.well_formed(),
        ensures
            m.well_formed(),
            forall|n: Seq<char>| #![trigger m.lookup(n)] (if self.lookup(n) is Some {
                option_cloned(self.lookup(n), m.lookup(n))
            } else {
                option_cloned(other.lookup(n), m.lookup(n))
            }),
    {
        proof {
            self.lemma_positions();
            other.lemma_positions();
        }
        let mut out: Environment<V> = Environment::empty();
        let mut i: usize = 0;
        while i < self.names.len()
            invariant
                self.well_formed(),
                out.well_formed(),
                i <= self.count(),
                forall|n: Seq<char>| #![trigger out.lookup(n)] (if self.keys().take(i as int).contains(n) {
                    option_cloned(self.lookup(n), out.lookup(n))
                } else {
                    out.lookup(n) is None
                }),
            decreases self.count() - i,
        {
            proof { self.lemma_positions(); }
            let name = self.names[i].clone();
            let value = self.values[i].clone();
            let ghost before = out;
            let ghost nm = name@;
            proof {
                assert(nm == self.keys()[i as int]);
                assert(self.lookup(nm) == Some(self.entries()[i as int]));
                assert(!self.keys().take(i as int).contains(nm)) by {
                    if self.keys().take(i as int).contains(nm) {
                        let tt = self.keys().take(i as int); let j = choose|j: int| 0 <= j < tt.len() && tt[j] == nm;
                        assert(self.keys()[j] != self.keys()[i as int]);
                    }
                }
            }
            out.add(name, value);
            proof {
                assert forall|n: Seq<char>| #![trigger out.lookup(n)] (if self.keys().take(i + 1).contains(n) {
                    option_cloned(self.lookup(n), out.lookup(n))
                } else {
                    out.lookup(n) is None
                }) by {
                    if n == nm {
                        assert(self.keys().take(i + 1)[i as int] == nm);
                    } else {
                        assert(out.lookup(n) == before.lookup(n));
                        if self.keys().take(i + 1).contains(n) {
                            let tt = self.keys().take(i + 1); let j = choose|j: int| 0 <= j < tt.len() && tt[j] == n;
                            assert(self.keys().take(i as int)[j] == n);
                        } else {
                            if self.keys().take(i as int).contains(n) {
                                let tt = self.keys().take(i as int); let j = choose|j: int| 0 <= j < tt.len() && tt[j] == n;
                                assert(self.keys().take(i + 1)[j] == n);
                            }
                        }
                    }
                }
            }
            i = i + 1;
        }
        proof {
            assert(self.keys().take(self.count() as int) =~= self.keys());
        }
        let mut j: usize = 0;
        while j < other.names.len()
            invariant
                self.well_formed(),
                other.well_formed(),
                out.well_formed(),
                j <= other.count(),
                forall|n: Seq<char>| #![trigger out.lookup(n)] (if self.lookup(n) is Some {
                    option_cloned(self.lookup(n), out.lookup(n))
                } else if other.keys().take(j as int).contains(n) {
                    option_cloned(other.lookup(n), out.lookup(n))
                } else {
                    out.lookup(n) is None
                }),
            decreases other.count() - j,
        {
            proof { self.lemma_positions(); other.lemma_positions(); }
            let held = self.get(other.names[j].as_str());
            if held.is_none() {
                let name = other.names[j].clone();
                let value = other.values[j].clone();
                let ghost before = out;
                let ghost nm = name@;
                proof {
                    assert(nm == other.keys()[j as int]);
                    assert(other.lookup(nm) == Some(other.entries()[j as int]));
                    assert(!other.keys().take(j as int).contains(nm)) by {
                        if other.keys().take(j as int).contains(nm) {
                            let tt = other.keys().take(j as int); let k = choose|k: int| 0 <= k < tt.len() && tt[k] == nm;
                            assert(other.keys()[k] != other.keys()[j as int]);
                        }
                    }
                }
                out.add(name, value);
                proof {
                    assert forall|n: Seq<char>| #![trigger out.lookup(n)] (if self.lookup(n) is Some {
                        option_cloned(self.lookup(n), out.lookup(n))
                    } else if other.keys().take(j + 1).contains(n) {
                        option_cloned(other.lookup(n), out.lookup(n))
                    } else {
                        out.lookup(n) is None
                    }) by {
                        if n == nm {
                            assert(other.keys().take(j + 1)[j as int] == nm);
                        } else {
                            assert(out.lookup(n) == before.lookup(n));
                            if other.keys().take(j + 1).contains(n) {
                                let tt = other.keys().take(j + 1); let k = choose|k: int| 0 <= k < tt.len() && tt[k] == n;
                                assert(other.keys().take(j as int)[k] == n);
                            } else if other.keys().take(j as int).contains(n) {
                                let tt = other.keys().take(j as int); let k = choose|k: int| 0 <= k < tt.len() && tt[k] == n;
                                assert(other.keys().take(j + 1)[k] == n);
                            }
                        }
                    }
                }
            } else {
                proof {
                    let nm = other.keys()[j as int];
                    assert forall|n: Seq<char>| #![trigger out.lookup(n)] (if self.lookup(n) is Some {
                        option_cloned(self.lookup(n), out.lookup(n))
                    } else if other.keys().take(j + 1).contains(n) {
                        option_cloned(other.lookup(n), out.lookup(n))
                    } else {
                        out.lookup(n) is None
                    }) by {
                        if n != nm {
                            if other.keys().take(j + 1).contains(n) {
                                let tt = other.keys().take(j + 1); let k = choose|k: int| 0 <= k < tt.len() && tt[k] == n;
                                assert(other.keys().take(j as int)[k] == n);
                            } else if other.keys().take(j as int).contains(n) {
                                let tt = other.keys().take(j as int); let k = choose|k: int| 0 <= k < tt.len() && tt[k] == n;
                                assert(other.keys().take(j + 1)[k] == n);
                            }
                        }
                    }
                }
            }
            j = j + 1;
        }
        proof {
            assert(other.keys().take(other.count() as int) =~= other.keys());
            assert forall|n: Seq<char>| #![trigger out.lookup(n)] (if self.lookup(n) is Some {
                option_cloned(self.lookup(n), out.lookup(n))
            } else {
                option_cloned(other.lookup(n), out.lookup(n))
            }) by {
                if self.lookup(n) is None && !other.keys().contains(n) {
                    assert(other.lookup(n) is None);
                }
            }
        }
        out
    }
}

/// Removing a value just added gives it back, and takes the environment back
/// to what it held before the addition whenever the name was new.
pub proof fn law_remove_undoes_add<V>(
    first: Environment<V>,
    second: Environment<V>,
    third: Environment<V>,
    name: Seq<char>,
    value: V,
)
    requires
        holds_with(first, second, name, value),
        holds_without(second, third, name),
    ensures
        second.lookup(name) == Some(value),
        first.lookup(name) is None ==> forall|m: Seq<char>| #[trigger] third.lookup(m) == first.lookup(m),
{
    if first.lookup(name) is None {
        assert forall|m: Seq<char>| #[trigger] third.lookup(m) == first.lookup(m) by {
            if m != name {
                assert(third.lookup(m) == second.lookup(m));
            }
        }
    }
}

} // verus!
