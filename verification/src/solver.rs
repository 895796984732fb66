use vstd::prelude::*;

verus! {

/// The identifier of an equation held by a solver.
#[derive(Debug, Clone, Copy, PartialEq, Eq, PartialOrd, Ord, Hash, Structural)]
pub struct EquationId(u64);

impl EquationId {
    /// The number that the identifier wraps.
    pub closed spec fn number(&self) -> u64 {
        self.0
    }

    /// The identifier of number `n`, as a mathematical value.
    pub closed spec fn of(n: u64) -> EquationId {
        EquationId(n)
    }

    /// Turning a number into an identifier and back gives the number.
    pub proof fn law_id_number_round_trip(n: u64)
        ensures
            EquationId::of(n).number() == n,
    {
    }

    /// Two identifiers with the same number are the same identifier.
    pub proof fn law_equal_numbers(a: EquationId, b: EquationId)
        requires
            a.number() == b.number(),
        ensures
            a == b,
    {
    }
}

impl From<u64> for EquationId {
    fn from(value: u64) -> (r: EquationId) {
        EquationId(value)
    }
}

impl vstd::std_specs::convert::FromSpecImpl<u64> for EquationId {
    open spec fn obeys_from_spec() -> bool {
        true
    }

    open spec fn from_spec(value: u64) -> EquationId {
        EquationId::of(value)
    }
}

impl From<EquationId> for u64 {
    fn from(value: EquationId) -> (r: u64) {
        value.0
    }
}

impl vstd::std_specs::convert::FromSpecImpl<EquationId> for u64 {
    open spec fn obeys_from_spec() -> bool {
        true
    }

    open spec fn from_spec(value: EquationId) -> u64 {
        value.number()
    }
}

/// Whether a solver holds as many variables as equations (at least one), so
/// that its system can be solved.
#[derive(Debug, Clone, Copy, PartialEq, Eq, Structural)]
pub enum DimensionSpecificationStatus {
    /// The numbers differ, or there are none.
    Incorrect,
    /// As many variables as equations, and at least one.
    Correct,
}

/// The status of a system of `variable_count` variables and `equation_count`
/// equations: `Correct` exactly when both are equal and positive.
pub fn dimension_status(variable_count: usize, equation_count: usize) -> (s:
    DimensionSpecificationStatus)
    ensures
        s == (if variable_count == equation_count && variable_count > 0 {
            DimensionSpecificationStatus::Correct
        } else {
            DimensionSpecificationStatus::Incorrect
        }),
{
    if variable_count == equation_count && variable_count > 0 {
        DimensionSpecificationStatus::Correct
    } else {
        DimensionSpecificationStatus::Incorrect
    }
}

/// Hands out identifiers for the equations added to a solver.
pub trait EquationIdGenerator {
    /// The generator can hand out one more identifier.
    spec fn can_generate(&self) -> bool;

    /// Whether the generator can hand out one more identifier.
    fn has_next(&self) -> (b: bool)
        ensures
            b == self.can_generate(),
    ;

    /// A new identifier.
    fn generate(&mut self) -> EquationId
        requires
            old(self).can_generate(),
    ;
}

/// Hands out 1, 2, 3, ... in turn.
#[derive(Debug, Clone)]
pub struct DefaultEquationIdGenerator {
    current: u64,
}

impl DefaultEquationIdGenerator {
    /// The last identifier handed out (0 before the first).
    pub closed spec fn last(&self) -> u64 {
        self.current
    }
}

impl Default for DefaultEquationIdGenerator {
    fn default() -> (g: Self)
        ensures
            g.last() == 0,
    {
        DefaultEquationIdGenerator { current: 0 }
    }
}

impl EquationIdGenerator for DefaultEquationIdGenerator {
    open spec fn can_generate(&self) -> bool {
        self.last() < u64::MAX
    }

    fn has_next(&self) -> (b: bool) {
        self.current < u64::MAX
    }

    fn generate(&mut self) -> (id: EquationId)
        ensures
            id.number() == old(self).last() + 1,
            final(self).last() == old(self).last() + 1,
    {
        let new_id = EquationId::from(self.current + 1);
        self.current = self.current + 1;
        new_id
    }
}

/// Each identifier that the default generator hands out is greater than all
/// that it handed out before: `generate` returns one more than the last one
/// and remembers it.
pub proof fn law_generated_ids_increase(
    before: DefaultEquationIdGenerator,
    first: EquationId,
    middle: DefaultEquationIdGenerator,
    second: EquationId,
)
    requires
        first.number() == before.last() + 1,
        middle.last() == before.last() + 1,
        second.number() == middle.last() + 1,
    ensures
        first.number() < second.number(),
        first.number() > before.last(),
{
}

/// The equations of a solver, each under its identifier, kept in increasing
/// order of identifiers.
pub struct EquationTable<E> {
    ids: Vec<EquationId>,
    equations: Vec<E>,
}

/// What `after` holds is what `before` held, with `equation` under the
/// identifier numbered `n`.
pub open spec fn holds_with<E>(before: EquationTable<E>, after: EquationTable<E>, n: u64, equation: E) -> bool {
    &&& after.lookup(n) == Some(equation)
    &&& forall|m: u64| m != n ==> #[trigger] after.lookup(m) == before.lookup(m)
}

/// What `after` holds is what `before` held, without anything under the
/// identifier numbered `n`.
pub open spec fn holds_without<E>(before: EquationTable<E>, after: EquationTable<E>, n: u64) -> bool {
    &&& after.lookup(n) is None
    &&& forall|m: u64| m != n ==> #[trigger] after.lookup(m) == before.lookup(m)
}

impl<E> EquationTable<E> {
    /// The numbers of the identifiers, in the order the table keeps them.
    pub closed spec fn keys(&self) -> Seq<u64> {
        self.ids@.map_values(|id: EquationId| id.0)
    }

    /// The equations, in the order of their identifiers.
    pub closed spec fn entries(&self) -> Seq<E> {
        self.equations@
    }

    /// One equation per identifier, and the identifiers strictly increase.
    pub closed spec fn well_formed(&self) -> bool {
        &&& self.ids@.len() == self.equations@.len()
        &&& forall|i: int, j: int|
            0 <= i < j < self.ids@.len() ==> (#[trigger] self.ids@[i]).0 < (#[trigger] self.ids@[j]).0
    }

    /// The number of equations.
    pub closed spec fn count(&self) -> nat {
        self.ids@.len()
    }

    /// The equation under the identifier numbered `n`, if any.
    pub closed spec fn lookup(&self, n: u64) -> Option<E> {
        if exists|i: int| 0 <= i < self.ids@.len() && (#[trigger] self.ids@[i]).0 == n {
            Some(self.equations@[choose|i: int| 0 <= i < self.ids@.len() && (#[trigger] self.ids@[i]).0 == n])
        } else {
            None
        }
    }

    /// The equation at a position of the table is the one under its
    /// identifier, and the identifiers increase along the table.
    pub proof fn lemma_positions(&self)
        requires
            self.well_formed(),
        ensures
            self.keys().len() == self.count(),
            self.entries().len() == self.count(),
            forall|i: int| 0 <= i < self.count() ==> #[trigger] self.lookup(self.keys()[i]) == Some(self.entries()[i]),
            forall|i: int, j: int| 0 <= i < j < self.count() ==> #[trigger] self.keys()[i] < #[trigger] self.keys()[j],
            forall|n: u64| !self.keys().contains(n) ==> #[trigger] self.lookup(n) is None,
    {
        assert forall|i: int| 0 <= i < self.count() implies #[trigger] self.lookup(self.keys()[i]) == Some(self.entries()[i]) by {
            let n = self.ids@[i].0;
            assert(self.keys()[i] == n);
            let k = choose|k: int| 0 <= k < self.ids@.len() && (#[trigger] self.ids@[k]).0 == n;
            if k < i {
                assert(self.ids@[k].0 < self.ids@[i].0);
            } else if k > i {
                assert(self.ids@[i].0 < self.ids@[k].0);
            }
        }
        assert forall|n: u64| !self.keys().contains(n) implies #[trigger] self.lookup(n) is None by {
            if exists|i: int| 0 <= i < self.ids@.len() && (#[trigger] self.ids@[i]).0 == n {
                let i = choose|i: int| 0 <= i < self.ids@.len() && (#[trigger] self.ids@[i]).0 == n;
                assert(self.keys()[i] == n);
            }
        }
    }

    /// A table without equations.
    pub fn new() -> (t: Self)
        ensures
            t.well_formed(),
            t.count() == 0,
            forall|n: u64| #[trigger] t.lookup(n) is None,
    {
        EquationTable { ids: Vec::new(), equations: Vec::new() }
    }

    /// The number of equations.
    pub fn len(&self) -> (l: usize)
        requires
            self.well_formed(),
        ensures
            l == self.count(),
    {
        self.ids.len()
    }

    /// The identifier at position `i`, in increasing order of identifiers.
    pub fn id_at(&self, i: usize) -> (id: EquationId)
        requires
            self.well_formed(),
            i < self.count(),
        ensures
            id.number() == self.keys()[i as int],
    {
        self.ids[i]
    }

    /// The equation at position `i`, in increasing order of identifiers.
    pub fn equation_at(&self, i: usize) -> (e: &E)
        requires
            self.well_formed(),
            i < self.count(),
        ensures
            *e == self.entries()[i as int],
    {
        &self.equations[i]
    }

    /// The first position whose identifier is not below `id`, and whether
    /// the identifier there is `id`.
    fn position_of(&self, id: EquationId) -> (r: (usize, bool))
        requires
            self.well_formed(),
        ensures
            r.0 <= self.count(),
            forall|i: int| 0 <= i < r.0 ==> #[trigger] self.keys()[i] < id.0,
            r.0 < self.count() ==> id.0 <= self.keys()[r.0 as int],
            r.1 == (r.0 < self.count() && self.keys()[r.0 as int] == id.0),
    {
        let mut p: usize = 0;
        while p < self.ids.len() && self.ids[p].0 < id.0
            invariant
                self.well_formed(),
                p <= self.ids@.len(),
                forall|i: int| 0 <= i < p ==> #[trigger] self.keys()[i] < id.0,
            decreases self.ids@.len() - p,
        {
            p = p + 1;
        }
        let found = p < self.ids.len() && self.ids[p].0 == id.0;
        (p, found)
    }

    /// Puts `equation` under `id` and gives back the equation that was under
    /// it, if any.
    pub fn insert(&mut self, id: EquationId, equation: E) -> (r: Option<E>)
        requires
            old(self).well_formed(),
        ensures
            final(self).well_formed(),
            r == old(self).lookup(id.number()),
            holds_with(*old(self), *final(self), id.number(), equation),
            final(self).count() == old(self).count() + (if r is None { 1int } else { 0int }),
    {
        proof { self.lemma_positions(); }
        let (p, found) = self.position_of(id);
        if found {
            let mut e = equation;
            self.equations.set_and_swap(p, &mut e);
            proof {
                assert(self.keys() == old(self).keys());
                self.lemma_positions();
                assert forall|m: u64| m != id.number() implies #[trigger] self.lookup(m) == old(self).lookup(m) by {
                    if old(self).keys().contains(m) {
                        let i = choose|i: int| 0 <= i < old(self).keys().len() && old(self).keys()[i] == m;
                        assert(self.lookup(self.keys()[i]) == Some(self.entries()[i]));
                    }
                }
            }
            Some(e)
        } else {
            self.ids.insert(p, id);
            self.equations.insert(p, equation);
            proof {
                assert(self.keys() =~= old(self).keys().insert(p as int, id.0));
                assert forall|i: int, j: int| 0 <= i < j < self.ids@.len() implies
                    (#[trigger] self.ids@[i]).0 < (#[trigger] self.ids@[j]).0 by {
                    assert(self.keys()[i] == self.ids@[i].0);
                    assert(self.keys()[j] == self.ids@[j].0);
                }
                self.lemma_positions();
                assert(self.lookup(self.keys()[p as int]) == Some(self.entries()[p as int]));
                assert forall|m: u64| m != id.number() implies #[trigger] self.lookup(m) == old(self).lookup(m) by {
                    if old(self).keys().contains(m) {
                        let i = choose|i: int| 0 <= i < old(self).keys().len() && old(self).keys()[i] == m;
                        if i < p {
                            assert(self.lookup(self.keys()[i]) == Some(self.entries()[i]));
                        } else {
                            assert(self.lookup(self.keys()[i + 1]) == Some(self.entries()[i + 1]));
                        }
                    } else {
                        assert(!self.keys().contains(m)) by {
                            if self.keys().contains(m) {
                                let j = choose|j: int| 0 <= j < self.keys().len() && self.keys()[j] == m;
                                if j < p {
                                    assert(old(self).keys()[j] == m);
                                } else if j > p {
                                    assert(old(self).keys()[j - 1] == m);
                                }
                            }
                        }
                    }
                }
                assert(!old(self).keys().contains(id.number()));
            }
            None
        }
    }

    /// Takes the equation under `id` out of the table, if there is one.
    pub fn remove(&mut self, id: EquationId) -> (r: Option<E>)
        requires
            old(self).well_formed(),
        ensures
            final(self).well_formed(),
            r == old(self).lookup(id.number()),
            holds_without(*old(self), *final(self), id.number()),
            final(self).count() == old(self).count() - (if r is None { 0int } else { 1int }),
    {
        proof { self.lemma_positions(); }
        let (p, found) = self.position_of(id);
        if !found {
            proof {
                assert(!old(self).keys().contains(id.number())) by {
                    if old(self).keys().contains(id.number()) {
                        let j = choose|j: int| 0 <= j < old(self).keys().len() && old(self).keys()[j] == id.number();
                        if j >= p {
                            assert(id.0 <= old(self).keys()[p as int]);
                            assert(old(self).keys()[p as int] <= old(self).keys()[j]);
                        }
                    }
                }
            }
            return None;
        }
        self.ids.remove(p);
        let e = self.equations.remove(p);
        proof {
            assert(self.keys() =~= old(self).keys().remove(p as int));
            assert forall|i: int, j: int| 0 <= i < j < self.ids@.len() implies
                (#[trigger] self.ids@[i]).0 < (#[trigger] self.ids@[j]).0 by {
                assert(self.keys()[i] == self.ids@[i].0);
                assert(self.keys()[j] == self.ids@[j].0);
            }
            self.lemma_positions();
            assert(old(self).lookup(old(self).keys()[p as int]) == Some(old(self).entries()[p as int]));
            assert(!self.keys().contains(id.number())) by {
                if self.keys().contains(id.number()) {
                    let j = choose|j: int| 0 <= j < self.keys().len() && self.keys()[j] == id.number();
                    if j < p {
                        assert(old(self).keys()[j] < old(self).keys()[p as int]);
                    } else {
                        assert(old(self).keys()[p as int] < old(self).keys()[j + 1]);
                    }
                }
            }
            assert forall|m: u64| m != id.number() implies #[trigger] self.lookup(m) == old(self).lookup(m) by {
                if old(self).keys().contains(m) {
                    let i = choose|i: int| 0 <= i < old(self).keys().len() && old(self).keys()[i] == m;
                    if i < p {
                        assert(self.lookup(self.keys()[i]) == Some(self.entries()[i]));
                    } else {
                        assert(i != p);
                        assert(self.lookup(self.keys()[i - 1]) == Some(self.entries()[i - 1]));
                    }
                } else {
                    assert(!self.keys().contains(m)) by {
                        if self.keys().contains(m) {
                            let j = choose|j: int| 0 <= j < self.keys().len() && self.keys()[j] == m;
                            if j < p {
                                assert(old(self).keys()[j] == m);
                            } else {
                                assert(old(self).keys()[j + 1] == m);
                            }
                        }
                    }
                }
            }
        }
        Some(e)
    }
}

/// Removing an equation just inserted gives it back, and takes the table back
/// to what it held before the insertion whenever the identifier was new.
pub proof fn law_remove_undoes_insert<E>(
    first: EquationTable<E>,
    second: EquationTable<E>,
    third: EquationTable<E>,
    n: u64,
    equation: E,
)
    requires
        holds_with(first, second, n, equation),
        holds_without(second, third, n),
    ensures
        second.lookup(n) == Some(equation),
        forall|m: u64| m != n ==> #[trigger] third.lookup(m) == first.lookup(m),
        first.lookup(n) is None ==> forall|m: u64| #[trigger] third.lookup(m) == first.lookup(m),
{
    assert forall|m: u64| m != n implies #[trigger] third.lookup(m) == first.lookup(m) by {
        assert(third.lookup(m) == second.lookup(m));
    }
    if first.lookup(n) is None {
        assert forall|m: u64| #[trigger] third.lookup(m) == first.lookup(m) by {
            if m != n {
                assert(third.lookup(m) == second.lookup(m));
            }
        }
    }
}

/// Of two equations put under the same identifier, the later one stays.
pub proof fn law_later_insert_wins<E>(
    first: EquationTable<E>,
    second: EquationTable<E>,
    third: EquationTable<E>,
    n: u64,
    a: E,
    b: E,
)
    requires
        holds_with(first, second, n, a),
        holds_with(second, third, n, b),
    ensures
        holds_with(first, third, n, b),
{
    assert forall|m: u64| m != n implies #[trigger] third.lookup(m) == first.lookup(m) by {
        assert(third.lookup(m) == second.lookup(m));
    }
}

/// The `k`-th identifier that a default generator hands out is `k`: for the
/// states `gens` that a fresh generator passes through and the identifiers
/// `ids` that its calls of `generate` return, identifier `k` (counting from 0)
/// is numbered `k + 1`, so no identifier is handed out twice.
pub proof fn law_kth_generated_id(gens: Seq<DefaultEquationIdGenerator>, ids: Seq<EquationId>)
    requires
        gens.len() == ids.len() + 1,
        gens[0].last() == 0,
        forall|k: int|
            0 <= k < ids.len() ==> (#[trigger] ids[k]).number() == gens[k].last() + 1
                && gens[k + 1].last() == gens[k].last() + 1,
    ensures
        forall|k: int| 0 <= k < ids.len() ==> (#[trigger] ids[k]).number() == k + 1,
        forall|a: int, b: int| 0 <= a < b < ids.len() ==> ids[a] != ids[b],
    decreases ids.len(),
{
    if ids.len() > 0 {
        let n = (ids.len() - 1) as int;
        law_kth_generated_id(gens.take(n + 1), ids.take(n));
        assert forall|k: int| 0 <= k < ids.len() implies (#[trigger] ids[k]).number() == k + 1 by {
            if k < n {
                assert(ids.take(n)[k] == ids[k]);
            } else {
                assert(gens.take(n + 1)[n] == gens[n]);
                assert(gens[n].last() == n) by {
                    if n > 0 {
                        assert(ids.take(n)[n - 1] == ids[n - 1]);
                        assert(ids[n - 1].number() == n);
                    }
                }
            }
        }
    }
}

/// Why an equation could not be evaluated.
#[derive(Debug, Clone, PartialEq)]
pub enum EquationError {
    /// The named variables are not in the environment.
    NoVariableInEnvironment(Vec<String>),
}

} // verus!
