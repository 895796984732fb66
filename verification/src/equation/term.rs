use vstd::prelude::*;

use crate::equation::operator::Operator;

verus! {

/// An equation over named variables, whose numbers are of type `C`.
#[derive(Debug)]
pub enum Term<C> {
    /// A number.
    Constant(C),
    /// `factor * variable ^ exponent`.
    Monomial { factor: C, variable: String, exponent: i32 },
    /// Two or more operands folded from the left with one operator.
    Arithmetic { operator: Operator, operands: Vec<Term<C>> },
}

impl<C: Clone> Clone for Term<C> {
    /// A copy of the term: the same shape and names, with clones of its
    /// numbers.
    fn clone(&self) -> (r: Self)
        decreases self,
    {
        match self {
            Term::Constant(c) => Term::Constant(c.clone()),
            Term::Monomial { factor, variable, exponent } => Term::Monomial {
                factor: factor.clone(),
                variable: variable.clone(),
                exponent: *exponent,
            },
            Term::Arithmetic { operator, operands } => {
                let mut copies: Vec<Term<C>> = Vec::new();
                let mut i: usize = 0;
                while i < operands.len()
                    invariant
                        *self matches Term::Arithmetic { operands: ops, .. } && ops == *operands,
                        i <= operands@.len(),
                    decreases operands@.len() - i,
                {
                    proof {
                        assert(decreases_to!(*self => operands@[i as int]));
                    }
                    copies.push(operands[i].clone());
                    i = i + 1;
                }
                Term::Arithmetic { operator: *operator, operands: copies }
            },
        }
    }
}

/// Why an arithmetic term was refused: it needs at least two operands.
#[derive(Debug, Clone, Copy, PartialEq, Eq, Structural)]
pub struct TooFewOperands;

impl TooFewOperands {
    /// A sentence that describes the error.
    pub fn message(&self) -> (m: &'static str)
        ensures
            m@ == "Operands must be greater or equal 2"@,
    {
        "Operands must be greater or equal 2"
    }
}

/// Whether the term reads the variable called `name`.
pub open spec fn reads<C>(t: Term<C>, name: Seq<char>) -> bool
    decreases t,
{
    match t {
        Term::Constant(_) => false,
        Term::Monomial { variable, .. } => variable@ == name,
        Term::Arithmetic { operands, .. } => reads_any(operands@, name),
    }
}

/// Whether one of `terms` reads the variable called `name`.
pub open spec fn reads_any<C>(terms: Seq<Term<C>>, name: Seq<char>) -> bool
    decreases terms,
{
    if terms.len() == 0 {
        false
    } else {
        reads_any(terms.drop_last(), name) || reads(terms.last(), name)
    }
}

/// If some of the first terms read a variable, the whole sequence does.
pub proof fn lemma_reads_any_prefix<C>(terms: Seq<Term<C>>, k: int, name: Seq<char>)
    requires
        0 <= k <= terms.len(),
        reads_any(terms.take(k), name),
    ensures
        reads_any(terms, name),
    decreases terms.len(),
{
    if k < terms.len() {
        assert(terms.drop_last().take(k) =~= terms.take(k));
        lemma_reads_any_prefix(terms.drop_last(), k, name);
    } else {
        assert(terms.take(k) =~= terms);
    }
}

/// The names in `names`, as texts.
pub open spec fn texts(names: Seq<String>) -> Seq<Seq<char>> {
    names.map_values(|s: String| s@)
}

/// No text occurs twice.
pub open spec fn distinct(names: Seq<Seq<char>>) -> bool {
    forall|i: int, j: int| 0 <= i < j < names.len() ==> names[i] != names[j]
}

impl<C> Term<C> {
    /// A monomial term.
    pub fn monomial(factor: C, variable: &str, exponent: i32) -> (t: Self)
        ensures
            t matches Term::Monomial { factor: f, variable: v, exponent: e } && f == factor && v@
                == variable@ && e == exponent,
    {
        Term::Monomial { factor, variable: String::from_str(variable), exponent }
    }

    /// An arithmetic term of `operands`; at least two are needed.
    pub fn arithmetic(operator: Operator, operands: Vec<Term<C>>) -> (r: Result<Self, TooFewOperands>)
        ensures
            operands@.len() < 2 ==> r == Err::<Self, TooFewOperands>(TooFewOperands),
            operands@.len() >= 2 ==> r == Ok::<Self, TooFewOperands>(Term::Arithmetic { operator, operands }),
    {
        if operands.len() < 2 {
            return Err(TooFewOperands);
        }
        Ok(Term::Arithmetic { operator, operands })
    }

    /// Whether the term reads the variable called `name`.
    pub fn reads_variable(&self, name: &str) -> (b: bool)
        ensures
            b == reads(*self, name@),
        decreases self,
    {
        match self {
            Term::Constant(_) => false,
            Term::Monomial { variable, .. } => *variable == String::from_str(name),
            Term::Arithmetic { operands, .. } => {
                let mut i: usize = 0;
                while i < operands.len()
                    invariant
                        *self matches Term::Arithmetic { operands: ops, .. } && ops == *operands,
                        i <= operands@.len(),
                        !reads_any(operands@.take(i as int), name@),
                    decreases operands@.len() - i,
                {
                    proof {
                        assert(decreases_to!(*self => operands@[i as int]));
                        assert(operands@.take(i + 1).drop_last() =~= operands@.take(i as int));
                    }
                    if operands[i].reads_variable(name) {
                        proof {
                            lemma_reads_any_prefix(operands@, i + 1, name@);
                        }
                        return true;
                    }
                    i = i + 1;
                }
                proof {
                    assert(operands@.take(i as int) =~= operands@);
                }
                false
            },
        }
    }

    /// Adds to `names` the names of the variables that the term reads and
    /// that `names` does not hold yet.
    fn collect_names(&self, names: &mut Vec<String>)
        requires
            distinct(texts(old(names)@)),
        ensures
            distinct(texts(final(names)@)),
            forall|n: Seq<char>| #[trigger] texts(final(names)@).contains(n) == (texts(old(names)@).contains(n) || reads(*self, n)),
        decreases self,
    {
        match self {
            Term::Constant(_) => {
                assert forall|n: Seq<char>| !reads(*self, n) by {}
            },
            Term::Monomial { variable, .. } => {
                let mut k: usize = 0;
                let mut found = false;
                while k < names.len()
                    invariant
                        k <= names@.len(),
                        found ==> texts(names@).contains(variable@),
                        !found ==> forall|j: int| 0 <= j < k ==> #[trigger] texts(names@)[j] != variable@,
                    decreases names@.len() - k,
                {
                    if names[k] == *variable {
                        found = true;
                        assert(texts(names@)[k as int] == variable@);
                    }
                    k = k + 1;
                }
                assert forall|n: Seq<char>| reads(*self, n) == (n == variable@) by {}
                if !found {
                    let ghost before = names@;
                    assert(!texts(before).contains(variable@));
                    names.push(variable.clone());
                    proof {
                        assert(texts(names@) =~= texts(before).push(variable@));
                        assert forall|n: Seq<char>| #[trigger] texts(names@).contains(n) == (texts(before).contains(n) || n == variable@) by {
                            if texts(names@).contains(n) {
                                let j = choose|j: int| 0 <= j < texts(names@).len() && texts(names@)[j] == n;
                                if j < texts(before).len() {
                                    assert(texts(before)[j] == n);
                                }
                            }
                            if texts(before).contains(n) {
                                let j = choose|j: int| 0 <= j < texts(before).len() && texts(before)[j] == n;
                                assert(texts(names@)[j] == n);
                            }
                            if n == variable@ {
                                assert(texts(names@)[texts(before).len() as int] == n);
                            }
                        }
                        assert forall|i: int, j: int| 0 <= i < j < texts(names@).len() implies texts(names@)[i] != texts(names@)[j] by {
                            if j == texts(before).len() {
                                assert(texts(before)[i] == texts(names@)[i]);
                            } else {
                                assert(texts(before)[i] == texts(names@)[i]);
                                assert(texts(before)[j] == texts(names@)[j]);
                            }
                        }
                    }
                }
            },
            Term::Arithmetic { operands, .. } => {
                let mut i: usize = 0;
                while i < operands.len()
                    invariant
                        *self matches Term::Arithmetic { operands: ops, .. } && ops == *operands,
                        i <= operands@.len(),
                        distinct(texts(names@)),
                        forall|n: Seq<char>| #[trigger] texts(names@).contains(n) == (texts(old(names)@).contains(n)
                            || reads_any(operands@.take(i as int), n)),
                    decreases operands@.len() - i,
                {
                    proof {
                        assert(decreases_to!(*self => operands@[i as int]));
                        assert(operands@.take(i + 1).drop_last() =~= operands@.take(i as int));
                    }
                    operands[i].collect_names(names);
                    i = i + 1;
                }
                proof {
                    assert(operands@.take(i as int) =~= operands@);
                    assert forall|n: Seq<char>| #[trigger] texts(names@).contains(n) == (texts(old(names)@).contains(n) || reads(*self, n)) by {
                        assert(reads(*self, n) == reads_any(operands@, n));
                    }
                }
            },
        }
    }

    /// The names of the variables that the term reads, each once, in the order
    /// they first occur.
    pub fn variable_names(&self) -> (v: Vec<String>)
        ensures
            distinct(texts(v@)),
            forall|n: Seq<char>| #[trigger] texts(v@).contains(n) == reads(*self, n),
    {
        let mut names: Vec<String> = Vec::new();
        proof {
            assert(texts(names@) =~= Seq::<Seq<char>>::empty());
        }
        self.collect_names(&mut names);
        names
    }
}

} // verus!
