use vstd::prelude::*;

use crate::equation::grammar::{build_tree, split_index};
use crate::equation::operator::{precedence, Operator};
use crate::equation::syntax::Expr;

verus! {

/// A piece of an equation read from left to right: an operand that is not
/// itself an operation, or an operator.
pub enum Piece {
    Operand(Expr),
    Op(Operator),
}

/// The pieces of a tree read from left to right (its in-order traversal).
pub open spec fn pieces(e: Expr) -> Seq<Piece>
    decreases e,
{
    match e {
        Expr::Arithmetic(op, l, r) => pieces(*l) + seq![Piece::Op(op)] + pieces(*r),
        _ => seq![Piece::Operand(e)],
    }
}

/// The pieces of a chain `first op_1 x_1 op_2 x_2 ...`, read from left to right.
pub open spec fn chain_pieces(first: Expr, rest: Seq<(Operator, Expr)>) -> Seq<Piece>
    decreases rest.len(),
{
    if rest.len() == 0 {
        pieces(first)
    } else {
        chain_pieces(first, rest.drop_last()) + seq![Piece::Op(rest.last().0)] + pieces(
            rest.last().1,
        )
    }
}

/// The split position holds an operator that binds no stronger than any other
/// in the chain, and strictly weaker than every operator after it.
pub proof fn lemma_split_index_weakest(ops: Seq<(Operator, Expr)>)
    requires
        ops.len() > 0,
    ensures
        0 <= split_index(ops) < ops.len(),
        forall|j: int|
            0 <= j < ops.len() ==> precedence(ops[split_index(ops)].0) <= precedence(
                #[trigger] ops[j].0,
            ),
        forall|j: int|
            split_index(ops) < j < ops.len() ==> precedence(ops[split_index(ops)].0) < precedence(
                #[trigger] ops[j].0,
            ),
    decreases ops.len(),
{
    if ops.len() > 1 {
        let init = ops.drop_last();
        lemma_split_index_weakest(init);
        let k0 = split_index(init);
        let k = split_index(ops);
        assert(init[k0] == ops[k0]);
        assert forall|j: int| 0 <= j < ops.len() implies precedence(ops[k].0) <= precedence(
            #[trigger] ops[j].0,
        ) by {
            if j < init.len() {
                assert(init[j] == ops[j]);
            }
        }
        assert forall|j: int| k < j < ops.len() implies precedence(ops[k].0) < precedence(
            #[trigger] ops[j].0,
        ) by {
            if j < init.len() {
                assert(init[j] == ops[j]);
            }
        }
    }
}

proof fn lemma_chain_pieces_append(
    first: Expr,
    a: Seq<(Operator, Expr)>,
    b: Seq<(Operator, Expr)>,
)
    ensures
        chain_pieces(first, a + b) == chain_pieces(first, a) + chain_tail_pieces(b),
    decreases b.len(),
{
    if b.len() == 0 {
        assert(a + b =~= a);
        assert(chain_tail_pieces(b) =~= Seq::empty());
        assert(chain_pieces(first, a) + Seq::<Piece>::empty() =~= chain_pieces(first, a));
    } else {
        let b0 = b.drop_last();
        lemma_chain_pieces_append(first, a, b0);
        assert((a + b).drop_last() =~= a + b0);
        assert((a + b).last() == b.last());
        assert(chain_pieces(first, a + b) == chain_pieces(first, a + b0) + seq![
            Piece::Op(b.last().0),
        ] + pieces(b.last().1));
        assert(chain_tail_pieces(b) == chain_tail_pieces(b0) + seq![Piece::Op(b.last().0)]
            + pieces(b.last().1));
        assert(chain_pieces(first, a + b) =~= chain_pieces(first, a) + chain_tail_pieces(b));
    }
}

/// The pieces of the pairs of a chain after its first operand.
pub open spec fn chain_tail_pieces(rest: Seq<(Operator, Expr)>) -> Seq<Piece>
    decreases rest.len(),
{
    if rest.len() == 0 {
        Seq::empty()
    } else {
        chain_tail_pieces(rest.drop_last()) + seq![Piece::Op(rest.last().0)] + pieces(
            rest.last().1,
        )
    }
}

proof fn lemma_chain_pieces_split(first: Expr, rest: Seq<(Operator, Expr)>, k: int)
    requires
        0 <= k < rest.len(),
    ensures
        chain_pieces(first, rest) == chain_pieces(first, rest.take(k)) + seq![
            Piece::Op(rest[k].0),
        ] + chain_pieces(rest[k].1, rest.skip(k + 1)),
{
    let a = rest.take(k);
    let b = rest.skip(k);
    assert(rest =~= a + b);
    lemma_chain_pieces_append(first, a, b);
    lemma_tail_pieces_head(b);
    let c = rest.skip(k + 1);
    assert(b.skip(1) =~= c);
    lemma_tail_is_chain(rest[k].1, c);
}

proof fn lemma_tail_pieces_head(b: Seq<(Operator, Expr)>)
    requires
        b.len() > 0,
    ensures
        chain_tail_pieces(b) == seq![Piece::Op(b[0].0)] + pieces(b[0].1) + chain_tail_pieces(
            b.skip(1),
        ),
    decreases b.len(),
{
    if b.len() == 1 {
        assert(b.drop_last() =~= Seq::empty());
        assert(b.skip(1) =~= Seq::empty());
        assert(chain_tail_pieces(b.drop_last()) =~= Seq::empty());
        assert(chain_tail_pieces(b) =~= seq![Piece::Op(b[0].0)] + pieces(b[0].1)
            + chain_tail_pieces(b.skip(1)));
    } else {
        let b0 = b.drop_last();
        lemma_tail_pieces_head(b0);
        assert(b0.skip(1) =~= b.skip(1).drop_last());
        assert(b.skip(1).last() == b.last());
        assert(chain_tail_pieces(b) =~= seq![Piece::Op(b[0].0)] + pieces(b[0].1)
            + chain_tail_pieces(b.skip(1)));
    }
}

proof fn lemma_tail_is_chain(x: Expr, c: Seq<(Operator, Expr)>)
    ensures
        pieces(x) + chain_tail_pieces(c) == chain_pieces(x, c),
    decreases c.len(),
{
    if c.len() == 0 {
        assert(pieces(x) + chain_tail_pieces(c) =~= pieces(x));
    } else {
        lemma_tail_is_chain(x, c.drop_last());
        assert(pieces(x) + chain_tail_pieces(c) =~= chain_pieces(x, c));
    }
}

/// Building the tree of a chain keeps its operands and operators in the order
/// in which they were written.
pub proof fn law_tree_keeps_order(first: Expr, rest: Seq<(Operator, Expr)>)
    ensures
        pieces(build_tree(first, rest)) == chain_pieces(first, rest),
    decreases rest.len(),
{
    if rest.len() > 0 {
        let k = split_index(rest);
        lemma_split_index_weakest(rest);
        law_tree_keeps_order(first, rest.take(k));
        law_tree_keeps_order(rest[k].1, rest.skip(k + 1));
        lemma_chain_pieces_split(first, rest, k);
    }
}

/// The root of the tree of a chain with at least one operator is the weakest-
/// binding operator of the chain, the last one among equally weak ones: `*`
/// and `/` bind stronger than `+` and `-`, and equal ones group from the left.
pub proof fn law_tree_root_is_weakest_last(first: Expr, rest: Seq<(Operator, Expr)>)
    requires
        rest.len() > 0,
    ensures
        build_tree(first, rest) matches Expr::Arithmetic(op, _, _) && exists|k: int|
            0 <= k < rest.len() && op == rest[k].0 && (forall|j: int|
                0 <= j < rest.len() ==> precedence(op) <= precedence(#[trigger] rest[j].0)) && (
            forall|j: int| k < j < rest.len() ==> precedence(op) < precedence(#[trigger] rest[j].0)),
{
    lemma_split_index_weakest(rest);
    let k = split_index(rest);
    assert(0 <= k < rest.len());
}

} // verus!
