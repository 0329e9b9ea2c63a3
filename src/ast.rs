use vstd::prelude::*;

use crate::token::{Comparator, ConditionalOperator};

verus! {

broadcast use vstd::std_specs::vec::group_vec_axioms;

/// A node of the syntax tree.
#[derive(Debug)]
#[allow(inconsistent_fields)]
pub enum ASTNode {
    /// A field name.
    Literal(String),
    /// A numeric constant, as its lexeme.
    Number(String),
    /// A comparison of two operands.
    Condition { op: Comparator, left: Box<ASTNode>, right: Box<ASTNode> },
    /// A combinator over a non-empty list of conditions.
    ConditionalOperator { op: ConditionalOperator, conditions: Vec<Box<ASTNode>> },
    /// One top-level statement.
    Match(Box<ASTNode>),
}

/// What a syntax tree means, with text as character sequences.
pub enum Ast {
    Literal(Seq<char>),
    Number(Seq<char>),
    Condition(Comparator, Box<Ast>, Box<Ast>),
    Group(ConditionalOperator, Seq<Ast>),
    Match(Box<Ast>),
}

impl ASTNode {
    /// What this node means.
    pub open spec fn to_ast(&self) -> Ast
        decreases self,
    {
        match self {
            ASTNode::Literal(s) => Ast::Literal(s@),
            ASTNode::Number(s) => Ast::Number(s@),
            ASTNode::Condition { op, left, right } => Ast::Condition(
                *op,
                Box::new(left.to_ast()),
                Box::new(right.to_ast()),
            ),
            ASTNode::ConditionalOperator { op, conditions } => Ast::Group(
                *op,
                Seq::new(
                    conditions@.len(),
                    |i: int|
                        if 0 <= i < conditions@.len() {
                            conditions@[i].to_ast()
                        } else {
                            Ast::Literal(seq![])
                        },
                ),
            ),
            ASTNode::Match(inner) => Ast::Match(Box::new(inner.to_ast())),
        }
    }

    /// The statement's condition for a `Match` node; the node itself for any
    /// other.
    pub fn inner(&self) -> (r: &ASTNode)
        ensures
            r@ == match self@ {
                Ast::Match(c) => *c,
                _ => self@,
            },
    {
        match self {
            ASTNode::Match(inner) => &**inner,
            _ => self,
        }
    }
}

impl View for ASTNode {
    type V = Ast;

    open spec fn view(&self) -> Ast {
        self.to_ast()
    }
}

/// Whether two trees are equal, node by node.
fn same_tree(a: &ASTNode, b: &ASTNode) -> (r: bool)
    ensures
        r == (a@ == b@),
    decreases a,
{
    match (a, b) {
        (ASTNode::Literal(x), ASTNode::Literal(y)) => *x == *y,
        (ASTNode::Number(x), ASTNode::Number(y)) => *x == *y,
        (
            ASTNode::Condition { op: o1, left: l1, right: r1 },
            ASTNode::Condition { op: o2, left: l2, right: r2 },
        ) => *o1 == *o2 && same_tree(l1, l2) && same_tree(r1, r2),
        (
            ASTNode::ConditionalOperator { op: o1, conditions: c1 },
            ASTNode::ConditionalOperator { op: o2, conditions: c2 },
        ) => {
            if *o1 != *o2 || c1.len() != c2.len() {
                proof {
                    if c1.len() != c2.len() {
                        assert(a@ matches Ast::Group(_, s1) && s1.len() == c1@.len());
                        assert(b@ matches Ast::Group(_, s2) && s2.len() == c2@.len());
                    }
                }
                return false;
            }
            let ghost s1 = nodes_view(c1@);
            let ghost s2 = nodes_view(c2@);
            proof {
                lemma_group_view(*o1, *c1);
                lemma_group_view(*o2, *c2);
            }
            let mut i: usize = 0;
            while i < c1.len()
                invariant
                    c1@.len() == c2@.len(),
                    i <= c1@.len(),
                    s1 == nodes_view(c1@),
                    s2 == nodes_view(c2@),
                    a@ == Ast::Group(*o1, s1),
                    b@ == Ast::Group(*o2, s2),
                    *o1 == *o2,
                    forall|j: int| 0 <= j < i ==> s1[j] == s2[j],
                    forall|j: int| 0 <= j < c1@.len() ==> decreases_to!(a => c1@[j]),
                decreases c1@.len() - i,
            {
                if !same_tree(&c1[i], &c2[i]) {
                    assert(s1[i as int] != s2[i as int]);
                    return false;
                }
                i = i + 1;
            }
            assert(s1 =~= s2);
            true
        },
        (ASTNode::Match(x), ASTNode::Match(y)) => same_tree(x, y),
        _ => false,
    }
}

impl PartialEq for ASTNode {
    fn eq(&self, other: &ASTNode) -> (r: bool) {
        same_tree(self, other)
    }
}

impl vstd::std_specs::cmp::PartialEqSpecImpl for ASTNode {
    open spec fn obeys_eq_spec() -> bool {
        true
    }

    open spec fn eq_spec(&self, other: &ASTNode) -> bool {
        self@ == other@
    }
}

/// The meanings of a list of nodes.
pub open spec fn nodes_view(v: Seq<Box<ASTNode>>) -> Seq<Ast> {
    v.map_values(|n: Box<ASTNode>| n.to_ast())
}

/// A group node means its operator over the meanings of its conditions.
pub proof fn lemma_group_view(op: ConditionalOperator, conditions: Vec<Box<ASTNode>>)
    ensures
        (ASTNode::ConditionalOperator { op, conditions })@ == Ast::Group(
            op,
            nodes_view(conditions@),
        ),
{
    let n = ASTNode::ConditionalOperator { op, conditions };
    assert(n.to_ast() matches Ast::Group(_, cs) && cs =~= nodes_view(conditions@));
}

} // verus!
