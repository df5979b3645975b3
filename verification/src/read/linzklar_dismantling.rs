//! The glyph-dismantling notation: a linear, operator-first stack-machine
//! notation describing how a glyph decomposes into sub-components, parsed
//! into an explicit tree.

use crate::read::char_pronunciation::Linzklar;
use crate::text;
use vstd::prelude::*;

verus! {

#[derive(Clone, Eq, PartialEq, Copy, Debug)]
pub enum CustomUnaryOperator {
    Rotation,
    Explosion,
}

#[derive(Clone, Eq, PartialEq, Copy, Debug)]
pub enum IdsBinaryOperator {
    Unit,
}

#[derive(Clone, Eq, PartialEq, Copy, Debug)]
pub enum IdsTrinaryOperator {
    Unit,
}

/// How one glyph dismantles: a leaf glyph, or an operator over one, two or
/// three sub-trees.
#[derive(Eq, PartialEq, Debug)]
pub enum DismantlingTree {
    Leaf(Linzklar),
    Unary(CustomUnaryOperator, Box<DismantlingTree>),
    Binary(IdsBinaryOperator, Box<DismantlingTree>, Box<DismantlingTree>),
    Trinary(
        IdsTrinaryOperator,
        Box<DismantlingTree>,
        Box<DismantlingTree>,
        Box<DismantlingTree>,
    ),
}

/// The ways a dismantling string can be rejected.
#[derive(Clone, Eq, PartialEq, Copy, Debug, Structural)]
pub enum DismantlingError {
    /// A unary operator with an empty stack.
    UnaryWithoutOperand(char),
    /// A binary operator with fewer than two operands on the stack.
    BinaryTooFew(char),
    /// A trinary operator with fewer than three operands on the stack.
    TrinaryTooFew(char),
    /// An operand character outside the glyph blocks.
    NotAGlyph(char),
    /// More or fewer than one tree on the stack at the end.
    LeftoverStack(usize),
}

pub open spec fn is_unary_op(c: char) -> bool {
    c == '💥' || c == '↺'
}

pub open spec fn is_trinary_op(c: char) -> bool {
    c == '⿲' || c == '⿳'
}

pub open spec fn is_binary_op(c: char) -> bool {
    ||| c == '⿰'
    ||| c == '⿱'
    ||| c == '⿴'
    ||| c == '⿵'
    ||| c == '⿶'
    ||| c == '⿷'
    ||| c == '⿸'
    ||| c == '⿹'
    ||| c == '⿺'
    ||| c == '⿻'
}

/// The stack machine: the input is read from its last character to its first;
/// a glyph pushes a leaf, an operator pops its operands (most recent first)
/// and pushes the combined tree.
pub open spec fn dismantle_fold(t: Seq<char>, stack: Seq<DismantlingTree>) -> Result<
    Seq<DismantlingTree>,
    DismantlingError,
>
    decreases t.len(),
{
    if t.len() == 0 {
        Ok(stack)
    } else {
        let c = t.last();
        if is_unary_op(c) {
            if stack.len() == 0 {
                Err(DismantlingError::UnaryWithoutOperand(c))
            } else {
                dismantle_fold(
                    t.drop_last(),
                    stack.drop_last().push(
                        DismantlingTree::Unary(
                            CustomUnaryOperator::Explosion,
                            Box::new(stack.last()),
                        ),
                    ),
                )
            }
        } else if is_trinary_op(c) {
            if stack.len() < 3 {
                Err(DismantlingError::TrinaryTooFew(c))
            } else {
                dismantle_fold(
                    t.drop_last(),
                    stack.drop_last().drop_last().drop_last().push(
                        DismantlingTree::Trinary(
                            IdsTrinaryOperator::Unit,
                            Box::new(stack[stack.len() - 1]),
                            Box::new(stack[stack.len() - 2]),
                            Box::new(stack[stack.len() - 3]),
                        ),
                    ),
                )
            }
        } else if is_binary_op(c) {
            if stack.len() < 2 {
                Err(DismantlingError::BinaryTooFew(c))
            } else {
                dismantle_fold(
                    t.drop_last(),
                    stack.drop_last().drop_last().push(
                        DismantlingTree::Binary(
                            IdsBinaryOperator::Unit,
                            Box::new(stack[stack.len() - 1]),
                            Box::new(stack[stack.len() - 2]),
                        ),
                    ),
                )
            }
        } else if text::is_cjk_char(c) {
            dismantle_fold(t.drop_last(), stack.push(DismantlingTree::Leaf(Linzklar(c))))
        } else {
            Err(DismantlingError::NotAGlyph(c))
        }
    }
}

/// What parsing a dismantling string yields: the single tree the stack machine
/// leaves behind.
pub open spec fn dismantle_spec(s: Seq<char>) -> Result<DismantlingTree, DismantlingError> {
    match dismantle_fold(s, Seq::empty()) {
        Err(e) => Err(e),
        Ok(stack) => if stack.len() == 1 {
            Ok(stack[0])
        } else {
            Err(DismantlingError::LeftoverStack(stack.len() as usize))
        },
    }
}

impl DismantlingTree {
    /// Parses a dismantling string: an ideographic description sequence with
    /// the two extra unary operators permitted.
    pub fn parse(input: &str) -> (r: Result<Self, DismantlingError>)
        ensures
            r == dismantle_spec(input@),
    {
        let t = text::chars_vec(input);
        let mut stack: Vec<DismantlingTree> = Vec::new();
        let mut i: usize = t.len();
        proof {
            assert(t@.take(i as int) =~= t@);
        }
        while i > 0
            invariant
                i <= t@.len(),
                t@ == input@,
                dismantle_fold(t@, Seq::empty()) == dismantle_fold(t@.take(i as int), stack@),
            decreases i,
        {
            let ghost pre = t@.take(i as int);
            proof {
                assert(pre.last() == t@[i - 1]);
                assert(pre.drop_last() =~= t@.take(i - 1));
            }
            let c = t[i - 1];
            if c == '💥' || c == '↺' {
                let top = match stack.pop() {
                    None => {
                        return Err(DismantlingError::UnaryWithoutOperand(c));
                    },
                    Some(x) => x,
                };
                stack.push(
                    DismantlingTree::Unary(CustomUnaryOperator::Explosion, Box::new(top)),
                );
            } else if c == '⿲' || c == '⿳' {
                if stack.len() < 3 {
                    return Err(DismantlingError::TrinaryTooFew(c));
                }
                let t1 = stack.pop().unwrap();
                let t2 = stack.pop().unwrap();
                let t3 = stack.pop().unwrap();
                stack.push(
                    DismantlingTree::Trinary(
                        IdsTrinaryOperator::Unit,
                        Box::new(t1),
                        Box::new(t2),
                        Box::new(t3),
                    ),
                );
            } else if c == '⿰' || c == '⿱' || c == '⿴' || c == '⿵' || c == '⿶' || c == '⿷'
                || c == '⿸' || c == '⿹' || c == '⿺' || c == '⿻' {
                if stack.len() < 2 {
                    return Err(DismantlingError::BinaryTooFew(c));
                }
                let t1 = stack.pop().unwrap();
                let t2 = stack.pop().unwrap();
                stack.push(
                    DismantlingTree::Binary(IdsBinaryOperator::Unit, Box::new(t1), Box::new(t2)),
                );
            } else if text::is_cjk(c) {
                stack.push(DismantlingTree::Leaf(Linzklar(c)));
            } else {
                return Err(DismantlingError::NotAGlyph(c));
            }
            i = i - 1;
        }
        proof {
            assert(t@.take(0) =~= Seq::<char>::empty());
        }
        if stack.len() == 1 {
            let tree = stack.pop().unwrap();
            proof {
                assert(stack@.push(tree) =~= seq![tree]);
            }
            Ok(tree)
        } else {
            Err(DismantlingError::LeftoverStack(stack.len()))
        }
    }
}

} // verus!
