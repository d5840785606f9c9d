//! The interface a value type offers to the interning table.

use crate::handle::Hc;
use vstd::prelude::*;

verus! {

/// A type whose values can be interned.
///
/// A value may embed handles to other interned values (a node of a recursive
/// structure holds handles to its sub-nodes).  The table must know about
/// those embedded handles: when a stored value is removed from the table and
/// destroyed, the handles inside it disappear with it, and the reference
/// counts of the entries they point to have to be decremented.  `children`
/// reports the values behind exactly the handles embedded in `self`, and
/// `children_spec` is its mathematical counterpart, so that the table's
/// contracts can speak about the cascade precisely.
///
/// A type that embeds no handles reports no children.
pub trait HcValue: Sized {
    /// The values behind the handles embedded in this value.
    spec fn children_spec(&self) -> Seq<Self>;

    /// Reports the values behind the handles embedded in this value.
    fn children(&self) -> (r: Vec<&Self>)
        ensures
            r@.len() == self.children_spec().len(),
            forall|i: int| 0 <= i < r@.len() ==> *r@[i] == self.children_spec()[i],
    ;
}

impl HcValue for bool {
    open spec fn children_spec(&self) -> Seq<bool> {
        Seq::empty()
    }

    fn children(&self) -> (r: Vec<&bool>) {
        Vec::new()
    }
}

impl HcValue for i32 {
    open spec fn children_spec(&self) -> Seq<i32> {
        Seq::empty()
    }

    fn children(&self) -> (r: Vec<&i32>) {
        Vec::new()
    }
}

impl HcValue for i64 {
    open spec fn children_spec(&self) -> Seq<i64> {
        Seq::empty()
    }

    fn children(&self) -> (r: Vec<&i64>) {
        Vec::new()
    }
}

impl HcValue for u32 {
    open spec fn children_spec(&self) -> Seq<u32> {
        Seq::empty()
    }

    fn children(&self) -> (r: Vec<&u32>) {
        Vec::new()
    }
}

impl HcValue for u64 {
    open spec fn children_spec(&self) -> Seq<u64> {
        Seq::empty()
    }

    fn children(&self) -> (r: Vec<&u64>) {
        Vec::new()
    }
}

impl HcValue for usize {
    open spec fn children_spec(&self) -> Seq<usize> {
        Seq::empty()
    }

    fn children(&self) -> (r: Vec<&usize>) {
        Vec::new()
    }
}

impl HcValue for String {
    open spec fn children_spec(&self) -> Seq<String> {
        Seq::empty()
    }

    fn children(&self) -> (r: Vec<&String>) {
        Vec::new()
    }
}

/// A boolean expression over interned sub-expressions.
///
/// This is the kind of recursive value an interning table is made for: the
/// operands of a connective are handles to previously interned expressions,
/// so equal sub-expressions share storage.
#[derive(Hash, Debug)]
pub enum BoolExpr {
    Const(bool),
    And(Hc<BoolExpr>, Hc<BoolExpr>),
    Or(Hc<BoolExpr>, Hc<BoolExpr>),
    Not(Hc<BoolExpr>),
}

/// Structural equality of expressions: equal connectives over equal operand
/// values, walking through the operand handles.
fn eq_expr(a: &BoolExpr, b: &BoolExpr) -> (r: bool)
    ensures
        r == (*a == *b),
    decreases *a,
{
    match (a, b) {
        (BoolExpr::Const(x), BoolExpr::Const(y)) => *x == *y,
        (BoolExpr::And(a1, b1), BoolExpr::And(a2, b2)) => {
            proof {
                crate::handle::lemma_handle_decreases(*a1);
                crate::handle::lemma_handle_decreases(*b1);
                crate::handle::lemma_handle_eq(*a1, *a2);
                crate::handle::lemma_handle_eq(*b1, *b2);
            }
            (a1.same_slot(a2) || eq_expr(a1.get(), a2.get())) && (b1.same_slot(b2) || eq_expr(
                b1.get(),
                b2.get(),
            ))
        },
        (BoolExpr::Or(a1, b1), BoolExpr::Or(a2, b2)) => {
            proof {
                crate::handle::lemma_handle_decreases(*a1);
                crate::handle::lemma_handle_decreases(*b1);
                crate::handle::lemma_handle_eq(*a1, *a2);
                crate::handle::lemma_handle_eq(*b1, *b2);
            }
            (a1.same_slot(a2) || eq_expr(a1.get(), a2.get())) && (b1.same_slot(b2) || eq_expr(
                b1.get(),
                b2.get(),
            ))
        },
        (BoolExpr::Not(a1), BoolExpr::Not(a2)) => {
            proof {
                crate::handle::lemma_handle_decreases(*a1);
                crate::handle::lemma_handle_eq(*a1, *a2);
            }
            a1.same_slot(a2) || eq_expr(a1.get(), a2.get())
        },
        _ => false,
    }
}

impl PartialEq for BoolExpr {
    /// Structural equality: equal connectives over equal operand values.
    fn eq(&self, other: &Self) -> (r: bool) {
        eq_expr(self, other)
    }
}

impl vstd::std_specs::cmp::PartialEqSpecImpl for BoolExpr {
    open spec fn obeys_eq_spec() -> bool {
        true
    }

    open spec fn eq_spec(&self, other: &Self) -> bool {
        *self == *other
    }
}

impl Eq for BoolExpr {

}

/// A boolean expression whose hash collides on purpose: every negation
/// hashes like the constant `true`, while equality stays honest.  The
/// interning table never conflates such values: deduplication goes by
/// equality alone, so colliding values occupy distinct entries.
#[derive(Debug)]
pub enum BoolExprHC {
    Const(bool),
    Not(Hc<BoolExprHC>),
}

impl core::hash::Hash for BoolExprHC {
    /// Relies on `i32::hash` of the standard library: a constant is hashed
    /// as `1` or `0`, a negation always as `1`, so `Const(true)` and every
    /// negation hash alike.
    #[verifier::external_body]
    fn hash<H: core::hash::Hasher>(&self, state: &mut H) {
        match self {
            BoolExprHC::Const(flag) => {
                let value: i32 = if *flag {
                    1
                } else {
                    0
                };
                value.hash(state);
            },
            BoolExprHC::Not(_) => {
                1i32.hash(state);
            },
        }
    }
}

/// Structural equality of colliding expressions; honest, unlike their hash.
fn eq_expr_hc(a: &BoolExprHC, b: &BoolExprHC) -> (r: bool)
    ensures
        r == (*a == *b),
    decreases *a,
{
    match (a, b) {
        (BoolExprHC::Const(x), BoolExprHC::Const(y)) => *x == *y,
        (BoolExprHC::Not(a1), BoolExprHC::Not(a2)) => {
            proof {
                crate::handle::lemma_handle_decreases(*a1);
                crate::handle::lemma_handle_eq(*a1, *a2);
            }
            a1.same_slot(a2) || eq_expr_hc(a1.get(), a2.get())
        },
        _ => false,
    }
}

impl PartialEq for BoolExprHC {
    fn eq(&self, other: &Self) -> (r: bool) {
        eq_expr_hc(self, other)
    }
}

impl vstd::std_specs::cmp::PartialEqSpecImpl for BoolExprHC {
    open spec fn obeys_eq_spec() -> bool {
        true
    }

    open spec fn eq_spec(&self, other: &Self) -> bool {
        *self == *other
    }
}

impl Eq for BoolExprHC {

}

impl HcValue for BoolExprHC {
    open spec fn children_spec(&self) -> Seq<BoolExprHC> {
        match self {
            BoolExprHC::Const(_) => Seq::empty(),
            BoolExprHC::Not(a) => seq![a@],
        }
    }

    fn children(&self) -> (r: Vec<&BoolExprHC>) {
        match self {
            BoolExprHC::Const(_) => Vec::new(),
            BoolExprHC::Not(a) => {
                let mut r: Vec<&BoolExprHC> = Vec::new();
                r.push(a.get());
                r
            },
        }
    }
}

impl HcValue for BoolExpr {
    open spec fn children_spec(&self) -> Seq<BoolExpr> {
        match self {
            BoolExpr::Const(_) => Seq::empty(),
            BoolExpr::And(a, b) => seq![a@, b@],
            BoolExpr::Or(a, b) => seq![a@, b@],
            BoolExpr::Not(a) => seq![a@],
        }
    }

    fn children(&self) -> (r: Vec<&BoolExpr>) {
        match self {
            BoolExpr::Const(_) => Vec::new(),
            BoolExpr::And(a, b) => {
                let mut r: Vec<&BoolExpr> = Vec::new();
                r.push(a.get());
                r.push(b.get());
                r
            },
            BoolExpr::Or(a, b) => {
                let mut r: Vec<&BoolExpr> = Vec::new();
                r.push(a.get());
                r.push(b.get());
                r
            },
            BoolExpr::Not(a) => {
                let mut r: Vec<&BoolExpr> = Vec::new();
                r.push(a.get());
                r
            },
        }
    }
}

} // verus!
