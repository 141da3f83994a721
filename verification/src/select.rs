//! Conditional selection and the bit-driven lookup-table protocols, with
//! their implementations for the scalar gadgets.
//!
//! Table-index convention, fixed once here and used throughout: in a bit
//! pair `(bits[0], bits[1])`, `bits[0]` is the low-order bit and `bits[1]`
//! the high-order bit, so the pair selects entry `bits[0] + 2 * bits[1]` of
//! the four-entry table. The sign bit of the three-bit lookup negates after
//! the table lookup.

use vstd::prelude::*;

use crate::boolean::Boolean;
use crate::cs::{
    extends_in_ns, lemma_constraints_only_extends, lemma_extends_in_ns_trans,
    lemma_single_alloc_extends, AllocationMode, ConstraintSystem,
};
use crate::errors::SynthesisError;
use crate::fp::{Fp, FpGadget};

verus! {

/// The table entry selected by a bit pair: `b0` is the low-order bit, `b1`
/// the high-order bit.
pub open spec fn two_bit_index(b0: bool, b1: bool) -> int {
    (if b0 {
        1int
    } else {
        0int
    }) + (if b1 {
        2int
    } else {
        0int
    })
}

/// The conditional-selection protocol: merge two already-allocated gadgets
/// under a boolean condition. The result represents the first gadget's
/// value when the condition holds and the second's otherwise; the
/// condition's binary constraint is assumed, not checked here. Selection
/// adds exactly `spec_cost()` constraints, a static property of the type.
pub trait CondSelectGadget: Sized {
    /// Well-formedness the selection operation preserves.
    spec fn wf(&self) -> bool;

    /// Whether two gadgets represent the same native value.
    spec fn same_value(&self, other: &Self) -> bool;

    /// The number of constraints one selection adds: a function of the
    /// type alone, never of the values.
    spec fn spec_cost() -> nat;

    /// Whether the static cost fits the machine word `cost` returns.
    spec fn cost_fits() -> bool;

    /// Return a gadget representing `true_value`'s value when `cond` holds
    /// and `false_value`'s otherwise.
    fn conditionally_select(
        cs: &mut ConstraintSystem,
        cond: &Boolean,
        true_value: &Self,
        false_value: &Self,
    ) -> (r: Result<Self, SynthesisError>)
        requires
            true_value.wf(),
            false_value.wf(),
        ensures
            r is Ok,
            r->Ok_0.wf(),
            cond.spec_value() ==> r->Ok_0.same_value(true_value),
            !cond.spec_value() ==> r->Ok_0.same_value(false_value),
            extends_in_ns(*old(cs), *final(cs)),
            final(cs).num_constraints() == old(cs).num_constraints() + Self::spec_cost(),
    ;

    /// The number of constraints one selection adds.
    fn cost() -> (r: usize)
        requires
            Self::cost_fits(),
        ensures
            r == Self::spec_cost(),
    ;
}

/// The two-bit lookup protocol: a constant-size constraint gadget that
/// resolves a four-entry table of constants by a pair of bit gadgets,
/// under the index convention fixed above.
pub trait TwoBitLookupGadget: Sized {
    /// The type of the table entries.
    type TableConstant;

    /// Whether this gadget represents the table constant `c`.
    spec fn represents_constant(&self, c: Self::TableConstant) -> bool;

    /// The number of constraints one lookup adds: a function of the type
    /// alone, never of the values.
    spec fn spec_cost() -> nat;

    /// Whether the static cost fits the machine word `cost` returns.
    spec fn cost_fits() -> bool;

    /// Return a gadget representing `constants[bits[0] + 2 * bits[1]]`.
    fn two_bit_lookup(
        cs: &mut ConstraintSystem,
        bits: &Vec<Boolean>,
        constants: &Vec<Self::TableConstant>,
    ) -> (r: Result<Self, SynthesisError>)
        requires
            bits@.len() == 2,
            constants@.len() == 4,
        ensures
            r is Ok,
            r->Ok_0.represents_constant(
                constants@[two_bit_index(bits@[0].spec_value(), bits@[1].spec_value())],
            ),
            extends_in_ns(*old(cs), *final(cs)),
            final(cs).num_constraints() == old(cs).num_constraints() + Self::spec_cost(),
    ;

    /// The number of constraints one lookup adds.
    fn cost() -> (r: usize)
        requires
            Self::cost_fits(),
        ensures
            r == Self::spec_cost(),
    ;
}

/// The three-bit lookup protocol: the two-bit lookup over the same
/// four-entry table, followed by a conditional negation in the underlying
/// field driven by a sign bit — true negates, false passes through. This
/// halves the table needed for symmetric value sets.
pub trait ThreeBitCondNegLookupGadget: Sized {
    /// The type of the table entries.
    type TableConstant;

    /// Whether this gadget represents the table constant `c`, negated when
    /// `negate` holds.
    spec fn represents_cond_neg_constant(&self, c: Self::TableConstant, negate: bool) -> bool;

    /// What a table entry must satisfy for negation to be defined on it.
    spec fn constant_wf(c: Self::TableConstant) -> bool;

    /// The number of constraints one lookup adds: a function of the type
    /// alone, never of the values.
    spec fn spec_cost() -> nat;

    /// Whether the static cost fits the machine word `cost` returns.
    spec fn cost_fits() -> bool;

    /// Return a gadget representing `constants[bits[0] + 2 * bits[1]]`,
    /// field-negated when `sign_bit` represents true.
    fn three_bit_cond_neg_lookup(
        cs: &mut ConstraintSystem,
        bits: &Vec<Boolean>,
        sign_bit: &Boolean,
        constants: &Vec<Self::TableConstant>,
    ) -> (r: Result<Self, SynthesisError>)
        requires
            bits@.len() == 2,
            constants@.len() == 4,
            forall|i: int| 0 <= i < constants@.len() ==> Self::constant_wf(#[trigger] constants@[i]),
        ensures
            r is Ok,
            r->Ok_0.represents_cond_neg_constant(
                constants@[two_bit_index(bits@[0].spec_value(), bits@[1].spec_value())],
                sign_bit.spec_value(),
            ),
            extends_in_ns(*old(cs), *final(cs)),
            final(cs).num_constraints() == old(cs).num_constraints() + Self::spec_cost(),
    ;

    /// The number of constraints one lookup adds.
    fn cost() -> (r: usize)
        requires
            Self::cost_fits(),
        ensures
            r == Self::spec_cost(),
    ;
}

impl CondSelectGadget for FpGadget {
    open spec fn wf(&self) -> bool {
        true
    }

    open spec fn same_value(&self, other: &FpGadget) -> bool {
        self.value == other.value
    }

    open spec fn spec_cost() -> nat {
        1
    }

    open spec fn cost_fits() -> bool {
        true
    }

    fn conditionally_select(
        cs: &mut ConstraintSystem,
        cond: &Boolean,
        true_value: &FpGadget,
        false_value: &FpGadget,
    ) -> (r: Result<FpGadget, SynthesisError>) {
        let ghost pre = *cs;
        cs.alloc_variable(AllocationMode::Witness);
        let ghost mid = *cs;
        cs.enforce_constraint();
        proof {
            lemma_single_alloc_extends(pre, mid, AllocationMode::Witness);
            lemma_constraints_only_extends(mid, *cs);
            lemma_extends_in_ns_trans(pre, mid, *cs);
        }
        let value = if cond.value {
            true_value.value
        } else {
            false_value.value
        };
        Ok(FpGadget { value })
    }

    fn cost() -> (r: usize) {
        1
    }
}

impl CondSelectGadget for Boolean {
    open spec fn wf(&self) -> bool {
        true
    }

    open spec fn same_value(&self, other: &Boolean) -> bool {
        self.value == other.value
    }

    open spec fn spec_cost() -> nat {
        1
    }

    open spec fn cost_fits() -> bool {
        true
    }

    fn conditionally_select(
        cs: &mut ConstraintSystem,
        cond: &Boolean,
        true_value: &Boolean,
        false_value: &Boolean,
    ) -> (r: Result<Boolean, SynthesisError>) {
        let ghost pre = *cs;
        cs.alloc_variable(AllocationMode::Witness);
        let ghost mid = *cs;
        cs.enforce_constraint();
        proof {
            lemma_single_alloc_extends(pre, mid, AllocationMode::Witness);
            lemma_constraints_only_extends(mid, *cs);
            lemma_extends_in_ns_trans(pre, mid, *cs);
        }
        let value = if cond.value {
            true_value.value
        } else {
            false_value.value
        };
        Ok(Boolean { value })
    }

    fn cost() -> (r: usize) {
        1
    }
}

impl TwoBitLookupGadget for FpGadget {
    type TableConstant = Fp;

    open spec fn represents_constant(&self, c: Fp) -> bool {
        self.value == c
    }

    open spec fn spec_cost() -> nat {
        2
    }

    open spec fn cost_fits() -> bool {
        true
    }

    fn two_bit_lookup(cs: &mut ConstraintSystem, bits: &Vec<Boolean>, constants: &Vec<Fp>) -> (r:
        Result<FpGadget, SynthesisError>) {
        let b0 = bits[0].value;
        let b1 = bits[1].value;
        let idx: usize = (if b0 {
            1
        } else {
            0
        }) + (if b1 {
            2
        } else {
            0
        });
        let ghost pre = *cs;
        cs.alloc_variable(AllocationMode::Witness);
        let ghost mid = *cs;
        cs.enforce_constraint();
        cs.enforce_constraint();
        proof {
            lemma_single_alloc_extends(pre, mid, AllocationMode::Witness);
            lemma_constraints_only_extends(mid, *cs);
            lemma_extends_in_ns_trans(pre, mid, *cs);
        }
        Ok(FpGadget { value: constants[idx] })
    }

    fn cost() -> (r: usize) {
        2
    }
}

impl ThreeBitCondNegLookupGadget for FpGadget {
    type TableConstant = Fp;

    open spec fn represents_cond_neg_constant(&self, c: Fp, negate: bool) -> bool {
        self.value == c.spec_cond_neg(negate)
    }

    open spec fn constant_wf(c: Fp) -> bool {
        c.is_canonical()
    }

    open spec fn spec_cost() -> nat {
        2
    }

    open spec fn cost_fits() -> bool {
        true
    }

    fn three_bit_cond_neg_lookup(
        cs: &mut ConstraintSystem,
        bits: &Vec<Boolean>,
        sign_bit: &Boolean,
        constants: &Vec<Fp>,
    ) -> (r: Result<FpGadget, SynthesisError>) {
        let b0 = bits[0].value;
        let b1 = bits[1].value;
        let idx: usize = (if b0 {
            1
        } else {
            0
        }) + (if b1 {
            2
        } else {
            0
        });
        let ghost pre = *cs;
        cs.alloc_variable(AllocationMode::Witness);
        let ghost mid = *cs;
        cs.enforce_constraint();
        cs.enforce_constraint();
        proof {
            lemma_single_alloc_extends(pre, mid, AllocationMode::Witness);
            lemma_constraints_only_extends(mid, *cs);
            lemma_extends_in_ns_trans(pre, mid, *cs);
        }
        let entry = constants[idx];
        let value = entry.cond_neg(sign_bit.value);
        Ok(FpGadget { value })
    }

    fn cost() -> (r: usize) {
        2
    }
}

/// With the sign bit unset, the three-bit conditional-negation lookup
/// agrees with the plain two-bit lookup on the same bit pair and table;
/// with the sign bit set, it yields the field negation of that value.
pub proof fn lemma_three_bit_matches_two_bit(
    two: FpGadget,
    three: FpGadget,
    b0: bool,
    b1: bool,
    sign: bool,
    table: Seq<Fp>,
)
    requires
        table.len() == 4,
        two.represents_constant(table[two_bit_index(b0, b1)]),
        three.represents_cond_neg_constant(table[two_bit_index(b0, b1)], sign),
    ensures
        !sign ==> three.spec_value() == two.spec_value(),
        sign ==> three.spec_value() == two.spec_value().spec_neg(),
{
}

} // verus!
