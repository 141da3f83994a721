//! A concrete field-element gadget over a small prime field, implementing
//! every protocol of this layer. It doubles as the reference element type
//! for the composite instances: its represented native value is carried
//! alongside the handle, so contracts and tests can speak about evaluation.

use vstd::prelude::*;

use crate::allocation::{AllocGadget, WitnessProvider};
use crate::cs::{lemma_single_alloc_extends, AllocationMode, ConstraintSystem};
use crate::errors::SynthesisError;

verus! {

/// Modulus of the model prime field (the Mersenne prime 2^31 - 1).
pub const FIELD_MODULUS: u64 = 0x7fff_ffff;

/// A native field element, kept in canonical form: a residue below the
/// modulus.
#[derive(Clone, Copy, Debug, PartialEq, Eq, Structural)]
pub struct Fp {
    pub repr: u64,
}

impl Fp {
    /// A canonical element holds a residue below the modulus.
    pub open spec fn is_canonical(&self) -> bool {
        self.repr < FIELD_MODULUS
    }

    /// The additive inverse in the field.
    pub open spec fn spec_neg(&self) -> Fp {
        if self.repr == 0 {
            Fp { repr: 0 }
        } else {
            Fp { repr: (FIELD_MODULUS - self.repr) as u64 }
        }
    }

    /// Negate when `negate` holds, pass through otherwise.
    pub open spec fn spec_cond_neg(&self, negate: bool) -> Fp {
        if negate {
            self.spec_neg()
        } else {
            *self
        }
    }

    /// The canonical element congruent to `value`.
    pub fn new(value: u64) -> (r: Fp)
        ensures
            r.repr == value % FIELD_MODULUS,
            r.is_canonical(),
    {
        Fp { repr: value % FIELD_MODULUS }
    }

    /// The additive inverse.
    pub fn neg(&self) -> (r: Fp)
        requires
            self.is_canonical(),
        ensures
            r == self.spec_neg(),
            r.is_canonical(),
    {
        if self.repr == 0 {
            Fp { repr: 0 }
        } else {
            Fp { repr: FIELD_MODULUS - self.repr }
        }
    }

    /// Negate when `negate` holds, pass through otherwise.
    pub fn cond_neg(&self, negate: bool) -> (r: Fp)
        requires
            self.is_canonical(),
        ensures
            r == self.spec_cond_neg(negate),
            r.is_canonical(),
    {
        if negate {
            self.neg()
        } else {
            *self
        }
    }
}

/// Negation is an involution on canonical elements.
pub proof fn lemma_neg_involution(x: Fp)
    requires
        x.is_canonical(),
    ensures
        x.spec_neg().spec_neg() == x,
{
}

/// A gadget handle for one field element bound into the constraint system,
/// carrying the native value it represents.
#[derive(Clone, Copy, Debug, PartialEq, Eq, Structural)]
pub struct FpGadget {
    pub value: Fp,
}

impl FpGadget {
    /// The native field element this gadget represents.
    pub open spec fn spec_value(&self) -> Fp {
        self.value
    }

    /// The represented value, for evaluation outside the circuit.
    pub fn get_value(&self) -> (r: Fp)
        ensures
            r == self.spec_value(),
    {
        self.value
    }
}

impl AllocGadget<Fp> for FpGadget {
    open spec fn represents(&self, value: Fp) -> bool {
        self.value == value
    }

    fn alloc_constant(cs: &mut ConstraintSystem, value: &Fp) -> (r: Result<
        FpGadget,
        SynthesisError,
    >)
        ensures
            final(cs).trace() == old(cs).trace().push(
                (old(cs).ns(), AllocationMode::Constant),
            ),
    {
        let ghost pre = *cs;
        cs.alloc_variable(AllocationMode::Constant);
        proof {
            lemma_single_alloc_extends(pre, *cs, AllocationMode::Constant);
        }
        Ok(FpGadget { value: *value })
    }

    fn alloc_witness(cs: &mut ConstraintSystem, f: WitnessProvider<Fp>) -> (r: Result<
        FpGadget,
        SynthesisError,
    >)
        ensures
            f.outcome() is Ok ==> final(cs).trace() == old(cs).trace().push(
                (old(cs).ns(), AllocationMode::Witness),
            ),
            f.outcome() is Err ==> final(cs).trace() == old(cs).trace(),
            final(cs).num_constraints() == old(cs).num_constraints(),
    {
        let value = match f.invoke() {
            Ok(v) => v,
            Err(e) => {
                return Err(e);
            },
        };
        let ghost pre = *cs;
        cs.alloc_variable(AllocationMode::Witness);
        proof {
            lemma_single_alloc_extends(pre, *cs, AllocationMode::Witness);
        }
        Ok(FpGadget { value })
    }

    fn alloc_input(cs: &mut ConstraintSystem, f: WitnessProvider<Fp>) -> (r: Result<
        FpGadget,
        SynthesisError,
    >)
        ensures
            f.outcome() is Ok ==> final(cs).trace() == old(cs).trace().push(
                (old(cs).ns(), AllocationMode::PublicInput),
            ),
            f.outcome() is Err ==> final(cs).trace() == old(cs).trace(),
            final(cs).num_constraints() == old(cs).num_constraints(),
    {
        let value = match f.invoke() {
            Ok(v) => v,
            Err(e) => {
                return Err(e);
            },
        };
        let ghost pre = *cs;
        cs.alloc_variable(AllocationMode::PublicInput);
        proof {
            lemma_single_alloc_extends(pre, *cs, AllocationMode::PublicInput);
        }
        Ok(FpGadget { value })
    }
}

} // verus!
