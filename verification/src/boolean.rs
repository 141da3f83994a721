//! A binary-valued gadget, used as the condition input to selection and as
//! the bit inputs to the lookup tables. The constraint that a value is
//! really 0 or 1 belongs to the concrete boolean gadget type; this layer
//! assumes it and records only the represented value.

use vstd::prelude::*;

use crate::allocation::{AllocGadget, WitnessProvider};
use crate::cs::{lemma_single_alloc_extends, AllocationMode, ConstraintSystem};
use crate::errors::SynthesisError;

verus! {

/// A gadget handle for one binary-constrained value.
#[derive(Clone, Copy, Debug, PartialEq, Eq, Structural)]
pub struct Boolean {
    pub value: bool,
}

impl Boolean {
    /// The binary value this gadget represents.
    pub open spec fn spec_value(&self) -> bool {
        self.value
    }

    /// A boolean gadget fixed to the given value, free of any variable.
    pub fn constant(value: bool) -> (b: Boolean)
        ensures
            b.spec_value() == value,
    {
        Boolean { value }
    }
}

impl AllocGadget<bool> for Boolean {
    open spec fn represents(&self, value: bool) -> bool {
        self.value == value
    }

    fn alloc_constant(cs: &mut ConstraintSystem, value: &bool) -> (r: Result<
        Boolean,
        SynthesisError,
    >)
        ensures
            final(cs).trace() == old(cs).trace().push(
                (old(cs).ns(), AllocationMode::Constant),
            ),
    {
        let ghost pre = *cs;
        cs.alloc_variable(AllocationMode::Constant);
        proof {
            lemma_single_alloc_extends(pre, *cs, AllocationMode::Constant);
        }
        Ok(Boolean { value: *value })
    }

    fn alloc_witness(cs: &mut ConstraintSystem, f: WitnessProvider<bool>) -> (r: Result<
        Boolean,
        SynthesisError,
    >)
        ensures
            f.outcome() is Ok ==> final(cs).trace() == old(cs).trace().push(
                (old(cs).ns(), AllocationMode::Witness),
            ),
            f.outcome() is Err ==> final(cs).trace() == old(cs).trace(),
            final(cs).num_constraints() == old(cs).num_constraints(),
    {
        let value = match f.invoke() {
            Ok(v) => v,
            Err(e) => {
                return Err(e);
            },
        };
        let ghost pre = *cs;
        cs.alloc_variable(AllocationMode::Witness);
        proof {
            lemma_single_alloc_extends(pre, *cs, AllocationMode::Witness);
        }
        Ok(Boolean { value })
    }

    fn alloc_input(cs: &mut ConstraintSystem, f: WitnessProvider<bool>) -> (r: Result<
        Boolean,
        SynthesisError,
    >)
        ensures
            f.outcome() is Ok ==> final(cs).trace() == old(cs).trace().push(
                (old(cs).ns(), AllocationMode::PublicInput),
            ),
            f.outcome() is Err ==> final(cs).trace() == old(cs).trace(),
            final(cs).num_constraints() == old(cs).num_constraints(),
    {
        let value = match f.invoke() {
            Ok(v) => v,
            Err(e) => {
                return Err(e);
            },
        };
        let ghost pre = *cs;
        cs.alloc_variable(AllocationMode::PublicInput);
        proof {
            lemma_single_alloc_extends(pre, *cs, AllocationMode::PublicInput);
        }
        Ok(Boolean { value })
    }
}

} // verus!
