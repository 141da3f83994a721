//! The fixed-size composite: a container of exactly `N` element gadgets,
//! allocated from a native array of exactly `N` values and merged
//! element-wise by conditional selection, each element under the child
//! namespace derived from its position.

use vstd::prelude::*;

use crate::allocation::{AllocGadget, WitnessProvider};
use crate::boolean::Boolean;
use crate::cs::{
    blocks_decompose, extends_in_ns, extends_with_mode, lemma_blocks_trivial,
    lemma_composite_step, lemma_composite_step_scoped, positional_blocks, records_in_children,
    AllocationMode, ConstraintSystem,
};
use crate::errors::SynthesisError;
use crate::select::CondSelectGadget;

verus! {

/// A container of exactly `N` element gadgets. Its well-formedness — that
/// it really holds `N` elements — is established by allocation and
/// preserved by selection.
pub struct GadgetArray<A, const N: usize> {
    pub elems: Vec<A>,
}

impl<A, const N: usize> GadgetArray<A, N> {
    /// The container holds exactly `N` elements.
    pub open spec fn has_full_length(&self) -> bool {
        self.elems@.len() == N
    }

    /// The element at position `i`.
    pub fn get(&self, i: usize) -> (r: &A)
        requires
            i < self.elems@.len(),
        ensures
            *r == self.elems@[i as int],
    {
        &self.elems[i]
    }
}

impl<V: Copy, A: AllocGadget<V>, const N: usize> AllocGadget<[V; N]> for GadgetArray<A, N> {
    /// Position by position: exactly `N` gadgets, each representing the
    /// native value at its own position.
    open spec fn represents(&self, value: [V; N]) -> bool {
        &&& self.elems@.len() == N
        &&& forall|i: int|
            0 <= i < N ==> (#[trigger] self.elems@[i].represents(value@[i]))
    }

    fn alloc_constant(cs: &mut ConstraintSystem, value: &[V; N]) -> (r: Result<
        Self,
        SynthesisError,
    >)
        ensures
            records_in_children(*old(cs), *final(cs), N as int),
            positional_blocks(*old(cs), *final(cs), N as int),
    {
        let ghost pre = *cs;
        let ghost mut bnd: Seq<int> = seq![pre.trace().len() as int];
        let mut gadgets: Vec<A> = Vec::new();
        let mut i: usize = 0;
        while i < N
            invariant
                i <= N,
                gadgets@.len() == i,
                forall|j: int| 0 <= j < i ==> (#[trigger] gadgets@[j].represents(value@[j])),
                extends_with_mode(pre, *cs, AllocationMode::Constant),
                cs.num_constraints() == pre.num_constraints(),
                records_in_children(pre, *cs, N as int),
                blocks_decompose(pre, *cs, i as int, bnd),
            decreases N - i,
        {
            let ghost before = *cs;
            cs.enter_ns(i);
            let ghost entered = *cs;
            let g = match A::alloc_constant(cs, vstd::array::array_index_get(value, i)) {
                Ok(g) => g,
                Err(e) => {
                    proof {
                        assert(false);
                    }
                    cs.exit_ns();
                    return Err(e);
                },
            };
            let ghost inside = *cs;
            cs.exit_ns();
            proof {
                bnd = lemma_composite_step(
                    pre,
                    before,
                    entered,
                    inside,
                    *cs,
                    i,
                    N as int,
                    AllocationMode::Constant,
                    bnd,
                );
            }
            gadgets.push(g);
            i = i + 1;
        }
        proof {
            assert(blocks_decompose(pre, *cs, N as int, bnd));
            assert(positional_blocks(pre, *cs, N as int));
        }
        Ok(GadgetArray { elems: gadgets })
    }

    fn alloc_witness(cs: &mut ConstraintSystem, f: WitnessProvider<[V; N]>) -> (r: Result<
        Self,
        SynthesisError,
    >)
        ensures
            f.outcome() is Err ==> final(cs).trace() == old(cs).trace(),
            f.outcome() is Err ==> final(cs).num_constraints() == old(cs).num_constraints(),
            records_in_children(*old(cs), *final(cs), N as int),
            positional_blocks(*old(cs), *final(cs), N as int),
    {
        let ghost pre = *cs;
        let values = match f.invoke() {
            Ok(v) => v,
            Err(e) => {
                proof {
                    lemma_blocks_trivial(*cs, N as int);
                }
                return Err(e);
            },
        };
        let ghost mut bnd: Seq<int> = seq![pre.trace().len() as int];
        let mut gadgets: Vec<A> = Vec::new();
        let mut i: usize = 0;
        while i < N
            invariant
                i <= N,
                gadgets@.len() == i,
                forall|j: int| 0 <= j < i ==> (#[trigger] gadgets@[j].represents(values@[j])),
                extends_with_mode(pre, *cs, AllocationMode::Witness),
                records_in_children(pre, *cs, N as int),
                blocks_decompose(pre, *cs, i as int, bnd),
            decreases N - i,
        {
            let v: V = *vstd::array::array_index_get(&values, i);
            let ghost before = *cs;
            cs.enter_ns(i);
            let ghost entered = *cs;
            let g = match A::alloc_witness(cs, WitnessProvider::known(v)) {
                Ok(g) => g,
                Err(e) => {
                    proof {
                        assert(false);
                    }
                    cs.exit_ns();
                    return Err(e);
                },
            };
            let ghost inside = *cs;
            cs.exit_ns();
            proof {
                bnd = lemma_composite_step(
                    pre,
                    before,
                    entered,
                    inside,
                    *cs,
                    i,
                    N as int,
                    AllocationMode::Witness,
                    bnd,
                );
            }
            gadgets.push(g);
            i = i + 1;
        }
        proof {
            assert(blocks_decompose(pre, *cs, N as int, bnd));
            assert(positional_blocks(pre, *cs, N as int));
        }
        Ok(GadgetArray { elems: gadgets })
    }

    fn alloc_input(cs: &mut ConstraintSystem, f: WitnessProvider<[V; N]>) -> (r: Result<
        Self,
        SynthesisError,
    >)
        ensures
            f.outcome() is Err ==> final(cs).trace() == old(cs).trace(),
            f.outcome() is Err ==> final(cs).num_constraints() == old(cs).num_constraints(),
            records_in_children(*old(cs), *final(cs), N as int),
            positional_blocks(*old(cs), *final(cs), N as int),
    {
        let ghost pre = *cs;
        let values = match f.invoke() {
            Ok(v) => v,
            Err(e) => {
                proof {
                    lemma_blocks_trivial(*cs, N as int);
                }
                return Err(e);
            },
        };
        let ghost mut bnd: Seq<int> = seq![pre.trace().len() as int];
        let mut gadgets: Vec<A> = Vec::new();
        let mut i: usize = 0;
        while i < N
            invariant
                i <= N,
                gadgets@.len() == i,
                forall|j: int| 0 <= j < i ==> (#[trigger] gadgets@[j].represents(values@[j])),
                extends_with_mode(pre, *cs, AllocationMode::PublicInput),
                records_in_children(pre, *cs, N as int),
                blocks_decompose(pre, *cs, i as int, bnd),
            decreases N - i,
        {
            let v: V = *vstd::array::array_index_get(&values, i);
            let ghost before = *cs;
            cs.enter_ns(i);
            let ghost entered = *cs;
            let g = match A::alloc_input(cs, WitnessProvider::known(v)) {
                Ok(g) => g,
                Err(e) => {
                    proof {
                        assert(false);
                    }
                    cs.exit_ns();
                    return Err(e);
                },
            };
            let ghost inside = *cs;
            cs.exit_ns();
            proof {
                bnd = lemma_composite_step(
                    pre,
                    before,
                    entered,
                    inside,
                    *cs,
                    i,
                    N as int,
                    AllocationMode::PublicInput,
                    bnd,
                );
            }
            gadgets.push(g);
            i = i + 1;
        }
        proof {
            assert(blocks_decompose(pre, *cs, N as int, bnd));
            assert(positional_blocks(pre, *cs, N as int));
        }
        Ok(GadgetArray { elems: gadgets })
    }
}

impl<A: CondSelectGadget, const N: usize> CondSelectGadget for GadgetArray<A, N> {
    open spec fn wf(&self) -> bool {
        &&& self.elems@.len() == N
        &&& forall|i: int| 0 <= i < N ==> (#[trigger] self.elems@[i].wf())
    }

    open spec fn same_value(&self, other: &Self) -> bool {
        &&& self.elems@.len() == other.elems@.len()
        &&& forall|i: int|
            0 <= i < self.elems@.len() ==> (#[trigger] self.elems@[i].same_value(
                &other.elems@[i],
            ))
    }

    /// One element-wise selection per position.
    open spec fn spec_cost() -> nat {
        (N as nat) * A::spec_cost()
    }

    open spec fn cost_fits() -> bool {
        &&& A::cost_fits()
        &&& (N as int) * (A::spec_cost() as int) <= usize::MAX as int
    }

    fn conditionally_select(
        cs: &mut ConstraintSystem,
        cond: &Boolean,
        true_value: &Self,
        false_value: &Self,
    ) -> (r: Result<Self, SynthesisError>)
        ensures
            records_in_children(*old(cs), *final(cs), N as int),
            positional_blocks(*old(cs), *final(cs), N as int),
    {
        let ghost pre = *cs;
        let ghost mut bnd: Seq<int> = seq![pre.trace().len() as int];
        let mut gadgets: Vec<A> = Vec::new();
        let mut i: usize = 0;
        while i < N
            invariant
                i <= N,
                true_value.wf(),
                false_value.wf(),
                gadgets@.len() == i,
                forall|j: int| 0 <= j < i ==> (#[trigger] gadgets@[j].wf()),
                cond.spec_value() ==> forall|j: int|
                    0 <= j < i ==> (#[trigger] gadgets@[j].same_value(&true_value.elems@[j])),
                !cond.spec_value() ==> forall|j: int|
                    0 <= j < i ==> (#[trigger] gadgets@[j].same_value(&false_value.elems@[j])),
                extends_in_ns(pre, *cs),
                cs.num_constraints() == pre.num_constraints() + (i as nat) * A::spec_cost(),
                records_in_children(pre, *cs, N as int),
                blocks_decompose(pre, *cs, i as int, bnd),
            decreases N - i,
        {
            let ghost before = *cs;
            cs.enter_ns(i);
            let ghost entered = *cs;
            let g = match A::conditionally_select(
                cs,
                cond,
                &true_value.elems[i],
                &false_value.elems[i],
            ) {
                Ok(g) => g,
                Err(e) => {
                    proof {
                        assert(false);
                    }
                    cs.exit_ns();
                    return Err(e);
                },
            };
            let ghost inside = *cs;
            cs.exit_ns();
            proof {
                bnd = lemma_composite_step_scoped(
                    pre,
                    before,
                    entered,
                    inside,
                    *cs,
                    i,
                    N as int,
                    bnd,
                );
                assert((i as nat + 1) * A::spec_cost() == (i as nat) * A::spec_cost()
                    + A::spec_cost()) by (nonlinear_arith);
            }
            gadgets.push(g);
            i = i + 1;
        }
        proof {
            assert(blocks_decompose(pre, *cs, N as int, bnd));
            assert(positional_blocks(pre, *cs, N as int));
        }
        Ok(GadgetArray { elems: gadgets })
    }

    fn cost() -> (r: usize) {
        let c = A::cost();
        proof {
            assert((N as int) * (c as int) == (c as int) * (N as int)) by (nonlinear_arith);
        }
        N * c
    }
}

/// The static selection cost of a fixed-size array is its length times the
/// element cost, whatever values are later passed: cost is a function of
/// the type alone.
pub proof fn lemma_array_cost<A: CondSelectGadget, const N: usize>()
    ensures
        GadgetArray::<A, N>::spec_cost() == (N as nat) * A::spec_cost(),
{
}

} // verus!
