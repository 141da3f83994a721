//! The allocation protocol: how a gadget value is bound into the constraint
//! system from a native value (as a constant) or from a deferred witness
//! provider (as a witness or public-input variable), and its generic
//! composite implementation over ordered collections of element gadgets.

use vstd::prelude::*;

use crate::cs::{
    blocks_decompose, extends_with_mode, lemma_blocks_trivial, lemma_composite_step,
    positional_blocks, records_in_children, AllocationMode, ConstraintSystem,
};
use crate::errors::SynthesisError;

verus! {

/// A single-use deferred witness provider. Invoking it yields either the
/// native value to allocate or a failure signaling that the witness is
/// presently unavailable (as during a setup-only pass). Ownership makes the
/// single use structural: a provider is consumed by its one invocation.
pub struct WitnessProvider<V> {
    outcome: Result<V, SynthesisError>,
}

impl<V> WitnessProvider<V> {
    /// What this provider will yield when invoked.
    pub closed spec fn outcome(&self) -> Result<V, SynthesisError> {
        self.outcome
    }

    /// A provider whose witness value is at hand.
    pub fn known(value: V) -> (p: Self)
        ensures
            p.outcome() == Ok::<V, SynthesisError>(value),
    {
        WitnessProvider { outcome: Ok(value) }
    }

    /// A provider whose witness value cannot be produced.
    pub fn unavailable() -> (p: Self)
        ensures
            p.outcome() == Err::<V, SynthesisError>(SynthesisError),
    {
        WitnessProvider { outcome: Err(SynthesisError) }
    }

    /// Invoke the provider, consuming it.
    pub fn invoke(self) -> (r: Result<V, SynthesisError>)
        ensures
            r == self.outcome(),
    {
        self.outcome
    }
}

/// The allocation protocol for gadgets representing native values of type
/// `V`. A gadget is bound in one of three modes: as a constant from a value
/// in hand, or as a witness or public-input variable from a deferred
/// provider. The checked variants default to the unchecked ones; a concrete
/// gadget type may override them to enforce extra validity constraints on
/// the allocated representation.
///
/// Every operation works under the caller's current namespace: it restores
/// the namespace on return, touches no existing variable, and allocates new
/// variables only under that namespace, all with the mode it is named for.
pub trait AllocGadget<V>: Sized {
    /// Whether this gadget represents the native value `value`.
    spec fn represents(&self, value: V) -> bool;

    /// Bind `value` as a constant. No witness provider is consulted and no
    /// constraint is added.
    fn alloc_constant(cs: &mut ConstraintSystem, value: &V) -> (r: Result<Self, SynthesisError>)
        ensures
            extends_with_mode(*old(cs), *final(cs), AllocationMode::Constant),
            final(cs).num_constraints() == old(cs).num_constraints(),
            r is Ok,
            r->Ok_0.represents(*value),
    ;

    /// Bind a private witness variable to the value the provider yields.
    /// The provider's failure is propagated; it is the only way this
    /// operation fails.
    fn alloc_witness(cs: &mut ConstraintSystem, f: WitnessProvider<V>) -> (r: Result<
        Self,
        SynthesisError,
    >)
        ensures
            extends_with_mode(*old(cs), *final(cs), AllocationMode::Witness),
            r is Ok <==> f.outcome() is Ok,
            r is Ok ==> r->Ok_0.represents(f.outcome()->Ok_0),
    ;

    /// As `alloc_witness`, but the implementation may add constraints validating the
    /// allocated representation. The default adds none.
    fn alloc_checked(cs: &mut ConstraintSystem, f: WitnessProvider<V>) -> (r: Result<
        Self,
        SynthesisError,
    >)
        ensures
            extends_with_mode(*old(cs), *final(cs), AllocationMode::Witness),
            r is Ok <==> f.outcome() is Ok,
            r is Ok ==> r->Ok_0.represents(f.outcome()->Ok_0),
    {
        Self::alloc_witness(cs, f)
    }

    /// As `alloc_witness`, but the variable is additionally registered as a public
    /// input, exposed to the verifier.
    fn alloc_input(cs: &mut ConstraintSystem, f: WitnessProvider<V>) -> (r: Result<
        Self,
        SynthesisError,
    >)
        ensures
            extends_with_mode(*old(cs), *final(cs), AllocationMode::PublicInput),
            r is Ok <==> f.outcome() is Ok,
            r is Ok ==> r->Ok_0.represents(f.outcome()->Ok_0),
    ;

    /// As `alloc_input`, with the same checked/unchecked split as
    /// `alloc_checked`.
    fn alloc_input_checked(cs: &mut ConstraintSystem, f: WitnessProvider<V>) -> (r: Result<
        Self,
        SynthesisError,
    >)
        ensures
            extends_with_mode(*old(cs), *final(cs), AllocationMode::PublicInput),
            r is Ok <==> f.outcome() is Ok,
            r is Ok ==> r->Ok_0.represents(f.outcome()->Ok_0),
    {
        Self::alloc_input(cs, f)
    }
}

/// The composite instance over an ordered collection: one sub-gadget per
/// position, each allocated under the child namespace derived from its
/// positional index, in increasing position order. A failure on any
/// element aborts the whole operation at once; constraints already added
/// for earlier elements stay (the caller discards the partially built
/// system on error).
impl<V, A: AllocGadget<V>> AllocGadget<Vec<V>> for Vec<A> {
    /// Position by position: as many gadgets as native values, each
    /// representing the native value at its own position.
    open spec fn represents(&self, value: Vec<V>) -> bool {
        &&& self@.len() == value@.len()
        &&& forall|i: int| 0 <= i < self@.len() ==> (#[trigger] self@[i].represents(value@[i]))
    }

    fn alloc_constant(cs: &mut ConstraintSystem, value: &Vec<V>) -> (r: Result<
        Self,
        SynthesisError,
    >)
        ensures
            records_in_children(*old(cs), *final(cs), value@.len() as int),
            positional_blocks(*old(cs), *final(cs), value@.len() as int),
    {
        let ghost pre = *cs;
        let n = value.len();
        let ghost mut bnd: Seq<int> = seq![pre.trace().len() as int];
        let mut gadgets: Vec<A> = Vec::new();
        let mut i: usize = 0;
        while i < n
            invariant
                i <= n,
                n == value@.len(),
                gadgets@.len() == i,
                forall|j: int| 0 <= j < i ==> (#[trigger] gadgets@[j].represents(value@[j])),
                extends_with_mode(pre, *cs, AllocationMode::Constant),
                cs.num_constraints() == pre.num_constraints(),
                records_in_children(pre, *cs, n as int),
                blocks_decompose(pre, *cs, i as int, bnd),
            decreases n - i,
        {
            let ghost before = *cs;
            cs.enter_ns(i);
            let ghost entered = *cs;
            let g = match A::alloc_constant(cs, &value[i]) {
                Ok(g) => g,
                Err(e) => {
                    proof {
                        assert(false);
                    }
                    cs.exit_ns();
                    return Err(e);
                },
            };
            let ghost inside = *cs;
            cs.exit_ns();
            proof {
                bnd = lemma_composite_step(
                    pre,
                    before,
                    entered,
                    inside,
                    *cs,
                    i,
                    n as int,
                    AllocationMode::Constant,
                    bnd,
                );
            }
            gadgets.push(g);
            i = i + 1;
        }
        proof {
            assert(blocks_decompose(pre, *cs, n as int, bnd));
            assert(positional_blocks(pre, *cs, n as int));
        }
        Ok(gadgets)
    }

    fn alloc_witness(cs: &mut ConstraintSystem, f: WitnessProvider<Vec<V>>) -> (r: Result<
        Self,
        SynthesisError,
    >)
        ensures
            f.outcome() is Err ==> final(cs).trace() == old(cs).trace(),
            f.outcome() is Err ==> final(cs).num_constraints() == old(cs).num_constraints(),
            records_in_children(*old(cs), *final(cs), f.outcome()->Ok_0@.len() as int),
            positional_blocks(*old(cs), *final(cs), f.outcome()->Ok_0@.len() as int),
    {
        let ghost pre = *cs;
        let ghost fout = f.outcome();
        let mut values = match f.invoke() {
            Ok(v) => v,
            Err(e) => {
                proof {
                    lemma_blocks_trivial(*cs, fout->Ok_0@.len() as int);
                }
                return Err(e);
            },
        };
        let ghost all = values@;
        let n = values.len();
        let ghost mut bnd: Seq<int> = seq![pre.trace().len() as int];
        let mut gadgets: Vec<A> = Vec::new();
        let mut i: usize = 0;
        while i < n
            invariant
                i <= n,
                n == all.len(),
                values@ == all.subrange(i as int, n as int),
                gadgets@.len() == i,
                forall|j: int| 0 <= j < i ==> (#[trigger] gadgets@[j].represents(all[j])),
                extends_with_mode(pre, *cs, AllocationMode::Witness),
                records_in_children(pre, *cs, n as int),
                blocks_decompose(pre, *cs, i as int, bnd),
            decreases n - i,
        {
            let v = values.remove(0);
            proof {
                assert(v == all[i as int]);
                assert(values@ =~= all.subrange(i + 1 as int, n as int));
            }
            let ghost before = *cs;
            cs.enter_ns(i);
            let ghost entered = *cs;
            let g = match A::alloc_witness(cs, WitnessProvider::known(v)) {
                Ok(g) => g,
                Err(e) => {
                    proof {
                        assert(false);
                    }
                    cs.exit_ns();
                    return Err(e);
                },
            };
            let ghost inside = *cs;
            cs.exit_ns();
            proof {
                bnd = lemma_composite_step(
                    pre,
                    before,
                    entered,
                    inside,
                    *cs,
                    i,
                    n as int,
                    AllocationMode::Witness,
                    bnd,
                );
            }
            gadgets.push(g);
            i = i + 1;
        }
        proof {
            assert(blocks_decompose(pre, *cs, n as int, bnd));
            assert(positional_blocks(pre, *cs, n as int));
        }
        Ok(gadgets)
    }

    fn alloc_checked(cs: &mut ConstraintSystem, f: WitnessProvider<Vec<V>>) -> (r: Result<
        Self,
        SynthesisError,
    >)
        ensures
            f.outcome() is Err ==> final(cs).trace() == old(cs).trace(),
            f.outcome() is Err ==> final(cs).num_constraints() == old(cs).num_constraints(),
            records_in_children(*old(cs), *final(cs), f.outcome()->Ok_0@.len() as int),
            positional_blocks(*old(cs), *final(cs), f.outcome()->Ok_0@.len() as int),
    {
        let ghost pre = *cs;
        let ghost fout = f.outcome();
        let mut values = match f.invoke() {
            Ok(v) => v,
            Err(e) => {
                proof {
                    lemma_blocks_trivial(*cs, fout->Ok_0@.len() as int);
                }
                return Err(e);
            },
        };
        let ghost all = values@;
        let n = values.len();
        let ghost mut bnd: Seq<int> = seq![pre.trace().len() as int];
        let mut gadgets: Vec<A> = Vec::new();
        let mut i: usize = 0;
        while i < n
            invariant
                i <= n,
                n == all.len(),
                values@ == all.subrange(i as int, n as int),
                gadgets@.len() == i,
                forall|j: int| 0 <= j < i ==> (#[trigger] gadgets@[j].represents(all[j])),
                extends_with_mode(pre, *cs, AllocationMode::Witness),
                records_in_children(pre, *cs, n as int),
                blocks_decompose(pre, *cs, i as int, bnd),
            decreases n - i,
        {
            let v = values.remove(0);
            proof {
                assert(v == all[i as int]);
                assert(values@ =~= all.subrange(i + 1 as int, n as int));
            }
            let ghost before = *cs;
            cs.enter_ns(i);
            let ghost entered = *cs;
            let g = match A::alloc_checked(cs, WitnessProvider::known(v)) {
                Ok(g) => g,
                Err(e) => {
                    proof {
                        assert(false);
                    }
                    cs.exit_ns();
                    return Err(e);
                },
            };
            let ghost inside = *cs;
            cs.exit_ns();
            proof {
                bnd = lemma_composite_step(
                    pre,
                    before,
                    entered,
                    inside,
                    *cs,
                    i,
                    n as int,
                    AllocationMode::Witness,
                    bnd,
                );
            }
            gadgets.push(g);
            i = i + 1;
        }
        proof {
            assert(blocks_decompose(pre, *cs, n as int, bnd));
            assert(positional_blocks(pre, *cs, n as int));
        }
        Ok(gadgets)
    }

    fn alloc_input(cs: &mut ConstraintSystem, f: WitnessProvider<Vec<V>>) -> (r: Result<
        Self,
        SynthesisError,
    >)
        ensures
            f.outcome() is Err ==> final(cs).trace() == old(cs).trace(),
            f.outcome() is Err ==> final(cs).num_constraints() == old(cs).num_constraints(),
            records_in_children(*old(cs), *final(cs), f.outcome()->Ok_0@.len() as int),
            positional_blocks(*old(cs), *final(cs), f.outcome()->Ok_0@.len() as int),
    {
        let ghost pre = *cs;
        let ghost fout = f.outcome();
        let mut values = match f.invoke() {
            Ok(v) => v,
            Err(e) => {
                proof {
                    lemma_blocks_trivial(*cs, fout->Ok_0@.len() as int);
                }
                return Err(e);
            },
        };
        let ghost all = values@;
        let n = values.len();
        let ghost mut bnd: Seq<int> = seq![pre.trace().len() as int];
        let mut gadgets: Vec<A> = Vec::new();
        let mut i: usize = 0;
        while i < n
            invariant
                i <= n,
                n == all.len(),
                values@ == all.subrange(i as int, n as int),
                gadgets@.len() == i,
                forall|j: int| 0 <= j < i ==> (#[trigger] gadgets@[j].represents(all[j])),
                extends_with_mode(pre, *cs, AllocationMode::PublicInput),
                records_in_children(pre, *cs, n as int),
                blocks_decompose(pre, *cs, i as int, bnd),
            decreases n - i,
        {
            let v = values.remove(0);
            proof {
                assert(v == all[i as int]);
                assert(values@ =~= all.subrange(i + 1 as int, n as int));
            }
            let ghost before = *cs;
            cs.enter_ns(i);
            let ghost entered = *cs;
            let g = match A::alloc_input(cs, WitnessProvider::known(v)) {
                Ok(g) => g,
                Err(e) => {
                    proof {
                        assert(false);
                    }
                    cs.exit_ns();
                    return Err(e);
                },
            };
            let ghost inside = *cs;
            cs.exit_ns();
            proof {
                bnd = lemma_composite_step(
                    pre,
                    before,
                    entered,
                    inside,
                    *cs,
                    i,
                    n as int,
                    AllocationMode::PublicInput,
                    bnd,
                );
            }
            gadgets.push(g);
            i = i + 1;
        }
        proof {
            assert(blocks_decompose(pre, *cs, n as int, bnd));
            assert(positional_blocks(pre, *cs, n as int));
        }
        Ok(gadgets)
    }

    fn alloc_input_checked(cs: &mut ConstraintSystem, f: WitnessProvider<Vec<V>>) -> (r: Result<
        Self,
        SynthesisError,
    >)
        ensures
            f.outcome() is Err ==> final(cs).trace() == old(cs).trace(),
            f.outcome() is Err ==> final(cs).num_constraints() == old(cs).num_constraints(),
            records_in_children(*old(cs), *final(cs), f.outcome()->Ok_0@.len() as int),
            positional_blocks(*old(cs), *final(cs), f.outcome()->Ok_0@.len() as int),
    {
        let ghost pre = *cs;
        let ghost fout = f.outcome();
        let mut values = match f.invoke() {
            Ok(v) => v,
            Err(e) => {
                proof {
                    lemma_blocks_trivial(*cs, fout->Ok_0@.len() as int);
                }
                return Err(e);
            },
        };
        let ghost all = values@;
        let n = values.len();
        let ghost mut bnd: Seq<int> = seq![pre.trace().len() as int];
        let mut gadgets: Vec<A> = Vec::new();
        let mut i: usize = 0;
        while i < n
            invariant
                i <= n,
                n == all.len(),
                values@ == all.subrange(i as int, n as int),
                gadgets@.len() == i,
                forall|j: int| 0 <= j < i ==> (#[trigger] gadgets@[j].represents(all[j])),
                extends_with_mode(pre, *cs, AllocationMode::PublicInput),
                records_in_children(pre, *cs, n as int),
                blocks_decompose(pre, *cs, i as int, bnd),
            decreases n - i,
        {
            let v = values.remove(0);
            proof {
                assert(v == all[i as int]);
                assert(values@ =~= all.subrange(i + 1 as int, n as int));
            }
            let ghost before = *cs;
            cs.enter_ns(i);
            let ghost entered = *cs;
            let g = match A::alloc_input_checked(cs, WitnessProvider::known(v)) {
                Ok(g) => g,
                Err(e) => {
                    proof {
                        assert(false);
                    }
                    cs.exit_ns();
                    return Err(e);
                },
            };
            let ghost inside = *cs;
            cs.exit_ns();
            proof {
                bnd = lemma_composite_step(
                    pre,
                    before,
                    entered,
                    inside,
                    *cs,
                    i,
                    n as int,
                    AllocationMode::PublicInput,
                    bnd,
                );
            }
            gadgets.push(g);
            i = i + 1;
        }
        proof {
            assert(blocks_decompose(pre, *cs, n as int, bnd));
            assert(positional_blocks(pre, *cs, n as int));
        }
        Ok(gadgets)
    }
}

} // verus!
