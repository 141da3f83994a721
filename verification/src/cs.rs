//! A transparent model of the constraint-system backend this layer drives.
//!
//! The backend is external to the gadget layer; what the gadget contracts
//! need from it is captured here as plain data: the current hierarchical
//! namespace (a path of positional segments), the ordered trace of variable
//! allocations (each remembering the namespace it was made under and its
//! allocation mode), and a count of the constraints enforced so far.

use vstd::prelude::*;

verus! {

/// How a variable is bound into the constraint system.
///
/// `Constant` is baked into the circuit and adds no per-instance freedom;
/// `Witness` is private to the prover; `PublicInput` is additionally exposed
/// to the verifier through the public-input vector.
#[derive(Clone, Copy, Debug, PartialEq, Eq, Structural)]
pub enum AllocationMode {
    Constant,
    Witness,
    PublicInput,
}

/// One allocated variable: the namespace path it was allocated under and the
/// mode it was bound with.
#[derive(Debug)]
pub struct Record {
    pub path: Vec<usize>,
    pub mode: AllocationMode,
}

/// The model backend. Namespaces are paths of positional segments; entering
/// a child namespace pushes a segment, leaving it pops one. Variables are
/// recorded in allocation order, each under the namespace current at the
/// time; constraints are counted but otherwise uninterpreted.
pub struct ConstraintSystem {
    path: Vec<usize>,
    records: Vec<Record>,
    constraints: Ghost<nat>,
}

impl ConstraintSystem {
    /// The namespace path currently in scope.
    pub closed spec fn ns(&self) -> Seq<usize> {
        self.path@
    }

    /// The allocation trace: for each variable in order, the namespace it
    /// was allocated under and its mode.
    pub closed spec fn trace(&self) -> Seq<(Seq<usize>, AllocationMode)> {
        self.records@.map_values(|r: Record| (r.path@, r.mode))
    }

    /// How many constraints have been enforced so far.
    pub closed spec fn num_constraints(&self) -> nat {
        self.constraints@
    }

    /// A fresh, empty constraint system at the root namespace.
    pub fn new() -> (cs: ConstraintSystem)
        ensures
            cs.ns() == Seq::<usize>::empty(),
            cs.trace() == Seq::<(Seq<usize>, AllocationMode)>::empty(),
            cs.num_constraints() == 0,
    {
        let cs = ConstraintSystem {
            path: Vec::new(),
            records: Vec::new(),
            constraints: Ghost(0nat),
        };
        proof {
            assert(cs.trace() =~= Seq::<(Seq<usize>, AllocationMode)>::empty());
        }
        cs
    }

    /// Enter the child namespace with the given positional segment.
    pub fn enter_ns(&mut self, seg: usize)
        ensures
            final(self).ns() == old(self).ns().push(seg),
            final(self).trace() == old(self).trace(),
            final(self).num_constraints() == old(self).num_constraints(),
    {
        self.path.push(seg);
    }

    /// Leave the innermost namespace.
    pub fn exit_ns(&mut self)
        requires
            old(self).ns().len() > 0,
        ensures
            final(self).ns() == old(self).ns().drop_last(),
            final(self).trace() == old(self).trace(),
            final(self).num_constraints() == old(self).num_constraints(),
    {
        self.path.pop();
        proof {
            assert(self.path@ =~= old(self).ns().drop_last());
        }
    }

    /// Allocate one variable with the given mode under the current
    /// namespace; returns its index in the allocation trace.
    pub fn alloc_variable(&mut self, mode: AllocationMode) -> (idx: usize)
        ensures
            final(self).trace() == old(self).trace().push((old(self).ns(), mode)),
            final(self).ns() == old(self).ns(),
            final(self).num_constraints() == old(self).num_constraints(),
            idx == old(self).trace().len(),
    {
        let idx = self.records.len();
        let path = copy_path(&self.path);
        self.records.push(Record { path, mode });
        proof {
            assert(self.trace() =~= old(self).trace().push((old(self).ns(), mode)));
        }
        idx
    }

    /// Enforce one constraint. The model does not interpret the constraint
    /// itself; it only accounts for it.
    pub fn enforce_constraint(&mut self)
        ensures
            final(self).trace() == old(self).trace(),
            final(self).ns() == old(self).ns(),
            final(self).num_constraints() == old(self).num_constraints() + 1,
    {
        proof {
            self.constraints@ = self.constraints@ + 1;
        }
    }

    /// The allocation records, in allocation order.
    pub fn records(&self) -> (r: &Vec<Record>)
        ensures
            r@.map_values(|rec: Record| (rec.path@, rec.mode)) == self.trace(),
    {
        &self.records
    }
}

fn copy_path(p: &Vec<usize>) -> (r: Vec<usize>)
    ensures
        r@ == p@,
{
    let mut r: Vec<usize> = Vec::new();
    let mut i: usize = 0;
    while i < p.len()
        invariant
            i <= p@.len(),
            r@ == p@.subrange(0, i as int),
        decreases p@.len() - i,
    {
        r.push(p[i]);
        proof {
            assert(r@ =~= p@.subrange(0, i + 1 as int));
        }
        i = i + 1;
    }
    proof {
        assert(r@ =~= p@);
    }
    r
}

/// The constraint system `post` is what `pre` can become under operations
/// scoped to the current namespace: the namespace itself is restored, no
/// existing record is touched, every record added lies under `pre`'s
/// namespace, and constraints only accumulate.
pub open spec fn extends_in_ns(pre: ConstraintSystem, post: ConstraintSystem) -> bool {
    &&& post.ns() == pre.ns()
    &&& post.num_constraints() >= pre.num_constraints()
    &&& post.trace().len() >= pre.trace().len()
    &&& forall|k: int| 0 <= k < pre.trace().len() ==> post.trace()[k] == pre.trace()[k]
    &&& forall|k: int|
        pre.trace().len() <= k < post.trace().len() ==> pre.ns().is_prefix_of(
            (#[trigger] post.trace()[k]).0,
        )
}

/// As `extends_in_ns`, and every record added was bound with `mode`.
pub open spec fn extends_with_mode(
    pre: ConstraintSystem,
    post: ConstraintSystem,
    mode: AllocationMode,
) -> bool {
    &&& extends_in_ns(pre, post)
    &&& forall|k: int|
        pre.trace().len() <= k < post.trace().len() ==> (#[trigger] post.trace()[k]).1 == mode
}

/// Prefixes compose: a prefix of a prefix is a prefix.
pub proof fn lemma_prefix_trans(a: Seq<usize>, b: Seq<usize>, c: Seq<usize>)
    requires
        a.is_prefix_of(b),
        b.is_prefix_of(c),
    ensures
        a.is_prefix_of(c),
{
    assert forall|j: int| 0 <= j < a.len() implies a[j] == c[j] by {
        assert(a[j] == b.subrange(0, a.len() as int)[j]);
        assert(b[j] == c.subrange(0, b.len() as int)[j]);
    }
    assert(a =~= c.subrange(0, a.len() as int));
}

/// A path is a prefix of any of its extensions by one segment.
pub proof fn lemma_prefix_push(a: Seq<usize>, seg: usize)
    ensures
        a.is_prefix_of(a.push(seg)),
{
    assert(a =~= a.push(seg).subrange(0, a.len() as int));
}

/// Namespace-scoped extension composes across successive operations.
pub proof fn lemma_extends_in_ns_trans(
    a: ConstraintSystem,
    b: ConstraintSystem,
    c: ConstraintSystem,
)
    requires
        extends_in_ns(a, b),
        extends_in_ns(b, c),
    ensures
        extends_in_ns(a, c),
{
    assert forall|k: int|
        a.trace().len() <= k < c.trace().len() implies a.ns().is_prefix_of(
        (#[trigger] c.trace()[k]).0,
    ) by {
        if k < b.trace().len() {
            assert(c.trace()[k] == b.trace()[k]);
        }
    }
}

/// As `lemma_extends_in_ns_trans`, preserving a common allocation mode.
pub proof fn lemma_extends_with_mode_trans(
    a: ConstraintSystem,
    b: ConstraintSystem,
    c: ConstraintSystem,
    mode: AllocationMode,
)
    requires
        extends_with_mode(a, b, mode),
        extends_with_mode(b, c, mode),
    ensures
        extends_with_mode(a, c, mode),
{
    lemma_extends_in_ns_trans(a, b, c);
    assert forall|k: int|
        a.trace().len() <= k < c.trace().len() implies (#[trigger] c.trace()[k]).1 == mode by {
        if k < b.trace().len() {
            assert(c.trace()[k] == b.trace()[k]);
        }
    }
}

/// Allocating one variable under the current namespace, together with any
/// number of enforced constraints, is an operation scoped to that
/// namespace.
pub proof fn lemma_single_alloc_extends(
    pre: ConstraintSystem,
    post: ConstraintSystem,
    mode: AllocationMode,
)
    requires
        post.trace() == pre.trace().push((pre.ns(), mode)),
        post.ns() == pre.ns(),
        post.num_constraints() >= pre.num_constraints(),
    ensures
        extends_with_mode(pre, post, mode),
{
    lemma_prefix_refl(pre.ns());
    assert forall|k: int|
        pre.trace().len() <= k < post.trace().len() implies pre.ns().is_prefix_of(
        (#[trigger] post.trace()[k]).0,
    ) && (#[trigger] post.trace()[k]).1 == mode by {
        assert(post.trace()[k] == (pre.ns(), mode));
    }
}

/// Enforcing constraints alone, without touching variables or the
/// namespace, is an operation scoped to the current namespace.
pub proof fn lemma_constraints_only_extends(pre: ConstraintSystem, post: ConstraintSystem)
    requires
        post.trace() == pre.trace(),
        post.ns() == pre.ns(),
        post.num_constraints() >= pre.num_constraints(),
    ensures
        forall|mode: AllocationMode| extends_with_mode(pre, post, mode),
        extends_in_ns(pre, post),
{
}

/// A path is a prefix of itself.
pub proof fn lemma_prefix_refl(a: Seq<usize>)
    ensures
        a.is_prefix_of(a),
{
    assert(a =~= a.subrange(0, a.len() as int));
}

/// Every record `post` holds beyond those of `pre` lies under the child
/// namespace of some position `i < n` of `pre`'s namespace: the shape a
/// composite call over `n` elements leaves the constraint system in.
pub open spec fn records_in_children(
    pre: ConstraintSystem,
    post: ConstraintSystem,
    n: int,
) -> bool {
    forall|k: int|
        pre.trace().len() <= k < post.trace().len() ==> exists|i: usize|
            (i as int) < n && pre.ns().push(i).is_prefix_of((#[trigger] post.trace()[k]).0)
}

/// The records `post` holds beyond those of `pre` fall into consecutive
/// per-position blocks, delimited by the boundaries `b`: block `i` — the
/// records with indices in `[b[i], b[i+1])` — lies under the child
/// namespace of position `i`, and the blocks appear in increasing position
/// order. This is the shape a composite call over `n` elements leaves the
/// constraint system in: position `i`'s work stands in block `i`, under
/// `pre.ns().push(i)`.
pub open spec fn blocks_decompose(
    pre: ConstraintSystem,
    post: ConstraintSystem,
    n: int,
    b: Seq<int>,
) -> bool {
    &&& b.len() == n + 1
    &&& b[0] == pre.trace().len()
    &&& b[n] == post.trace().len()
    &&& forall|i: int, j: int| #![trigger b[i], b[j]] 0 <= i <= j <= n ==> b[i] <= b[j]
    &&& forall|i: int, k: int|
        #![trigger b[i], post.trace()[k]]
        0 <= i < n && b[i] <= k < b[i + 1] ==> pre.ns().push(i as usize).is_prefix_of(
            post.trace()[k].0,
        )
}

/// Some sequence of boundaries decomposes the records `post` holds beyond
/// those of `pre` into consecutive per-position blocks for positions
/// `0 .. n`, block `i` under the child namespace of position `i`.
pub open spec fn positional_blocks(pre: ConstraintSystem, post: ConstraintSystem, n: int) -> bool {
    exists|b: Seq<int>| blocks_decompose(pre, post, n, b)
}

/// A constraint system decomposes trivially against itself: every block is
/// empty.
pub proof fn lemma_blocks_trivial(cs: ConstraintSystem, n: int)
    requires
        n >= 0,
    ensures
        positional_blocks(cs, cs, n),
{
    let b = Seq::new((n + 1) as nat, |i: int| cs.trace().len() as int);
    assert(blocks_decompose(cs, cs, n, b));
}

/// One composite step: entering the child namespace `seg`, performing an
/// operation scoped to it, and leaving again is itself an operation scoped
/// to the original namespace, and every record it adds lies under the child
/// namespace.
pub proof fn lemma_child_scope_step(
    before: ConstraintSystem,
    entered: ConstraintSystem,
    inside: ConstraintSystem,
    now: ConstraintSystem,
    seg: usize,
    mode: AllocationMode,
)
    requires
        entered.ns() == before.ns().push(seg),
        entered.trace() == before.trace(),
        entered.num_constraints() == before.num_constraints(),
        extends_with_mode(entered, inside, mode),
        now.ns() == inside.ns().drop_last(),
        now.trace() == inside.trace(),
        now.num_constraints() == inside.num_constraints(),
    ensures
        extends_with_mode(before, now, mode),
        now.ns() == before.ns(),
        now.num_constraints() >= before.num_constraints(),
        inside.num_constraints() == now.num_constraints(),
        forall|k: int|
            before.trace().len() <= k < now.trace().len() ==> before.ns().push(seg).is_prefix_of(
                (#[trigger] now.trace()[k]).0,
            ),
{
    assert(now.ns() =~= before.ns());
    assert forall|k: int|
        before.trace().len() <= k < now.trace().len() implies before.ns().push(seg).is_prefix_of(
        (#[trigger] now.trace()[k]).0,
    ) && before.ns().is_prefix_of((#[trigger] now.trace()[k]).0) by {
        assert(entered.ns().is_prefix_of(inside.trace()[k].0));
        lemma_prefix_push(before.ns(), seg);
        lemma_prefix_trans(before.ns(), before.ns().push(seg), now.trace()[k].0);
    }
}

/// As `lemma_child_scope_step`, for operations that are namespace-scoped
/// without a single allocation mode.
pub proof fn lemma_child_scope_step_in_ns(
    before: ConstraintSystem,
    entered: ConstraintSystem,
    inside: ConstraintSystem,
    now: ConstraintSystem,
    seg: usize,
)
    requires
        entered.ns() == before.ns().push(seg),
        entered.trace() == before.trace(),
        entered.num_constraints() == before.num_constraints(),
        extends_in_ns(entered, inside),
        now.ns() == inside.ns().drop_last(),
        now.trace() == inside.trace(),
        now.num_constraints() == inside.num_constraints(),
    ensures
        extends_in_ns(before, now),
        now.ns() == before.ns(),
        forall|k: int|
            before.trace().len() <= k < now.trace().len() ==> before.ns().push(seg).is_prefix_of(
                (#[trigger] now.trace()[k]).0,
            ),
{
    assert(now.ns() =~= before.ns());
    assert forall|k: int|
        before.trace().len() <= k < now.trace().len() implies before.ns().push(seg).is_prefix_of(
        (#[trigger] now.trace()[k]).0,
    ) && before.ns().is_prefix_of((#[trigger] now.trace()[k]).0) by {
        assert(entered.ns().is_prefix_of(inside.trace()[k].0));
        lemma_prefix_push(before.ns(), seg);
        lemma_prefix_trans(before.ns(), before.ns().push(seg), now.trace()[k].0);
    }
}

/// One full iteration of a composite loop, namespace-scoped without a
/// single allocation mode: `before` is the state at the head of iteration
/// `seg`, `entered` the state after entering child namespace `seg`,
/// `inside` the state the element-level operation left, and `now` the
/// state after leaving the child namespace again. Extends the boundary
/// sequence `b` of the blocks built so far with the new block for
/// position `seg`.
#[verifier::rlimit(80)]
pub proof fn lemma_composite_step_scoped(
    pre: ConstraintSystem,
    before: ConstraintSystem,
    entered: ConstraintSystem,
    inside: ConstraintSystem,
    now: ConstraintSystem,
    seg: usize,
    n: int,
    b: Seq<int>,
) -> (b2: Seq<int>)
    requires
        extends_in_ns(pre, before),
        records_in_children(pre, before, n),
        blocks_decompose(pre, before, seg as int, b),
        (seg as int) < n,
        entered.ns() == before.ns().push(seg),
        entered.trace() == before.trace(),
        entered.num_constraints() == before.num_constraints(),
        extends_in_ns(entered, inside),
        now.ns() == inside.ns().drop_last(),
        now.trace() == inside.trace(),
        now.num_constraints() == inside.num_constraints(),
    ensures
        extends_in_ns(pre, now),
        records_in_children(pre, now, n),
        blocks_decompose(pre, now, seg as int + 1, b2),
        b2 == b.push(now.trace().len() as int),
{
    lemma_child_scope_step_in_ns(before, entered, inside, now, seg);
    lemma_extends_in_ns_trans(pre, before, now);
    assert forall|k: int|
        pre.trace().len() <= k < now.trace().len() implies exists|i2: usize|
        (i2 as int) < n && pre.ns().push(i2).is_prefix_of((#[trigger] now.trace()[k]).0) by {
        if k < before.trace().len() {
            assert(now.trace()[k] == before.trace()[k]);
            let iw = choose|i2: usize|
                (i2 as int) < n && pre.ns().push(i2).is_prefix_of(before.trace()[k].0);
            assert(pre.ns().push(iw).is_prefix_of(now.trace()[k].0));
        } else {
            assert(before.ns().push(seg).is_prefix_of(now.trace()[k].0));
            assert(before.ns() == pre.ns());
            assert(pre.ns().push(seg).is_prefix_of(now.trace()[k].0));
        }
    }
    let b2 = b.push(now.trace().len() as int);
    assert(b2[0] == pre.trace().len());
    assert(b2[seg as int + 1] == now.trace().len());
    assert forall|i: int, j: int| #![trigger b2[i], b2[j]] 0 <= i <= j <= seg as int
        + 1 implies b2[i] <= b2[j] by {
        if j <= seg as int {
            assert(b2[i] == b[i]);
            assert(b2[j] == b[j]);
            assert(b[i] <= b[j]);
        } else {
            if i <= seg as int {
                assert(b2[i] == b[i]);
                assert(b[i] <= b[seg as int]);
                assert(b[seg as int] == before.trace().len());
                assert(now.trace().len() >= before.trace().len());
            }
        }
    }
    assert forall|i: int, k: int|
        #![trigger b2[i], now.trace()[k]]
        0 <= i < seg as int + 1 && b2[i] <= k < b2[i + 1] implies pre.ns().push(
        i as usize,
    ).is_prefix_of(now.trace()[k].0) by {
        if i < seg as int {
            assert(b2[i] == b[i]);
            assert(b2[i + 1] == b[i + 1]);
            assert(b[i + 1] <= b[seg as int]);
            assert(k < before.trace().len());
            assert(now.trace()[k] == before.trace()[k]);
            assert(pre.ns().push(i as usize).is_prefix_of(before.trace()[k].0));
        } else {
            assert(b2[i] == b[seg as int]);
            assert(b[seg as int] == before.trace().len());
            assert(before.ns().push(seg).is_prefix_of(now.trace()[k].0));
            assert(before.ns() == pre.ns());
        }
    }
    assert(blocks_decompose(pre, now, seg as int + 1, b2));
    b2
}

/// As `lemma_composite_step_scoped`, additionally carrying a common
/// allocation mode for every record the step adds.
pub proof fn lemma_composite_step(
    pre: ConstraintSystem,
    before: ConstraintSystem,
    entered: ConstraintSystem,
    inside: ConstraintSystem,
    now: ConstraintSystem,
    seg: usize,
    n: int,
    mode: AllocationMode,
    b: Seq<int>,
) -> (b2: Seq<int>)
    requires
        extends_with_mode(pre, before, mode),
        records_in_children(pre, before, n),
        blocks_decompose(pre, before, seg as int, b),
        (seg as int) < n,
        entered.ns() == before.ns().push(seg),
        entered.trace() == before.trace(),
        entered.num_constraints() == before.num_constraints(),
        extends_with_mode(entered, inside, mode),
        now.ns() == inside.ns().drop_last(),
        now.trace() == inside.trace(),
        now.num_constraints() == inside.num_constraints(),
    ensures
        extends_with_mode(pre, now, mode),
        records_in_children(pre, now, n),
        blocks_decompose(pre, now, seg as int + 1, b2),
        b2 == b.push(now.trace().len() as int),
{
    let b2 = lemma_composite_step_scoped(pre, before, entered, inside, now, seg, n, b);
    lemma_child_scope_step(before, entered, inside, now, seg, mode);
    lemma_extends_with_mode_trans(pre, before, now, mode);
    b2
}

/// Sibling namespaces never collide: child namespaces derived from distinct
/// positions differ, and so do any two namespace paths lying under them.
/// This holds for every position, so composite calls of any length assign
/// non-colliding namespaces to their elements.
pub proof fn lemma_sibling_namespaces_disjoint(parent: Seq<usize>, i: usize, j: usize)
    requires
        i != j,
    ensures
        parent.push(i) != parent.push(j),
        forall|p: Seq<usize>, q: Seq<usize>|
            parent.push(i).is_prefix_of(p) && parent.push(j).is_prefix_of(q) ==> p != q,
{
    let n = parent.len() as int;
    assert(parent.push(i)[n] == i);
    assert(parent.push(j)[n] == j);
    assert forall|p: Seq<usize>, q: Seq<usize>|
        parent.push(i).is_prefix_of(p) && parent.push(j).is_prefix_of(q) implies p != q by {
        assert(p.subrange(0, n + 1)[n] == p[n]);
        assert(q.subrange(0, n + 1)[n] == q[n]);
        assert(p[n] == i);
        assert(q[n] == j);
    }
}

/// Sibling non-collision applied to a composite outcome: within one
/// composite call, a record in the block of position `i` and a record in
/// the block of a different position `j` carry different namespace paths,
/// whatever the number of elements.
pub proof fn lemma_positional_blocks_disjoint(
    pre: ConstraintSystem,
    post: ConstraintSystem,
    n: int,
    b: Seq<int>,
    i: int,
    j: int,
    ki: int,
    kj: int,
)
    requires
        blocks_decompose(pre, post, n, b),
        n <= usize::MAX as int,
        0 <= i < n,
        0 <= j < n,
        i != j,
        b[i] <= ki < b[i + 1],
        b[j] <= kj < b[j + 1],
    ensures
        post.trace()[ki].0 != post.trace()[kj].0,
{
    assert(b[0] <= b[i]);
    assert(b[i + 1] <= b[n]);
    assert(b[0] <= b[j]);
    assert(b[j + 1] <= b[n]);
    assert(pre.ns().push(i as usize).is_prefix_of(post.trace()[ki].0));
    assert(pre.ns().push(j as usize).is_prefix_of(post.trace()[kj].0));
    lemma_sibling_namespaces_disjoint(pre.ns(), i as usize, j as usize);
}

} // verus!
