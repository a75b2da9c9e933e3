//! The context compiler: consumes a parsed context declaration and emits
//! the concrete container — its checked binding list, the capability
//! provisions indexed by bound value type, a short-circuiting constructor
//! protocol, a duplicate operation, and a substitution operation that
//! rebuilds one binding's slot while leaving every other slot untouched.
//!
//! Two bindings sharing a field name, or binding the same value type (which
//! would make capability provision ambiguous), are hard compile failures.

use vstd::prelude::*;

use crate::decl::{Binding, BindingV, ContextDecl, ContextDeclV};
use crate::{copy_name, name_eq, CompileError, CompileErrorV, ConstructionError, FactoryError};

verus! {

/// A compiled context: its concrete container shape. Field names and bound
/// value types are pairwise distinct.
#[derive(Debug)]
pub struct CompiledContext {
    pub name: Vec<u8>,
    pub bindings: Vec<Binding>,
}

/// Spec-level value of a [`CompiledContext`].
pub ghost struct CompiledContextV {
    pub name: Seq<u8>,
    pub bindings: Seq<BindingV>,
}

impl View for CompiledContext {
    type V = CompiledContextV;

    open spec fn view(&self) -> CompiledContextV {
        CompiledContextV {
            name: self.name@,
            bindings: self.bindings@.map_values(|b: Binding| b@),
        }
    }
}

/// No two bindings share a field name.
pub open spec fn spec_fields_unique(bs: Seq<BindingV>) -> bool {
    forall|i: int, j: int| 0 <= i < j < bs.len() ==> (#[trigger] bs[i]).field != (#[trigger] bs[j]).field
}

/// No two bindings bind the same value type.
pub open spec fn spec_types_unique(bs: Seq<BindingV>) -> bool {
    forall|i: int, j: int| 0 <= i < j < bs.len() ==> (#[trigger] bs[i]).ty != (#[trigger] bs[j]).ty
}

/// The context provides the capability for the value type `ty`.
pub open spec fn spec_provides(c: CompiledContextV, ty: Seq<u8>) -> bool {
    exists|i: int| 0 <= i < c.bindings.len() && (#[trigger] c.bindings[i]).ty == ty
}

/// The slot index of the first binding of value type `ty`, or the number
/// of bindings when no binding has that type.
pub open spec fn spec_slot_of(bs: Seq<BindingV>, ty: Seq<u8>) -> int
    decreases bs.len(),
{
    if bs.len() == 0 {
        0
    } else if bs[0].ty == ty {
        0
    } else {
        1 + spec_slot_of(bs.drop_first(), ty)
    }
}

/// An earlier binding (before `j`) already uses this field name.
pub open spec fn spec_field_in_prefix(bs: Seq<BindingV>, j: int, name: Seq<u8>) -> bool {
    exists|i: int| 0 <= i < j && (#[trigger] bs[i]).field == name
}

/// An earlier binding (before `j`) already binds this value type.
pub open spec fn spec_ty_in_prefix(bs: Seq<BindingV>, j: int, ty: Seq<u8>) -> bool {
    exists|i: int| 0 <= i < j && (#[trigger] bs[i]).ty == ty
}

/// The first binding, scanning in declaration order, that repeats an
/// earlier binding's field name or value type, reported as the matching
/// compile error; `Ok` when the declaration is unambiguous.
pub open spec fn spec_first_issue(bs: Seq<BindingV>, j: int) -> Result<(), CompileErrorV>
    decreases bs.len() - j,
{
    if j >= bs.len() {
        Ok(())
    } else if spec_field_in_prefix(bs, j, bs[j].field) {
        Err(CompileErrorV::DuplicateField { field: bs[j].field })
    } else if spec_ty_in_prefix(bs, j, bs[j].ty) {
        Err(CompileErrorV::AmbiguousType { ty: bs[j].ty })
    } else {
        spec_first_issue(bs, j + 1)
    }
}

/// How a context declaration compiles: its container, or the first
/// duplicate field name or ambiguous value type met in declaration order.
pub open spec fn spec_compile_context(d: ContextDeclV) -> Result<CompiledContextV, CompileErrorV> {
    match spec_first_issue(d.bindings, 0) {
        Err(e) => Err(e),
        Ok(u) => Ok(CompiledContextV { name: d.name, bindings: d.bindings }),
    }
}

/// The binding check succeeds exactly on declarations whose field names
/// and bound value types are each pairwise distinct.
pub proof fn lemma_first_issue_ok(bs: Seq<BindingV>, j: int)
    requires
        0 <= j <= bs.len(),
        forall|i1: int, i2: int|
            0 <= i1 < i2 < j ==> (#[trigger] bs[i1]).field != (#[trigger] bs[i2]).field,
        forall|i1: int, i2: int|
            0 <= i1 < i2 < j ==> (#[trigger] bs[i1]).ty != (#[trigger] bs[i2]).ty,
    ensures
        spec_first_issue(bs, j) is Ok <==> (spec_fields_unique(bs) && spec_types_unique(bs)),
    decreases bs.len() - j,
{
    if j >= bs.len() {
    } else if spec_field_in_prefix(bs, j, bs[j].field) {
        let i = choose|i: int| 0 <= i < j && (#[trigger] bs[i]).field == bs[j].field;
        assert(!spec_fields_unique(bs));
    } else if spec_ty_in_prefix(bs, j, bs[j].ty) {
        let i = choose|i: int| 0 <= i < j && (#[trigger] bs[i]).ty == bs[j].ty;
        assert(!spec_types_unique(bs));
    } else {
        assert forall|i1: int, i2: int| 0 <= i1 < i2 < j + 1 implies (#[trigger] bs[i1]).field != (
        #[trigger] bs[i2]).field by {
            if i2 == j {
                assert(!(0 <= i1 < j && bs[i1].field == bs[j].field));
            }
        }
        assert forall|i1: int, i2: int| 0 <= i1 < i2 < j + 1 implies (#[trigger] bs[i1]).ty != (
        #[trigger] bs[i2]).ty by {
            if i2 == j {
                assert(!(0 <= i1 < j && bs[i1].ty == bs[j].ty));
            }
        }
        lemma_first_issue_ok(bs, j + 1);
    }
}

/// A context declaration compiles exactly when its field names and its
/// bound value types are each pairwise distinct: ambiguity is a hard
/// compile failure, never resolved by picking one binding.
pub proof fn lemma_compile_context_ok(d: ContextDeclV)
    ensures
        spec_compile_context(d) is Ok <==> (spec_fields_unique(d.bindings) && spec_types_unique(
            d.bindings,
        )),
{
    lemma_first_issue_ok(d.bindings, 0);
}

/// Whether an earlier binding (before `j`) already uses this field name.
fn field_in_prefix(bs: &Vec<Binding>, j: usize, name: &Vec<u8>) -> (r: bool)
    requires
        j <= bs@.len(),
    ensures
        r == spec_field_in_prefix(bs@.map_values(|b: Binding| b@), j as int, name@),
{
    let ghost bsv = bs@.map_values(|b: Binding| b@);
    let mut i: usize = 0;
    while i < j
        invariant
            i <= j <= bs@.len(),
            bsv == bs@.map_values(|b: Binding| b@),
            forall|x: int| 0 <= x < i ==> (#[trigger] bsv[x]).field != name@,
        decreases j - i,
    {
        if name_eq(&bs[i].field, name) {
            proof {
                assert(bsv[i as int].field == name@);
            }
            return true;
        }
        i += 1;
    }
    false
}

/// Whether an earlier binding (before `j`) already binds this value type.
fn ty_in_prefix(bs: &Vec<Binding>, j: usize, ty: &Vec<u8>) -> (r: bool)
    requires
        j <= bs@.len(),
    ensures
        r == spec_ty_in_prefix(bs@.map_values(|b: Binding| b@), j as int, ty@),
{
    let ghost bsv = bs@.map_values(|b: Binding| b@);
    let mut i: usize = 0;
    while i < j
        invariant
            i <= j <= bs@.len(),
            bsv == bs@.map_values(|b: Binding| b@),
            forall|x: int| 0 <= x < i ==> (#[trigger] bsv[x]).ty != ty@,
        decreases j - i,
    {
        if name_eq(&bs[i].ty, ty) {
            proof {
                assert(bsv[i as int].ty == ty@);
            }
            return true;
        }
        i += 1;
    }
    false
}

/// Compile a context declaration: reject, in declaration order, the first
/// binding that repeats a field name or binds an already bound value type,
/// and otherwise emit the container unchanged.
pub fn compile_context(d: &ContextDecl) -> (r: Result<CompiledContext, CompileError>)
    ensures
        (match r {
            Ok(c) => spec_compile_context(d@) == Ok::<_, CompileErrorV>(c@),
            Err(e) => spec_compile_context(d@) == Err::<CompiledContextV, _>(e@),
        }),
{
    let ghost bsv = d.bindings@.map_values(|b: Binding| b@);
    let mut j: usize = 0;
    while j < d.bindings.len()
        invariant
            j <= d.bindings@.len(),
            bsv == d.bindings@.map_values(|b: Binding| b@),
            spec_first_issue(bsv, 0) == spec_first_issue(bsv, j as int),
        decreases d.bindings@.len() - j,
    {
        proof {
            assert(bsv[j as int] == d.bindings@[j as int]@);
        }
        if field_in_prefix(&d.bindings, j, &d.bindings[j].field) {
            return Err(CompileError::DuplicateField { field: copy_name(&d.bindings[j].field) });
        }
        if ty_in_prefix(&d.bindings, j, &d.bindings[j].ty) {
            return Err(CompileError::AmbiguousType { ty: copy_name(&d.bindings[j].ty) });
        }
        j += 1;
    }
    let c = CompiledContext {
        name: copy_name(&d.name),
        bindings: copy_bindings(&d.bindings),
    };
    Ok(c)
}

/// The slot index of the first binding of type `ty` is in bounds exactly
/// when some binding has that type, holds that type when in bounds, and no
/// earlier binding has it.
pub proof fn lemma_slot_of(bs: Seq<BindingV>, ty: Seq<u8>)
    ensures
        0 <= spec_slot_of(bs, ty) <= bs.len(),
        spec_slot_of(bs, ty) < bs.len() ==> bs[spec_slot_of(bs, ty)].ty == ty,
        forall|j: int| 0 <= j < spec_slot_of(bs, ty) ==> (#[trigger] bs[j]).ty != ty,
        (spec_slot_of(bs, ty) == bs.len()) <==> !(exists|i: int|
            0 <= i < bs.len() && (#[trigger] bs[i]).ty == ty),
    decreases bs.len(),
{
    if bs.len() == 0 {
    } else if bs[0].ty == ty {
    } else {
        lemma_slot_of(bs.drop_first(), ty);
        let s = spec_slot_of(bs, ty);
        let sd = spec_slot_of(bs.drop_first(), ty);
        assert(s == 1 + sd);
        assert forall|j: int| 0 <= j < s implies (#[trigger] bs[j]).ty != ty by {
            if j > 0 {
                assert(bs.drop_first()[j - 1] == bs[j]);
            }
        }
        if s < bs.len() {
            assert(bs.drop_first()[sd] == bs[s]);
        } else {
            assert forall|i: int| 0 <= i < bs.len() implies (#[trigger] bs[i]).ty != ty by {
                if i > 0 {
                    assert(bs.drop_first()[i - 1] == bs[i]);
                }
            }
        }
    }
}

/// A constructed container: one built value per binding of its compiled
/// context.
#[derive(Debug)]
pub struct Instance<V> {
    pub context: CompiledContext,
    pub values: Vec<V>,
}

impl<V> Instance<V> {
    /// Well-formed: exactly one value per binding.
    pub open spec fn wf(&self) -> bool {
        self.values@.len() == self.context@.bindings.len()
    }

    /// The capability `Provide<ty>`: hand out the value bound at type
    /// `ty`, or `None` when the context does not provide that type.
    pub fn get<'a>(&'a self, ty: &Vec<u8>) -> (r: Option<&'a V>)
        requires
            self.wf(),
        ensures
            (match r {
                Some(v) => spec_provides(self.context@, ty@) && *v == self.values@[spec_slot_of(
                    self.context@.bindings,
                    ty@,
                )],
                None => !spec_provides(self.context@, ty@),
            }),
    {
        let ghost bsv = self.context@.bindings;
        let mut i: usize = 0;
        while i < self.context.bindings.len()
            invariant
                self.wf(),
                bsv == self.context@.bindings,
                i <= self.context.bindings@.len(),
                forall|j: int| 0 <= j < i ==> (#[trigger] bsv[j]).ty != ty@,
            decreases self.context.bindings@.len() - i,
        {
            proof {
                lemma_slot_of(bsv, ty@);
            }
            if name_eq(&self.context.bindings[i].ty, ty) {
                proof {
                    assert(bsv[i as int].ty == ty@);
                    let s = spec_slot_of(bsv, ty@);
                    if s < i as int {
                        assert(bsv[s].ty == ty@);
                        assert(false);
                    }
                    if s > i as int {
                        assert(bsv[i as int].ty != ty@);
                        assert(false);
                    }
                }
                return Some(&self.values[i]);
            }
            i += 1;
        }
        proof {
            if spec_provides(self.context@, ty@) {
                let w = choose|w: int| 0 <= w < bsv.len() && (#[trigger] bsv[w]).ty == ty@;
                assert(false);
            }
        }
        None
    }

    /// The slot index of the binding of type `ty`.
    pub fn slot_of(&self, ty: &Vec<u8>) -> (i: usize)
        requires
            self.wf(),
            spec_provides(self.context@, ty@),
        ensures
            i as int == spec_slot_of(self.context@.bindings, ty@),
            i < self.values@.len(),
    {
        let ghost bsv = self.context@.bindings;
        let mut i: usize = 0;
        while i < self.context.bindings.len()
            invariant
                self.wf(),
                bsv == self.context@.bindings,
                i <= self.context.bindings@.len(),
                forall|j: int| 0 <= j < i ==> (#[trigger] bsv[j]).ty != ty@,
            decreases self.context.bindings@.len() - i,
        {
            proof {
                lemma_slot_of(bsv, ty@);
            }
            if name_eq(&self.context.bindings[i].ty, ty) {
                proof {
                    assert(bsv[i as int].ty == ty@);
                    let s = spec_slot_of(bsv, ty@);
                    if s < i as int {
                        assert(bsv[s].ty == ty@);
                        assert(false);
                    }
                    if s > i as int {
                        assert(bsv[i as int].ty != ty@);
                        assert(false);
                    }
                }
                return i;
            }
            i += 1;
        }
        proof {
            let w = choose|w: int| 0 <= w < bsv.len() && (#[trigger] bsv[w]).ty == ty@;
            assert(false);
        }
        vstd::pervasive::unreached()
    }

    /// The capability `Provide<ty>` where the context is known to provide
    /// `ty`: the handed-out value is exactly the one built for that slot.
    pub fn provide<'a>(&'a self, ty: &Vec<u8>) -> (r: &'a V)
        requires
            self.wf(),
            spec_provides(self.context@, ty@),
        ensures
            *r == self.values@[spec_slot_of(self.context@.bindings, ty@)],
    {
        let i = self.slot_of(ty);
        &self.values[i]
    }
}

impl<V: Copy> Instance<V> {
    /// The copy operation: a shallow duplicate sharing each slot's value.
    pub fn duplicate(&self) -> (r: Instance<V>)
        ensures
            r.context@ == self.context@,
            r.values@ == self.values@,
    {
        let mut vals: Vec<V> = Vec::new();
        let mut i: usize = 0;
        while i < self.values.len()
            invariant
                i <= self.values@.len(),
                vals@ == self.values@.subrange(0, i as int),
            decreases self.values@.len() - i,
        {
            vals.push(self.values[i]);
            proof {
                assert(vals@ =~= self.values@.subrange(0, i + 1));
            }
            i += 1;
        }
        proof {
            assert(vals@ =~= self.values@);
        }
        let ctx = CompiledContext {
            name: copy_name(&self.context.name),
            bindings: copy_bindings(&self.context.bindings),
        };
        Instance { context: ctx, values: vals }
    }

    /// The capability `ProvideWith<ty>`: a substituted copy whose `ty`
    /// slot is rebuilt from the replacement strategy's outcome, every
    /// other slot left exactly as in the original; a failed replacement
    /// is wrapped with the substituted binding's field name. The original
    /// container is not touched.
    pub fn substitute(&self, ty: &Vec<u8>, replacement: Result<V, FactoryError>) -> (r: Result<
        Instance<V>,
        ConstructionError,
    >)
        requires
            self.wf(),
            spec_provides(self.context@, ty@),
        ensures
            (match r {
                Ok(inst) => {
                    &&& replacement is Ok
                    &&& inst.context@ == self.context@
                    &&& inst.values@.len() == self.values@.len()
                    &&& inst.values@[spec_slot_of(self.context@.bindings, ty@)]
                        == replacement->Ok_0
                    &&& forall|j: int|
                        0 <= j < self.values@.len() && j != spec_slot_of(
                            self.context@.bindings,
                            ty@,
                        ) ==> inst.values@[j] == self.values@[j]
                },
                Err(e) => {
                    &&& replacement is Err
                    &&& e.field@ == self.context@.bindings[spec_slot_of(
                        self.context@.bindings,
                        ty@,
                    )].field
                    &&& e.message@ == replacement->Err_0.message@
                },
            }),
    {
        let slot = self.slot_of(ty);
        match replacement {
            Err(m) => {
                proof {
                    assert(self.context@.bindings[slot as int]
                        == self.context.bindings@[slot as int]@);
                }
                Err(
                    ConstructionError {
                        field: copy_name(&self.context.bindings[slot].field),
                        message: m.message,
                    },
                )
            },
            Ok(v) => {
                let mut copy = self.duplicate();
                copy.values[slot] = v;
                Ok(copy)
            },
        }
    }
}

/// The index of the first failed outcome, or the number of outcomes when
/// every strategy succeeded.
pub open spec fn spec_fail_idx<V>(outs: Seq<Result<V, FactoryError>>) -> int
    decreases outs.len(),
{
    if outs.len() == 0 {
        0
    } else if outs[0] is Err {
        0
    } else {
        1 + spec_fail_idx(outs.drop_first())
    }
}

/// The first failed outcome is in bounds exactly when some outcome
/// failed, fails when in bounds, and every earlier outcome succeeded.
pub proof fn lemma_fail_idx<V>(outs: Seq<Result<V, FactoryError>>)
    ensures
        0 <= spec_fail_idx(outs) <= outs.len(),
        spec_fail_idx(outs) < outs.len() ==> outs[spec_fail_idx(outs)] is Err,
        forall|j: int| 0 <= j < spec_fail_idx(outs) ==> (#[trigger] outs[j]) is Ok,
        (spec_fail_idx(outs) == outs.len()) <==> (forall|j: int|
            0 <= j < outs.len() ==> (#[trigger] outs[j]) is Ok),
    decreases outs.len(),
{
    if outs.len() == 0 {
    } else if outs[0] is Err {
    } else {
        lemma_fail_idx(outs.drop_first());
        let f = spec_fail_idx(outs);
        let fd = spec_fail_idx(outs.drop_first());
        assert(f == 1 + fd);
        assert forall|j: int| 0 <= j < f implies (#[trigger] outs[j]) is Ok by {
            if j > 0 {
                assert(outs.drop_first()[j - 1] == outs[j]);
            }
        }
        if f < outs.len() {
            assert(outs.drop_first()[fd] == outs[f]);
        } else {
            assert forall|j: int| 0 <= j < outs.len() implies (#[trigger] outs[j]) is Ok by {
                if j > 0 {
                    assert(outs.drop_first()[j - 1] == outs[j]);
                }
            }
        }
    }
}

/// Construction short-circuits: where every strategy before the `j`-th
/// succeeds and the `j`-th fails, the `j`-th failure is the one reported —
/// exactly `j + 1` strategies are attempted and no later binding's
/// strategy runs.
pub proof fn lemma_construction_short_circuit<V>(outs: Seq<Result<V, FactoryError>>, j: int)
    requires
        0 <= j < outs.len(),
        outs[j] is Err,
        forall|i: int| 0 <= i < j ==> (#[trigger] outs[i]) is Ok,
    ensures
        spec_fail_idx(outs) == j,
{
    lemma_fail_idx(outs);
    let f = spec_fail_idx(outs);
    if f < j {
        assert(outs[f] is Err);
        assert(false);
    }
    if f > j {
        assert(outs[j] is Ok);
        assert(false);
    }
}

/// The construction protocol of one context, one strategy outcome at a
/// time: the caller runs the binding's factory that `next_binding` names
/// and hands back what it produced. After a failure no further strategy is
/// requested.
pub struct ContextBuilder<V> {
    pub context: CompiledContext,
    pub values: Vec<V>,
    pub failure: Option<ConstructionError>,
}

impl<V> ContextBuilder<V> {
    /// Well-formed: at most one value per binding.
    pub open spec fn wf(&self) -> bool {
        self.values@.len() <= self.context@.bindings.len()
    }

    /// Construction still has a strategy to run.
    pub open spec fn in_progress(&self) -> bool {
        self.failure is None && self.values@.len() < self.context@.bindings.len()
    }

    /// Every binding's strategy succeeded.
    pub open spec fn done(&self) -> bool {
        self.failure is None && self.values@.len() == self.context@.bindings.len()
    }

    /// Begin constructing an instance of the compiled context.
    pub fn start(context: CompiledContext) -> (b: ContextBuilder<V>)
        ensures
            b.context@ == context@,
            b.values@.len() == 0,
            b.failure is None,
    {
        ContextBuilder { context, values: Vec::new(), failure: None }
    }

    /// The binding whose construction strategy must run next, in
    /// declaration order; `None` once every binding is built or a strategy
    /// has failed — after a failure no further strategy is attempted.
    pub fn next_binding(&self) -> (r: Option<&Binding>)
        requires
            self.wf(),
        ensures
            (match r {
                Some(b) => self.in_progress() && b@ == self.context@.bindings[self.values@.len() as int],
                None => !self.in_progress(),
            }),
    {
        if self.failure.is_some() {
            return None;
        }
        if self.values.len() < self.context.bindings.len() {
            proof {
                assert(self.context.bindings@[self.values@.len() as int]@
                    == self.context@.bindings[self.values@.len() as int]);
            }
            Some(&self.context.bindings[self.values.len()])
        } else {
            None
        }
    }

    /// Record what the next binding's strategy produced: a built value
    /// fills the binding's slot; a failure is wrapped with the binding's
    /// field name and halts construction.
    pub fn supply(&mut self, outcome: Result<V, FactoryError>)
        requires
            old(self).wf(),
            old(self).in_progress(),
        ensures
            final(self).wf(),
            final(self).context@ == old(self).context@,
            (match outcome {
                Ok(v) => {
                    &&& final(self).values@ == old(self).values@.push(v)
                    &&& final(self).failure is None
                },
                Err(m) => {
                    &&& final(self).values@ == old(self).values@
                    &&& final(self).failure matches Some(e) && e.field@ == old(
                        self,
                    ).context@.bindings[old(self).values@.len() as int].field && e.message@
                        == m.message@
                },
            }),
    {
        match outcome {
            Ok(v) => {
                self.values.push(v);
            },
            Err(m) => {
                let idx = self.values.len();
                proof {
                    assert(self.context.bindings@[idx as int]@
                        == self.context@.bindings[idx as int]);
                }
                self.failure = Some(
                    ConstructionError {
                        field: copy_name(&self.context.bindings[idx].field),
                        message: m.message,
                    },
                );
            },
        }
    }

    /// Close the construction: the assembled instance when every strategy
    /// succeeded, else the recorded failure. No partial container is ever
    /// handed out.
    pub fn finish(self) -> (r: Result<Instance<V>, ConstructionError>)
        requires
            self.wf(),
            !self.in_progress(),
        ensures
            (match r {
                Ok(inst) => {
                    &&& self.done()
                    &&& inst.context@ == self.context@
                    &&& inst.values@ == self.values@
                },
                Err(e) => {
                    &&& self.failure matches Some(e0) && e0.field@ == e.field@ && e0.message@
                        == e.message@
                },
            }),
    {
        match self.failure {
            Some(e) => Err(e),
            None => Ok(Instance { context: self.context, values: self.values }),
        }
    }
}

/// Run a whole construction in declaration order: `outcomes[i]` is what
/// the `i`-th binding's strategy produced. Returns the construction result
/// together with how many strategies were attempted: construction
/// short-circuits at the first failure, whose error carries the failing
/// binding's field name, and no later outcome is read.
pub fn construct<V>(context: CompiledContext, outcomes: Vec<Result<V, FactoryError>>) -> (r: (
    Result<Instance<V>, ConstructionError>,
    usize,
))
    requires
        outcomes@.len() == context@.bindings.len(),
    ensures
        r.1 as int == (if spec_fail_idx(outcomes@) < outcomes@.len() {
            spec_fail_idx(outcomes@) + 1
        } else {
            outcomes@.len() as int
        }),
        (match r.0 {
            Ok(inst) => {
                &&& spec_fail_idx(outcomes@) == outcomes@.len()
                &&& inst.context@ == context@
                &&& inst.values@.len() == outcomes@.len()
                &&& forall|i: int|
                    0 <= i < outcomes@.len() ==> inst.values@[i] == (#[trigger] outcomes@[i])->Ok_0
            },
            Err(e) => {
                &&& spec_fail_idx(outcomes@) < outcomes@.len()
                &&& e.field@ == context@.bindings[spec_fail_idx(outcomes@)].field
                &&& e.message@ == outcomes@[spec_fail_idx(outcomes@)]->Err_0.message@
            },
        }),
{
    let ghost outsv = outcomes@;
    let ghost ctxv = context@;
    let n = outcomes.len();
    let mut rest = outcomes;
    let mut b: ContextBuilder<V> = ContextBuilder::start(context);
    let mut i: usize = 0;
    let mut failed: bool = false;
    proof {
        assert(outsv.skip(0) =~= outsv);
        lemma_fail_idx(outsv);
    }
    while i < n && !failed
        invariant
            i <= n,
            n == outsv.len(),
            outsv.len() == ctxv.bindings.len(),
            b.wf(),
            b.context@ == ctxv,
            rest@ == outsv.skip(i as int),
            failed == (b.failure is Some),
            !failed ==> {
                &&& b.values@.len() == i
                &&& forall|j: int|
                    0 <= j < i ==> (#[trigger] outsv[j]) is Ok && b.values@[j] == outsv[j]->Ok_0
                &&& spec_fail_idx(outsv) >= i
            },
            failed ==> {
                &&& spec_fail_idx(outsv) == i - 1
                &&& b.failure matches Some(e) && e.field@ == ctxv.bindings[i - 1].field
                    && e.message@ == outsv[i - 1]->Err_0.message@
            },
        decreases n - i,
    {
        proof {
            lemma_fail_idx(outsv);
            assert(rest@[0] == outsv[i as int]);
        }
        let out = rest.remove(0);
        proof {
            assert(rest@ =~= outsv.skip(i as int + 1));
        }
        let bad = out.is_err();
        let ghost bpre = b.values@;
        b.supply(out);
        proof {
            if bad {
                assert(outsv[i as int] is Err);
                if spec_fail_idx(outsv) < i as int {
                    assert(outsv[spec_fail_idx(outsv)] is Err);
                    assert(false);
                }
                if spec_fail_idx(outsv) > i as int {
                    assert(outsv[i as int] is Ok);
                    assert(false);
                }
            } else {
                if spec_fail_idx(outsv) == i as int {
                    assert(outsv[i as int] is Err);
                    assert(false);
                }
            }
        }
        failed = bad;
        i += 1;
    }
    proof {
        lemma_fail_idx(outsv);
        if !failed {
            assert(i == n);
            if spec_fail_idx(outsv) < outsv.len() {
                assert(outsv[spec_fail_idx(outsv)] is Err);
                assert(false);
            }
        }
    }
    let res = b.finish();
    (res, i)
}

/// An independent copy of a binding list.
fn copy_bindings(a: &Vec<Binding>) -> (r: Vec<Binding>)
    ensures
        r@.map_values(|b: Binding| b@) == a@.map_values(|b: Binding| b@),
{
    let mut r: Vec<Binding> = Vec::new();
    let mut i: usize = 0;
    while i < a.len()
        invariant
            i <= a@.len(),
            r@.map_values(|b: Binding| b@) == a@.subrange(0, i as int).map_values(
                |b: Binding| b@,
            ),
        decreases a@.len() - i,
    {
        let ghost rpre = r@;
        let b = &a[i];
        let strategy = match &b.strategy {
            crate::decl::Strategy::Build { factory } => crate::decl::Strategy::Build {
                factory: copy_name(factory),
            },
            crate::decl::Strategy::BuildWith { factory, context } => {
                crate::decl::Strategy::BuildWith {
                    factory: copy_name(factory),
                    context: copy_name(context),
                }
            },
        };
        let item = Binding { field: copy_name(&b.field), ty: copy_name(&b.ty), strategy };
        proof {
            assert(item@ == a@[i as int]@);
        }
        r.push(item);
        proof {
            assert(r@.map_values(|b: Binding| b@) =~= rpre.map_values(|b: Binding| b@).push(
                item@,
            ));
            assert(a@.subrange(0, i + 1).map_values(|b: Binding| b@) =~= a@.subrange(
                0,
                i as int,
            ).map_values(|b: Binding| b@).push(item@));
        }
        i += 1;
    }
    proof {
        assert(a@.subrange(0, a@.len() as int) =~= a@);
    }
    r
}

} // verus!
