//! The interface compiler: consumes a parsed interface declaration and
//! emits its capability descriptor — the flattened requirement set closed
//! over inheritance — together with the markers it carries.
//!
//! Inherited interfaces are processed in declaration order and must each
//! resolve to a previously compiled interface; an unresolved name is a
//! compile failure. A name collision between two requirement sets is
//! tolerated only when both agree on the return capability type; a
//! collision with incompatible meaning is a conflict error, never resolved
//! by last-write-wins.

use vstd::prelude::*;

use crate::context::{spec_provides, spec_slot_of, CompiledContext, CompiledContextV, Instance};
use crate::decl::{InterfaceDecl, MethodReq, MethodReqV};
use crate::{contains_name, copy_name, copy_names, name_eq, CompileError, CompileErrorV};

verus! {

/// A compiled interface: its abstract capability descriptor. The
/// requirement set is flattened over the whole inheritance closure and
/// holds no two entries with the same accessor name; the marker set is
/// flattened the same way, each requested auxiliary capability name kept
/// once in first-occurrence order.
#[derive(Debug)]
pub struct CompiledInterface {
    pub name: Vec<u8>,
    pub inherits: Vec<Vec<u8>>,
    pub requirements: Vec<MethodReq>,
    pub markers: Vec<Vec<u8>>,
}

/// Spec-level value of a [`CompiledInterface`].
pub ghost struct CompiledInterfaceV {
    pub name: Seq<u8>,
    pub inherits: Seq<Seq<u8>>,
    pub requirements: Seq<MethodReqV>,
    pub markers: Seq<Seq<u8>>,
}

impl View for CompiledInterface {
    type V = CompiledInterfaceV;

    open spec fn view(&self) -> CompiledInterfaceV {
        CompiledInterfaceV {
            name: self.name@,
            inherits: self.inherits@.map_values(|n: Vec<u8>| n@),
            requirements: self.requirements@.map_values(|m: MethodReq| m@),
            markers: self.markers@.map_values(|n: Vec<u8>| n@),
        }
    }
}

impl CompiledInterface {
    /// Whether this descriptor carries the named marker supertrait,
    /// requested by its own declaration or by an inherited interface.
    pub fn requires_marker(&self, name: &Vec<u8>) -> (r: bool)
        ensures
            r == self@.markers.contains(name@),
    {
        contains_name(&self.markers, name)
    }
}

/// Merge marker names into `acc`, left to right, keeping the first
/// occurrence of each name.
pub open spec fn spec_merge_names(acc: Seq<Seq<u8>>, more: Seq<Seq<u8>>) -> Seq<Seq<u8>>
    decreases more.len(),
{
    if more.len() == 0 {
        acc
    } else if acc.contains(more[0]) {
        spec_merge_names(acc, more.drop_first())
    } else {
        spec_merge_names(acc.push(more[0]), more.drop_first())
    }
}

/// Whether the requirement set `s` holds exactly the accessor `m`.
pub open spec fn spec_contains_method(s: Seq<MethodReqV>, m: MethodReqV) -> bool {
    exists|i: int| 0 <= i < s.len() && s[i] == m
}

/// Whether the requirement set `s` holds an accessor named like `m` with a
/// different return capability type: an incompatible meaning.
pub open spec fn spec_conflicts_with(s: Seq<MethodReqV>, m: MethodReqV) -> bool {
    exists|i: int| 0 <= i < s.len() && s[i].name == m.name && s[i].ret != m.ret
}

/// Merge the requirement set `more` into `acc`, left to right: an accessor
/// already present identically is kept once, one with an incompatible
/// meaning is a conflict reported by its name.
pub open spec fn spec_merge(acc: Seq<MethodReqV>, more: Seq<MethodReqV>) -> Result<
    Seq<MethodReqV>,
    Seq<u8>,
>
    decreases more.len(),
{
    if more.len() == 0 {
        Ok(acc)
    } else {
        let m = more[0];
        if spec_conflicts_with(acc, m) {
            Err(m.name)
        } else if spec_contains_method(acc, m) {
            spec_merge(acc, more.drop_first())
        } else {
            spec_merge(acc.push(m), more.drop_first())
        }
    }
}

/// The first compiled interface of that name, if any.
pub open spec fn spec_lookup(env: Seq<CompiledInterfaceV>, name: Seq<u8>) -> Option<
    CompiledInterfaceV,
>
    decreases env.len(),
{
    if env.len() == 0 {
        None
    } else if env[0].name == name {
        Some(env[0])
    } else {
        spec_lookup(env.drop_first(), name)
    }
}

/// Fold the inherited interfaces' requirement sets into `acc`, in
/// declaration order, accumulating the marker names that any inherited
/// interface carries.
pub open spec fn spec_flatten_parents(
    env: Seq<CompiledInterfaceV>,
    parents: Seq<Seq<u8>>,
    acc: Seq<MethodReqV>,
    marker_acc: Seq<Seq<u8>>,
) -> Result<(Seq<MethodReqV>, Seq<Seq<u8>>), CompileErrorV>
    decreases parents.len(),
{
    if parents.len() == 0 {
        Ok((acc, marker_acc))
    } else {
        match spec_lookup(env, parents[0]) {
            None => Err(CompileErrorV::UnresolvedReference { name: parents[0] }),
            Some(p) => match spec_merge(acc, p.requirements) {
                Err(n) => Err(CompileErrorV::Conflict { accessor: n }),
                Ok(acc2) => spec_flatten_parents(
                    env,
                    parents.drop_first(),
                    acc2,
                    spec_merge_names(marker_acc, p.markers),
                ),
            },
        }
    }
}

/// How an interface declaration compiles against the already compiled
/// environment: its flattened requirement and marker sets, or the first
/// unresolved reference or accessor conflict met.
pub open spec fn spec_compile_interface(
    env: Seq<CompiledInterfaceV>,
    d: crate::decl::InterfaceDeclV,
) -> Result<CompiledInterfaceV, CompileErrorV> {
    let base = spec_merge_names(Seq::empty(), d.markers);
    match spec_flatten_parents(env, d.inherits, Seq::empty(), base) {
        Err(e) => Err(e),
        Ok(t) => match spec_merge(t.0, d.methods) {
            Err(n) => Err(CompileErrorV::Conflict { accessor: n }),
            Ok(reqs) => Ok(
                CompiledInterfaceV {
                    name: d.name,
                    inherits: d.inherits,
                    requirements: reqs,
                    markers: t.1,
                },
            ),
        },
    }
}

/// Whether the requirement set `s` holds exactly the accessor `m`.
pub fn contains_method(acc: &Vec<MethodReq>, m: &MethodReq) -> (r: bool)
    ensures
        r == spec_contains_method(acc@.map_values(|x: MethodReq| x@), m@),
{
    let ghost accv = acc@.map_values(|x: MethodReq| x@);
    let mut i: usize = 0;
    while i < acc.len()
        invariant
            i <= acc@.len(),
            accv == acc@.map_values(|x: MethodReq| x@),
            forall|j: int| 0 <= j < i ==> accv[j] != m@,
        decreases acc@.len() - i,
    {
        if name_eq(&acc[i].name, &m.name) && name_eq(&acc[i].ret, &m.ret) {
            proof {
                assert(accv[i as int] == m@);
            }
            return true;
        }
        i += 1;
    }
    false
}

/// Whether the requirement set `s` holds an accessor named like `m` with a
/// different return capability type.
pub fn conflicts_with(acc: &Vec<MethodReq>, m: &MethodReq) -> (r: bool)
    ensures
        r == spec_conflicts_with(acc@.map_values(|x: MethodReq| x@), m@),
{
    let ghost accv = acc@.map_values(|x: MethodReq| x@);
    let mut i: usize = 0;
    while i < acc.len()
        invariant
            i <= acc@.len(),
            accv == acc@.map_values(|x: MethodReq| x@),
            forall|j: int|
                0 <= j < i ==> !((#[trigger] accv[j]).name == m@.name && accv[j].ret != m@.ret),
        decreases acc@.len() - i,
    {
        if name_eq(&acc[i].name, &m.name) && !name_eq(&acc[i].ret, &m.ret) {
            proof {
                assert(accv[i as int].name == m@.name && accv[i as int].ret != m@.ret);
            }
            return true;
        }
        i += 1;
    }
    false
}

/// Merge the requirement set `more` into `acc`, left to right.
pub fn merge_methods(acc: Vec<MethodReq>, more: &Vec<MethodReq>) -> (r: Result<
    Vec<MethodReq>,
    Vec<u8>,
>)
    ensures
        (match r {
            Ok(out) => spec_merge(
                acc@.map_values(|x: MethodReq| x@),
                more@.map_values(|x: MethodReq| x@),
            ) == Ok::<_, Seq<u8>>(out@.map_values(|x: MethodReq| x@)),
            Err(n) => spec_merge(
                acc@.map_values(|x: MethodReq| x@),
                more@.map_values(|x: MethodReq| x@),
            ) == Err::<Seq<MethodReqV>, _>(n@),
        }),
{
    let ghost acc0 = acc@.map_values(|x: MethodReq| x@);
    let ghost morev = more@.map_values(|x: MethodReq| x@);
    let mut cur = acc;
    let mut k: usize = 0;
    proof {
        assert(morev.skip(0) =~= morev);
    }
    while k < more.len()
        invariant
            k <= more@.len(),
            morev == more@.map_values(|x: MethodReq| x@),
            acc0 == acc@.map_values(|x: MethodReq| x@),
            spec_merge(acc0, morev) == spec_merge(
                cur@.map_values(|x: MethodReq| x@),
                morev.skip(k as int),
            ),
        decreases more@.len() - k,
    {
        let ghost curv = cur@.map_values(|x: MethodReq| x@);
        proof {
            assert(morev.skip(k as int).len() > 0);
            assert(morev.skip(k as int)[0] == morev[k as int]);
            assert(morev.skip(k as int).drop_first() =~= morev.skip(k as int + 1));
        }
        let m = &more[k];
        proof {
            assert(morev[k as int] == m@);
        }
        if conflicts_with(&cur, m) {
            proof {
                assert(spec_merge(cur@.map_values(|x: MethodReq| x@), morev.skip(k as int))
                    == Err::<Seq<MethodReqV>, _>(m@.name));
                assert(spec_merge(acc0, morev) == Err::<Seq<MethodReqV>, _>(m@.name));
            }
            return Err(copy_name(&m.name));
        }
        if !contains_method(&cur, m) {
            let item = MethodReq { name: copy_name(&m.name), ret: copy_name(&m.ret) };
            proof {
                assert(item@ == m@);
            }
            cur.push(item);
            proof {
                assert(cur@.map_values(|x: MethodReq| x@) =~= curv.push(m@));
            }
        }
        k += 1;
    }
    proof {
        assert(morev.skip(more@.len() as int) =~= Seq::<MethodReqV>::empty());
    }
    Ok(cur)
}

/// The first compiled interface of that name in the environment, if any.
pub fn lookup_interface<'a>(env: &'a Vec<CompiledInterface>, name: &Vec<u8>) -> (r: Option<
    &'a CompiledInterface,
>)
    ensures
        (match r {
            Some(ci) => spec_lookup(env@.map_values(|c: CompiledInterface| c@), name@)
                == Some(ci@),
            None => spec_lookup(env@.map_values(|c: CompiledInterface| c@), name@) is None,
        }),
{
    let ghost envv = env@.map_values(|c: CompiledInterface| c@);
    let mut k: usize = 0;
    proof {
        assert(envv.skip(0) =~= envv);
    }
    while k < env.len()
        invariant
            k <= env@.len(),
            envv == env@.map_values(|c: CompiledInterface| c@),
            spec_lookup(envv, name@) == spec_lookup(envv.skip(k as int), name@),
        decreases env@.len() - k,
    {
        proof {
            assert(envv.skip(k as int)[0] == envv[k as int]);
            assert(envv.skip(k as int).drop_first() =~= envv.skip(k as int + 1));
        }
        if name_eq(&env[k].name, name) {
            return Some(&env[k]);
        }
        k += 1;
    }
    proof {
        assert(envv.skip(env@.len() as int) =~= Seq::<CompiledInterfaceV>::empty());
    }
    None
}

/// Compile an interface declaration against the already compiled
/// environment: resolve each inherited interface in declaration order,
/// flatten their requirement sets together with the declaration's own
/// accessors, and carry along every marker capability requested here or
/// by an inherited interface. The first unresolved reference or
/// incompatible accessor collision is the error.
pub fn compile_interface(env: &Vec<CompiledInterface>, d: &InterfaceDecl) -> (r: Result<
    CompiledInterface,
    CompileError,
>)
    ensures
        (match r {
            Ok(ci) => spec_compile_interface(env@.map_values(|c: CompiledInterface| c@), d@)
                == Ok::<_, CompileErrorV>(ci@),
            Err(e) => spec_compile_interface(env@.map_values(|c: CompiledInterface| c@), d@)
                == Err::<CompiledInterfaceV, _>(e@),
        }),
{
    let ghost envv = env@.map_values(|c: CompiledInterface| c@);
    let ghost parentsv = d.inherits@.map_values(|n: Vec<u8>| n@);
    let none: Vec<Vec<u8>> = Vec::new();
    proof {
        assert(none@.map_values(|n: Vec<u8>| n@) =~= Seq::<Seq<u8>>::empty());
    }
    let mut markers = merge_names(none, &d.markers);
    let ghost basev = spec_merge_names(Seq::empty(), d@.markers);
    let mut acc: Vec<MethodReq> = Vec::new();
    let mut k: usize = 0;
    proof {
        assert(parentsv.skip(0) =~= parentsv);
        assert(acc@.map_values(|x: MethodReq| x@) =~= Seq::<MethodReqV>::empty());
    }
    while k < d.inherits.len()
        invariant
            k <= d.inherits@.len(),
            envv == env@.map_values(|c: CompiledInterface| c@),
            parentsv == d.inherits@.map_values(|n: Vec<u8>| n@),
            basev == spec_merge_names(Seq::empty(), d@.markers),
            spec_flatten_parents(envv, parentsv, Seq::empty(), basev) == spec_flatten_parents(
                envv,
                parentsv.skip(k as int),
                acc@.map_values(|x: MethodReq| x@),
                markers@.map_values(|n: Vec<u8>| n@),
            ),
        decreases d.inherits@.len() - k,
    {
        proof {
            assert(parentsv.skip(k as int)[0] == parentsv[k as int]);
            assert(parentsv.skip(k as int).drop_first() =~= parentsv.skip(k as int + 1));
        }
        let ghost accv = acc@.map_values(|x: MethodReq| x@);
        let ghost markers_pre = markers@.map_values(|n: Vec<u8>| n@);
        proof {
            assert(parentsv[k as int] == d.inherits@[k as int]@);
        }
        let p = match lookup_interface(env, &d.inherits[k]) {
            None => {
                proof {
                    assert(spec_compile_interface(env@.map_values(|c: CompiledInterface| c@), d@)
                        == Err::<CompiledInterfaceV, _>(
                        CompileErrorV::UnresolvedReference { name: parentsv[k as int] },
                    ));
                }
                return Err(CompileError::UnresolvedReference { name: copy_name(&d.inherits[k]) });
            },
            Some(p) => p,
        };
        let ghost pv = p@;
        let preqs = copy_methods(&p.requirements);
        acc = match merge_methods(acc, &preqs) {
            Err(n) => {
                proof {
                    assert(spec_merge(accv, pv.requirements) == Err::<Seq<MethodReqV>, _>(n@));
                    assert(spec_flatten_parents(envv, parentsv.skip(k as int), accv, markers_pre)
                        == Err::<(Seq<MethodReqV>, Seq<Seq<u8>>), _>(
                        CompileErrorV::Conflict { accessor: n@ },
                    ));
                }
                proof {
                    assert(spec_compile_interface(env@.map_values(|c: CompiledInterface| c@), d@)
                        == Err::<CompiledInterfaceV, _>(CompileErrorV::Conflict { accessor: n@ }));
                }
                return Err(CompileError::Conflict { accessor: n });
            },
            Ok(acc2) => acc2,
        };
        markers = merge_names(markers, &p.markers);
        proof {
            assert(spec_merge(accv, pv.requirements) == Ok::<_, Seq<u8>>(
                acc@.map_values(|x: MethodReq| x@),
            ));
            assert(markers@.map_values(|n: Vec<u8>| n@) == spec_merge_names(
                markers_pre,
                pv.markers,
            ));
            assert(spec_flatten_parents(envv, parentsv.skip(k as int), accv, markers_pre)
                == spec_flatten_parents(
                envv,
                parentsv.skip(k as int + 1),
                acc@.map_values(|x: MethodReq| x@),
                markers@.map_values(|n: Vec<u8>| n@),
            ));
        }
        k += 1;
    }
    proof {
        assert(parentsv.skip(d.inherits@.len() as int) =~= Seq::<Seq<u8>>::empty());
    }
    let ghost accv_fin = acc@.map_values(|x: MethodReq| x@);
    let ghost markersv_fin = markers@.map_values(|n: Vec<u8>| n@);
    proof {
        assert(spec_flatten_parents(envv, parentsv, Seq::empty(), basev) == Ok::<
            _,
            CompileErrorV,
        >((accv_fin, markersv_fin)));
        assert(d@.methods == d.methods@.map_values(|x: MethodReq| x@));
    }
    let reqs = match merge_methods(acc, &d.methods) {
        Err(n) => {
            return Err(CompileError::Conflict { accessor: n });
        },
        Ok(reqs) => reqs,
    };
    let ci = CompiledInterface {
        name: copy_name(&d.name),
        inherits: copy_names(&d.inherits),
        requirements: reqs,
        markers,
    };
    Ok(ci)
}

/// Merge marker names into the accumulator, left to right, without
/// duplicates.
fn merge_names(acc: Vec<Vec<u8>>, more: &Vec<Vec<u8>>) -> (r: Vec<Vec<u8>>)
    ensures
        r@.map_values(|n: Vec<u8>| n@) == spec_merge_names(
            acc@.map_values(|n: Vec<u8>| n@),
            more@.map_values(|n: Vec<u8>| n@),
        ),
{
    let ghost acc0 = acc@.map_values(|n: Vec<u8>| n@);
    let ghost morev = more@.map_values(|n: Vec<u8>| n@);
    let mut cur = acc;
    let mut k: usize = 0;
    proof {
        assert(morev.skip(0) =~= morev);
    }
    while k < more.len()
        invariant
            k <= more@.len(),
            morev == more@.map_values(|n: Vec<u8>| n@),
            acc0 == acc@.map_values(|n: Vec<u8>| n@),
            spec_merge_names(acc0, morev) == spec_merge_names(
                cur@.map_values(|n: Vec<u8>| n@),
                morev.skip(k as int),
            ),
        decreases more@.len() - k,
    {
        let ghost curv = cur@.map_values(|n: Vec<u8>| n@);
        proof {
            assert(morev.skip(k as int)[0] == morev[k as int]);
            assert(morev.skip(k as int).drop_first() =~= morev.skip(k as int + 1));
            assert(morev[k as int] == more@[k as int]@);
        }
        if !contains_name(&cur, &more[k]) {
            let item = copy_name(&more[k]);
            cur.push(item);
            proof {
                assert(cur@.map_values(|n: Vec<u8>| n@) =~= curv.push(morev[k as int]));
            }
        }
        k += 1;
    }
    proof {
        assert(morev.skip(more@.len() as int) =~= Seq::<Seq<u8>>::empty());
    }
    cur
}


/// Every accessor of `sub` stands, identically, in `sup`.
pub open spec fn spec_requires_all(sub: Seq<MethodReqV>, sup: Seq<MethodReqV>) -> bool {
    forall|j: int| 0 <= j < sub.len() ==> spec_contains_method(sup, (#[trigger] sub[j]))
}

/// No two accessors of the set share a name with different return types.
pub open spec fn spec_consistent(s: Seq<MethodReqV>) -> bool {
    forall|i: int, j: int|
        0 <= i < s.len() && 0 <= j < s.len() && (#[trigger] s[i]).name == (#[trigger] s[j]).name
            ==> s[i].ret == s[j].ret
}

/// The context satisfies the interface: it provides every capability type
/// that the interface's flattened requirement set returns. This is the
/// blanket satisfaction rule — no explicit wiring appears anywhere. The
/// marker capabilities impose no further condition: every constructed
/// container can be duplicated and substituted, so a context meets any
/// marker an interface carries.
pub open spec fn spec_satisfies(c: CompiledContextV, i: CompiledInterfaceV) -> bool {
    forall|k: int|
        0 <= k < i.requirements.len() ==> spec_provides(c, (#[trigger] i.requirements[k]).ret)
}

/// Whether the context provides the capability for the value type `ty`.
pub fn provides(c: &CompiledContext, ty: &Vec<u8>) -> (r: bool)
    ensures
        r == spec_provides(c@, ty@),
{
    let ghost bsv = c@.bindings;
    let mut i: usize = 0;
    while i < c.bindings.len()
        invariant
            i <= c.bindings@.len(),
            bsv == c@.bindings,
            forall|j: int| 0 <= j < i ==> (#[trigger] bsv[j]).ty != ty@,
        decreases c.bindings@.len() - i,
    {
        if name_eq(&c.bindings[i].ty, ty) {
            proof {
                assert(bsv[i as int].ty == ty@);
            }
            return true;
        }
        i += 1;
    }
    proof {
        if spec_provides(c@, ty@) {
            let w = choose|w: int| 0 <= w < bsv.len() && (#[trigger] bsv[w]).ty == ty@;
            assert(false);
        }
    }
    false
}

/// Whether the context automatically satisfies the interface: its
/// provisions cover the interface's whole flattened requirement set.
pub fn satisfies(c: &CompiledContext, i: &CompiledInterface) -> (r: bool)
    ensures
        r == spec_satisfies(c@, i@),
{
    let ghost reqs = i@.requirements;
    let mut k: usize = 0;
    while k < i.requirements.len()
        invariant
            k <= i.requirements@.len(),
            reqs == i@.requirements,
            forall|j: int| 0 <= j < k ==> spec_provides(c@, (#[trigger] reqs[j]).ret),
        decreases i.requirements@.len() - k,
    {
        if !provides(c, &i.requirements[k].ret) {
            proof {
                assert(reqs[k as int] == i.requirements@[k as int]@);
                assert(!spec_provides(c@, reqs[k as int].ret));
            }
            return false;
        }
        proof {
            assert(reqs[k as int] == i.requirements@[k as int]@);
        }
        k += 1;
    }
    true
}

/// Satisfaction is sound: a context that provides every capability type
/// required — directly or through inheritance, since the requirement set
/// is flattened — satisfies the interface's descriptor with no additional
/// glue.
pub proof fn lemma_satisfaction_soundness(c: CompiledContextV, i: CompiledInterfaceV)
    requires
        forall|k: int|
            0 <= k < i.requirements.len() ==> spec_provides(c, (#[trigger] i.requirements[k]).ret),
    ensures
        spec_satisfies(c, i),
{
}

/// Satisfaction is complete: a context missing even one required
/// capability type does not satisfy the interface.
pub proof fn lemma_satisfaction_completeness(c: CompiledContextV, i: CompiledInterfaceV, k: int)
    requires
        0 <= k < i.requirements.len(),
        !spec_provides(c, i.requirements[k].ret),
    ensures
        !spec_satisfies(c, i),
{
}

/// Merging never loses an accessor: everything in the accumulator, and
/// every accessor of the merged set, stands in a successful result.
pub proof fn lemma_merge_superset(acc: Seq<MethodReqV>, more: Seq<MethodReqV>)
    requires
        spec_merge(acc, more) is Ok,
    ensures
        forall|m: MethodReqV|
            #[trigger] spec_contains_method(acc, m) ==> spec_contains_method(
                spec_merge(acc, more)->Ok_0,
                m,
            ),
        spec_requires_all(more, spec_merge(acc, more)->Ok_0),
    decreases more.len(),
{
    if more.len() == 0 {
    } else {
        let m0 = more[0];
        if spec_conflicts_with(acc, m0) {
        } else if spec_contains_method(acc, m0) {
            lemma_merge_superset(acc, more.drop_first());
            assert forall|j: int| 0 <= j < more.len() implies spec_contains_method(
                spec_merge(acc, more)->Ok_0,
                (#[trigger] more[j]),
            ) by {
                if j == 0 {
                } else {
                    assert(more.drop_first()[j - 1] == more[j]);
                    assert(spec_contains_method(
                        spec_merge(acc, more.drop_first())->Ok_0,
                        more.drop_first()[j - 1],
                    ));
                }
            }
        } else {
            lemma_merge_superset(acc.push(m0), more.drop_first());
            assert forall|m: MethodReqV| #[trigger]
                spec_contains_method(acc, m) implies spec_contains_method(
                spec_merge(acc, more)->Ok_0,
                m,
            ) by {
                let w = choose|w: int| 0 <= w < acc.len() && acc[w] == m;
                assert(acc.push(m0)[w] == m);
                assert(spec_contains_method(acc.push(m0), m));
            }
            assert forall|j: int| 0 <= j < more.len() implies spec_contains_method(
                spec_merge(acc, more)->Ok_0,
                (#[trigger] more[j]),
            ) by {
                if j == 0 {
                    assert(acc.push(m0)[acc.len() as int] == m0);
                    assert(spec_contains_method(acc.push(m0), m0));
                } else {
                    assert(more.drop_first()[j - 1] == more[j]);
                    assert(spec_contains_method(
                        spec_merge(acc.push(m0), more.drop_first())->Ok_0,
                        more.drop_first()[j - 1],
                    ));
                }
            }
        }
    }
}

/// Merging preserves consistency: starting from a consistent accumulator,
/// a successful merge yields a consistent requirement set.
pub proof fn lemma_merge_consistent(acc: Seq<MethodReqV>, more: Seq<MethodReqV>)
    requires
        spec_consistent(acc),
        spec_merge(acc, more) is Ok,
    ensures
        spec_consistent(spec_merge(acc, more)->Ok_0),
    decreases more.len(),
{
    if more.len() == 0 {
    } else {
        let m0 = more[0];
        if spec_conflicts_with(acc, m0) {
        } else if spec_contains_method(acc, m0) {
            lemma_merge_consistent(acc, more.drop_first());
        } else {
            assert forall|i: int, j: int|
                0 <= i < acc.push(m0).len() && 0 <= j < acc.push(m0).len() && (#[trigger] acc.push(
                    m0,
                )[i]).name == (#[trigger] acc.push(m0)[j]).name implies acc.push(m0)[i].ret
                == acc.push(m0)[j].ret by {
                if i < acc.len() && j < acc.len() {
                    assert(acc[i].name == acc[j].name);
                } else if i < acc.len() && j == acc.len() {
                    assert(!(acc[i].name == m0.name && acc[i].ret != m0.ret));
                } else if i == acc.len() && j < acc.len() {
                    assert(!(acc[j].name == m0.name && acc[j].ret != m0.ret));
                }
            }
            lemma_merge_consistent(acc.push(m0), more.drop_first());
        }
    }
}

/// A successful flattening resolves every inherited name, carries the
/// accumulator through, includes every resolved parent's whole requirement
/// set, and preserves consistency.
pub proof fn lemma_flatten_parents_ok(
    env: Seq<CompiledInterfaceV>,
    parents: Seq<Seq<u8>>,
    acc: Seq<MethodReqV>,
    marker_acc: Seq<Seq<u8>>,
)
    requires
        spec_flatten_parents(env, parents, acc, marker_acc) is Ok,
    ensures
        forall|m: MethodReqV|
            #[trigger] spec_contains_method(acc, m) ==> spec_contains_method(
                spec_flatten_parents(env, parents, acc, marker_acc)->Ok_0.0,
                m,
            ),
        forall|j: int|
            0 <= j < parents.len() ==> spec_lookup(env, (#[trigger] parents[j])) is Some,
        forall|j: int|
            0 <= j < parents.len() ==> spec_requires_all(
                spec_lookup(env, (#[trigger] parents[j]))->Some_0.requirements,
                spec_flatten_parents(env, parents, acc, marker_acc)->Ok_0.0,
            ),
        spec_consistent(acc) ==> spec_consistent(
            spec_flatten_parents(env, parents, acc, marker_acc)->Ok_0.0,
        ),
    decreases parents.len(),
{
    if parents.len() == 0 {
    } else {
        let p = spec_lookup(env, parents[0])->Some_0;
        let acc2 = spec_merge(acc, p.requirements)->Ok_0;
        lemma_merge_superset(acc, p.requirements);
        lemma_flatten_parents_ok(env, parents.drop_first(), acc2, spec_merge_names(marker_acc, p.markers));
        let fin = spec_flatten_parents(env, parents, acc, marker_acc)->Ok_0.0;
        assert forall|j: int| 0 <= j < parents.len() implies spec_lookup(
            env,
            (#[trigger] parents[j]),
        ) is Some by {
            if j > 0 {
                assert(parents.drop_first()[j - 1] == parents[j]);
            }
        }
        assert forall|j: int| 0 <= j < parents.len() implies spec_requires_all(
            spec_lookup(env, (#[trigger] parents[j]))->Some_0.requirements,
            fin,
        ) by {
            if j == 0 {
                assert forall|k: int|
                    0 <= k < p.requirements.len() implies spec_contains_method(
                    fin,
                    (#[trigger] p.requirements[k]),
                ) by {
                    assert(spec_contains_method(acc2, p.requirements[k]));
                }
            } else {
                assert(parents.drop_first()[j - 1] == parents[j]);
            }
        }
        if spec_consistent(acc) {
            lemma_merge_consistent(acc, p.requirements);
        }
    }
}

/// Conflict detection: two inherited interfaces declaring an accessor with
/// the same name under different return capability types make the
/// declaration fail to compile — never resolved by last-write-wins.
pub proof fn lemma_conflict_detected(
    env: Seq<CompiledInterfaceV>,
    d: crate::decl::InterfaceDeclV,
    j1: int,
    j2: int,
    k1: int,
    k2: int,
)
    requires
        0 <= j1 < d.inherits.len(),
        0 <= j2 < d.inherits.len(),
        spec_lookup(env, d.inherits[j1]) is Some,
        spec_lookup(env, d.inherits[j2]) is Some,
        0 <= k1 < spec_lookup(env, d.inherits[j1])->Some_0.requirements.len(),
        0 <= k2 < spec_lookup(env, d.inherits[j2])->Some_0.requirements.len(),
        spec_lookup(env, d.inherits[j1])->Some_0.requirements[k1].name == spec_lookup(
            env,
            d.inherits[j2],
        )->Some_0.requirements[k2].name,
        spec_lookup(env, d.inherits[j1])->Some_0.requirements[k1].ret != spec_lookup(
            env,
            d.inherits[j2],
        )->Some_0.requirements[k2].ret,
    ensures
        spec_compile_interface(env, d) is Err,
{
    let base = spec_merge_names(Seq::empty(), d.markers);
    if spec_flatten_parents(env, d.inherits, Seq::empty(), base) is Ok {
        lemma_flatten_parents_ok(env, d.inherits, Seq::empty(), base);
        let flat = spec_flatten_parents(env, d.inherits, Seq::empty(), base)->Ok_0.0;
        let m1 = spec_lookup(env, d.inherits[j1])->Some_0.requirements[k1];
        let m2 = spec_lookup(env, d.inherits[j2])->Some_0.requirements[k2];
        assert(spec_contains_method(flat, m1));
        assert(spec_contains_method(flat, m2));
        let w1 = choose|w: int| 0 <= w < flat.len() && flat[w] == m1;
        let w2 = choose|w: int| 0 <= w < flat.len() && flat[w] == m2;
        assert(spec_consistent(Seq::<MethodReqV>::empty()));
        assert(flat[w1].name == flat[w2].name);
        assert(false);
    }
}

/// Inheritance is transitive: where one interface's requirement set
/// stands whole inside a second's, and the second's inside a third's, any
/// context satisfying the third satisfies the other two. A compiled
/// interface's requirement set includes each inherited interface's whole
/// set, so this covers inheritance chains of any depth.
pub proof fn lemma_inheritance_transitivity(
    c: CompiledContextV,
    i1: CompiledInterfaceV,
    i2: CompiledInterfaceV,
    i3: CompiledInterfaceV,
)
    requires
        spec_requires_all(i1.requirements, i2.requirements),
        spec_requires_all(i2.requirements, i3.requirements),
        spec_satisfies(c, i3),
    ensures
        spec_satisfies(c, i2),
        spec_satisfies(c, i1),
{
    assert forall|k: int| 0 <= k < i2.requirements.len() implies spec_provides(
        c,
        (#[trigger] i2.requirements[k]).ret,
    ) by {
        assert(spec_contains_method(i3.requirements, i2.requirements[k]));
        let w = choose|w: int|
            0 <= w < i3.requirements.len() && i3.requirements[w] == i2.requirements[k];
        assert(spec_provides(c, i3.requirements[w].ret));
    }
    assert forall|k: int| 0 <= k < i1.requirements.len() implies spec_provides(
        c,
        (#[trigger] i1.requirements[k]).ret,
    ) by {
        assert(spec_contains_method(i2.requirements, i1.requirements[k]));
        let w = choose|w: int|
            0 <= w < i2.requirements.len() && i2.requirements[w] == i1.requirements[k];
        assert(spec_provides(c, i2.requirements[w].ret));
    }
}

/// A compiled interface's requirement set includes each resolved parent's
/// whole requirement set: what an interface inherits, it requires.
pub proof fn lemma_compile_includes_parent(
    env: Seq<CompiledInterfaceV>,
    d: crate::decl::InterfaceDeclV,
    j: int,
)
    requires
        spec_compile_interface(env, d) is Ok,
        0 <= j < d.inherits.len(),
    ensures
        spec_lookup(env, d.inherits[j]) is Some,
        spec_requires_all(
            spec_lookup(env, d.inherits[j])->Some_0.requirements,
            spec_compile_interface(env, d)->Ok_0.requirements,
        ),
{
    let base = spec_merge_names(Seq::empty(), d.markers);
    lemma_flatten_parents_ok(env, d.inherits, Seq::empty(), base);
    let flat = spec_flatten_parents(env, d.inherits, Seq::empty(), base)->Ok_0.0;
    lemma_merge_superset(flat, d.methods);
    let p = spec_lookup(env, d.inherits[j])->Some_0;
    assert forall|k: int| 0 <= k < p.requirements.len() implies spec_contains_method(
        spec_compile_interface(env, d)->Ok_0.requirements,
        (#[trigger] p.requirements[k]),
    ) by {
        assert(spec_contains_method(flat, p.requirements[k]));
    }
}

/// The index of the first required accessor of that name, or the number
/// of requirements when the interface declares no such accessor.
pub open spec fn spec_method_of(reqs: Seq<MethodReqV>, name: Seq<u8>) -> int
    decreases reqs.len(),
{
    if reqs.len() == 0 {
        0
    } else if reqs[0].name == name {
        0
    } else {
        1 + spec_method_of(reqs.drop_first(), name)
    }
}

/// The first accessor of that name is in bounds exactly when one exists,
/// carries that name when in bounds, and no earlier accessor has it.
pub proof fn lemma_method_of(reqs: Seq<MethodReqV>, name: Seq<u8>)
    ensures
        0 <= spec_method_of(reqs, name) <= reqs.len(),
        spec_method_of(reqs, name) < reqs.len() ==> reqs[spec_method_of(reqs, name)].name == name,
        forall|j: int| 0 <= j < spec_method_of(reqs, name) ==> (#[trigger] reqs[j]).name != name,
    decreases reqs.len(),
{
    if reqs.len() == 0 {
    } else if reqs[0].name == name {
    } else {
        lemma_method_of(reqs.drop_first(), name);
        let s = spec_method_of(reqs, name);
        let sd = spec_method_of(reqs.drop_first(), name);
        assert(s == 1 + sd);
        assert forall|j: int| 0 <= j < s implies (#[trigger] reqs[j]).name != name by {
            if j > 0 {
                assert(reqs.drop_first()[j - 1] == reqs[j]);
            }
        }
        if s < reqs.len() {
            assert(reqs.drop_first()[sd] == reqs[s]);
        }
    }
}

/// The generated adapter of the blanket satisfaction rule: each accessor
/// of a satisfied interface is defined as a delegation to the context's
/// provision for the accessor's return capability type.
pub fn accessor<'a, V>(inst: &'a Instance<V>, iface: &CompiledInterface, method: &Vec<u8>) -> (r:
    Option<&'a V>)
    requires
        inst.wf(),
        spec_satisfies(inst.context@, iface@),
    ensures
        (match r {
            Some(v) => {
                &&& spec_method_of(iface@.requirements, method@) < iface@.requirements.len()
                &&& *v == inst.values@[spec_slot_of(
                    inst.context@.bindings,
                    iface@.requirements[spec_method_of(iface@.requirements, method@)].ret,
                )]
            },
            None => spec_method_of(iface@.requirements, method@) == iface@.requirements.len(),
        }),
{
    let ghost reqs = iface@.requirements;
    let mut k: usize = 0;
    while k < iface.requirements.len()
        invariant
            k <= iface.requirements@.len(),
            reqs == iface@.requirements,
            inst.wf(),
            spec_satisfies(inst.context@, iface@),
            forall|j: int| 0 <= j < k ==> (#[trigger] reqs[j]).name != method@,
        decreases iface.requirements@.len() - k,
    {
        proof {
            lemma_method_of(reqs, method@);
            assert(reqs[k as int] == iface.requirements@[k as int]@);
        }
        if name_eq(&iface.requirements[k].name, method) {
            proof {
                let s = spec_method_of(reqs, method@);
                if s < k as int {
                    assert(reqs[s].name == method@);
                    assert(false);
                }
                if s > k as int {
                    assert(reqs[k as int].name != method@);
                    assert(false);
                }
                assert(spec_provides(inst.context@, reqs[k as int].ret));
            }
            return Some(inst.provide(&iface.requirements[k].ret));
        }
        k += 1;
    }
    proof {
        lemma_method_of(reqs, method@);
        let s = spec_method_of(reqs, method@);
        if s < reqs.len() {
            assert(reqs[s].name == method@);
            assert(false);
        }
    }
    None
}

/// An independent copy of a requirement list.
fn copy_methods(a: &Vec<MethodReq>) -> (r: Vec<MethodReq>)
    ensures
        r@.map_values(|x: MethodReq| x@) == a@.map_values(|x: MethodReq| x@),
{
    let mut r: Vec<MethodReq> = Vec::new();
    let mut i: usize = 0;
    while i < a.len()
        invariant
            i <= a@.len(),
            r@.map_values(|x: MethodReq| x@) == a@.subrange(0, i as int).map_values(
                |x: MethodReq| x@,
            ),
        decreases a@.len() - i,
    {
        let ghost rpre = r@;
        let item = MethodReq { name: copy_name(&a[i].name), ret: copy_name(&a[i].ret) };
        proof {
            assert(item@ == a@[i as int]@);
        }
        r.push(item);
        proof {
            assert(r@.map_values(|x: MethodReq| x@) =~= rpre.map_values(|x: MethodReq| x@).push(
                item@,
            ));
            assert(a@.subrange(0, i + 1).map_values(|x: MethodReq| x@) =~= a@.subrange(
                0,
                i as int,
            ).map_values(|x: MethodReq| x@).push(item@));
        }
        i += 1;
    }
    proof {
        assert(a@.subrange(0, a@.len() as int) =~= a@);
    }
    r
}

} // verus!
