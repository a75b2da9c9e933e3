//! Compile-time dependency injection, modelled explicitly.
//!
//! Application code declares two kinds of artifacts: *contexts* (concrete
//! bundles of dependency implementations) and *interfaces* (abstract
//! requirement sets). Interfaces may inherit other interfaces; a context
//! automatically satisfies any interface whose flattened requirements are a
//! subset of what the context provides.
//!
//! The specification-to-scaffolding pipeline is an explicit compiler pass:
//! a token stream is parsed into an intermediate representation, interface
//! declarations are flattened over their inheritance closure (detecting
//! accessor conflicts and unresolved references), and context declarations
//! are checked for binding ambiguity and turned into constructible
//! containers whose capability provisions drive the satisfaction check.

use vstd::prelude::*;

pub mod context;
pub mod decl;
pub mod interface;
pub mod join;
pub mod parse;
pub mod token;

verus! {

/// Error returned by a factory when it fails to build a dependency value.
#[derive(Debug)]
pub struct FactoryError {
    pub message: Vec<u8>,
}

/// Error returned by a context constructor: the failing factory's message,
/// wrapped with the name of the binding whose construction failed.
#[derive(Debug)]
pub struct ConstructionError {
    pub field: Vec<u8>,
    pub message: Vec<u8>,
}

/// Build-time failure of the interface or context compiler.
#[derive(Debug)]
pub enum CompileError {
    /// An inherited interface name does not resolve to a compiled interface.
    UnresolvedReference { name: Vec<u8> },
    /// Two inherited requirement sets declare the same accessor name with
    /// different return capability types.
    Conflict { accessor: Vec<u8> },
    /// Two bindings in one context share a field name.
    DuplicateField { field: Vec<u8> },
    /// Two bindings in one context bind the same value type, which would make
    /// capability provision ambiguous.
    AmbiguousType { ty: Vec<u8> },
}

/// Byte-for-byte equality of two names.
pub fn name_eq(a: &Vec<u8>, b: &Vec<u8>) -> (r: bool)
    ensures
        r == (a@ == b@),
{
    if a.len() != b.len() {
        return false;
    }
    let mut i: usize = 0;
    while i < a.len()
        invariant
            i <= a.len(),
            a@.len() == b@.len(),
            forall|j: int| 0 <= j < i ==> a@[j] == b@[j],
        decreases a.len() - i,
    {
        if a[i] != b[i] {
            return false;
        }
        i += 1;
    }
    proof {
        assert(a@ =~= b@);
    }
    true
}

/// Spec-level value of a [`CompileError`].
pub ghost enum CompileErrorV {
    UnresolvedReference { name: Seq<u8> },
    Conflict { accessor: Seq<u8> },
    DuplicateField { field: Seq<u8> },
    AmbiguousType { ty: Seq<u8> },
}

impl View for CompileError {
    type V = CompileErrorV;

    open spec fn view(&self) -> CompileErrorV {
        match self {
            CompileError::UnresolvedReference { name } => CompileErrorV::UnresolvedReference {
                name: name@,
            },
            CompileError::Conflict { accessor } => CompileErrorV::Conflict { accessor: accessor@ },
            CompileError::DuplicateField { field } => CompileErrorV::DuplicateField {
                field: field@,
            },
            CompileError::AmbiguousType { ty } => CompileErrorV::AmbiguousType { ty: ty@ },
        }
    }
}

/// Whether the list holds this name.
pub fn contains_name(list: &Vec<Vec<u8>>, n: &Vec<u8>) -> (r: bool)
    ensures
        r == list@.map_values(|x: Vec<u8>| x@).contains(n@),
{
    let ghost lv = list@.map_values(|x: Vec<u8>| x@);
    let mut k: usize = 0;
    while k < list.len()
        invariant
            k <= list@.len(),
            lv == list@.map_values(|x: Vec<u8>| x@),
            forall|j: int| 0 <= j < k ==> lv[j] != n@,
        decreases list@.len() - k,
    {
        if name_eq(&list[k], n) {
            proof {
                assert(lv[k as int] == n@);
            }
            return true;
        }
        k += 1;
    }
    proof {
        if lv.contains(n@) {
            let j = choose|j: int| 0 <= j < lv.len() && lv[j] == n@;
            assert(false);
        }
    }
    false
}

/// An independent copy of a name.
pub fn copy_name(a: &Vec<u8>) -> (r: Vec<u8>)
    ensures
        r@ == a@,
{
    let mut r: Vec<u8> = Vec::new();
    let mut i: usize = 0;
    while i < a.len()
        invariant
            i <= a.len(),
            r@ == a@.subrange(0, i as int),
        decreases a.len() - i,
    {
        r.push(a[i]);
        proof {
            assert(r@ =~= a@.subrange(0, i + 1));
        }
        i += 1;
    }
    proof {
        assert(r@ =~= a@);
    }
    r
}

/// An independent copy of a list of names.
pub fn copy_names(a: &Vec<Vec<u8>>) -> (r: Vec<Vec<u8>>)
    ensures
        r@.map_values(|n: Vec<u8>| n@) == a@.map_values(|n: Vec<u8>| n@),
{
    let mut r: Vec<Vec<u8>> = Vec::new();
    let mut i: usize = 0;
    while i < a.len()
        invariant
            i <= a.len(),
            r@.map_values(|n: Vec<u8>| n@) == a@.subrange(0, i as int).map_values(
                |n: Vec<u8>| n@,
            ),
        decreases a.len() - i,
    {
        let ghost rpre = r@;
        let item = copy_name(&a[i]);
        r.push(item);
        proof {
            assert(r@.map_values(|n: Vec<u8>| n@) =~= rpre.map_values(|n: Vec<u8>| n@).push(
                item@,
            ));
            assert(a@.subrange(0, i + 1).map_values(|n: Vec<u8>| n@) =~= a@.subrange(
                0,
                i as int,
            ).map_values(|n: Vec<u8>| n@).push(item@));
        }
        i += 1;
    }
    proof {
        assert(a@.subrange(0, a@.len() as int) =~= a@);
    }
    r
}

/// The construction protocol: a factory builds one dependency value.
///
/// Implement this trait to provide a convenient syntax for constructing
/// implementations of dependencies.
pub trait Factory {
    type Object;

    fn build() -> Result<Self::Object, FactoryError>;
}

/// The older calling convention of the construction protocol, in which the
/// factory is invoked with an explicit (here trivial) context argument.
pub trait UnitFactory {
    type Object;

    fn build(arg: ()) -> Result<Self::Object, FactoryError>;
}

/// Compatibility layer: allows using a `Factory` where the older calling
/// convention is expected, or vice versa, without semantic change: each
/// direction makes the one wrapped `build` call and returns its result
/// unchanged, so whatever the wrapped factory's `build` ensures holds of
/// the adapted result too.
pub struct FactoryAdaptor<T>(pub(crate) T);

impl<T: UnitFactory> Factory for FactoryAdaptor<T> {
    type Object = T::Object;

    fn build() -> (r: Result<Self::Object, FactoryError>)
        ensures
            call_ensures(T::build, ((),), r),
    {
        T::build(())
    }
}

impl<T: Factory> UnitFactory for FactoryAdaptor<T> {
    type Object = T::Object;

    fn build(arg: ()) -> (r: Result<Self::Object, FactoryError>)
        ensures
            call_ensures(T::build, (), r),
    {
        T::build()
    }
}

} // verus!
