//! The intermediate representation that the parser produces and the two
//! compilers consume: interface declarations (abstract requirement sets)
//! and context declarations (concrete dependency bindings).

use vstd::prelude::*;

verus! {

/// One required accessor of an interface: its name and the capability type
/// it returns.
#[derive(Debug)]
pub struct MethodReq {
    pub name: Vec<u8>,
    pub ret: Vec<u8>,
}

/// Spec-level value of a [`MethodReq`].
pub ghost struct MethodReqV {
    pub name: Seq<u8>,
    pub ret: Seq<u8>,
}

impl View for MethodReq {
    type V = MethodReqV;

    open spec fn view(&self) -> MethodReqV {
        MethodReqV { name: self.name@, ret: self.ret@ }
    }
}

/// A parsed interface declaration: its name, the interfaces it inherits in
/// declaration order, the extra marker capabilities it requests, and its
/// own required accessors.
#[derive(Debug)]
pub struct InterfaceDecl {
    pub name: Vec<u8>,
    pub inherits: Vec<Vec<u8>>,
    pub markers: Vec<Vec<u8>>,
    pub methods: Vec<MethodReq>,
}

/// Spec-level value of an [`InterfaceDecl`].
pub ghost struct InterfaceDeclV {
    pub name: Seq<u8>,
    pub inherits: Seq<Seq<u8>>,
    pub markers: Seq<Seq<u8>>,
    pub methods: Seq<MethodReqV>,
}

impl View for InterfaceDecl {
    type V = InterfaceDeclV;

    open spec fn view(&self) -> InterfaceDeclV {
        InterfaceDeclV {
            name: self.name@,
            inherits: self.inherits@.map_values(|n: Vec<u8>| n@),
            markers: self.markers@.map_values(|n: Vec<u8>| n@),
            methods: self.methods@.map_values(|m: MethodReq| m@),
        }
    }
}

/// The construction strategy of one binding: invoke the named factory with
/// no arguments, or invoke it with an explicitly substituted smaller
/// context.
#[derive(Debug)]
pub enum Strategy {
    Build { factory: Vec<u8> },
    BuildWith { factory: Vec<u8>, context: Vec<u8> },
}

/// Spec-level value of a [`Strategy`].
pub ghost enum StrategyV {
    Build { factory: Seq<u8> },
    BuildWith { factory: Seq<u8>, context: Seq<u8> },
}

impl View for Strategy {
    type V = StrategyV;

    open spec fn view(&self) -> StrategyV {
        match self {
            Strategy::Build { factory } => StrategyV::Build { factory: factory@ },
            Strategy::BuildWith { factory, context } => StrategyV::BuildWith {
                factory: factory@,
                context: context@,
            },
        }
    }
}

/// One dependency binding of a context: the field name, the bound value
/// type, and how the value is constructed.
#[derive(Debug)]
pub struct Binding {
    pub field: Vec<u8>,
    pub ty: Vec<u8>,
    pub strategy: Strategy,
}

/// Spec-level value of a [`Binding`].
pub ghost struct BindingV {
    pub field: Seq<u8>,
    pub ty: Seq<u8>,
    pub strategy: StrategyV,
}

impl View for Binding {
    type V = BindingV;

    open spec fn view(&self) -> BindingV {
        BindingV { field: self.field@, ty: self.ty@, strategy: self.strategy@ }
    }
}

/// A parsed context declaration: its name and its ordered dependency
/// bindings.
#[derive(Debug)]
pub struct ContextDecl {
    pub name: Vec<u8>,
    pub bindings: Vec<Binding>,
}

/// Spec-level value of a [`ContextDecl`].
pub ghost struct ContextDeclV {
    pub name: Seq<u8>,
    pub bindings: Seq<BindingV>,
}

impl View for ContextDecl {
    type V = ContextDeclV;

    open spec fn view(&self) -> ContextDeclV {
        ContextDeclV {
            name: self.name@,
            bindings: self.bindings@.map_values(|b: Binding| b@),
        }
    }
}

/// A parsed declaration of either kind.
#[derive(Debug)]
pub enum Declaration {
    Context(ContextDecl),
    Interface(InterfaceDecl),
}

/// Spec-level value of a [`Declaration`].
pub ghost enum DeclarationV {
    Context(ContextDeclV),
    Interface(InterfaceDeclV),
}

impl View for Declaration {
    type V = DeclarationV;

    open spec fn view(&self) -> DeclarationV {
        match self {
            Declaration::Context(d) => DeclarationV::Context(d@),
            Declaration::Interface(d) => DeclarationV::Interface(d@),
        }
    }
}

} // verus!
