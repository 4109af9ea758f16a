//! The two output records and their value types: a token catalog and a
//! function catalog, each with a mathematical view over `Seq` and `Map`.

use vstd::prelude::*;

use crate::nmap::NameMap;

verus! {

/// The token catalog: keywords, attribute and builtin-value names,
/// interpolation names, primitive types, type generators and type aliases.
#[derive(Debug)]
pub struct TokenInfo {
    pub keywords: Vec<String>,
    pub attributes: NameMap<Attribute>,
    pub builtin_values: NameMap<BuiltinValue>,
    pub interpolation_type_names: Vec<String>,
    pub interpolation_sampling_names: Vec<String>,
    pub primitive_types: Vec<String>,
    pub type_generators: Vec<String>,
    pub type_aliases: NameMap<String>,
}

/// An attribute's description, with its optional parameter notes.
#[derive(Debug)]
pub struct Attribute {
    pub description: String,
    pub description_parameters: Option<String>,
}

/// A builtin value: its per-stage uses and its type name.
#[derive(Debug)]
pub struct BuiltinValue {
    pub stages: NameMap<BuiltinValueStage>,
    pub typ: String,
}

/// One stage's use of a builtin value.
#[derive(Debug)]
pub struct BuiltinValueStage {
    pub description: String,
    pub direction: BuiltinValueDirection,
}

/// Whether a builtin value is read or written in a stage.
#[derive(Debug, Clone, Copy, PartialEq, Eq, Structural)]
pub enum BuiltinValueDirection {
    Input,
    Output,
}

/// The function catalog: every builtin function keyed by name.
#[derive(Debug)]
pub struct FunctionInfo {
    pub functions: NameMap<Function>,
}

/// A named builtin function: its overloads in document order, its
/// parameters and its description.
#[derive(Debug)]
pub struct Function {
    pub overloads: Vec<FunctionOverload>,
    pub parameters: Vec<FunctionParameter>,
    pub description: Option<String>,
}

/// A function parameter's name and description.
#[derive(Debug)]
pub struct FunctionParameter {
    pub name: String,
    pub description: String,
}

/// One concrete signature of a function, with its type-variable constraints.
#[derive(Debug)]
pub struct FunctionOverload {
    pub signature: String,
    pub parameterization: Parameterization,
    pub description: Option<String>,
}

/// The valid values for a set of type variables.
#[derive(Debug)]
pub struct Parameterization {
    pub typevars: NameMap<ParameterizationKind>,
}

/// The constraint on one type variable.
#[derive(Debug)]
pub enum ParameterizationKind {
    /// An enumerated list of types.
    Types(Vec<String>),
    /// A human-readable description.
    Description(String),
}

/// View of an [`Attribute`].
#[verifier::ext_equal]
pub ghost struct AttributeV {
    pub description: Seq<char>,
    pub description_parameters: Option<Seq<char>>,
}

impl View for Attribute {
    type V = AttributeV;

    open spec fn view(&self) -> AttributeV {
        AttributeV {
            description: self.description@,
            description_parameters: match self.description_parameters {
                Some(p) => Some(p@),
                None => None,
            },
        }
    }
}

/// View of a [`BuiltinValueStage`].
#[verifier::ext_equal]
pub ghost struct BuiltinValueStageV {
    pub description: Seq<char>,
    pub direction: BuiltinValueDirection,
}

impl View for BuiltinValueStage {
    type V = BuiltinValueStageV;

    open spec fn view(&self) -> BuiltinValueStageV {
        BuiltinValueStageV { description: self.description@, direction: self.direction }
    }
}

/// View of a [`BuiltinValue`].
#[verifier::ext_equal]
pub ghost struct BuiltinValueV {
    pub stages: Map<Seq<char>, BuiltinValueStageV>,
    pub typ: Seq<char>,
}

impl View for BuiltinValue {
    type V = BuiltinValueV;

    open spec fn view(&self) -> BuiltinValueV {
        BuiltinValueV { stages: self.stages@, typ: self.typ@ }
    }
}

/// View of a [`TokenInfo`].
#[verifier::ext_equal]
pub ghost struct TokenInfoV {
    pub keywords: Seq<Seq<char>>,
    pub attributes: Map<Seq<char>, AttributeV>,
    pub builtin_values: Map<Seq<char>, BuiltinValueV>,
    pub interpolation_type_names: Seq<Seq<char>>,
    pub interpolation_sampling_names: Seq<Seq<char>>,
    pub primitive_types: Seq<Seq<char>>,
    pub type_generators: Seq<Seq<char>>,
    pub type_aliases: Map<Seq<char>, Seq<char>>,
}

impl View for TokenInfo {
    type V = TokenInfoV;

    open spec fn view(&self) -> TokenInfoV {
        TokenInfoV {
            keywords: self.keywords.deep_view(),
            attributes: self.attributes@,
            builtin_values: self.builtin_values@,
            interpolation_type_names: self.interpolation_type_names.deep_view(),
            interpolation_sampling_names: self.interpolation_sampling_names.deep_view(),
            primitive_types: self.primitive_types.deep_view(),
            type_generators: self.type_generators.deep_view(),
            type_aliases: self.type_aliases@,
        }
    }
}

/// View of a [`ParameterizationKind`].
#[verifier::ext_equal]
pub ghost enum ParameterizationKindV {
    Types(Seq<Seq<char>>),
    Description(Seq<char>),
}

impl View for ParameterizationKind {
    type V = ParameterizationKindV;

    open spec fn view(&self) -> ParameterizationKindV {
        match self {
            ParameterizationKind::Types(ts) => ParameterizationKindV::Types(ts.deep_view()),
            ParameterizationKind::Description(d) => ParameterizationKindV::Description(d@),
        }
    }
}

impl View for Parameterization {
    type V = Map<Seq<char>, ParameterizationKindV>;

    open spec fn view(&self) -> Map<Seq<char>, ParameterizationKindV> {
        self.typevars@
    }
}

/// View of a [`FunctionOverload`].
#[verifier::ext_equal]
pub ghost struct FunctionOverloadV {
    pub signature: Seq<char>,
    pub parameterization: Map<Seq<char>, ParameterizationKindV>,
    pub description: Option<Seq<char>>,
}

impl View for FunctionOverload {
    type V = FunctionOverloadV;

    open spec fn view(&self) -> FunctionOverloadV {
        FunctionOverloadV {
            signature: self.signature@,
            parameterization: self.parameterization@,
            description: match self.description {
                Some(d) => Some(d@),
                None => None,
            },
        }
    }
}

/// View of a [`FunctionParameter`].
#[verifier::ext_equal]
pub ghost struct FunctionParameterV {
    pub name: Seq<char>,
    pub description: Seq<char>,
}

impl View for FunctionParameter {
    type V = FunctionParameterV;

    open spec fn view(&self) -> FunctionParameterV {
        FunctionParameterV { name: self.name@, description: self.description@ }
    }
}

/// View of a [`Function`].
#[verifier::ext_equal]
pub ghost struct FunctionV {
    pub overloads: Seq<FunctionOverloadV>,
    pub parameters: Seq<FunctionParameterV>,
    pub description: Option<Seq<char>>,
}

impl View for Function {
    type V = FunctionV;

    open spec fn view(&self) -> FunctionV {
        FunctionV {
            overloads: Seq::new(self.overloads@.len(), |i: int| self.overloads@[i]@),
            parameters: Seq::new(self.parameters@.len(), |i: int| self.parameters@[i]@),
            description: match self.description {
                Some(d) => Some(d@),
                None => None,
            },
        }
    }
}

/// View of a [`FunctionInfo`].
#[verifier::ext_equal]
pub ghost struct FunctionInfoV {
    pub functions: Map<Seq<char>, FunctionV>,
}

impl View for FunctionInfo {
    type V = FunctionInfoV;

    open spec fn view(&self) -> FunctionInfoV {
        FunctionInfoV { functions: self.functions@ }
    }
}

impl Parameterization {
    /// Key uniqueness of the type-variable map.
    pub open spec fn wf(&self) -> bool {
        self.typevars.wf()
    }

    /// An empty parameterization: no constrained type variables.
    pub fn empty() -> (r: Self)
        ensures
            r@ == Map::<Seq<char>, ParameterizationKindV>::empty(),
            r.wf(),
    {
        Parameterization { typevars: NameMap::new() }
    }
}

impl Default for Parameterization {
    /// An empty parameterization.
    fn default() -> (r: Self)
        ensures
            r@ == Map::<Seq<char>, ParameterizationKindV>::empty(),
            r.wf(),
    {
        Parameterization::empty()
    }
}

impl FunctionOverload {
    /// Key uniqueness throughout.
    pub open spec fn wf(&self) -> bool {
        self.parameterization.wf()
    }
}

impl Function {
    /// Key uniqueness throughout.
    pub open spec fn wf(&self) -> bool {
        forall|i: int| 0 <= i < self.overloads@.len() ==> self.overloads@[i].wf()
    }
}

impl FunctionInfo {
    /// Key uniqueness of the function map.
    pub open spec fn wf(&self) -> bool {
        self.functions.wf()
    }
}

impl BuiltinValue {
    /// Key uniqueness of the stage map.
    pub open spec fn wf(&self) -> bool {
        self.stages.wf()
    }
}

impl TokenInfo {
    /// Key uniqueness of the three maps.
    pub open spec fn wf(&self) -> bool {
        self.attributes.wf() && self.builtin_values.wf() && self.type_aliases.wf()
    }
}

} // verus!
