//! The entity types produced by the parser: data types, attributes,
//! functions and class definitions, together with their mathematical models
//! (`..Model` types over `Seq<char>`) that the contracts speak about.

use vstd::prelude::*;

verus! {

/// The type of an attribute or of a function's return value: one of the
/// primitive kinds, or a reference to another class by name.
#[derive(Debug, Clone, PartialEq, Eq)]
pub enum DataType {
    STRING,
    FLOAT,
    INTEGER,
    BOOL,
    DATETIME,
    DOUBLE,
    CHAR,
    /// A single-valued reference to the class of the given name.
    FOREIGN_KEY(String),
    /// A multi-valued cross-reference to the class of the given name.
    MANY_TO_MANY(String),
}

/// Mathematical model of `DataType`: class names as character sequences.
#[verifier::ext_equal]
pub enum DataTypeModel {
    STRING,
    FLOAT,
    INTEGER,
    BOOL,
    DATETIME,
    DOUBLE,
    CHAR,
    FOREIGN_KEY(Seq<char>),
    MANY_TO_MANY(Seq<char>),
}

impl View for DataType {
    type V = DataTypeModel;

    open spec fn view(&self) -> DataTypeModel {
        match self {
            DataType::STRING => DataTypeModel::STRING,
            DataType::FLOAT => DataTypeModel::FLOAT,
            DataType::INTEGER => DataTypeModel::INTEGER,
            DataType::BOOL => DataTypeModel::BOOL,
            DataType::DATETIME => DataTypeModel::DATETIME,
            DataType::DOUBLE => DataTypeModel::DOUBLE,
            DataType::CHAR => DataTypeModel::CHAR,
            DataType::FOREIGN_KEY(n) => DataTypeModel::FOREIGN_KEY(n@),
            DataType::MANY_TO_MANY(n) => DataTypeModel::MANY_TO_MANY(n@),
        }
    }
}

impl DeepView for DataType {
    type V = DataTypeModel;

    open spec fn deep_view(&self) -> DataTypeModel {
        self.view()
    }
}

/// A field on a class.
#[derive(Debug, Clone, PartialEq, Eq)]
pub struct AttributeDef {
    pub data_type: DataType,
    pub name: String,
}

/// Mathematical model of `AttributeDef`.
#[verifier::ext_equal]
pub struct AttributeModel {
    pub data_type: DataTypeModel,
    pub name: Seq<char>,
}

impl View for AttributeDef {
    type V = AttributeModel;

    open spec fn view(&self) -> AttributeModel {
        AttributeModel { data_type: self.data_type@, name: self.name@ }
    }
}

impl DeepView for AttributeDef {
    type V = AttributeModel;

    open spec fn deep_view(&self) -> AttributeModel {
        self.view()
    }
}

impl AttributeDef {
    pub fn new(data_type: DataType, name: String) -> (r: AttributeDef)
        ensures
            r@ == (AttributeModel { data_type: data_type@, name: name@ }),
    {
        AttributeDef { data_type, name }
    }
}

/// A method signature on a class.  Parameter parsing is not supported:
/// `params` is always empty in parser output.
#[derive(Debug, Clone, PartialEq, Eq)]
pub struct FunctionDef {
    pub return_type: DataType,
    pub name: String,
    pub params: Vec<AttributeDef>,
}

/// Mathematical model of `FunctionDef`.
#[verifier::ext_equal]
pub struct FunctionModel {
    pub return_type: DataTypeModel,
    pub name: Seq<char>,
    pub params: Seq<AttributeModel>,
}

impl View for FunctionDef {
    type V = FunctionModel;

    open spec fn view(&self) -> FunctionModel {
        FunctionModel {
            return_type: self.return_type@,
            name: self.name@,
            params: self.params.deep_view(),
        }
    }
}

impl DeepView for FunctionDef {
    type V = FunctionModel;

    open spec fn deep_view(&self) -> FunctionModel {
        self.view()
    }
}

impl FunctionDef {
    pub fn new(return_type: DataType, name: String, params: Vec<AttributeDef>) -> (r: FunctionDef)
        ensures
            r@ == (FunctionModel {
                return_type: return_type@,
                name: name@,
                params: params.deep_view(),
            }),
    {
        FunctionDef { return_type, name, params }
    }
}

/// One entity of the diagram: its upper-cased name and its members in
/// declaration order.
#[derive(Debug, Clone, PartialEq, Eq)]
pub struct ClassDef {
    pub name: String,
    pub attributes: Vec<AttributeDef>,
    pub functions: Vec<FunctionDef>,
}

/// Mathematical model of `ClassDef`.
#[verifier::ext_equal]
pub struct ClassModel {
    pub name: Seq<char>,
    pub attributes: Seq<AttributeModel>,
    pub functions: Seq<FunctionModel>,
}

impl View for ClassDef {
    type V = ClassModel;

    open spec fn view(&self) -> ClassModel {
        ClassModel {
            name: self.name@,
            attributes: self.attributes.deep_view(),
            functions: self.functions.deep_view(),
        }
    }
}

impl DeepView for ClassDef {
    type V = ClassModel;

    open spec fn deep_view(&self) -> ClassModel {
        self.view()
    }
}

/// The model of a class that has just been created: the given name and no
/// members.
pub open spec fn empty_class_model(name: Seq<char>) -> ClassModel {
    ClassModel { name, attributes: Seq::empty(), functions: Seq::empty() }
}

impl ClassDef {
    /// A class definition with the given name and no members yet.
    pub fn new(name: String) -> (r: ClassDef)
        ensures
            r@ == empty_class_model(name@),
    {
        let r = ClassDef { name, attributes: Vec::new(), functions: Vec::new() };
        proof {
            assert(r.attributes.deep_view() =~= Seq::<AttributeModel>::empty());
            assert(r.functions.deep_view() =~= Seq::<FunctionModel>::empty());
        }
        r
    }
}

} // verus!
