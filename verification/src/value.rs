//! Runtime values.
//!
//! Classes, objects and environments live in the interpreter's heap; a
//! value refers to them by index. A number is an IEEE 754 double, held by
//! its bit pattern: the library never computes with numbers, it asks its host.

use vstd::prelude::*;

use crate::ast::{FunDeclaration, FunDeclarationStruct};
use crate::environment::Environment;
use crate::table::Table;

verus! {

/// A number, by the bit pattern of the double that it is.
#[derive(Clone, Copy, Debug, PartialEq, Eq, Structural)]
pub struct Number {
    pub bits: u64,
}

/// A class, by its index in the heap.
#[derive(Clone, Copy, Debug, PartialEq, Eq, Structural)]
pub struct IClass {
    pub index: usize,
}

/// An object, by its index in the heap.
#[derive(Clone, Copy, Debug, PartialEq, Eq, Structural)]
pub struct Object {
    pub index: usize,
}

/// A class at run time: its name, its own methods, and its superclass.
#[derive(Debug)]
pub struct IClassStruct<'a> {
    pub name: String,
    pub methods: Table<UserDefined<'a>>,
    pub superclass: Option<IClass>,
}

/// An object: its class and its fields.
#[derive(Debug)]
pub struct ObjectStruct<'a> {
    pub class: IClass,
    pub fields: Table<Value<'a>>,
}

/// A function of the program with the environment that it closes over.
#[derive(Clone, Copy, Debug)]
pub struct UserDefined<'a> {
    pub declaration: &'a FunDeclarationStruct,
    pub environment: Environment,
    pub is_initializer: bool,
}

#[derive(Clone, Copy, Debug)]
pub enum Function<'a> {
    UserDefined(UserDefined<'a>),
    /// The builtin `clock`.
    Builtin,
}

#[derive(Debug)]
pub enum Value<'a> {
    Boolean(bool),
    Class(IClass),
    Function(Function<'a>),
    Nil,
    Number(Number),
    Object(Object),
    StringV(String),
}

/// A value as mathematical values: a string is its characters.
pub enum ValueView<'a> {
    Boolean(bool),
    Class(IClass),
    Function(Function<'a>),
    Nil,
    Number(Number),
    Object(Object),
    StringV(Seq<char>),
}

impl<'a> View for Value<'a> {
    type V = ValueView<'a>;

    open spec fn view(&self) -> ValueView<'a> {
        match *self {
            Value::Boolean(b) => ValueView::Boolean(b),
            Value::Class(c) => ValueView::Class(c),
            Value::Function(f) => ValueView::Function(f),
            Value::Nil => ValueView::Nil,
            Value::Number(n) => ValueView::Number(n),
            Value::Object(o) => ValueView::Object(o),
            Value::StringV(s) => ValueView::StringV(s@),
        }
    }
}

impl<'a> Clone for Value<'a> {
    fn clone(&self) -> (r: Self)
        ensures
            r == *self,
    {
        match self {
            Value::Boolean(b) => Value::Boolean(*b),
            Value::Class(c) => Value::Class(*c),
            Value::Function(f) => Value::Function(*f),
            Value::Nil => Value::Nil,
            Value::Number(n) => Value::Number(*n),
            Value::Object(o) => Value::Object(*o),
            Value::StringV(s) => Value::StringV(s.clone()),
        }
    }
}

/// Whether a value counts as true: everything but `false` and `nil` does.
pub open spec fn truthy(v: ValueView) -> bool {
    match v {
        ValueView::Boolean(b) => b,
        ValueView::Nil => false,
        _ => true,
    }
}

/// The values that a table binds, name by name, as mathematical values.
pub open spec fn bindings<'a>(table: Map<Seq<char>, Value<'a>>) -> Map<Seq<char>, ValueView<'a>> {
    Map::new(|k: Seq<char>| table.dom().contains(k), |k: Seq<char>| table[k]@)
}

/// Binding a name commutes with taking the values' models.
pub proof fn lemma_bindings_insert<'a>(table: Map<Seq<char>, Value<'a>>, key: Seq<char>, value: Value<'a>)
    ensures
        bindings(table.insert(key, value)) == bindings(table).insert(key, value@),
{
    assert(bindings(table.insert(key, value)) =~= bindings(table).insert(key, value@));
}

/// A class as mathematical values.
pub struct ClassModel<'a> {
    pub name: Seq<char>,
    pub methods: Map<Seq<char>, UserDefined<'a>>,
    pub superclass: Option<IClass>,
}

/// An object as mathematical values.
pub struct ObjectView<'a> {
    pub class: IClass,
    pub fields: Map<Seq<char>, ValueView<'a>>,
}

impl<'a> View for IClassStruct<'a> {
    type V = ClassModel<'a>;

    open spec fn view(&self) -> ClassModel<'a> {
        ClassModel { name: self.name@, methods: self.methods@, superclass: self.superclass }
    }
}

impl<'a> View for ObjectStruct<'a> {
    type V = ObjectView<'a>;

    open spec fn view(&self) -> ObjectView<'a> {
        ObjectView { class: self.class, fields: bindings(self.fields@) }
    }
}

impl<'a> Value<'a> {
    /// Truthiness: `false` and `nil` are false; every other value is true,
    /// zero and the empty string included.
    pub fn is_truthy(&self) -> (r: bool)
        ensures
            r == truthy(self@),
    {
        match self {
            Value::Boolean(b) => *b,
            Value::Nil => false,
            _ => true,
        }
    }

    pub fn new_function(declaration: &'a FunDeclaration, environment: Environment, is_initializer: bool) -> (r:
        Value<'a>)
        ensures
            r == Value::Function(
                Function::UserDefined(UserDefined { declaration, environment, is_initializer }),
            ),
    {
        Value::Function(
            Function::UserDefined(Value::new_user_defined(declaration, environment, is_initializer)),
        )
    }

    pub fn new_user_defined(
        declaration: &'a FunDeclaration,
        environment: Environment,
        is_initializer: bool,
    ) -> (r: UserDefined<'a>)
        ensures
            r == (UserDefined { declaration, environment, is_initializer }),
    {
        UserDefined { environment, declaration, is_initializer }
    }
}

} // verus!
