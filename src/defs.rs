use vstd::prelude::*;

verus! {

/// An identifier as written in source.
#[derive(Debug, PartialEq, Eq, Hash)]
pub struct Name {
    text: String,
}

impl View for Name {
    type V = Seq<char>;

    closed spec fn view(&self) -> Seq<char> {
        self.text@
    }
}

impl Name {
    pub fn new(text: &str) -> (r: Name)
        ensures
            r@ == text@,
    {
        Name { text: text.to_owned() }
    }

    pub fn as_str(&self) -> (r: &str)
        ensures
            r@ == self@,
    {
        self.text.as_str()
    }

    /// A second name with the same text.
    pub fn duplicate(&self) -> (r: Name)
        ensures
            r@ == self@,
    {
        Name { text: self.text.clone() }
    }

    pub fn same_as(&self, other: &Name) -> (r: bool)
        ensures
            r == (self@ == other@),
    {
        self.text == other.text
    }
}

/// A module handle: the crate it belongs to and its index in that crate's
/// module tree.
#[derive(Clone, Copy, Debug, PartialEq, Eq, Structural, Hash)]
pub struct Module {
    pub krate: usize,
    pub module_id: usize,
}

/// An enum: the crate it belongs to and its index in that crate's enum table.
#[derive(Clone, Copy, Debug, PartialEq, Eq, Structural, Hash)]
pub struct Enum {
    pub krate: usize,
    pub id: usize,
}

/// The variant at `index` of `parent`.
#[derive(Clone, Copy, Debug, PartialEq, Eq, Structural, Hash)]
pub struct EnumVariant {
    pub parent: Enum,
    pub index: usize,
}

/// Anything a path can name at module level.
#[derive(Clone, Copy, Debug, PartialEq, Eq, Structural, Hash)]
pub enum ModuleDef {
    Module(Module),
    Function(usize),
    Struct(usize),
    Enum(Enum),
    EnumVariant(EnumVariant),
    Const(usize),
    Static(usize),
    Trait(usize),
    Type(usize),
}

/// An import declaration, by its index among the imports of its module.
#[derive(Clone, Copy, Debug, PartialEq, Eq, Structural, Hash)]
pub struct ImportId {
    pub index: usize,
}

} // verus!
