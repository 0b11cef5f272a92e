use vstd::prelude::*;

verus! {

/// One of the two independent name universes.
#[derive(Clone, Copy, Debug, PartialEq, Eq, Structural, PartialOrd, Ord, Hash)]
pub enum Namespace {
    Types,
    Values,
}

/// A value per namespace: what a name denotes as a type and as a value.
#[derive(Debug, Copy, Clone, PartialEq, Eq, Hash)]
pub struct PerNs<T> {
    pub types: Option<T>,
    pub values: Option<T>,
}

impl<T> PerNs<T> {
    /// The slot of `namespace`.
    pub open spec fn slot(self, namespace: Namespace) -> Option<T> {
        match namespace {
            Namespace::Types => self.types,
            Namespace::Values => self.values,
        }
    }

    /// Slot-wise fallback: an occupied slot of `self` wins over `other`.
    pub open spec fn spec_or(self, other: PerNs<T>) -> PerNs<T> {
        PerNs {
            types: if self.types is Some { self.types } else { other.types },
            values: if self.values is Some { self.values } else { other.values },
        }
    }

    pub open spec fn spec_is_none(self) -> bool {
        self.types is None && self.values is None
    }

    pub fn none() -> (r: PerNs<T>)
        ensures
            r.types is None,
            r.values is None,
    {
        PerNs { types: None, values: None }
    }

    pub fn values(t: T) -> (r: PerNs<T>)
        ensures
            r.types is None,
            r.values == Some(t),
    {
        PerNs { types: None, values: Some(t) }
    }

    pub fn types(t: T) -> (r: PerNs<T>)
        ensures
            r.types == Some(t),
            r.values is None,
    {
        PerNs { types: Some(t), values: None }
    }

    pub fn both(types: T, values: T) -> (r: PerNs<T>)
        ensures
            r.types == Some(types),
            r.values == Some(values),
    {
        PerNs { types: Some(types), values: Some(values) }
    }

    pub fn is_none(&self) -> (r: bool)
        ensures
            r == self.spec_is_none(),
    {
        self.types.is_none() && self.values.is_none()
    }

    pub fn is_both(&self) -> (r: bool)
        ensures
            r == (self.types is Some && self.values is Some),
    {
        self.types.is_some() && self.values.is_some()
    }

    pub fn take(self, namespace: Namespace) -> (r: Option<T>)
        ensures
            r == self.slot(namespace),
    {
        match namespace {
            Namespace::Types => self.types,
            Namespace::Values => self.values,
        }
    }

    pub fn take_types(self) -> (r: Option<T>)
        ensures
            r == self.types,
    {
        self.take(Namespace::Types)
    }

    pub fn take_values(self) -> (r: Option<T>)
        ensures
            r == self.values,
    {
        self.take(Namespace::Values)
    }

    pub fn get(&self, namespace: Namespace) -> (r: Option<&T>)
        ensures
            r is Some <==> self.slot(namespace) is Some,
            r is Some ==> *(r->0) == self.slot(namespace)->0,
    {
        self.as_ref().take(namespace)
    }

    pub fn as_ref(&self) -> (r: PerNs<&T>)
        ensures
            r.types is Some <==> self.types is Some,
            r.types is Some ==> *(r.types->0) == self.types->0,
            r.values is Some <==> self.values is Some,
            r.values is Some ==> *(r.values->0) == self.values->0,
    {
        PerNs { types: self.types.as_ref(), values: self.values.as_ref() }
    }

    pub fn or(self, other: PerNs<T>) -> (r: PerNs<T>)
        ensures
            r == self.spec_or(other),
    {
        let types = match self.types {
            Some(t) => Some(t),
            None => other.types,
        };
        let values = match self.values {
            Some(t) => Some(t),
            None => other.values,
        };
        PerNs { types, values }
    }

    pub fn and_then<U, F: Fn(T) -> Option<U>>(self, f: F) -> (r: PerNs<U>)
        requires
            forall|t: T| f.requires((t,)),
        ensures
            self.types is None ==> r.types is None,
            self.types is Some ==> f.ensures((self.types->0,), r.types),
            self.values is None ==> r.values is None,
            self.values is Some ==> f.ensures((self.values->0,), r.values),
    {
        let types = match self.types {
            Some(t) => f(t),
            None => None,
        };
        let values = match self.values {
            Some(t) => f(t),
            None => None,
        };
        PerNs { types, values }
    }

    pub fn map<U, F: Fn(T) -> U>(self, f: F) -> (r: PerNs<U>)
        requires
            forall|t: T| f.requires((t,)),
        ensures
            self.types is None ==> r.types is None,
            self.types is Some ==> (r.types is Some && f.ensures((self.types->0,), r.types->0)),
            self.values is None ==> r.values is None,
            self.values is Some ==> (r.values is Some && f.ensures(
                (self.values->0,),
                r.values->0,
            )),
    {
        let types = match self.types {
            Some(t) => Some(f(t)),
            None => None,
        };
        let values = match self.values {
            Some(t) => Some(f(t)),
            None => None,
        };
        PerNs { types, values }
    }
}

impl<T> Default for PerNs<T> {
    fn default() -> (r: PerNs<T>)
        ensures
            r.types is None,
            r.values is None,
    {
        PerNs { types: None, values: None }
    }
}

} // verus!
