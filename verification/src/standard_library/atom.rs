//! Atoms: cells that hold a value and the functions that watch it.
//!
//! An atom lives in the store, and the value `Atom` of the language is a
//! handle to it: copies of the handle are the same atom. The single thread of
//! control that steps all processes is the only one to touch the store, so an
//! atom needs no lock.

use crate::environment::{binding_models, extended, fits, Environment, Store};
use crate::expressions::{copy_values, models, Builtin, RuntimeExpression, Value};
use crate::persistent::Slots;
use crate::standard_library::function_bound;
use vstd::prelude::*;

verus! {

/// What an atom holds.
#[derive(PartialEq, Debug)]
pub struct Atom {
    value: RuntimeExpression,
    watchers: Vec<RuntimeExpression>,
}

/// The model of an `Atom`.
pub struct AtomModel {
    pub value: Value,
    pub watchers: Seq<Value>,
}

impl View for Atom {
    type V = AtomModel;

    closed spec fn view(&self) -> AtomModel {
        AtomModel { value: self.value@, watchers: models(self.watchers@) }
    }
}

impl Clone for Atom {
    fn clone(&self) -> (copy: Atom)
        ensures
            copy@ == self@,
    {
        Atom { value: self.value.clone(), watchers: copy_values(&self.watchers) }
    }
}

/// The models of a sequence of atoms.
pub open spec fn atom_models(atoms: Seq<Atom>) -> Seq<AtomModel> {
    Seq::new(atoms.len(), |i: int| atoms[i]@)
}

/// The atom that holds the given value and watchers.
pub open spec fn holding(value: Value, watchers: Seq<Value>) -> AtomModel {
    AtomModel { value, watchers }
}

impl Atom {
    /// An atom that holds `value`, watched by `watchers`.
    pub fn new(value: RuntimeExpression, watchers: Vec<RuntimeExpression>) -> (atom: Atom)
        ensures
            atom@ == holding(value@, models(watchers@)),
    {
        Atom { value, watchers }
    }

    /// The value that the atom holds.
    pub fn get(self) -> (value: RuntimeExpression)
        ensures
            value@ == self@.value,
    {
        self.value
    }

    /// The functions that watch the atom.
    pub fn watchers(self) -> (watchers: Vec<RuntimeExpression>)
        ensures
            models(watchers@) == self@.watchers,
    {
        self.watchers
    }
}

/// The names of the native functions on atoms, each with its value.
pub open spec fn atom_bindings() -> Seq<(Seq<char>, Value)> {
    seq![function_bound("atom"@, Builtin::Atom), function_bound("get"@, Builtin::Get)]
}

/// The environment that holds the native functions on atoms, and nothing
/// else: `atom`, which takes a value and a list of watchers and makes an
/// atom of them, and `get`, which takes an atom and returns its value.
pub fn atom_builtins(store: &mut Store) -> (environment: Environment)
    ensures
        (environment@, final(store)@) == extended(
            Slots::empty(),
            atom_bindings(),
            atom_bindings().len(),
            old(store)@,
        ),
        fits(environment@, final(store)@),
        final(store)@.extends(old(store)@),
{
    let mut bindings: Vec<(String, RuntimeExpression)> = Vec::new();
    bindings.push((String::from_str("atom"), RuntimeExpression::BuiltinFunction(Builtin::Atom)));
    bindings.push((String::from_str("get"), RuntimeExpression::BuiltinFunction(Builtin::Get)));
    proof {
        assert(binding_models(bindings@) =~= atom_bindings());
    }
    Environment::from(&bindings, store)
}

} // verus!
