//! Environments: what names stand for.

use crate::value::{Value, ValueView};
use vstd::hash_map::StringHashMap;
use vstd::prelude::*;

verus! {

/// What an environment is: a finite map from names to values.
pub type Env<N> = Map<Seq<char>, ValueView<N>>;

/// The contents of a table of values, name by name.
pub open spec fn table_view<N>(table: Map<Seq<char>, Value<N>>) -> Env<N> {
    table.map_values(|v: Value<N>| v@)
}

/// A map from names to values.
#[verifier::reject_recursive_types(N)]
pub struct Bindings<N>(StringHashMap<Value<N>>);

impl<N> View for Bindings<N> {
    type V = Env<N>;

    closed spec fn view(&self) -> Env<N> {
        table_view(self.0@)
    }
}

impl<N> Bindings<N> {
    /// The environment that holds what `bindings` holds.
    pub fn new(bindings: StringHashMap<Value<N>>) -> (r: Self)
        ensures
            r@ == table_view(bindings@),
    {
        Self(bindings)
    }

    /// The environment in which no name is bound.
    pub fn empty() -> (r: Self)
        ensures
            r@ == Map::<Seq<char>, ValueView<N>>::empty(),
    {
        let r = Self(StringHashMap::new());
        assert(r@ =~= Map::<Seq<char>, ValueView<N>>::empty());
        r
    }

    /// The table behind the environment.
    pub fn get_map(&self) -> (r: &StringHashMap<Value<N>>)
        ensures
            table_view(r@) == self@,
    {
        &self.0
    }

    /// The table behind the environment, the environment given up.
    pub fn into_map(self) -> (r: StringHashMap<Value<N>>)
        ensures
            table_view(r@) == self@,
    {
        self.0
    }

    /// Both environments together; where both bind a name, `other` decides.
    pub fn union_with(self, other: Bindings<N>) -> (r: Self)
        ensures
            r@ == self@.union_prefer_right(other@),
    {
        let mut table = self.0;
        table.union_prefer_right(other.0);
        let r = Self(table);
        assert(r@ =~= self@.union_prefer_right(other@));
        r
    }

    /// Binds `name` to `value`, in place of what it stood for before.
    pub fn add(&mut self, name: String, value: Value<N>)
        ensures
            final(self)@ == old(self)@.insert(name@, value@),
    {
        self.0.insert(name, value);
        assert(self@ =~= old(self)@.insert(name@, value@));
    }

    /// What `name` stands for; nothing where it is not bound.
    pub fn get_value(&self, name: &str) -> (r: Option<&Value<N>>)
        ensures
            self@.contains_key(name@) ==> (r matches Some(v) && v@ == self@[name@]),
            !self@.contains_key(name@) ==> r is None,
    {
        self.0.get(name)
    }
}

} // verus!
