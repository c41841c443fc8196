//! Programs as the machine takes them.

use crate::bindings::{Bindings, Env};
use crate::callable::{Callable, CallableView};
use crate::value::{Value, ValueView};
use vstd::prelude::*;

verus! {

/// A callable under the name by which programs call it.
#[derive(Debug)]
pub struct Definition<N> {
    pub name: String,
    pub callable: Callable<N>,
}

/// The mathematical content of a [`Definition`].
pub struct DefinitionView<N> {
    pub name: Seq<char>,
    pub callable: CallableView<N>,
}

impl<N> View for Definition<N> {
    type V = DefinitionView<N>;

    open spec fn view(&self) -> DefinitionView<N> {
        DefinitionView { name: self.name@, callable: self.callable@ }
    }
}

/// The callables of a compiled program, each under its name.
pub type FunctionMap<N> = Vec<Definition<N>>;

/// The contents of a list of definitions, one by one.
pub open spec fn definitions_view<N>(definitions: Seq<Definition<N>>) -> Seq<DefinitionView<N>> {
    definitions.map_values(|d: Definition<N>| d@)
}

/// The environment that the definitions make: each name stands for its
/// callable; where two have one name, the later one stands.
pub open spec fn definitions_env<N>(definitions: Seq<DefinitionView<N>>) -> Env<N>
    decreases definitions.len(),
{
    if definitions.len() == 0 {
        Map::empty()
    } else {
        definitions_env(definitions.drop_last()).insert(
            definitions.last().name,
            ValueView::Callable(definitions.last().callable),
        )
    }
}

/// A compiled program.
#[derive(Debug)]
pub struct Program<N> {
    pub function_map: FunctionMap<N>,
}

impl<N> Program<N> {
    /// The global environment in which each function of the program stands
    /// under its name.
    pub fn into_bindings(self) -> (r: Bindings<N>)
        ensures
            r@ == definitions_env(definitions_view(self.function_map@)),
    {
        let ghost all = definitions_view(self.function_map@);
        let mut bindings: Bindings<N> = Bindings::empty();
        assert(all.take(0) =~= Seq::<DefinitionView<N>>::empty());
        for definition in it: self.function_map
            invariant
                all == definitions_view(it.seq()),
                bindings@ == definitions_env(all.take(it.index() as int)),
        {
            proof {
                let k = it.index() as int;
                assert(all.take(k + 1).drop_last() =~= all.take(k));
                assert(all.take(k + 1).last() == definition@);
            }
            bindings.add(definition.name, Value::Callable(definition.callable));
        }
        assert(all.take(all.len() as int) =~= all);
        bindings
    }
}

} // verus!
