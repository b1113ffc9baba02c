//! The run's flag set, as plain values. A command-line front end owns
//! the actual argument parsing and hands a filled [`Args`] to the library.

use vstd::prelude::*;

verus! {

/// Every flag and positional argument of one invocation.
pub struct Args {
    /// The pokemon to display; the token "random" or "0" draws one at random.
    pub pokemon: Vec<String>,
    /// Whether to hide the pokemon's name which appears above it.
    pub hide_name: bool,
    /// A free-form variant name, used when no dedicated form flag is set.
    pub form: String,
    /// Display the pokemon as its mega form.
    pub mega: bool,
    /// Display the pokemon as its mega X form.
    pub mega_x: bool,
    /// Display the pokemon as its mega Y form.
    pub mega_y: bool,
    /// Display the pokemon as shiny.
    pub shiny: bool,
    /// Display the alolan variant of the pokemon.
    pub alolan: bool,
    /// Display the gigantamax variant of the pokemon.
    pub gmax: bool,
    /// Display the hisui variant of the pokemon.
    pub hisui: bool,
    /// Display the noble variant of the pokemon; pairs with `hisui`.
    pub noble: bool,
    /// Display the galarian variant of the pokemon.
    pub galar: bool,
    /// Display the female variant of the pokemon if it exists.
    pub female: bool,
}

} // verus!
