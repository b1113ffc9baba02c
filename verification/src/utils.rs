//! Small shared helpers: the process-wide random draw and the
//! derivation of a variant form name from the run's flags.

use vstd::prelude::*;

verus! {

use crate::cli::Args;
use crate::text::{all_digits, digits_val, parse_usize};

/// Relies on `rand::Rng::gen_range` over `rand::thread_rng`: returns a
/// uniformly distributed value of the non-empty range `0..n`. Nothing is
/// assumed beyond membership in the range.
#[verifier::external_body]
pub(crate) fn rand_below(n: usize) -> (r: usize)
    requires
        n > 0,
    ensures
        r < n,
{
    rand::Rng::gen_range(&mut rand::thread_rng(), 0..n)
}

/// Returns a random entry of a non-empty list of names.
pub fn random(list: &[&str]) -> (r: String)
    requires
        list@.len() > 0,
    ensures
        exists|i: int| 0 <= i < list@.len() && r@ == #[trigger] list@[i]@,
{
    let idx = rand_below(list.len());
    let ghost i = idx as int;
    String::from_str(list[idx])
}

/// True when the raw override text denotes a valid shiny rate: a
/// positive integer that fits the rate's type.
pub open spec fn valid_rate(s: Seq<char>) -> bool {
    all_digits(s) && 1 <= digits_val(s) <= u32::MAX
}

/// Reads the shiny-rate override out of the raw environment value: a
/// well-formed positive number is used as given; anything else — not a
/// digit run, zero, or a value too large for the rate — is malformed
/// and falls back to the default rate, flagged so the caller can warn.
/// An absent value is the default rate without a warning.
pub fn parse_shiny_rate(env: Option<&str>) -> (r: (u32, bool))
    ensures
        match env {
            None => r == (crate::pokemon::DEFAULT_SHINY_RATE, false),
            Some(s) => {
                if valid_rate(s@) {
                    r.0 == digits_val(s@) && r.1 == false
                } else {
                    r == (crate::pokemon::DEFAULT_SHINY_RATE, true)
                }
            },
        },
{
    match env {
        None => (crate::pokemon::DEFAULT_SHINY_RATE, false),
        Some(s) => {
            match parse_usize(s) {
                Some(v) => {
                    if 1 <= v && v <= u32::MAX as usize {
                        (v as u32, false)
                    } else {
                        (crate::pokemon::DEFAULT_SHINY_RATE, true)
                    }
                },
                None => (crate::pokemon::DEFAULT_SHINY_RATE, true),
            }
        },
    }
}

/// The base form chosen by the dedicated form flags, first match winning:
/// mega, mega-x, mega-y, alola, gmax, hisui, galar, then the free-form
/// `form` string.
pub open spec fn base_form_spec(args: Args) -> Seq<char> {
    if args.mega {
        "mega"@
    } else if args.mega_x {
        "mega-x"@
    } else if args.mega_y {
        "mega-y"@
    } else if args.alolan {
        "alola"@
    } else if args.gmax {
        "gmax"@
    } else if args.hisui {
        "hisui"@
    } else if args.galar {
        "galar"@
    } else {
        args.form@
    }
}

/// The full form name: the base form, with `-noble` appended whenever the
/// noble flag is set, even onto an empty base.
pub open spec fn form_spec(args: Args) -> Seq<char> {
    if args.noble {
        base_form_spec(args) + "-noble"@
    } else {
        base_form_spec(args)
    }
}

/// Uses the arguments like gmax, mega, etc. to get a form which is
/// appended to the pokemon filename. The noble flag appends `-noble` to
/// whatever base was chosen, including the empty one.
pub fn get_form(args: &Args) -> (r: String)
    ensures
        r@ == form_spec(*args),
{
    let mut form = if args.mega {
        String::from_str("mega")
    } else if args.mega_x {
        String::from_str("mega-x")
    } else if args.mega_y {
        String::from_str("mega-y")
    } else if args.alolan {
        String::from_str("alola")
    } else if args.gmax {
        String::from_str("gmax")
    } else if args.hisui {
        String::from_str("hisui")
    } else if args.galar {
        String::from_str("galar")
    } else {
        args.form.clone()
    };
    if args.noble {
        form.append("-noble");
    }
    form
}

/// The dedicated form flags override the free-form string with a fixed
/// precedence: with mega set, the base form is mega no matter which other
/// variant flags are set alongside it.
pub proof fn lemma_form_precedence(args: Args)
    requires
        args.mega,
    ensures
        base_form_spec(args) == "mega"@,
{
}

/// The noble suffix composes with any base form: whenever the noble flag
/// is set, the full form is the base form with `-noble` appended.
pub proof fn lemma_noble_suffix(args: Args)
    requires
        args.noble,
    ensures
        form_spec(args) == base_form_spec(args) + "-noble"@,
{
}

/// The hisui flag together with the noble flag yields the literal form
/// `hisui-noble` when no higher-precedence flag is set.
pub proof fn lemma_hisui_noble(args: Args)
    requires
        args.hisui,
        args.noble,
        !args.mega,
        !args.mega_x,
        !args.mega_y,
        !args.alolan,
        !args.gmax,
    ensures
        form_spec(args) == "hisui-noble"@,
{
    reveal_strlit("hisui");
    reveal_strlit("-noble");
    reveal_strlit("hisui-noble");
    assert(form_spec(args) =~= "hisui-noble"@);
}

/// The noble flag alone, over an empty free-form string, yields the
/// literal form `-noble`: the suffix is applied even to an empty base.
pub proof fn lemma_noble_alone(args: Args)
    requires
        args.noble,
        !args.mega,
        !args.mega_x,
        !args.mega_y,
        !args.alolan,
        !args.gmax,
        !args.hisui,
        !args.galar,
        args.form@ == Seq::<char>::empty(),
    ensures
        form_spec(args) == "-noble"@,
{
    assert(form_spec(args) =~= "-noble"@);
}

} // verus!
