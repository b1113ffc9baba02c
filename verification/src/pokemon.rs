//! Selection resolution and variant attributes: classifying a raw token,
//! resolving it to a canonical filename, and turning the run's flags into
//! a form name, gender and shininess that the path builder consumes.

use vstd::prelude::*;

verus! {

use crate::cli::Args;
use crate::text::{
    all_digits, chars_of, digits_val, lower_seq, lower_vec, parse_usize, sanitized, string_of,
    trim_spaces, trimmed, vec_eq_str, sanitize,
};
use crate::list::List;
use crate::sprites::{decode_sprite, decoded_image, decoded_of, trim, trims_to, Bitmap};
use crate::utils::{form_spec, get_form, parse_shiny_rate, rand_below, valid_rate};

/// The default denominator of the random shiny draw: one in this many.
pub const DEFAULT_SHINY_RATE: u32 = 8192;

/// The reasons a token or its sprite cannot be resolved.
#[derive(Clone, Copy, PartialEq, Eq, Structural, Debug)]
pub enum PokeError {
    /// A numeric token outside the registry's range, carrying the
    /// 1-based number the user typed.
    InvalidDexId(usize),
    /// No asset exists under any candidate path.
    AssetNotFound,
    /// The fetched bytes do not decode as an image.
    MalformedImageData,
}

/// Enum used to store each region.
#[derive(Clone, Copy, PartialEq, Eq, Structural, Debug)]
pub enum Region {
    Kanto,
    Johto,
    Hoenn,
    Sinnoh,
    Unova,
    Kalos,
    Alola,
    Galar,
}

/// The first index of the contiguous block of a region.
pub open spec fn region_lo(r: Region) -> int {
    match r {
        Region::Kanto => 0,
        Region::Johto => 152,
        Region::Hoenn => 252,
        Region::Sinnoh => 387,
        Region::Unova => 494,
        Region::Kalos => 650,
        Region::Alola => 722,
        Region::Galar => 810,
    }
}

/// The last index of the contiguous block of a region.
pub open spec fn region_hi(r: Region) -> int {
    match r {
        Region::Kanto => 151,
        Region::Johto => 251,
        Region::Hoenn => 386,
        Region::Sinnoh => 493,
        Region::Unova => 649,
        Region::Kalos => 721,
        Region::Alola => 809,
        Region::Galar => 905,
    }
}

impl Region {
    /// The last index of this region's block, for callers that must
    /// check that a registry covers the block before drawing from it.
    pub fn last_index(&self) -> (r: usize)
        ensures
            r as int == region_hi(*self),
    {
        match self {
            Region::Kanto => 151,
            Region::Johto => 251,
            Region::Hoenn => 386,
            Region::Sinnoh => 493,
            Region::Unova => 649,
            Region::Kalos => 721,
            Region::Alola => 809,
            Region::Galar => 905,
        }
    }
}

/// The lowercase token that selects a region.
pub open spec fn region_token(r: Region) -> Seq<char> {
    match r {
        Region::Kanto => "kanto"@,
        Region::Johto => "johto"@,
        Region::Hoenn => "hoenn"@,
        Region::Sinnoh => "sinnoh"@,
        Region::Unova => "unova"@,
        Region::Kalos => "kalos"@,
        Region::Alola => "alola"@,
        Region::Galar => "galar"@,
    }
}

/// True when the token is a run of ASCII digits whose value fits a `usize`.
pub open spec fn is_numeric(s: Seq<char>) -> bool {
    all_digits(s) && digits_val(s) <= usize::MAX
}

/// Enum used to assist parsing user input.
///
/// It can sort all types of inputs, and then evaluate them to a filename.
pub enum Selection {
    /// When a random pokemon is selected (`0` or `random`).
    Random,
    /// When a region is selected (e.g. Kanto).
    Region(Region),
    /// When a DexID is selected (number larger than 0).
    DexId(usize),
    /// When a pokemon name/id is selected.
    Name(String),
}

impl Selection {
    /// Parses a raw argument into a [`Selection`]: a digit run selects by
    /// number (`0` drawing at random), and otherwise the token is matched
    /// case-insensitively (ASCII case only) against `random` and the
    /// region names before it passes through unchanged as a name.
    pub fn parse(arg: String) -> (r: Selection)
        ensures
            match r {
                Selection::Random => (is_numeric(arg@) && digits_val(arg@) == 0) || (!is_numeric(
                    arg@,
                ) && lower_seq(arg@) == "random"@),
                Selection::DexId(i) => is_numeric(arg@) && digits_val(arg@) == i + 1,
                Selection::Region(reg) => !is_numeric(arg@) && lower_seq(arg@) == region_token(
                    reg,
                ),
                Selection::Name(s) => s@ == arg@ && !is_numeric(arg@) && lower_seq(arg@)
                    != "random"@ && forall|reg: Region| lower_seq(arg@) != #[trigger] region_token(
                    reg,
                ),
            },
    {
        match parse_usize(arg.as_str()) {
            Some(id) => {
                if id == 0 {
                    Selection::Random
                } else {
                    Selection::DexId(id - 1)
                }
            },
            None => {
                let low = lower_vec(arg.as_str());
                if vec_eq_str(&low, "random") {
                    Selection::Random
                } else if vec_eq_str(&low, "kanto") {
                    Selection::Region(Region::Kanto)
                } else if vec_eq_str(&low, "johto") {
                    Selection::Region(Region::Johto)
                } else if vec_eq_str(&low, "hoenn") {
                    Selection::Region(Region::Hoenn)
                } else if vec_eq_str(&low, "sinnoh") {
                    Selection::Region(Region::Sinnoh)
                } else if vec_eq_str(&low, "unova") {
                    Selection::Region(Region::Unova)
                } else if vec_eq_str(&low, "kalos") {
                    Selection::Region(Region::Kalos)
                } else if vec_eq_str(&low, "alola") {
                    Selection::Region(Region::Alola)
                } else if vec_eq_str(&low, "galar") {
                    Selection::Region(Region::Galar)
                } else {
                    proof {
                        assert forall|reg: Region| lower_seq(arg@) != #[trigger] region_token(
                            reg,
                        ) by {
                            match reg {
                                Region::Kanto => assert(lower_seq(arg@) != "kanto"@),
                                Region::Johto => assert(lower_seq(arg@) != "johto"@),
                                Region::Hoenn => assert(lower_seq(arg@) != "hoenn"@),
                                Region::Sinnoh => assert(lower_seq(arg@) != "sinnoh"@),
                                Region::Unova => assert(lower_seq(arg@) != "unova"@),
                                Region::Kalos => assert(lower_seq(arg@) != "kalos"@),
                                Region::Alola => assert(lower_seq(arg@) != "alola"@),
                                Region::Galar => assert(lower_seq(arg@) != "galar"@),
                            }
                        }
                    }
                    Selection::Name(arg)
                }
            },
        }
    }

    /// Evaluates the selection and returns a pokemon filename. A dex ID
    /// beyond the registry is reported as [`PokeError::InvalidDexId`],
    /// carrying the 1-based number the user typed.
    pub fn eval(self, list: &List) -> (r: Result<String, PokeError>)
        requires
            list.wf(),
            self is Random ==> list.count() > 0,
            self matches Selection::Region(reg) ==> region_hi(reg) < list.count(),
            self matches Selection::DexId(i) ==> i < usize::MAX,
        ensures
            match self {
                Selection::Random => r matches Ok(name) && list.has_filename(name@),
                Selection::Region(reg) => r matches Ok(name) && (exists|k: int|
                    region_lo(reg) <= k <= region_hi(reg) && #[trigger] list.id_map()[k]
                        == name@),
                Selection::DexId(i) => if i < list.count() {
                    r matches Ok(name) && name@ == list.id_map()[i as int]
                } else {
                    r == Err::<String, PokeError>(PokeError::InvalidDexId((i + 1) as usize))
                },
                Selection::Name(s) => r matches Ok(name) && name@ == s@,
            },
    {
        match self {
            Selection::Random => Ok(list.random()),
            Selection::Region(region) => Ok(list.get_by_region(region)),
            Selection::DexId(id) => match list.get_by_id(id) {
                Some(s) => Ok(s),
                None => Err(PokeError::InvalidDexId(id + 1)),
            },
            Selection::Name(name) => Ok(name),
        }
    }

    /// True for the selections that were drawn at random (the `random`
    /// token or a region): they suppress form and female path segments.
    pub fn suppresses_variants(&self) -> (r: bool)
        ensures
            r == (self is Random || self is Region),
    {
        match self {
            Selection::Random => true,
            Selection::Region(_) => true,
            _ => false,
        }
    }
}

/// The struct used to represent a Pokemon's data: its asset path,
/// formatted name, trimmed sprite, and the run's attributes.
pub struct Pokemon {
    /// The path of the Pokemon in the sprite set, e.g. `regular/abra.png`.
    pub path: String,
    /// The formatted name of the pokemon, usually gotten from a [`List`].
    pub name: String,
    /// The sprite of the Pokemon, trimmed to its opaque bounding box.
    pub sprite: Bitmap,
    /// Data, like the form and whether a pokemon is shiny or not.
    pub attributes: Attributes,
}

impl Pokemon {
    /// Creates a new pokemon from the bytes fetched for its asset path:
    /// decodes them, trims the sprite and formats the display name.
    pub fn new(
        path: String,
        filename: &str,
        bytes: &[u8],
        list: &List,
        attributes: &Attributes,
    ) -> (r: Result<Pokemon, PokeError>)
        requires
            list.wf(),
        ensures
            decoded_of(bytes@) is None ==> r == Err::<Pokemon, PokeError>(
                PokeError::MalformedImageData,
            ),
            decoded_of(bytes@) matches Some(t) ==> (r matches Ok(p) && p.path@ == path@ && p.name@
                == list.display_name_spec(filename@) && p.sprite@.wf() && trims_to(
                decoded_image(t),
                p.sprite@,
            ) && p.attributes.form@ == attributes.form@ && p.attributes.female
                == attributes.female && p.attributes.shiny == attributes.shiny),
    {
        let sprite = match decode_sprite(bytes) {
            Ok(b) => b,
            Err(e) => {
                return Err(e);
            },
        };
        let trimmed = trim(&sprite);
        Ok(
            Pokemon {
                path,
                name: list.format_name(filename),
                sprite: trimmed,
                attributes: Attributes {
                    form: attributes.form.clone(),
                    female: attributes.female,
                    shiny: attributes.shiny,
                },
            },
        )
    }
}

/// Handles parsing the form, as well as whether a pokemon is female or shiny.
pub struct Attributes {
    /// The variant form name appended to the filename, possibly empty.
    pub form: String,
    /// Whether the female sprite is requested.
    pub female: bool,
    /// Whether the shiny sprite is requested.
    pub shiny: bool,
}

/// The asset path determined by the attributes for one canonical name:
/// the sanitized, trimmed filename (with the form appended unless the
/// selection was random- or region-derived) under a `shiny/` or
/// `regular/` prefix and an optional `female/` segment. Lowercasing and
/// the final trim work on ASCII letters and whitespace; characters
/// beyond ASCII pass through unchanged.
pub open spec fn path_spec(attrs: Attributes, name: Seq<char>, is_rand: bool) -> Seq<char> {
    let base = if attrs.form@.len() > 0 && !is_rand {
        name + seq!['-'] + attrs.form@
    } else {
        name
    };
    let fname = trimmed(sanitized(base));
    let prefix = if attrs.shiny {
        "shiny/"@
    } else {
        "regular/"@
    };
    let gender = if attrs.female && !is_rand {
        "female/"@
    } else {
        Seq::<char>::empty()
    };
    prefix + gender + fname + ".png"@
}

/// The path builder is deterministic: the path depends on nothing but
/// the attribute values, the canonical name and the selection kind.
pub proof fn lemma_path_deterministic(a: Attributes, b: Attributes, name: Seq<char>, is_rand: bool)
    requires
        a.form@ == b.form@,
        a.shiny == b.shiny,
        a.female == b.female,
    ensures
        path_spec(a, name, is_rand) == path_spec(b, name, is_rand),
{
}

/// Random- and region-derived selections suppress the variant segments:
/// once the suppression flag is set, the path ignores the form string
/// and the female flag entirely, whatever they hold.
pub proof fn lemma_variant_suppression(a: Attributes, b: Attributes, name: Seq<char>)
    requires
        a.shiny == b.shiny,
    ensures
        path_spec(a, name, true) == path_spec(b, name, true),
{
}

impl Attributes {
    /// Make a new [`Attributes`] from the parsed command line arguments
    /// and the raw shiny-rate override, if one is configured in the
    /// environment. Beside the attributes it returns whether a malformed
    /// override — anything but a positive integer that fits the rate —
    /// was replaced by the default rate, so the caller can warn. An
    /// override of one makes every draw succeed, so the result is then
    /// always shiny.
    pub fn new(args: &Args, shiny_rate_env: Option<&str>) -> (r: (Attributes, bool))
        ensures
            r.0.form@ == form_spec(*args),
            r.0.female == args.female,
            args.shiny ==> r.0.shiny,
            (shiny_rate_env matches Some(s) && valid_rate(s@) && digits_val(s@) == 1)
                ==> r.0.shiny,
            r.1 == (shiny_rate_env matches Some(s) && !valid_rate(s@)),
    {
        let form = get_form(args);
        let (rate, warned) = parse_shiny_rate(shiny_rate_env);
        let shiny = args.shiny || rate_is_shiny(rate);
        (Attributes { form, female: args.female, shiny }, warned)
    }

    /// Formats the attributes and a canonical filename into a completed
    /// asset path. `random` and `region` say how the name was selected;
    /// either one suppresses the form suffix and the female segment.
    pub fn path(&self, name: &str, random: bool, region: bool) -> (r: String)
        ensures
            r@ == path_spec(*self, name@, random || region),
    {
        let is_rand = random || region;
        let mut base = chars_of(name);
        if !self.form.as_str().is_empty() && !is_rand {
            base.push('-');
            let fc = chars_of(self.form.as_str());
            let mut i: usize = 0;
            while i < fc.len()
                invariant
                    i <= fc@.len(),
                    fc@ == self.form@,
                    base@ =~= name@ + seq!['-'] + fc@.take(i as int),
                decreases fc@.len() - i,
            {
                base.push(fc[i]);
                assert(base@ =~= name@ + seq!['-'] + fc@.take(i + 1));
                i = i + 1;
            }
            assert(base@ =~= name@ + seq!['-'] + self.form@);
        }
        let fname = trim_spaces(&sanitize(&base));
        let mut out = if self.shiny {
            String::from_str("shiny/")
        } else {
            String::from_str("regular/")
        };
        if self.female && !is_rand {
            out.append("female/");
        }
        let fs = string_of(&fname);
        out.append(fs.as_str());
        out.append(".png");
        proof {
            assert(out@ =~= path_spec(*self, name@, is_rand));
        }
        out
    }
}

/// Determine whether a pokemon should be shiny by drawing one value of
/// `0..rate` and succeeding on zero. Of a chance outcome only this much
/// holds always: a rate of one leaves the draw no room, so it succeeds.
fn rate_is_shiny(rate: u32) -> (r: bool)
    requires
        rate >= 1,
    ensures
        rate == 1 ==> r,
{
    rand_below(rate as usize) == 0
}

} // verus!
