//! A parsed representation of the static name table.
//!
//! Used to derive filenames from Pokedex IDs, and to format image
//! filenames back into proper pokemon names. The two lookup directions
//! are backed by a bidirectional hash map whose pairs are, by
//! construction, unique in both directions.

use vstd::prelude::*;

verus! {

use vstd::pervasive::unreached;

use crate::pokemon::{region_hi, region_lo, Region};
use crate::text::{chars_of, string_of, subvec};
use crate::utils::rand_below;

#[verifier::external_type_specification]
#[verifier::external_body]
#[verifier::reject_recursive_types(L)]
#[verifier::reject_recursive_types(R)]
#[verifier::reject_recursive_types(LS)]
#[verifier::reject_recursive_types(RS)]
pub struct ExBiHashMap<L, R, LS, RS>(bimap::BiHashMap<L, R, LS, RS>);

/// The pairs a bidirectional map holds, as a mapping from left values
/// to the right values' characters.
pub uninterp spec fn bi_ids(m: bimap::BiHashMap<usize, String>) -> Map<int, Seq<char>>;

/// Relies on `bimap::BiHashMap::new`: the created map holds no pairs.
#[verifier::external_body]
fn bimap_new() -> (r: bimap::BiHashMap<usize, String>)
    ensures
        (bi_ids(r) == Map::<int, Seq<char>>::empty()),
{
    bimap::BiHashMap::new()
}

/// Relies on `bimap::BiHashMap::insert_no_overwrite`: the pair is
/// inserted only when neither of its values is already present in the
/// map; otherwise the map is left unchanged and an error is returned.
#[verifier::external_body]
fn bimap_insert_new(m: &mut bimap::BiHashMap<usize, String>, id: usize, name: String) -> (ok: bool)
    ensures
        ok ==> !bi_ids(*old(m)).dom().contains(id as int) && (forall|k: int|
            bi_ids(*old(m)).dom().contains(k) ==> bi_ids(*old(m))[k] != name@) && bi_ids(
            *final (m),
        ) == bi_ids(*old(m)).insert(id as int, name@),
        !ok ==> bi_ids(*final (m)) == bi_ids(*old(m)) && (bi_ids(*old(m)).dom().contains(id as int)
            || exists|k: int|
            bi_ids(*old(m)).dom().contains(k) && bi_ids(*old(m))[k] == name@),
{
    m.insert_no_overwrite(id, name).is_ok()
}

/// Relies on `bimap::BiHashMap::get_by_left`: returns the right value
/// paired with the given left value, if the left value is present.
#[verifier::external_body]
fn bimap_get_by_left(m: &bimap::BiHashMap<usize, String>, id: usize) -> (r: Option<String>)
    ensures
        match r {
            Some(s) => bi_ids(*m).dom().contains(id as int) && s@ == bi_ids(*m)[id as int],
            None => !bi_ids(*m).dom().contains(id as int),
        },
{
    m.get_by_left(&id).cloned()
}

/// Relies on `bimap::BiHashMap::get_by_right`: returns the left value
/// paired with the given right value, if the right value is present.
#[verifier::external_body]
fn bimap_get_by_right(m: &bimap::BiHashMap<usize, String>, name: &str) -> (r: Option<usize>)
    ensures
        match r {
            Some(k) => bi_ids(*m).dom().contains(k as int) && bi_ids(*m)[k as int] == name@,
            None => forall|k: int| bi_ids(*m).dom().contains(k) ==> bi_ids(*m)[k] != name@,
        },
{
    m.get_by_right(name).copied()
}

/// What one character of a filename contributes to the raw fallback
/// display name: hyphens become spaces and apostrophes vanish.
pub open spec fn fmt_char(c: char) -> Seq<char> {
    if c == '-' {
        seq![' ']
    } else if c == '\'' {
        Seq::<char>::empty()
    } else {
        seq![c]
    }
}

/// The raw fallback transform of a whole filename, before title-casing.
pub open spec fn despecialized(s: Seq<char>) -> Seq<char>
    decreases s.len(),
{
    if s.len() == 0 {
        Seq::<char>::empty()
    } else {
        despecialized(s.drop_last()) + fmt_char(s.last())
    }
}

/// The title-cased form of a character sequence, as the inflector
/// library computes it. It depends on the characters alone.
pub uninterp spec fn title_case_of(s: Seq<char>) -> Seq<char>;

/// The cosmetic display name derived from an unregistered filename.
pub open spec fn fallback_name(f: Seq<char>) -> Seq<char> {
    title_case_of(despecialized(f))
}

/// Relies on `inflector::cases::titlecase::to_title_case`: the result is
/// a function of the input characters alone.
#[verifier::external_body]
fn title_case(s: &str) -> (r: String)
    ensures
        r@ == title_case_of(s@),
{
    inflector::cases::titlecase::to_title_case(s)
}

/// Replaces hyphens with spaces and strips apostrophes.
fn despecialize(s: &Vec<char>) -> (r: Vec<char>)
    ensures
        r@ == despecialized(s@),
{
    let mut r: Vec<char> = Vec::new();
    let mut i: usize = 0;
    while i < s.len()
        invariant
            i <= s@.len(),
            r@ == despecialized(s@.take(i as int)),
        decreases s@.len() - i,
    {
        let c = s[i];
        if c == '-' {
            r.push(' ');
        } else if c == '\'' {
            // stripped
        } else {
            r.push(c);
        }
        proof {
            assert(s@.take(i + 1).drop_last() =~= s@.take(i as int));
            assert(s@.take(i + 1).last() == s@[i as int]);
            assert(r@ =~= despecialized(s@.take(i as int)) + fmt_char(s@[i as int]));
        }
        i = i + 1;
    }
    assert(s@.take(s@.len() as int) =~= s@);
    r
}

/// The index of the first occurrence of a character, or the length of
/// the sequence when the character does not occur.
pub open spec fn first_at(s: Seq<char>, c: char) -> int
    decreases s.len(),
{
    if s.len() == 0 {
        0
    } else if s[0] == c {
        0
    } else {
        1 + first_at(s.drop_first(), c)
    }
}

/// `first_at` equals the position of the first occurrence.
proof fn lemma_first_at(s: Seq<char>, c: char, j: int)
    requires
        0 <= j <= s.len(),
        forall|t: int| 0 <= t < j ==> s[t] != c,
        j < s.len() ==> s[j] == c,
    ensures
        first_at(s, c) == j,
    decreases j,
{
    if j == 0 {
    } else {
        lemma_first_at(s.drop_first(), c, j - 1);
    }
}

/// A line with its trailing carriage return removed, if it has one.
pub open spec fn strip_cr(line: Seq<char>) -> Seq<char> {
    if line.len() > 0 && line.last() == '\r' {
        line.drop_last()
    } else {
        line
    }
}

/// The rows of the two-column name table: one `display-name,filename`
/// record per line, lines ending in a newline (a trailing carriage
/// return is tolerated), empty lines skipped. A line without a comma,
/// or with more than one, is malformed and spoils the whole table.
pub open spec fn csv_rows(s: Seq<char>) -> Option<Seq<(Seq<char>, Seq<char>)>>
    decreases s.len(),
{
    if s.len() == 0 {
        Some(Seq::<(Seq<char>, Seq<char>)>::empty())
    } else {
        let j = first_at(s, '\n');
        let line = strip_cr(s.take(j));
        let rest = if 0 <= j && j < s.len() {
            s.skip(j + 1)
        } else {
            Seq::<char>::empty()
        };
        match csv_rows(rest) {
            None => None,
            Some(tail) => {
                if line.len() == 0 {
                    Some(tail)
                } else {
                    let k = first_at(line, ',');
                    if k == line.len() {
                        None
                    } else if first_at(line.skip(k + 1), ',') < line.len() - k - 1 {
                        None
                    } else {
                        Some(seq![(line.take(k), line.skip(k + 1))] + tail)
                    }
                }
            },
        }
    }
}

/// The rows a vector of owned string pairs stands for.
spec fn rows_view(v: Seq<(String, String)>) -> Seq<(Seq<char>, Seq<char>)> {
    Seq::new(v.len(), |i: int| (v[i].0@, v[i].1@))
}

/// Prepends already-parsed rows onto the outcome of parsing a remainder.
spec fn csv_append(
    acc: Seq<(Seq<char>, Seq<char>)>,
    o: Option<Seq<(Seq<char>, Seq<char>)>>,
) -> Option<Seq<(Seq<char>, Seq<char>)>> {
    match o {
        None => None,
        Some(t) => Some(acc + t),
    }
}

/// Splits the raw table text into its rows.
#[verifier::rlimit(100)]
fn parse_csv(text: &str) -> (r: Option<Vec<(String, String)>>)
    ensures
        match r {
            Some(v) => (csv_rows(text@) == Some(rows_view(v@))),
            None => csv_rows(text@) is None,
        },
{
    let chars = chars_of(text);
    let ghost s = chars@;
    let n = chars.len();
    let mut rows: Vec<(String, String)> = Vec::new();
    let mut pos: usize = 0;
    proof {
        assert(s.skip(0) =~= s);
        assert(rows_view(rows@) =~= Seq::<(Seq<char>, Seq<char>)>::empty());
        if csv_rows(s) is Some {
            let all = csv_rows(s)->Some_0;
            assert(rows_view(rows@) + all =~= all);
        }
    }
    while pos < n
        invariant
            n == s.len(),
            s == text@,
            chars@ == s,
            pos <= n,
            csv_rows(s) == csv_append(rows_view(rows@), csv_rows(s.skip(pos as int))),
        decreases n - pos,
    {
        let ghost sp = s.skip(pos as int);
        // find the end of the line
        let mut j: usize = pos;
        while j < n && chars[j] != '\n'
            invariant
                n == s.len(),
                chars@ == s,
                pos <= j <= n,
                forall|t: int| pos <= t < j ==> s[t] != '\n',
            decreases n - j,
        {
            j = j + 1;
        }
        proof {
            assert forall|t: int| 0 <= t < j - pos implies sp[t] != '\n' by {
                assert(sp[t] == s[t + pos]);
            }
            if (j as int) < n {
                assert(sp[j - pos] == s[j as int]);
            }
            lemma_first_at(sp, '\n', j - pos);
        }
        // drop a trailing carriage return
        let end: usize = if j > pos && chars[j - 1] == '\r' {
            j - 1
        } else {
            j
        };
        let ghost line = strip_cr(sp.take(j - pos));
        proof {
            assert(sp.take(j - pos) =~= s.subrange(pos as int, j as int));
            assert(line =~= s.subrange(pos as int, end as int));
        }
        let next: usize = if j < n {
            j + 1
        } else {
            n
        };
        let ghost rest = if (j as int) < s.len() {
            sp.skip(j - pos + 1)
        } else {
            Seq::<char>::empty()
        };
        proof {
            assert(rest =~= s.skip(next as int));
            assert(csv_rows(sp) == match csv_rows(rest) {
                None => None::<Seq<(Seq<char>, Seq<char>)>>,
                Some(tail) => {
                    if line.len() == 0 {
                        Some(tail)
                    } else {
                        let k = first_at(line, ',');
                        if k == line.len() {
                            None
                        } else if first_at(line.skip(k + 1), ',') < line.len() - k - 1 {
                            None
                        } else {
                            Some(seq![(line.take(k), line.skip(k + 1))] + tail)
                        }
                    }
                },
            });
        }
        if end == pos {
            // empty line: skip it
            proof {
                assert(csv_rows(sp) == csv_rows(rest));
            }
            pos = next;
            continue;
        }
        // find the column separator
        let mut k: usize = pos;
        while k < end && chars[k] != ','
            invariant
                n == s.len(),
                chars@ == s,
                pos <= k <= end <= n,
                forall|t: int| pos <= t < k ==> s[t] != ',',
            decreases end - k,
        {
            k = k + 1;
        }
        proof {
            assert forall|t: int| 0 <= t < k - pos implies line[t] != ',' by {
                assert(line[t] == s[t + pos]);
            }
            if (k as int) < end {
                assert(line[k - pos] == s[k as int]);
            }
            lemma_first_at(line, ',', k - pos);
        }
        if k == end {
            // no comma: the line is malformed
            proof {
                assert(first_at(line, ',') == line.len());
                assert(csv_rows(sp) is None);
            }
            return None;
        }
        // reject a second comma
        let mut t: usize = k + 1;
        while t < end && chars[t] != ','
            invariant
                n == s.len(),
                chars@ == s,
                k < t <= end <= n,
                forall|u: int| k < u < t ==> s[u] != ',',
            decreases end - t,
        {
            t = t + 1;
        }
        let ghost tailline = line.skip(k - pos + 1);
        proof {
            assert(tailline =~= s.subrange(k + 1, end as int));
            assert forall|u: int| 0 <= u < t - k - 1 implies tailline[u] != ',' by {
                assert(tailline[u] == s[u + k + 1]);
            }
            if (t as int) < end {
                assert(tailline[t - k - 1] == s[t as int]);
            }
            lemma_first_at(tailline, ',', t - k - 1);
        }
        if t < end {
            proof {
                assert(first_at(tailline, ',') < line.len() - (k - pos) - 1);
                assert(csv_rows(sp) is None);
            }
            return None;
        }
        let name = string_of(&subvec(&chars, pos, k));
        let fname = string_of(&subvec(&chars, k + 1, end));
        proof {
            assert(name@ =~= line.take(k - pos));
            assert(fname@ =~= tailline);
            assert(first_at(tailline, ',') == line.len() - (k - pos) - 1);
            assert(csv_rows(sp) == csv_append(
                seq![(line.take(k - pos), line.skip(k - pos + 1))],
                csv_rows(rest),
            ));
        }
        rows.push((name, fname));
        proof {
            assert(rows_view(rows@) =~= rows_view(rows@.drop_last()) + seq![
                (line.take(k - pos), line.skip(k - pos + 1)),
            ]);
            if csv_rows(rest) is Some {
                let tail = csv_rows(rest)->Some_0;
                assert(rows_view(rows@.drop_last()) + (seq![
                    (line.take(k - pos), line.skip(k - pos + 1)),
                ] + tail) =~= rows_view(rows@) + tail);
            }
        }
        pos = next;
    }
    proof {
        assert(s.skip(n as int) =~= Seq::<char>::empty());
        assert(csv_rows(s.skip(n as int)) == Some(Seq::<(Seq<char>, Seq<char>)>::empty()));
        if csv_rows(s) is Some {
            assert(rows_view(rows@) + Seq::<(Seq<char>, Seq<char>)>::empty() =~= rows_view(
                rows@,
            ));
        }
    }
    Some(rows)
}

/// Builds the registry out of parsed rows, checking along the way that
/// no filename occurs twice, so that the mapping is bijective.
fn from_rows(rows: Vec<(String, String)>) -> (r: Option<List>)
    ensures
        match r {
            Some(l) => l.wf() && l.count() == rows@.len() && (forall|i: int|
                0 <= i < rows@.len() ==> l.display(i) == #[trigger] rows@[i].0@ && l.id_map()[i]
                    == rows@[i].1@),
            None => exists|i: int, j: int|
                0 <= i < j < rows@.len() && #[trigger] rows@[i].1@ == #[trigger] rows@[j].1@,
        },
{
    let mut ids = bimap_new();
    let mut names: Vec<String> = Vec::new();
    let n = rows.len();
    let mut i: usize = 0;
    while i < n
        invariant
            n == rows@.len(),
            i <= n,
            names@.len() == i as int,
            forall|k: int| 0 <= k < i ==> #[trigger] names@[k]@ == rows@[k].0@,
            forall|k: int| #[trigger] bi_ids(ids).dom().contains(k) <==> 0 <= k < i,
            forall|k: int| 0 <= k < i ==> #[trigger] bi_ids(ids)[k] == rows@[k].1@,
            forall|k1: int, k2: int|
                bi_ids(ids).dom().contains(k1) && bi_ids(ids).dom().contains(k2)
                    && #[trigger] bi_ids(ids)[k1] == #[trigger] bi_ids(ids)[k2] ==> k1 == k2,
        decreases n - i,
    {
        let filename = rows[i].1.clone();
        let ok = bimap_insert_new(&mut ids, i, filename);
        if !ok {
            proof {
                let k = choose|k: int|
                    bi_ids(ids).dom().contains(k) && bi_ids(ids)[k] == rows@[i as int].1@;
                assert(0 <= k < i && rows@[k].1@ == rows@[i as int].1@);
            }
            return None;
        }
        let display = rows[i].0.clone();
        names.push(display);
        i = i + 1;
    }
    Some(List { ids, names })
}

/// A parsed representation of the static name table.
pub struct List {
    /// The Pokedex IDs and their corresponding filenames.
    ids: bimap::BiHashMap<usize, String>,
    /// All the proper, formatted names in order of Pokedex ID.
    names: Vec<String>,
}

impl List {
    /// How many species the table holds.
    pub closed spec fn count(self) -> int {
        self.names@.len() as int
    }

    /// The index-to-filename mapping.
    pub closed spec fn id_map(self) -> Map<int, Seq<char>> {
        bi_ids(self.ids)
    }

    /// The display name stored at an index.
    pub closed spec fn display(self, i: int) -> Seq<char> {
        self.names@[i]@
    }

    /// The registry invariant: the filename map is defined exactly on
    /// the indices of the display-name table, and no filename appears
    /// under two indices.
    pub closed spec fn wf(self) -> bool {
        &&& forall|i: int|
            0 <= i < self.count() <==> #[trigger] self.id_map().dom().contains(i)
        &&& forall|i: int, j: int|
            self.id_map().dom().contains(i) && self.id_map().dom().contains(j)
                && #[trigger] self.id_map()[i] == #[trigger] self.id_map()[j] ==> i == j
    }

    /// Whether some index carries the given filename.
    pub closed spec fn has_filename(self, f: Seq<char>) -> bool {
        exists|k: int| #[trigger] self.id_map().dom().contains(k) && self.id_map()[k] == f
    }

    /// The index carrying a registered filename.
    pub closed spec fn index_of_filename(self, f: Seq<char>) -> int {
        choose|k: int| #[trigger] self.id_map().dom().contains(k) && self.id_map()[k] == f
    }

    /// The display name a filename resolves to: the tabulated name when
    /// the filename is registered, and the cosmetic fallback transform
    /// of the filename itself otherwise.
    pub closed spec fn display_name_spec(self, f: Seq<char>) -> Seq<char> {
        if self.has_filename(f) {
            self.names@[self.index_of_filename(f)]@
        } else {
            fallback_name(f)
        }
    }

    /// A registered filename's display name is the tabulated name at
    /// the filename's own index.
    pub proof fn lemma_display_name_registered(l: List, f: Seq<char>)
        requires
            l.wf(),
            l.has_filename(f),
        ensures
            0 <= l.index_of_filename(f) < l.count(),
            l.id_map()[l.index_of_filename(f)] == f,
            l.display_name_spec(f) == l.display(l.index_of_filename(f)),
    {
        let k = choose|k: int| #[trigger] l.id_map().dom().contains(k) && l.id_map()[k] == f;
        assert(l.id_map().dom().contains(k));
    }

    /// An unregistered filename's display name is the cosmetic
    /// fallback transform of the filename itself.
    pub proof fn lemma_display_name_fallback(l: List, f: Seq<char>)
        requires
            !l.has_filename(f),
        ensures
            l.display_name_spec(f) == fallback_name(f),
    {
    }

    /// Round-trip law: looking a filename up by a valid index and then
    /// looking that filename's index up again recovers the index.
    pub proof fn lemma_round_trip(l: List, i: int)
        requires
            l.wf(),
            0 <= i < l.count(),
        ensures
            l.has_filename(l.id_map()[i]),
            l.index_of_filename(l.id_map()[i]) == i,
    {
        assert(l.id_map().dom().contains(i) && l.id_map()[i] == l.id_map()[i]);
        let k = choose|k: int|
            #[trigger] l.id_map().dom().contains(k) && l.id_map()[k] == l.id_map()[i];
        assert(k == i);
    }

    /// Gets the Dex ID (zero-based index) under which a filename is
    /// registered.
    pub fn get_by_filename(&self, name: &str) -> (r: Option<usize>)
        requires
            self.wf(),
        ensures
            match r {
                Some(k) => self.has_filename(name@) && k < self.count() && self.id_map()[k as int]
                    == name@ && k as int == self.index_of_filename(name@),
                None => !self.has_filename(name@),
            },
    {
        let r = bimap_get_by_right(&self.ids, name);
        proof {
            if let Some(k) = r {
                assert(self.id_map().dom().contains(k as int) && self.id_map()[k as int]
                    == name@);
                let k2 = choose|j: int|
                    #[trigger] self.id_map().dom().contains(j) && self.id_map()[j] == name@;
                assert(k2 == k as int);
            } else {
                assert forall|k: int|
                    !(#[trigger] self.id_map().dom().contains(k) && self.id_map()[k]
                        == name@) by {}
            }
        }
        r
    }

    /// How many species the registry holds.
    pub fn len(&self) -> (r: usize)
        ensures
            r as int == self.count(),
    {
        self.names.len()
    }

    /// The registry `l` holds exactly the given table rows: the display
    /// names in order, and the filenames under their indices.
    pub open spec fn holds_rows(l: List, rows: Seq<(Seq<char>, Seq<char>)>) -> bool {
        &&& l.wf()
        &&& l.count() == rows.len()
        &&& forall|i: int|
            0 <= i < rows.len() ==> l.display(i) == #[trigger] rows[i].0 && l.id_map()[i]
                == rows[i].1
    }

    /// Some filename occurs in two different rows.
    pub open spec fn has_duplicate(rows: Seq<(Seq<char>, Seq<char>)>) -> bool {
        exists|i: int, j: int|
            0 <= i < j < rows.len() && #[trigger] rows[i].1 == #[trigger] rows[j].1
    }

    /// Reads a new [`List`] from the raw text of the two-column name
    /// table. The text must parse and the filenames must be unique;
    /// otherwise nothing is returned.
    pub fn read(text: &str) -> (r: Option<List>)
        ensures
            r matches Some(l) ==> csv_rows(text@) is Some && List::holds_rows(
                l,
                csv_rows(text@)->Some_0,
            ),
            r is None ==> csv_rows(text@) is None || List::has_duplicate(
                csv_rows(text@)->Some_0,
            ),
    {
        match parse_csv(text) {
            None => None,
            Some(rows) => {
                let ghost rv = rows@;
                let r = from_rows(rows);
                proof {
                    let rs = rows_view(rv);
                    assert(csv_rows(text@) == Some(rs));
                    if r is Some {
                        let l = r->Some_0;
                        assert forall|i: int| 0 <= i < rs.len() implies l.display(i)
                            == #[trigger] rs[i].0 && l.id_map()[i] == rs[i].1 by {
                            assert(rs[i] == (rv[i].0@, rv[i].1@));
                            assert(l.display(i) == rv[i].0@ && l.id_map()[i] == rv[i].1@);
                        }
                    } else {
                        let (i, j) = choose|i: int, j: int|
                            0 <= i < j < rv.len() && #[trigger] rv[i].1@ == #[trigger] rv[j].1@;
                        assert(rs[i].1 == rs[j].1);
                    }
                }
                r
            },
        }
    }

    /// Gets a pokemon filename by a Dex ID (a zero-based index).
    pub fn get_by_id(&self, id: usize) -> (r: Option<String>)
        requires
            self.wf(),
        ensures
            match r {
                Some(s) => id < self.count() && s@ == self.id_map()[id as int],
                None => id >= self.count(),
            },
    {
        let r = bimap_get_by_left(&self.ids, id);
        proof {
            if r is Some {
                assert(self.id_map().dom().contains(id as int));
            } else {
                assert(!self.id_map().dom().contains(id as int));
            }
        }
        r
    }

    /// Takes a filename and looks up the proper display name; an
    /// unregistered filename is cosmetically reformatted instead.
    pub fn format_name(&self, filename: &str) -> (r: String)
        requires
            self.wf(),
        ensures
            r@ == self.display_name_spec(filename@),
    {
        match bimap_get_by_right(&self.ids, filename) {
            Some(id) => {
                proof {
                    let k = choose|k: int|
                        #[trigger] self.id_map().dom().contains(k) && self.id_map()[k]
                            == filename@;
                    assert(self.id_map().dom().contains(id as int));
                    assert(k == id as int);
                }
                self.names[id].clone()
            },
            None => {
                let cleaned = despecialize(&chars_of(filename));
                let s = string_of(&cleaned);
                title_case(s.as_str())
            },
        }
    }

    /// Gets a random pokemon and returns its filename.
    pub fn random(&self) -> (r: String)
        requires
            self.wf(),
            self.count() > 0,
        ensures
            exists|k: int| 0 <= k < self.count() && #[trigger] self.id_map()[k] == r@,
            self.has_filename(r@),
    {
        let idx = rand_below(self.names.len());
        proof {
            assert(self.id_map().dom().contains(idx as int));
        }
        match bimap_get_by_left(&self.ids, idx) {
            Some(s) => {
                proof {
                    assert(self.id_map()[idx as int] == s@);
                }
                s
            },
            None => unreached(),
        }
    }

    /// Gets a random pokemon of a region and returns its filename. The
    /// region's whole index block must lie inside the table.
    pub fn get_by_region(&self, region: Region) -> (r: String)
        requires
            self.wf(),
            region_hi(region) < self.count(),
        ensures
            exists|k: int|
                region_lo(region) <= k <= region_hi(region) && #[trigger] self.id_map()[k] == r@,
    {
        let (lo, hi): (usize, usize) = match region {
            Region::Kanto => (0, 151),
            Region::Johto => (152, 251),
            Region::Hoenn => (252, 386),
            Region::Sinnoh => (387, 493),
            Region::Unova => (494, 649),
            Region::Kalos => (650, 721),
            Region::Alola => (722, 809),
            Region::Galar => (810, 905),
        };
        let idx = lo + rand_below(hi - lo + 1);
        proof {
            assert(region_lo(region) <= idx as int <= region_hi(region));
            assert(self.id_map().dom().contains(idx as int));
        }
        match bimap_get_by_left(&self.ids, idx) {
            Some(s) => {
                proof {
                    assert(self.id_map()[idx as int] == s@);
                }
                s
            },
            None => unreached(),
        }
    }
}

} // verus!
