//! Places and names that teams and players are drawn from, and the text
//! tables they are read from.

use crate::chance::{can_draw, pick_one, pick_weighted, total_weight};
use rand::rngs::ThreadRng;
use vstd::prelude::*;
use vstd::string::StrSliceExecFns;

verus! {

/// A city a team can play in or a player can come from.
#[derive(Clone, Copy, Debug, PartialEq, Eq, Hash)]
pub struct LocData {
    pub abbr: &'static str,
    pub city: &'static str,
    pub state: &'static str,
    pub country: &'static str,
    pub population: u32,
    pub lang: &'static str,
}

/// A nickname in each language it is known in: pairs of language and name.
#[derive(Clone, Debug)]
pub struct NickData {
    pub localized: Vec<(&'static str, &'static str)>,
}

/// Names with the weight each is drawn with.
pub type Names = Vec<(&'static str, u32)>;

/// How players of one age change from one season to the next: the weights
/// with which a rate falls to the lower of two values, stays, or rises to the
/// higher.
#[derive(Clone, Copy, Debug, PartialEq, Eq)]
pub struct AgeData {
    pub age: u32,
    pub skew: [u32; 3],
}

/// Which way a rate goes as a player ages.
#[derive(Clone, Copy, Debug, PartialEq, Eq, Structural)]
pub enum Trend {
    Decline,
    Steady,
    Growth,
}

/// The tables players and teams are drawn from.
pub struct Data {
    pub loc: Vec<LocData>,
    pub nick: Vec<NickData>,
    pub names_first: Vec<(&'static str, Names)>,
    pub names_last: Vec<(&'static str, Names)>,
    pub age: Vec<AgeData>,
}

impl Default for Data {
    fn default() -> (data: Self)
        ensures
            data.loc@.len() == 0,
            data.nick@.len() == 0,
            data.names_first@.len() == 0,
            data.names_last@.len() == 0,
            data.age@.len() == 0,
    {
        Self {
            loc: Vec::new(),
            nick: Vec::new(),
            names_first: Vec::new(),
            names_last: Vec::new(),
            age: Vec::new(),
        }
    }
}

/// Whether two texts are the same, character by character.
pub fn same_text(a: &str, b: &str) -> (same: bool)
    ensures
        same == (a@ == b@),
{
    let n = a.unicode_len();
    if n != b.unicode_len() {
        return false;
    }
    let mut i: usize = 0;
    while i < n
        invariant
            i <= n,
            n == a@.len(),
            n == b@.len(),
            forall|k: int| 0 <= k < i ==> a@[k] == b@[k],
        decreases n - i,
    {
        if a.get_char(i) != b.get_char(i) {
            return false;
        }
        i += 1;
    }
    assert(a@ =~= b@);
    true
}

/// The places with their populations as weights, each place given by its
/// index.
pub open spec fn by_population(loc: Seq<LocData>) -> Seq<(usize, u32)> {
    Seq::new(loc.len(), |i: int| (i as usize, loc[i].population))
}

/// The first entry at or after `from` kept under `key`; the number of entries
/// when there is none.
pub open spec fn key_index<T>(table: Seq<(&'static str, T)>, key: Seq<char>, from: int) -> int
    decreases table.len() - from,
{
    if from >= table.len() || (from >= 0 && table[from].0@ == key) {
        from
    } else {
        key_index(table, key, from + 1)
    }
}

/// The names kept for `country`, if any.
pub open spec fn names_of(table: Seq<(&'static str, Names)>, country: Seq<char>) -> Option<
    Seq<(&'static str, u32)>,
> {
    let i = key_index(table, country, 0);
    if i < table.len() {
        Some(table[i].1@)
    } else {
        None
    }
}

/// Whether `name` can come out of a draw from the names kept for a country:
/// a name with weight, or the empty name when the country is not known or
/// none of its names has weight.
pub open spec fn name_drawn(names: Option<Seq<(&'static str, u32)>>, name: &'static str) -> bool {
    match names {
        Some(list) => if total_weight(list) == 0 {
            name@.len() == 0
        } else {
            exists|i: int| 0 <= i < list.len() && #[trigger] list[i].0 == name && list[i].1 > 0
        },
        None => name@.len() == 0,
    }
}

impl LocData {
    /// Whether two places agree in every field.
    pub open spec fn agrees(self, other: LocData) -> bool {
        &&& self.abbr@ == other.abbr@
        &&& self.city@ == other.city@
        &&& self.state@ == other.state@
        &&& self.country@ == other.country@
        &&& self.population == other.population
        &&& self.lang@ == other.lang@
    }

    /// Tells whether two places agree in every field.
    pub fn same(&self, other: &LocData) -> (b: bool)
        ensures
            b == self.agrees(*other),
    {
        same_text(self.abbr, other.abbr) && same_text(self.city, other.city) && same_text(
            self.state,
            other.state,
        ) && same_text(self.country, other.country) && self.population == other.population
            && same_text(self.lang, other.lang)
    }
}

/// The last of the first `upto` entries kept under `key`; -1 when there is
/// none.
pub open spec fn last_key_index<T>(table: Seq<(&'static str, T)>, key: Seq<char>, upto: int) -> int
    decreases upto,
{
    if upto <= 0 {
        -1
    } else if table[upto - 1].0@ == key {
        upto - 1
    } else {
        last_key_index(table, key, upto - 1)
    }
}

impl NickData {
    /// The nickname in a language: that of the last entry for the language,
    /// and empty when there is none.
    pub open spec fn in_language(self, lang: Seq<char>) -> Seq<char> {
        let i = last_key_index(self.localized@, lang, self.localized@.len() as int);
        if i >= 0 {
            self.localized@[i].1@
        } else {
            Seq::empty()
        }
    }

    /// The nickname in the language of a place; empty when it has none.
    pub fn name(&self, location: &LocData) -> (nick: &'static str)
        ensures
            nick@ == self.in_language(location.lang@),
    {
        let mut i: usize = self.localized.len();
        while i > 0
            invariant
                i <= self.localized.len(),
                last_key_index(self.localized@, location.lang@, self.localized@.len() as int)
                    == last_key_index(self.localized@, location.lang@, i as int),
            decreases i,
        {
            if same_text(self.localized[i - 1].0, location.lang) {
                return self.localized[i - 1].1;
            }
            i -= 1;
        }
        proof {
            reveal_strlit("");
        }
        ""
    }

    /// Two nicknames are the same when their first entries name the same.
    pub open spec fn agrees(self, other: NickData) -> bool {
        if self.localized@.len() > 0 && other.localized@.len() > 0 {
            self.localized@[0].1@ == other.localized@[0].1@
        } else {
            self.localized@.len() == other.localized@.len()
        }
    }

    /// Tells whether two nicknames are the same.
    pub fn same(&self, other: &NickData) -> (b: bool)
        ensures
            b == self.agrees(*other),
    {
        if self.localized.len() > 0 && other.localized.len() > 0 {
            same_text(self.localized[0].1, other.localized[0].1)
        } else {
            self.localized.len() == other.localized.len()
        }
    }
}

impl Data {
    /// Whether a place can be drawn: the populations can be added up and some
    /// place has people.
    pub open spec fn can_locate(self) -> bool {
        0 < total_weight(by_population(self.loc@)) <= u32::MAX
    }

    /// Whether the names of every country can be drawn from.
    pub open spec fn can_name(self) -> bool {
        &&& forall|i: int|
            0 <= i < self.names_first@.len() ==> total_weight(#[trigger] self.names_first@[i].1@)
                <= u32::MAX
        &&& forall|i: int|
            0 <= i < self.names_last@.len() ==> total_weight(#[trigger] self.names_last@[i].1@)
                <= u32::MAX
    }

    /// Tells whether places and names can be drawn.
    pub fn usable(&self) -> (b: bool)
        ensures
            b == (self.can_locate() && self.can_name()),
    {
        let mut weights: Vec<(usize, u32)> = Vec::new();
        let mut i: usize = 0;
        let mut people = false;
        while i < self.loc.len()
            invariant
                i <= self.loc.len(),
                weights@ == by_population(self.loc@).take(i as int),
                people == exists|k: int| 0 <= k < i && self.loc@[k].population > 0,
            decreases self.loc.len() - i,
        {
            weights.push((i, self.loc[i].population));
            assert(weights@ =~= by_population(self.loc@).take(i + 1));
            if self.loc[i].population > 0 {
                people = true;
            }
            i += 1;
        }
        assert(by_population(self.loc@).take(self.loc@.len() as int) =~= by_population(self.loc@));
        proof {
            lemma_positive_weight(by_population(self.loc@));
            if people {
                let k = choose|k: int| 0 <= k < self.loc@.len() && self.loc@[k].population > 0;
                assert(by_population(self.loc@)[k].1 > 0);
            }
            if total_weight(by_population(self.loc@)) > 0 {
                let k = choose|k: int|
                    0 <= k < by_population(self.loc@).len() && (#[trigger] by_population(
                        self.loc@,
                    )[k]).1 > 0;
                assert(self.loc@[k].population > 0);
            }
        }
        if !people || !can_draw(&weights) {
            return false;
        }
        Self::tables_fit(&self.names_first) && Self::tables_fit(&self.names_last)
    }

    /// Tells whether the weights of every table can be added up.
    fn tables_fit(table: &Vec<(&'static str, Names)>) -> (b: bool)
        ensures
            b == forall|i: int|
                0 <= i < table@.len() ==> total_weight(#[trigger] table@[i].1@) <= u32::MAX,
    {
        let mut i: usize = 0;
        while i < table.len()
            invariant
                i <= table.len(),
                forall|k: int| 0 <= k < i ==> total_weight(#[trigger] table@[k].1@) <= u32::MAX,
            decreases table.len() - i,
        {
            if !can_draw(&table[i].1) {
                return false;
            }
            i += 1;
        }
        true
    }

    /// Draws a place, by population.
    pub fn choose_location(&self, rng: &mut ThreadRng) -> (loc: &LocData)
        requires
            self.can_locate(),
        ensures
            exists|i: int| 0 <= i < self.loc@.len() && #[trigger] self.loc@[i] == *loc && loc.population > 0,
    {
        let mut weights: Vec<(usize, u32)> = Vec::new();
        let mut i: usize = 0;
        while i < self.loc.len()
            invariant
                i <= self.loc.len(),
                weights@ == by_population(self.loc@).take(i as int),
            decreases self.loc.len() - i,
        {
            weights.push((i, self.loc[i].population));
            assert(weights@ =~= by_population(self.loc@).take(i + 1));
            i += 1;
        }
        assert(by_population(self.loc@).take(self.loc@.len() as int) =~= by_population(self.loc@));
        match pick_weighted(rng, &weights) {
            Some(at) => {
                let ghost k = choose|k: int|
                    0 <= k < weights@.len() && #[trigger] weights@[k].0 == at && weights@[k].1 > 0;
                assert(self.loc@[k] == self.loc@[at as int]);
                &self.loc[at]
            },
            None => &self.loc[0],
        }
    }

    /// Draws a name from a table, by weight, for a country.
    fn choose_name(table: &Vec<(&'static str, Names)>, country: &str, rng: &mut ThreadRng) -> (name:
        &'static str)
        requires
            forall|i: int| 0 <= i < table@.len() ==> total_weight(#[trigger] table@[i].1@) <= u32::MAX,
        ensures
            name_drawn(names_of(table@, country@), name),
    {
        proof {
            reveal_strlit("");
        }
        let mut i: usize = 0;
        while i < table.len()
            invariant
                i <= table.len(),
                ""@.len() == 0,
                forall|i: int|
                    0 <= i < table@.len() ==> total_weight(#[trigger] table@[i].1@) <= u32::MAX,
                key_index(table@, country@, 0) == key_index(table@, country@, i as int),
            decreases table.len() - i,
        {
            if same_text(table[i].0, country) {
                return match pick_weighted(rng, &table[i].1) {
                    Some(name) => name,
                    None => "",
                };
            }
            i += 1;
        }
        ""
    }

    /// Draws a first name for a player from `country`.
    pub fn choose_name_first(&self, country: &str, rng: &mut ThreadRng) -> (name: &'static str)
        requires
            self.can_name(),
        ensures
            name_drawn(names_of(self.names_first@, country@), name),
    {
        Self::choose_name(&self.names_first, country, rng)
    }

    /// Draws a last name for a player from `country`.
    pub fn choose_name_last(&self, country: &str, rng: &mut ThreadRng) -> (name: &'static str)
        requires
            self.can_name(),
        ensures
            name_drawn(names_of(self.names_last@, country@), name),
    {
        Self::choose_name(&self.names_last, country, rng)
    }

    /// Adds a place to `existing` unless one that agrees with it is there
    /// already.
    pub fn keep_loc(existing: &mut Vec<LocData>, drawn: LocData)
        ensures
            final(existing)@ == with_loc(old(existing)@, drawn),
    {
        let mut j: usize = 0;
        while j < existing.len()
            invariant
                j <= existing.len(),
                existing@ == old(existing)@,
                forall|k: int| 0 <= k < j ==> !(#[trigger] existing@[k]).agrees(drawn),
            decreases existing.len() - j,
        {
            if existing[j].same(&drawn) {
                assert(existing@[j as int].agrees(drawn));
                return ;
            }
            j += 1;
        }
        existing.push(drawn);
    }

    /// Draws a place, each with the same chance, and adds it to `existing`
    /// unless one that agrees with it is there already. With no place to draw
    /// from, nothing is added.
    pub fn add_loc(&self, existing: &mut Vec<LocData>, rng: &mut ThreadRng)
        ensures
            self.loc@.len() == 0 ==> final(existing)@ == old(existing)@,
            self.loc@.len() > 0 ==> exists|i: int|
                0 <= i < self.loc@.len() && final(existing)@ == with_loc(
                    old(existing)@,
                    #[trigger] self.loc@[i],
                ),
    {
        let mut indices: Vec<usize> = Vec::new();
        let mut i: usize = 0;
        while i < self.loc.len()
            invariant
                i <= self.loc.len(),
                indices@.len() == i,
                forall|k: int| 0 <= k < i ==> indices@[k] == k,
            decreases self.loc.len() - i,
        {
            indices.push(i);
            i += 1;
        }
        if let Some(at) = pick_one(rng, &indices) {
            let ghost k = choose|k: int| 0 <= k < indices@.len() && indices@[k] == at;
            Self::keep_loc(existing, self.loc[at]);
            assert(existing@ == with_loc(old(existing)@, self.loc@[at as int]));
        }
    }

    /// Adds a copy of a nickname to `nicks` unless one that agrees with it is
    /// there already.
    pub fn keep_nick(nicks: &mut Vec<NickData>, drawn: &NickData)
        ensures
            nick_kept(old(nicks)@, final(nicks)@, *drawn),
    {
        let mut j: usize = 0;
        while j < nicks.len()
            invariant
                j <= nicks.len(),
                nicks@ == old(nicks)@,
                forall|k: int| 0 <= k < j ==> !(#[trigger] nicks@[k]).agrees(*drawn),
            decreases nicks.len() - j,
        {
            if nicks[j].same(drawn) {
                assert(nicks@[j as int].agrees(*drawn));
                return ;
            }
            j += 1;
        }
        let mut copy: Vec<(&'static str, &'static str)> = Vec::new();
        let mut c: usize = 0;
        while c < drawn.localized.len()
            invariant
                c <= drawn.localized@.len(),
                copy@ == drawn.localized@.take(c as int),
            decreases drawn.localized@.len() - c,
        {
            copy.push(drawn.localized[c]);
            assert(copy@ =~= drawn.localized@.take(c + 1));
            c += 1;
        }
        assert(copy@ =~= drawn.localized@);
        nicks.push(NickData { localized: copy });
        assert(nicks@.drop_last() =~= old(nicks)@);
    }

    /// Draws a nickname, each with the same chance, and adds a copy of it to
    /// `nicks` unless one that agrees with it is there already. With no
    /// nickname to draw from, nothing is added.
    pub fn add_nick(&self, nicks: &mut Vec<NickData>, rng: &mut ThreadRng)
        ensures
            self.nick@.len() == 0 ==> final(nicks)@ == old(nicks)@,
            self.nick@.len() > 0 ==> exists|i: int|
                0 <= i < self.nick@.len() && nick_kept(
                    old(nicks)@,
                    final(nicks)@,
                    #[trigger] self.nick@[i],
                ),
    {
        let mut indices: Vec<usize> = Vec::new();
        let mut i: usize = 0;
        while i < self.nick.len()
            invariant
                i <= self.nick.len(),
                indices@.len() == i,
                forall|k: int| 0 <= k < i ==> indices@[k] == k,
            decreases self.nick.len() - i,
        {
            indices.push(i);
            i += 1;
        }
        if let Some(at) = pick_one(rng, &indices) {
            let ghost k = choose|k: int| 0 <= k < indices@.len() && indices@[k] == at;
            Self::keep_nick(nicks, &self.nick[at]);
            assert(nick_kept(old(nicks)@, nicks@, self.nick@[at as int]));
        }
    }
}

/// Whether some place of the list agrees with `loc`.
pub open spec fn has_loc(existing: Seq<LocData>, loc: LocData) -> bool {
    exists|k: int| 0 <= k < existing.len() && (#[trigger] existing[k]).agrees(loc)
}

/// The list with `loc` at its end, unless a place that agrees with it is in
/// the list already.
pub open spec fn with_loc(existing: Seq<LocData>, loc: LocData) -> Seq<LocData> {
    if has_loc(existing, loc) {
        existing
    } else {
        existing.push(loc)
    }
}

/// Whether some nickname of the list agrees with `nick`.
pub open spec fn has_nick(nicks: Seq<NickData>, nick: NickData) -> bool {
    exists|k: int| 0 <= k < nicks.len() && (#[trigger] nicks[k]).agrees(nick)
}

/// Whether `after` is `before` with a copy of `nick` at its end, or `before`
/// itself when a nickname that agrees with `nick` is in it already.
pub open spec fn nick_kept(before: Seq<NickData>, after: Seq<NickData>, nick: NickData) -> bool {
    if has_nick(before, nick) {
        after == before
    } else {
        &&& after.len() == before.len() + 1
        &&& after.drop_last() == before
        &&& after.last().localized@ == nick.localized@
    }
}

/// A list has weight exactly when one of its items has.
pub proof fn lemma_positive_weight<T>(items: Seq<(T, u32)>)
    ensures
        total_weight(items) > 0 <==> exists|k: int| 0 <= k < items.len() && (#[trigger] items[k]).1 > 0,
    decreases items.len(),
{
    if items.len() > 0 {
        let front = items.drop_last();
        lemma_positive_weight(front);
        if total_weight(items) > 0 {
            if items.last().1 > 0 {
                assert(items[items.len() - 1].1 > 0);
            } else {
                let k = choose|k: int| 0 <= k < front.len() && (#[trigger] front[k]).1 > 0;
                assert(items[k].1 > 0);
            }
        }
        if exists|k: int| 0 <= k < items.len() && (#[trigger] items[k]).1 > 0 {
            let k = choose|k: int| 0 <= k < items.len() && (#[trigger] items[k]).1 > 0;
            if k < front.len() {
                assert(front[k].1 > 0);
            }
        }
    }
}

/// Where the piece that begins at `from` ends: at the next separator, or at
/// the end of the text.
pub open spec fn piece_end(s: Seq<char>, sep: char, from: int) -> int
    decreases s.len() - from,
{
    if from < 0 || from >= s.len() || s[from] == sep {
        from
    } else {
        piece_end(s, sep, from + 1)
    }
}

/// Where piece `k` of a text begins, the pieces being what lies between the
/// separators. Past the end of the text when there are not that many.
pub open spec fn piece_start(s: Seq<char>, sep: char, k: nat) -> int
    decreases k,
{
    if k == 0 {
        0
    } else {
        piece_end(s, sep, piece_start(s, sep, (k - 1) as nat)) + 1
    }
}

/// Whether the text has a piece `k`. It always has a first one.
pub open spec fn has_piece(s: Seq<char>, sep: char, k: nat) -> bool {
    piece_start(s, sep, k) <= s.len()
}

/// Piece `k` of the text; empty when there is none.
pub open spec fn piece(s: Seq<char>, sep: char, k: nat) -> Seq<char> {
    let from = piece_start(s, sep, k);
    if from <= s.len() {
        s.subrange(from, piece_end(s, sep, from))
    } else {
        Seq::empty()
    }
}

/// A piece ends between where it begins and the end of the text.
pub proof fn lemma_piece_end(s: Seq<char>, sep: char, from: int)
    requires
        0 <= from <= s.len(),
    ensures
        from <= piece_end(s, sep, from) <= s.len(),
    decreases s.len() - from,
{
    if from < s.len() && s[from] != sep {
        lemma_piece_end(s, sep, from + 1);
    }
}

/// Pieces begin further and further on; once past the end, they stay there.
pub proof fn lemma_piece_start(s: Seq<char>, sep: char, k: nat)
    ensures
        0 <= piece_start(s, sep, k),
        piece_start(s, sep, k) < piece_start(s, sep, k + 1),
        !has_piece(s, sep, k) ==> !has_piece(s, sep, k + 1),
    decreases k,
{
    if k > 0 {
        lemma_piece_start(s, sep, (k - 1) as nat);
    }
    let from = piece_start(s, sep, k);
    if from <= s.len() {
        lemma_piece_end(s, sep, from);
    }
}

/// The value of a decimal digit; what it is for any other character does not
/// matter.
pub open spec fn digit_value(c: char) -> int {
    c as u32 - 48
}

/// Whether the character is a decimal digit.
pub open spec fn is_digit(c: char) -> bool {
    48 <= c as u32 <= 57
}

/// Whether every character is a decimal digit.
pub open spec fn all_digits(t: Seq<char>) -> bool {
    forall|i: int| 0 <= i < t.len() ==> is_digit(#[trigger] t[i])
}

/// The number that digits spell.
pub open spec fn digits_value(t: Seq<char>) -> int
    decreases t.len(),
{
    if t.len() == 0 {
        0
    } else {
        digits_value(t.drop_last()) * 10 + digit_value(t.last())
    }
}

/// The number a text spells: digits, after a plus sign or none, that come to
/// no more than fits in `u32`. Anything else spells no number.
pub open spec fn number(t: Seq<char>) -> Option<u32> {
    let d = if t.len() > 0 && t[0] == '+' {
        t.skip(1)
    } else {
        t
    };
    if d.len() > 0 && all_digits(d) && digits_value(d) <= u32::MAX {
        Some(digits_value(d) as u32)
    } else {
        None
    }
}

/// The digits of a text spell at least what its first digits spell.
pub proof fn lemma_digits_grow(t: Seq<char>, i: int)
    requires
        all_digits(t),
        0 <= i <= t.len(),
    ensures
        0 <= digits_value(t.take(i)) <= digits_value(t),
    decreases t.len() - i,
{
    if i < t.len() {
        lemma_digits_grow(t, i + 1);
        assert(t.take(i + 1).drop_last() =~= t.take(i));
        assert(is_digit(t[i]));
        lemma_digits_nonneg(t.take(i));
    } else {
        assert(t.take(i) =~= t);
        lemma_digits_nonneg(t);
    }
}

/// Digits spell a number that is not negative.
pub proof fn lemma_digits_nonneg(t: Seq<char>)
    requires
        all_digits(t),
    ensures
        0 <= digits_value(t),
    decreases t.len(),
{
    if t.len() > 0 {
        assert(is_digit(t[t.len() - 1]));
        lemma_digits_nonneg(t.drop_last());
    }
}

/// Reads the number a text spells.
pub fn parse_number(t: &str) -> (n: Option<u32>)
    ensures
        n == number(t@),
{
    let len = t.unicode_len();
    let mut i: usize = 0;
    if len > 0 && t.get_char(0) == '+' {
        i = 1;
    }
    let first = i;
    let ghost d = if t@.len() > 0 && t@[0] == '+' {
        t@.skip(1)
    } else {
        t@
    };
    assert(d =~= t@.skip(first as int));
    if i == len {
        return None;
    }
    let mut acc: u32 = 0;
    assert(d.take(0) =~= Seq::empty());
    while i < len
        invariant
            first <= i <= len,
            first < len,
            len == t@.len(),
            d == t@.skip(first as int),
            d == if t@.len() > 0 && t@[0] == '+' {
                t@.skip(1)
            } else {
                t@
            },
            all_digits(d.take(i - first)),
            acc == digits_value(d.take(i - first)),
        decreases len - i,
    {
        let c = t.get_char(i);
        let code = c as u32;
        proof {
            assert(d.take(i - first + 1).drop_last() =~= d.take(i - first));
            assert(d[i - first] == c);
        }
        if code < 48 || code > 57 {
            assert(!all_digits(d)) by {
                assert(!is_digit(d[i - first]));
            }
            return None;
        }
        let digit = code - 48;
        proof {
            assert(all_digits(d.take(i - first + 1))) by {
                assert forall|k: int| 0 <= k < i - first + 1 implies is_digit(
                    #[trigger] d.take(i - first + 1)[k],
                ) by {
                    if k < i - first {
                        assert(d.take(i - first)[k] == d.take(i - first + 1)[k]);
                    }
                }
            }
        }
        if acc > (u32::MAX - digit) / 10 {
            proof {
                if all_digits(d) {
                    lemma_digits_grow(d, i - first + 1);
                }
                assert(digits_value(d.take(i - first + 1)) > u32::MAX) by (nonlinear_arith)
                    requires
                        digits_value(d.take(i - first + 1)) == acc * 10 + digit,
                        acc > (u32::MAX - digit) / 10,
                        0 <= digit <= 9,
                ;
            }
            return None;
        }
        acc = acc * 10 + digit;
        i += 1;
    }
    assert(d.take(len - first) =~= d);
    Some(acc)
}

/// Piece `k` of a text cut at `sep`, if there is one.
pub fn piece_at(s: &'static str, sep: char, k: usize) -> (p: Option<&'static str>)
    ensures
        p is Some <==> has_piece(s@, sep, k as nat),
        p matches Some(text) ==> text@ == piece(s@, sep, k as nat),
{
    let n = s.unicode_len();
    let mut start: usize = 0;
    let mut j: usize = 0;
    while j < k
        invariant
            j <= k,
            n == s@.len(),
            start <= n,
            start == piece_start(s@, sep, j as nat),
        decreases k - j,
    {
        let mut end: usize = start;
        while end < n && s.get_char(end) != sep
            invariant
                start <= end <= n,
                n == s@.len(),
                piece_end(s@, sep, start as int) == piece_end(s@, sep, end as int),
            decreases n - end,
        {
            end += 1;
        }
        if end >= n {
            proof {
                assert(piece_start(s@, sep, (j + 1) as nat) == n + 1);
                lemma_pieces_gone(s@, sep, (j + 1) as nat, k as nat);
            }
            return None;
        }
        start = end + 1;
        j += 1;
    }
    let mut end: usize = start;
    while end < n && s.get_char(end) != sep
        invariant
            start <= end <= n,
            n == s@.len(),
            piece_end(s@, sep, start as int) == piece_end(s@, sep, end as int),
        decreases n - end,
    {
        end += 1;
    }
    Some(s.substring_char(start, end))
}

/// When a piece is missing, so is every later one.
pub proof fn lemma_pieces_gone(s: Seq<char>, sep: char, j: nat, k: nat)
    requires
        j <= k,
        !has_piece(s, sep, j),
    ensures
        !has_piece(s, sep, k),
    decreases k - j,
{
    if j < k {
        lemma_piece_start(s, sep, j);
        lemma_pieces_gone(s, sep, j + 1, k);
    }
}

/// Piece `k` of a text cut at `sep`; empty when there is none.
pub fn piece_or_empty(s: &'static str, sep: char, k: usize) -> (text: &'static str)
    ensures
        text@ == piece(s@, sep, k as nat),
{
    proof {
        reveal_strlit("");
    }
    match piece_at(s, sep, k) {
        Some(text) => text,
        None => "",
    }
}

impl LocData {
    /// Whether the place is what the line gives: its fields are the pieces
    /// of the line between commas, in the order abbreviation, city, state,
    /// country, population and language.
    pub open spec fn reads(self, l: Seq<char>) -> bool {
        &&& self.abbr@ == piece(l, ',', 0)
        &&& self.city@ == piece(l, ',', 1)
        &&& self.state@ == piece(l, ',', 2)
        &&& self.country@ == piece(l, ',', 3)
        &&& self.population == match number(piece(l, ',', 4)) {
            Some(n) => n,
            None => 0,
        }
        &&& self.lang@ == piece(l, ',', 5)
    }

    /// Reads a place from a line of the form
    /// `abbr,city,state,country,population,lang`. A field that is missing is
    /// empty, and a population that is no number is zero.
    pub fn parse(in_str: &'static str) -> (loc: Self)
        ensures
            loc.reads(in_str@),
    {
        let abbr = piece_or_empty(in_str, ',', 0);
        let city = piece_or_empty(in_str, ',', 1);
        let state = piece_or_empty(in_str, ',', 2);
        let country = piece_or_empty(in_str, ',', 3);
        let population = match parse_number(piece_or_empty(in_str, ',', 4)) {
            Some(n) => n,
            None => 0,
        };
        let lang = piece_or_empty(in_str, ',', 5);
        Self { abbr, city, state, country, population, lang }
    }
}

/// A number read from a field; zero when the field spells none.
pub open spec fn number_or_zero(t: Seq<char>) -> u32 {
    match number(t) {
        Some(n) => n,
        None => 0,
    }
}

impl AgeData {
    /// Whether the entry is what the line gives: the age, then the weights
    /// of decline, of staying and of growth, between commas.
    pub open spec fn reads(self, l: Seq<char>) -> bool {
        &&& self.age == number_or_zero(piece(l, ',', 0))
        &&& self.skew@ == seq![
            number_or_zero(piece(l, ',', 1)),
            number_or_zero(piece(l, ',', 2)),
            number_or_zero(piece(l, ',', 3)),
        ]
    }

    /// The weights with the trend each stands for.
    pub open spec fn trends(self) -> Seq<(Trend, u32)> {
        seq![
            (Trend::Decline, self.skew@[0]),
            (Trend::Steady, self.skew@[1]),
            (Trend::Growth, self.skew@[2]),
        ]
    }

    /// Reads an entry from a line of the form `age,decline,steady,growth`. A
    /// field that is missing or no number is zero.
    pub fn parse(in_str: &'static str) -> (entry: Self)
        ensures
            entry.reads(in_str@),
    {
        let age = Self::field(in_str, 0);
        let skew = [Self::field(in_str, 1), Self::field(in_str, 2), Self::field(in_str, 3)];
        assert(skew@ =~= seq![
            number_or_zero(piece(in_str@, ',', 1)),
            number_or_zero(piece(in_str@, ',', 2)),
            number_or_zero(piece(in_str@, ',', 3)),
        ]);
        AgeData { age, skew }
    }

    /// The number in field `k` of a line; zero when there is none.
    fn field(in_str: &'static str, k: usize) -> (n: u32)
        ensures
            n == number_or_zero(piece(in_str@, ',', k as nat)),
    {
        match parse_number(piece_or_empty(in_str, ',', k)) {
            Some(n) => n,
            None => 0,
        }
    }

    /// Draws which way a rate goes, by the weights of the age: a trend with
    /// weight, or steady when none has or the weights cannot be added up.
    pub fn draw_trend(&self, rng: &mut ThreadRng) -> (trend: Trend)
        ensures
            if 0 < total_weight(self.trends()) <= u32::MAX {
                exists|i: int|
                    0 <= i < 3 && (#[trigger] self.trends()[i]).0 == trend && self.trends()[i].1 > 0
            } else {
                trend == Trend::Steady
            },
    {
        let weights: Vec<(Trend, u32)> = vec![
            (Trend::Decline, self.skew[0]),
            (Trend::Steady, self.skew[1]),
            (Trend::Growth, self.skew[2]),
        ];
        assert(weights@ =~= self.trends());
        if !can_draw(&weights) {
            return Trend::Steady;
        }
        match pick_weighted(rng, &weights) {
            Some(trend) => trend,
            None => Trend::Steady,
        }
    }
}

/// The first entry at or after `from` for `age`; the number of entries when
/// there is none.
pub open spec fn age_index(table: Seq<AgeData>, age: u32, from: int) -> int
    decreases table.len() - from,
{
    if from >= table.len() || (from >= 0 && table[from].age == age) {
        from
    } else {
        age_index(table, age, from + 1)
    }
}

impl Data {
    /// The entry for players of the given age, if the table has one.
    pub fn age_data(&self, age: u32) -> (entry: Option<AgeData>)
        ensures
            entry == if age_index(self.age@, age, 0) < self.age@.len() {
                Some(self.age@[age_index(self.age@, age, 0)])
            } else {
                None
            },
    {
        let mut i: usize = 0;
        while i < self.age.len()
            invariant
                i <= self.age.len(),
                age_index(self.age@, age, 0) == age_index(self.age@, age, i as int),
            decreases self.age.len() - i,
        {
            if self.age[i].age == age {
                return Some(self.age[i]);
            }
            i += 1;
        }
        None
    }
}

impl NickData {
    /// Whether the nickname is what the line gives under the headers: entry
    /// `i` pairs header `i` with piece `i` of the line, as far as both go.
    pub open spec fn reads(self, l: Seq<char>, headers: Seq<Seq<char>>) -> bool {
        &&& forall|i: int|
            0 <= i < self.localized@.len() ==> (#[trigger] self.localized@[i]).0@ == headers[i]
                && self.localized@[i].1@ == piece(l, ',', i as nat) && has_piece(l, ',', i as nat)
        &&& self.localized@.len() <= headers.len()
        &&& self.localized@.len() < headers.len() ==> !has_piece(l, ',', self.localized@.len())
    }

    /// Reads a nickname from a line that gives it in each language of the
    /// headers, in their order: piece `i` of the line goes with header `i`,
    /// as far as both go.
    pub fn parse(in_str: &'static str, headers: &[&'static str]) -> (nick: Self)
        ensures
            nick.reads(in_str@, texts(headers@)),
    {
        let mut localized: Vec<(&'static str, &'static str)> = Vec::new();
        let mut i: usize = 0;
        while i < headers.len()
            invariant
                i <= headers.len(),
                localized@.len() == i,
                forall|k: int|
                    0 <= k < i ==> (#[trigger] localized@[k]).0 == headers@[k] && localized@[k].1@
                        == piece(in_str@, ',', k as nat) && has_piece(in_str@, ',', k as nat),
            decreases headers.len() - i,
        {
            match piece_at(in_str, ',', i) {
                Some(text) => {
                    localized.push((headers[i], text));
                },
                None => {
                    return NickData { localized };
                },
            }
            i += 1;
        }
        NickData { localized }
    }
}

/// Reads a name and its weight from a line of the form `name,weight`; nothing
/// when the weight is missing or no number.
pub fn weighted(in_str: &'static str) -> (entry: Option<(&'static str, u32)>)
    ensures
        match entry {
            Some((name, weight)) => name@ == piece(in_str@, ',', 0) && has_piece(in_str@, ',', 1)
                && number(piece(in_str@, ',', 1)) == Some(weight),
            None => !has_piece(in_str@, ',', 1) || number(piece(in_str@, ',', 1)) is None,
        },
{
    let value = piece_or_empty(in_str, ',', 0);
    match piece_at(in_str, ',', 1) {
        Some(text) => match parse_number(text) {
            Some(weight) => Some((value, weight)),
            None => None,
        },
        None => None,
    }
}

/// The texts of a list.
pub open spec fn texts(list: Seq<&'static str>) -> Seq<Seq<char>> {
    Seq::new(list.len(), |i: int| list[i]@)
}

/// Whether the text has a line `k`: a piece between line feeds that begins
/// before the end of the text.
pub open spec fn has_line(s: Seq<char>, k: nat) -> bool {
    piece_start(s, '\n', k) < s.len()
}

/// Line `k` of the text: the piece between line feeds, without the carriage
/// return before the line feed that ends it, if there is one.
pub open spec fn line(s: Seq<char>, k: nat) -> Seq<char> {
    let whole = piece(s, '\n', k);
    if piece_end(s, '\n', piece_start(s, '\n', k)) < s.len() && whole.len() > 0 && whole.last()
        == '\r' {
        whole.drop_last()
    } else {
        whole
    }
}

/// When a line is missing, so is every later one.
pub proof fn lemma_lines_gone(s: Seq<char>, j: nat, k: nat)
    requires
        j <= k,
        !has_line(s, j),
    ensures
        !has_line(s, k),
    decreases k - j,
{
    if j < k {
        lemma_piece_start(s, '\n', j);
        lemma_lines_gone(s, j + 1, k);
    }
}

/// The lines of a text.
pub fn lines(text: &'static str) -> (list: Vec<&'static str>)
    ensures
        forall|k: int| 0 <= k < list@.len() ==> (#[trigger] list@[k])@ == line(text@, k as nat),
        forall|k: nat| k < list@.len() ==> #[trigger] has_line(text@, k),
        !has_line(text@, list@.len()),
{
    let n = text.unicode_len();
    let mut list: Vec<&'static str> = Vec::new();
    let mut start: usize = 0;
    while start < n
        invariant
            n == text@.len(),
            start <= n + 1,
            start == piece_start(text@, '\n', list@.len()),
            forall|k: int| 0 <= k < list@.len() ==> (#[trigger] list@[k])@ == line(text@, k as nat),
            forall|k: nat| k < list@.len() ==> #[trigger] has_line(text@, k),
        decreases n + 1 - start,
    {
        let mut end: usize = start;
        while end < n && text.get_char(end) != '\n'
            invariant
                start <= end <= n,
                n == text@.len(),
                piece_end(text@, '\n', start as int) == piece_end(text@, '\n', end as int),
            decreases n - end,
        {
            end += 1;
        }
        let ghost k = list@.len();
        let whole = text.substring_char(start, end);
        assert(whole@ == piece(text@, '\n', k));
        if end < n && end > start && text.get_char(end - 1) == '\r' {
            let cut = text.substring_char(start, end - 1);
            assert(cut@ =~= whole@.drop_last());
            assert(whole@.last() == text@[end - 1]);
            list.push(cut);
        } else {
            if end > start {
                assert(whole@.last() == text@[end - 1]);
            }
            list.push(whole);
        }
        if end >= n {
            return list;
        }
        start = end + 1;
    }
    list
}

/// The pieces of a text cut at `sep`.
pub fn pieces(s: &'static str, sep: char) -> (list: Vec<&'static str>)
    ensures
        forall|k: int|
            0 <= k < list@.len() ==> (#[trigger] list@[k])@ == piece(s@, sep, k as nat) && has_piece(
                s@,
                sep,
                k as nat,
            ),
        !has_piece(s@, sep, list@.len()),
        list@.len() >= 1,
{
    let n = s.unicode_len();
    let mut list: Vec<&'static str> = Vec::new();
    let mut start: usize = 0;
    while start <= n
        invariant
            n == s@.len(),
            start <= n + 1,
            start == piece_start(s@, sep, list@.len()),
            start == 0 || list@.len() >= 1,
            forall|k: int|
                0 <= k < list@.len() ==> (#[trigger] list@[k])@ == piece(s@, sep, k as nat)
                    && has_piece(s@, sep, k as nat),
        decreases n + 1 - start,
    {
        let mut end: usize = start;
        while end < n && s.get_char(end) != sep
            invariant
                start <= end <= n,
                n == s@.len(),
                piece_end(s@, sep, start as int) == piece_end(s@, sep, end as int),
            decreases n - end,
        {
            end += 1;
        }
        list.push(s.substring_char(start, end));
        if end >= n {
            return list;
        }
        start = end + 1;
    }
    list
}

/// The names with weights among the first `n` lines of a text, in order; a
/// line that gives no weight is passed over.
pub open spec fn names_in(text: Seq<char>, n: nat) -> Seq<(Seq<char>, u32)>
    decreases n,
{
    if n == 0 {
        Seq::empty()
    } else {
        let before = names_in(text, (n - 1) as nat);
        let l = line(text, (n - 1) as nat);
        if has_piece(l, ',', 1) && number(piece(l, ',', 1)) is Some {
            before.push((piece(l, ',', 0), number(piece(l, ',', 1))->0))
        } else {
            before
        }
    }
}

/// Names as values.
pub open spec fn names_view(names: Seq<(&'static str, u32)>) -> Seq<(Seq<char>, u32)> {
    Seq::new(names.len(), |i: int| (names[i].0@, names[i].1))
}

/// Reads the names of one country from a text with a `name,weight` line for
/// each.
pub fn read_names(text: &'static str) -> (names: Names)
    ensures
        exists|n: nat|
            !has_line(text@, n) && (forall|k: nat| k < n ==> has_line(text@, k)) && names_view(
                names@,
            ) == #[trigger] names_in(text@, n),
{
    let all = lines(text);
    let mut names: Names = Vec::new();
    let mut i: usize = 0;
    assert(names_view(names@) =~= names_in(text@, 0));
    while i < all.len()
        invariant
            i <= all.len(),
            forall|k: int| 0 <= k < all@.len() ==> (#[trigger] all@[k])@ == line(text@, k as nat),
            names_view(names@) == names_in(text@, i as nat),
        decreases all.len() - i,
    {
        let ghost before = names@;
        if let Some(entry) = weighted(all[i]) {
            names.push(entry);
            assert(names_view(names@) =~= names_view(before).push((entry.0@, entry.1)));
        }
        i += 1;
    }
    names
}

impl Data {
    /// Reads the tables: a line for each place, a header line of languages
    /// followed by a line for each nickname, and for each country a text of
    /// first names and one of last names. Without a header line the
    /// nicknames are taken to be in `EN`.
    pub fn new(
        loc_text: &'static str,
        nick_text: &'static str,
        first: &Vec<(&'static str, &'static str)>,
        last: &Vec<(&'static str, &'static str)>,
        age_text: &'static str,
    ) -> (data: Data)
        ensures
            !has_line(age_text@, data.age@.len()),
            forall|k: nat| k < data.age@.len() ==> #[trigger] has_line(age_text@, k),
            forall|k: int|
                0 <= k < data.age@.len() ==> (#[trigger] data.age@[k]).reads(
                    line(age_text@, k as nat),
                ),
            !has_line(loc_text@, data.loc@.len()),
            forall|k: nat| k < data.loc@.len() ==> #[trigger] has_line(loc_text@, k),
            forall|k: int|
                0 <= k < data.loc@.len() ==> (#[trigger] data.loc@[k]).reads(
                    line(loc_text@, k as nat),
                ),
            exists|headers: Seq<Seq<char>>| #[trigger] Self::nicknames_read(data.nick@, nick_text@, headers),
            data.names_first@.len() == first@.len(),
            data.names_last@.len() == last@.len(),
            forall|k: int|
                0 <= k < first@.len() ==> (#[trigger] data.names_first@[k]).0 == first@[k].0
                    && Self::read_from(data.names_first@[k].1@, first@[k].1@),
            forall|k: int|
                0 <= k < last@.len() ==> (#[trigger] data.names_last@[k]).0 == last@[k].0
                    && Self::read_from(data.names_last@[k].1@, last@[k].1@),
    {
        let loc_lines = lines(loc_text);
        let mut loc: Vec<LocData> = Vec::new();
        let mut i: usize = 0;
        while i < loc_lines.len()
            invariant
                i <= loc_lines.len(),
                loc@.len() == i,
                forall|k: int|
                    0 <= k < loc_lines@.len() ==> (#[trigger] loc_lines@[k])@ == line(
                        loc_text@,
                        k as nat,
                    ),
                forall|k: int|
                    0 <= k < i ==> (#[trigger] loc@[k]).reads(line(loc_text@, k as nat)),
            decreases loc_lines.len() - i,
        {
            assert(loc_lines@[i as int]@ == line(loc_text@, i as nat));
            loc.push(LocData::parse(loc_lines[i]));
            i += 1;
        }

        proof {
            reveal_strlit("EN");
        }
        let nick_lines = lines(nick_text);
        let headers = if nick_lines.len() > 0 {
            pieces(nick_lines[0], ',')
        } else {
            let mut only: Vec<&'static str> = Vec::new();
            only.push("EN");
            only
        };
        proof {
            let heads = texts(headers@);
            if nick_lines@.len() == 0 {
                assert(headers@[0]@ =~= seq!['E', 'N']);
                assert(heads =~= seq![seq!['E', 'N']]);
                assert(!has_line(nick_text@, 0));
                lemma_lines_gone(nick_text@, 0, 1);
            } else {
                assert(nick_lines@[0]@ == line(nick_text@, 0));
                assert(has_line(nick_text@, 0));
                assert forall|k: int| 0 <= k < heads.len() implies #[trigger] heads[k] == piece(
                    line(nick_text@, 0),
                    ',',
                    k as nat,
                ) && has_piece(line(nick_text@, 0), ',', k as nat) by {
                    assert(headers@[k]@ == piece(nick_lines@[0]@, ',', k as nat));
                }
            }
            assert(Self::heads(heads, nick_text@));
        }
        let mut nick: Vec<NickData> = Vec::new();
        let mut j: usize = 1;
        while j < nick_lines.len()
            invariant
                1 <= j,
                j <= nick_lines.len() || (nick_lines.len() == 0 && j == 1),
                nick@.len() == j - 1,
                Self::heads(texts(headers@), nick_text@),
                !has_line(nick_text@, nick_lines@.len()),
                nick_lines@.len() == 0 ==> !has_line(nick_text@, 1),
                forall|k: nat| k < nick_lines@.len() ==> #[trigger] has_line(nick_text@, k),
                forall|k: int|
                    0 <= k < nick_lines@.len() ==> (#[trigger] nick_lines@[k])@ == line(
                        nick_text@,
                        k as nat,
                    ),
                forall|k: int|
                    0 <= k < nick@.len() ==> (#[trigger] nick@[k]).reads(
                        line(nick_text@, (k + 1) as nat),
                        texts(headers@),
                    ),
            decreases nick_lines.len() - j,
        {
            assert(nick_lines@[j as int]@ == line(nick_text@, j as nat));
            nick.push(NickData::parse(nick_lines[j], headers.as_slice()));
            j += 1;
        }
        proof {
            assert forall|k: nat| k < nick@.len() implies #[trigger] has_line(
                nick_text@,
                k + 1,
            ) by {
                let next: nat = k + 1;
                assert(next < nick_lines@.len());
                assert(has_line(nick_text@, next));
            }
            assert(!has_line(nick_text@, nick@.len() + 1));
            assert(Self::nicknames_read(nick@, nick_text@, texts(headers@)));
        }

        let ghost heads = texts(headers@);
        let names_first = Self::read_tables(first);
        let names_last = Self::read_tables(last);
        let age_lines = lines(age_text);
        let mut age: Vec<AgeData> = Vec::new();
        let mut a: usize = 0;
        while a < age_lines.len()
            invariant
                a <= age_lines.len(),
                age@.len() == a,
                forall|k: int|
                    0 <= k < age_lines@.len() ==> (#[trigger] age_lines@[k])@ == line(
                        age_text@,
                        k as nat,
                    ),
                forall|k: int|
                    0 <= k < a ==> (#[trigger] age@[k]).reads(line(age_text@, k as nat)),
            decreases age_lines.len() - a,
        {
            assert(age_lines@[a as int]@ == line(age_text@, a as nat));
            age.push(AgeData::parse(age_lines[a]));
            a += 1;
        }
        let data = Data { loc, nick, names_first, names_last, age };
        assert(Self::nicknames_read(data.nick@, nick_text@, heads));
        data
    }

    /// Whether `headers` are the languages the first line of the text of
    /// nicknames names, or `EN` alone when the text has no line.
    pub open spec fn heads(headers: Seq<Seq<char>>, nick_text: Seq<char>) -> bool {
        if has_line(nick_text, 0) {
            &&& headers.len() >= 1
            &&& !has_piece(line(nick_text, 0), ',', headers.len())
            &&& forall|k: int|
                0 <= k < headers.len() ==> #[trigger] headers[k] == piece(
                    line(nick_text, 0),
                    ',',
                    k as nat,
                ) && has_piece(line(nick_text, 0), ',', k as nat)
        } else {
            headers == seq![seq!['E', 'N']]
        }
    }

    /// Whether the nicknames are what the text gives under the headers of
    /// its first line: one for each line after the first.
    pub open spec fn nicknames_read(
        nick: Seq<NickData>,
        nick_text: Seq<char>,
        headers: Seq<Seq<char>>,
    ) -> bool {
        &&& Self::heads(headers, nick_text)
        &&& !has_line(nick_text, nick.len() + 1)
        &&& forall|k: nat| k < nick.len() ==> #[trigger] has_line(nick_text, k + 1)
        &&& forall|k: int|
            0 <= k < nick.len() ==> (#[trigger] nick[k]).reads(
                line(nick_text, (k + 1) as nat),
                headers,
            )
    }

    /// Whether `names` is what the lines of `text` give.
    pub open spec fn read_from(names: Seq<(&'static str, u32)>, text: Seq<char>) -> bool {
        exists|n: nat|
            !has_line(text, n) && (forall|k: nat| k < n ==> has_line(text, k)) && names_view(names)
                == #[trigger] names_in(text, n)
    }

    /// Reads the names of each country.
    fn read_tables(texts: &Vec<(&'static str, &'static str)>) -> (tables: Vec<(&'static str, Names)>)
        ensures
            tables@.len() == texts@.len(),
            forall|k: int|
                0 <= k < texts@.len() ==> (#[trigger] tables@[k]).0 == texts@[k].0 && Self::read_from(
                    tables@[k].1@,
                    texts@[k].1@,
                ),
    {
        let mut tables: Vec<(&'static str, Names)> = Vec::new();
        let mut i: usize = 0;
        while i < texts.len()
            invariant
                i <= texts.len(),
                tables@.len() == i,
                forall|k: int|
                    0 <= k < i ==> (#[trigger] tables@[k]).0 == texts@[k].0 && Self::read_from(
                        tables@[k].1@,
                        texts@[k].1@,
                    ),
            decreases texts.len() - i,
        {
            let names = read_names(texts[i].1);
            tables.push((texts[i].0, names));
            i += 1;
        }
        tables
    }
}

} // verus!
