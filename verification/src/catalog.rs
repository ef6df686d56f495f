//! The catalog: the decks, categories and type labels of the service, indexed
//! by name once and read-only afterwards.

use crate::asset::{asset_path, child_path, is_child_name, AssetListing, Bucket};
use crate::deck::{
    category_name_seq, category_views, deck_name_seq, deck_views, Category, CategoryJSON,
    CategoryView, Deck, DeckView,
};
use crate::json::{encode_strings, json_array_text};
use crate::names::{
    distinct, distinct_names, first_repeat, is_first_repeat, join_lines, lines_text, position_of,
    views,
};
use crate::order::{
    comes_first, name_le, name_le_is_antisymmetric, name_le_is_total, name_le_is_transitive,
    sorted,
};
use vstd::prelude::*;

verus! {

/// Why a catalog could not be built from its sources.
#[derive(Debug)]
pub enum LoadError {
    /// Two decks bear this name.
    DuplicateDeck(String),
    /// Two categories bear this name.
    DuplicateCategory(String),
}

/// The decks, the categories and the type labels, with an index of names.
/// The decks stand in the order of their names. No two decks share a name,
/// and no two categories do.
#[derive(Debug)]
pub struct Catalog {
    decks: Vec<Deck>,
    deck_names: Vec<String>,
    categories: Vec<Category>,
    category_names: Vec<String>,
    types: Vec<String>,
}

/// The record among `records` that bears `name` in `names`, if any does.
pub open spec fn lookup<T>(names: Seq<Seq<char>>, records: Seq<T>, name: Seq<char>) -> Option<T> {
    if names.contains(name) {
        Some(records[names.index_of(name)])
    } else {
        None
    }
}

/// The cover of a deck and the picture and sound of each of its cards are
/// files of the listing.
pub open spec fn deck_assets_resolve(listing: &AssetListing, deck: DeckView) -> bool {
    &&& listing.holds(Bucket::Covers, deck.cover)
    &&& forall|j: int|
        0 <= j < deck.cards.len() ==> listing.holds(Bucket::Visuals, (#[trigger] deck.cards[j]).visual)
            && listing.holds(Bucket::Audio, deck.cards[j].audio)
}

/// The first place in a list ordered by name at which a deck of that name
/// can stand behind every deck that comes no later.
fn insertion_point(decks: &Vec<Deck>, name: &str) -> (p: usize)
    ensures
        p <= decks@.len(),
        forall|q: int| 0 <= q < p ==> name_le(decks@[q].name@, name@),
        p < decks@.len() ==> !name_le(decks@[p as int].name@, name@),
{
    let mut p: usize = 0;
    while p < decks.len()
        invariant
            p <= decks@.len(),
            forall|q: int| 0 <= q < p ==> name_le(decks@[q].name@, name@),
        decreases decks.len() - p,
    {
        if !comes_first(decks[p].name.as_str(), name) {
            return p;
        }
        p += 1;
    }
    p
}

/// Orders the decks by name. The result holds every deck that was given and
/// nothing else; decks of distinct names stay distinct.
fn sort_decks(decks: Vec<Deck>) -> (r: Vec<Deck>)
    ensures
        sorted(deck_name_seq(deck_views(r@))),
        r@.len() == decks@.len(),
        forall|i: int|
            0 <= i < decks@.len() ==> deck_views(r@).contains(#[trigger] deck_views(decks@)[i]),
        forall|k: int|
            0 <= k < r@.len() ==> deck_views(decks@).contains(#[trigger] deck_views(r@)[k]),
        deck_name_seq(deck_views(decks@)).no_duplicates() ==> deck_name_seq(
            deck_views(r@),
        ).no_duplicates(),
{
    let ghost input = deck_views(decks@);
    let ghost mut origin: Seq<int> = Seq::empty();
    let mut rest = decks;
    let mut out: Vec<Deck> = Vec::new();
    loop
        invariant
            input == deck_views(decks@),
            rest@.len() + out@.len() == input.len(),
            deck_views(rest@) == input.take(rest@.len() as int),
            sorted(deck_name_seq(deck_views(out@))),
            origin.len() == out@.len(),
            origin.no_duplicates(),
            forall|k: int|
                0 <= k < out@.len() ==> rest@.len() <= #[trigger] origin[k] < input.len()
                    && out@[k]@ == input[origin[k]],
            forall|m: int|
                rest@.len() <= m < input.len() ==> deck_views(out@).contains(#[trigger] input[m]),
        decreases rest@.len(),
    {
        let ghost waiting = rest@;
        let ghost placed = out@;
        let ghost before = origin;
        match rest.pop() {
            None => {
                proof {
                    let names = deck_name_seq(deck_views(out@));
                    assert forall|k: int| 0 <= k < out@.len() implies input.contains(
                        #[trigger] deck_views(out@)[k],
                    ) by {
                        assert(input[origin[k]] == deck_views(out@)[k]);
                    }
                    if deck_name_seq(input).no_duplicates() {
                        assert forall|a: int, b: int|
                            0 <= a < names.len() && 0 <= b < names.len() && a != b implies names[a]
                            != names[b] by {
                            assert(names[a] == input[origin[a]].name);
                            assert(names[b] == input[origin[b]].name);
                            assert(deck_name_seq(input)[origin[a]] != deck_name_seq(
                                input,
                            )[origin[b]]);
                        }
                    }
                }
                return out;
            },
            Some(deck) => {
                let ghost m = waiting.len() - 1;
                let ghost added = deck@;
                assert(added == deck_views(waiting)[m]);
                let p = insertion_point(&out, deck.name.as_str());
                out.insert(p, deck);
                proof {
                    origin = before.insert(p as int, m);
                    assert(deck_views(rest@) =~= input.take(rest@.len() as int));
                    let old_names = deck_name_seq(deck_views(placed));
                    let names = deck_name_seq(deck_views(out@));
                    assert forall|i: int, j: int| 0 <= i < j < names.len() implies name_le(
                        names[i],
                        names[j],
                    ) by {
                        if j == p {
                            assert(names[i] == placed[i].name@);
                        } else if i == p {
                            assert(names[j] == placed[j - 1].name@);
                            name_le_is_total(placed[p as int].name@, added.name);
                            if j - 1 > p {
                                assert(name_le(old_names[p as int], old_names[j - 1]));
                                name_le_is_transitive(
                                    added.name,
                                    placed[p as int].name@,
                                    names[j],
                                );
                            }
                        } else {
                            let a = if i < p { i } else { i - 1 };
                            let b = if j < p { j } else { j - 1 };
                            assert(name_le(old_names[a], old_names[b]));
                        }
                    }
                    assert forall|a: int, b: int|
                        0 <= a < origin.len() && 0 <= b < origin.len() && a != b implies origin[a]
                        != origin[b] by {
                        if a != p && b != p {
                            let x = if a < p { a } else { a - 1 };
                            let y = if b < p { b } else { b - 1 };
                            assert(before[x] != before[y]);
                        } else if a == p {
                            let y = if b < p { b } else { b - 1 };
                            assert(before[y] > m);
                        } else {
                            let x = if a < p { a } else { a - 1 };
                            assert(before[x] > m);
                        }
                    }
                    assert forall|k: int| 0 <= k < out@.len() implies rest@.len()
                        <= #[trigger] origin[k] < input.len() && out@[k]@ == input[origin[k]] by {
                        if k != p {
                            let x = if k < p { k } else { k - 1 };
                            assert(origin[k] == before[x]);
                            assert(out@[k] == placed[x]);
                        }
                    }
                    assert forall|n: int| rest@.len() <= n < input.len() implies deck_views(
                        out@,
                    ).contains(#[trigger] input[n]) by {
                        if n == m {
                            assert(deck_views(out@)[p as int] == input[n]);
                        } else {
                            assert(deck_views(placed).contains(input[n]));
                            let x = choose|x: int|
                                0 <= x < placed.len() && deck_views(placed)[x] == input[n];
                            let k = if x < p { x } else { x + 1 };
                            assert(deck_views(out@)[k] == input[n]);
                        }
                    }
                }
            },
        }
    }
}

fn names_of_decks(decks: &Vec<Deck>) -> (r: Vec<String>)
    ensures
        views(r@) == deck_name_seq(deck_views(decks@)),
{
    let mut out: Vec<String> = Vec::new();
    let mut i: usize = 0;
    while i < decks.len()
        invariant
            i <= decks.len(),
            out@.len() == i,
            forall|k: int| 0 <= k < i ==> out@[k]@ == decks@[k].name@,
        decreases decks.len() - i,
    {
        out.push(decks[i].name.clone());
        i += 1;
    }
    assert(views(out@) =~= deck_name_seq(deck_views(decks@)));
    out
}

fn names_of_categories(categories: &Vec<Category>) -> (r: Vec<String>)
    ensures
        views(r@) == category_name_seq(category_views(categories@)),
{
    let mut out: Vec<String> = Vec::new();
    let mut i: usize = 0;
    while i < categories.len()
        invariant
            i <= categories.len(),
            out@.len() == i,
            forall|k: int| 0 <= k < i ==> out@[k]@ == categories@[k].name@,
        decreases categories.len() - i,
    {
        out.push(categories[i].name.clone());
        i += 1;
    }
    assert(views(out@) =~= category_name_seq(category_views(categories@)));
    out
}

fn card_assets_listed(listing: &AssetListing, deck: &Deck) -> (r: bool)
    ensures
        r == deck_assets_resolve(listing, deck@),
{
    if !listing.contains(Bucket::Covers, deck.cover.as_str()) {
        return false;
    }
    let mut j: usize = 0;
    while j < deck.cards.len()
        invariant
            j <= deck.cards.len(),
            listing.holds(Bucket::Covers, deck@.cover),
            forall|k: int|
                0 <= k < j ==> listing.holds(Bucket::Visuals, (#[trigger] deck@.cards[k]).visual)
                    && listing.holds(Bucket::Audio, deck@.cards[k].audio),
        decreases deck.cards.len() - j,
    {
        let card = &deck.cards[j];
        assert(deck@.cards[j as int] == card@);
        if !listing.contains(Bucket::Visuals, card.visual.as_str()) || !listing.contains(
            Bucket::Audio,
            card.audio.as_str(),
        ) {
            return false;
        }
        j += 1;
    }
    true
}

impl Catalog {
    #[verifier::type_invariant]
    spec fn inv(&self) -> bool {
        self.well_formed()
    }

    /// The index of names agrees with the records, the decks stand in the
    /// order of their names, and no name occurs twice.
    pub closed spec fn well_formed(&self) -> bool {
        &&& views(self.deck_names@) == deck_name_seq(deck_views(self.decks@))
        &&& sorted(views(self.deck_names@))
        &&& views(self.category_names@) == category_name_seq(category_views(self.categories@))
        &&& views(self.deck_names@).no_duplicates()
        &&& views(self.category_names@).no_duplicates()
    }

    /// The decks, in the order of their names.
    pub closed spec fn decks_view(&self) -> Seq<DeckView> {
        deck_views(self.decks@)
    }

    /// The categories, in the order in which they were declared.
    pub closed spec fn categories_view(&self) -> Seq<CategoryView> {
        category_views(self.categories@)
    }

    /// The type labels, each once, in the order in which they were declared.
    pub closed spec fn types_view(&self) -> Seq<Seq<char>> {
        views(self.types@)
    }

    /// The deck that bears `name`, if any does.
    pub open spec fn lookup_deck(&self, name: Seq<char>) -> Option<DeckView> {
        lookup(deck_name_seq(self.decks_view()), self.decks_view(), name)
    }

    /// The category that bears `name`, if any does.
    pub open spec fn lookup_category(&self, name: Seq<char>) -> Option<CategoryView> {
        lookup(category_name_seq(self.categories_view()), self.categories_view(), name)
    }

    /// Every asset that the catalog refers to is a file of the listing.
    pub open spec fn all_assets_resolve(&self, listing: &AssetListing) -> bool {
        &&& forall|i: int|
            0 <= i < self.decks_view().len() ==> deck_assets_resolve(
                listing,
                #[trigger] self.decks_view()[i],
            )
        &&& forall|k: int|
            0 <= k < self.categories_view().len() ==> listing.holds(
                Bucket::CategoryIcons,
                (#[trigger] self.categories_view()[k]).icon,
            )
    }

    /// Builds the catalog from the parsed decks and the parsed category
    /// index. Two decks of one name, or two categories of one name, are
    /// refused. The catalog holds the decks that were given, in the order of
    /// their names whatever order they were given in, the categories as
    /// declared, and of the type labels the first occurrence of each.
    pub fn load(decks: Vec<Deck>, index: CategoryJSON) -> (r: Result<Catalog, LoadError>)
        ensures
            match r {
                Ok(catalog) => {
                    &&& catalog.well_formed()
                    &&& sorted(deck_name_seq(catalog.decks_view()))
                    &&& catalog.decks_view().len() == decks@.len()
                    &&& forall|i: int|
                        0 <= i < decks@.len() ==> catalog.decks_view().contains(
                            #[trigger] deck_views(decks@)[i],
                        )
                    &&& forall|k: int|
                        0 <= k < catalog.decks_view().len() ==> deck_views(decks@).contains(
                            #[trigger] catalog.decks_view()[k],
                        )
                    &&& catalog.categories_view() == category_views(index.categories@)
                    &&& catalog.types_view() == distinct(views(index.types@))
                    &&& deck_name_seq(deck_views(decks@)).no_duplicates()
                    &&& category_name_seq(category_views(index.categories@)).no_duplicates()
                },
                Err(LoadError::DuplicateDeck(name)) => exists|j: int|
                    is_first_repeat(deck_name_seq(deck_views(decks@)), j) && name@
                        == #[trigger] deck_name_seq(deck_views(decks@))[j],
                Err(LoadError::DuplicateCategory(name)) => {
                    &&& deck_name_seq(deck_views(decks@)).no_duplicates()
                    &&& exists|j: int|
                        is_first_repeat(category_name_seq(category_views(index.categories@)), j)
                            && name@ == #[trigger] category_name_seq(
                            category_views(index.categories@),
                        )[j]
                },
            },
    {
        let given_names = names_of_decks(&decks);
        if let Some(j) = first_repeat(&given_names) {
            let name = given_names[j].clone();
            assert(name@ == deck_name_seq(deck_views(decks@))[j as int]);
            return Err(LoadError::DuplicateDeck(name));
        }
        let category_names = names_of_categories(&index.categories);
        if let Some(j) = first_repeat(&category_names) {
            let name = category_names[j].clone();
            assert(name@ == category_name_seq(category_views(index.categories@))[j as int]);
            return Err(LoadError::DuplicateCategory(name));
        }
        let types = distinct_names(&index.types);
        let decks = sort_decks(decks);
        let deck_names = names_of_decks(&decks);
        Ok(Catalog { decks, deck_names, categories: index.categories, category_names, types })
    }

    /// Looks a deck up by its name; the match is exact and case-sensitive.
    pub fn find_deck(&self, name: &str) -> (r: Option<&Deck>)
        ensures
            match r {
                Some(deck) => self.lookup_deck(name@) == Some(deck@),
                None => self.lookup_deck(name@) is None,
            },
    {
        proof {
            use_type_invariant(self);
        }
        match position_of(&self.deck_names, name) {
            Some(i) => {
                proof {
                    let names = deck_name_seq(self.decks_view());
                    assert(names[i as int] == name@);
                    assert(names.contains(name@));
                    assert(names.index_of(name@) == i);
                }
                Some(&self.decks[i])
            },
            None => None,
        }
    }

    /// Looks a category up by its name; the match is exact and case-sensitive.
    pub fn find_category(&self, name: &str) -> (r: Option<&Category>)
        ensures
            match r {
                Some(category) => self.lookup_category(name@) == Some(category@),
                None => self.lookup_category(name@) is None,
            },
    {
        proof {
            use_type_invariant(self);
        }
        match position_of(&self.category_names, name) {
            Some(i) => {
                proof {
                    let names = category_name_seq(self.categories_view());
                    assert(names[i as int] == name@);
                    assert(names.contains(name@));
                    assert(names.index_of(name@) == i);
                }
                Some(&self.categories[i])
            },
            None => None,
        }
    }

    /// The names of the decks, in order.
    pub fn list_deck_names(&self) -> (r: &Vec<String>)
        ensures
            views(r@) == deck_name_seq(self.decks_view()),
            sorted(views(r@)),
            views(r@).no_duplicates(),
    {
        proof {
            use_type_invariant(self);
        }
        &self.deck_names
    }

    /// The names of the decks in order, one per line.
    pub fn deck_names(&self) -> (r: String)
        ensures
            r@ == lines_text(deck_name_seq(self.decks_view())),
    {
        proof {
            use_type_invariant(self);
        }
        join_lines(&self.deck_names)
    }

    /// The decks, in the order of their names.
    pub fn list_decks(&self) -> (r: &Vec<Deck>)
        ensures
            deck_views(r@) == self.decks_view(),
    {
        &self.decks
    }

    /// The categories, in the order in which they were declared.
    pub fn list_categories(&self) -> (r: &Vec<Category>)
        ensures
            category_views(r@) == self.categories_view(),
    {
        &self.categories
    }

    /// The type labels, each once, in the order in which they were declared.
    pub fn list_types(&self) -> (r: &Vec<String>)
        ensures
            views(r@) == self.types_view(),
    {
        &self.types
    }

    /// The type labels as the text of a JSON array.
    pub fn get_types(&self) -> (r: Option<String>)
        ensures
            match r {
                Some(text) => json_array_text(self.types_view()) == Some(text@),
                None => json_array_text(self.types_view()) is None,
            },
    {
        encode_strings(&self.types)
    }

    /// The categories and the type labels as one record.
    pub fn get_categories_and_types(&self) -> (r: CategoryJSON)
        ensures
            category_views(r.categories@) == self.categories_view(),
            views(r.types@) == self.types_view(),
    {
        let mut categories: Vec<Category> = Vec::new();
        let mut i: usize = 0;
        while i < self.categories.len()
            invariant
                i <= self.categories.len(),
                categories@.len() == i,
                forall|k: int| 0 <= k < i ==> categories@[k]@ == self.categories@[k]@,
            decreases self.categories.len() - i,
        {
            let category = &self.categories[i];
            categories.push(Category { name: category.name.clone(), icon: category.icon.clone() });
            i += 1;
        }
        assert(category_views(categories@) =~= self.categories_view());
        let mut types: Vec<String> = Vec::new();
        let mut j: usize = 0;
        while j < self.types.len()
            invariant
                j <= self.types.len(),
                types@.len() == j,
                forall|k: int| 0 <= k < j ==> types@[k]@ == self.types@[k]@,
            decreases self.types.len() - j,
        {
            types.push(self.types[j].clone());
            j += 1;
        }
        assert(views(types@) =~= self.types_view());
        CategoryJSON { categories, types }
    }

    /// The path of the cover of the deck that bears `name`. Without such a
    /// deck nothing is resolved.
    pub fn get_cover(&self, name: &str) -> (r: Option<String>)
        ensures
            match self.lookup_deck(name@) {
                Some(deck) => match r {
                    Some(path) => is_child_name(deck.cover) && path@ == child_path(
                        Bucket::Covers,
                        deck.cover,
                    ),
                    None => !is_child_name(deck.cover),
                },
                None => r is None,
            },
    {
        match self.find_deck(name) {
            Some(deck) => asset_path(Bucket::Covers, deck.cover.as_str()),
            None => None,
        }
    }

    /// The path of the icon of the category that bears `name`. Without such
    /// a category nothing is resolved.
    pub fn get_category_icon(&self, name: &str) -> (r: Option<String>)
        ensures
            match self.lookup_category(name@) {
                Some(category) => match r {
                    Some(path) => is_child_name(category.icon) && path@ == child_path(
                        Bucket::CategoryIcons,
                        category.icon,
                    ),
                    None => !is_child_name(category.icon),
                },
                None => r is None,
            },
    {
        match self.find_category(name) {
            Some(category) => asset_path(Bucket::CategoryIcons, category.icon.as_str()),
            None => None,
        }
    }

    /// Scans the whole catalog for references to assets that the listing
    /// does not hold.
    pub fn check_assets(&self, listing: &AssetListing) -> (r: bool)
        ensures
            r == self.all_assets_resolve(listing),
    {
        let mut i: usize = 0;
        while i < self.decks.len()
            invariant
                i <= self.decks.len(),
                forall|k: int|
                    0 <= k < i ==> deck_assets_resolve(listing, #[trigger] self.decks_view()[k]),
            decreases self.decks.len() - i,
        {
            assert(self.decks_view()[i as int] == self.decks@[i as int]@);
            if !card_assets_listed(listing, &self.decks[i]) {
                return false;
            }
            i += 1;
        }
        let mut k: usize = 0;
        while k < self.categories.len()
            invariant
                k <= self.categories.len(),
                forall|i: int|
                    0 <= i < self.decks_view().len() ==> deck_assets_resolve(
                        listing,
                        #[trigger] self.decks_view()[i],
                    ),
                forall|m: int|
                    0 <= m < k ==> listing.holds(
                        Bucket::CategoryIcons,
                        (#[trigger] self.categories_view()[m]).icon,
                    ),
            decreases self.categories.len() - k,
        {
            assert(self.categories_view()[k as int] == self.categories@[k as int]@);
            if !listing.contains(Bucket::CategoryIcons, self.categories[k].icon.as_str()) {
                return false;
            }
            k += 1;
        }
        true
    }
}

/// Among names without duplicates, a record is found under its own name, and
/// under no other position.
proof fn lookup_of_position<T>(names: Seq<Seq<char>>, records: Seq<T>, i: int)
    requires
        names.no_duplicates(),
        0 <= i < names.len(),
    ensures
        lookup(names, records, names[i]) == Some(records[i]),
{
    assert(names.contains(names[i]));
    assert(names.index_of(names[i]) == i);
}

/// The listing of decks is in the order of the names and repeats no name,
/// and no category name is repeated either.
pub proof fn listings_are_ordered_and_distinct(catalog: &Catalog)
    requires
        catalog.well_formed(),
    ensures
        sorted(deck_name_seq(catalog.decks_view())),
        deck_name_seq(catalog.decks_view()).no_duplicates(),
        category_name_seq(catalog.categories_view()).no_duplicates(),
{
}

/// Two lists of decks in the order of their names, each without a repeated
/// name, that hold the same decks are one list.
proof fn ordered_decks_are_determined(a: Seq<DeckView>, b: Seq<DeckView>)
    requires
        sorted(deck_name_seq(a)),
        sorted(deck_name_seq(b)),
        deck_name_seq(a).no_duplicates(),
        deck_name_seq(b).no_duplicates(),
        forall|deck: DeckView| a.contains(deck) <==> b.contains(deck),
    ensures
        a == b,
    decreases a.len(),
{
    let a_names = deck_name_seq(a);
    let b_names = deck_name_seq(b);
    if a.len() == 0 {
        if b.len() > 0 {
            assert(b.contains(b[0]));
        }
        assert(a =~= b);
    } else if b.len() == 0 {
        assert(a.contains(a[0]));
    } else {
        assert(a.contains(a[0]));
        assert(b.contains(b[0]));
        let k = choose|k: int| 0 <= k < b.len() && b[k] == a[0];
        let m = choose|m: int| 0 <= m < a.len() && a[m] == b[0];
        assert(a_names[0] == a[0].name && a_names[m] == b[0].name);
        assert(b_names[0] == b[0].name && b_names[k] == a[0].name);
        if k > 0 && m > 0 {
            assert(name_le(a_names[0], a_names[m]));
            assert(name_le(b_names[0], b_names[k]));
            name_le_is_antisymmetric(a[0].name, b[0].name);
        }
        if k > 0 && m == 0 {
            assert(b_names[0] == b_names[k]);
        }
        if m > 0 && k == 0 {
            assert(a_names[0] == a_names[m]);
        }
        assert(a[0] == b[0]);
        let a_rest = a.drop_first();
        let b_rest = b.drop_first();
        assert(deck_name_seq(a_rest) =~= a_names.drop_first());
        assert(deck_name_seq(b_rest) =~= b_names.drop_first());
        assert forall|deck: DeckView| a_rest.contains(deck) <==> b_rest.contains(deck) by {
            if a_rest.contains(deck) {
                let i = choose|i: int| 0 <= i < a_rest.len() && a_rest[i] == deck;
                assert(a[i + 1] == deck);
                assert(a.contains(deck));
                let j = choose|j: int| 0 <= j < b.len() && b[j] == deck;
                assert(a_names[i + 1] != a_names[0]);
                assert(b_names[j] == deck.name);
                assert(b_rest[j - 1] == deck);
            }
            if b_rest.contains(deck) {
                let i = choose|i: int| 0 <= i < b_rest.len() && b_rest[i] == deck;
                assert(b[i + 1] == deck);
                assert(b.contains(deck));
                let j = choose|j: int| 0 <= j < a.len() && a[j] == deck;
                assert(b_names[i + 1] != b_names[0]);
                assert(a_names[j] == deck.name);
                assert(a_rest[j - 1] == deck);
            }
        }
        ordered_decks_are_determined(a_rest, b_rest);
        assert(a =~= seq![a[0]] + a_rest);
        assert(b =~= seq![b[0]] + b_rest);
    }
}

/// The order in which the decks are given does not matter: two catalogs that
/// hold the same decks list them alike.
pub proof fn deck_listing_is_determined(first: &Catalog, second: &Catalog)
    requires
        first.well_formed(),
        second.well_formed(),
        forall|deck: DeckView|
            first.decks_view().contains(deck) <==> second.decks_view().contains(deck),
    ensures
        first.decks_view() == second.decks_view(),
{
    ordered_decks_are_determined(first.decks_view(), second.decks_view());
}

/// Every listed deck name leads back to its deck: looking up the name at
/// position `i` of the listing finds the deck at position `i`, whose name is
/// the name asked for.
pub proof fn listed_deck_is_found(catalog: &Catalog, i: int)
    requires
        catalog.well_formed(),
        0 <= i < catalog.decks_view().len(),
    ensures
        catalog.lookup_deck(deck_name_seq(catalog.decks_view())[i]) == Some(
            catalog.decks_view()[i],
        ),
        catalog.decks_view()[i].name == deck_name_seq(catalog.decks_view())[i],
{
    lookup_of_position(deck_name_seq(catalog.decks_view()), catalog.decks_view(), i);
}

/// A deck name is never ambiguous: two decks that bear one name are one deck,
/// and the lookup of that name finds it.
pub proof fn deck_lookup_is_unambiguous(catalog: &Catalog, name: Seq<char>, i: int, j: int)
    requires
        catalog.well_formed(),
        0 <= i < catalog.decks_view().len(),
        0 <= j < catalog.decks_view().len(),
        catalog.decks_view()[i].name == name,
        catalog.decks_view()[j].name == name,
    ensures
        i == j,
        catalog.lookup_deck(name) == Some(catalog.decks_view()[i]),
{
    let names = deck_name_seq(catalog.decks_view());
    assert(names[i] == name && names[j] == name);
    lookup_of_position(names, catalog.decks_view(), i);
}

/// A category name is never ambiguous: two categories that bear one name are
/// one category, and the lookup of that name finds it.
pub proof fn category_lookup_is_unambiguous(catalog: &Catalog, name: Seq<char>, i: int, j: int)
    requires
        catalog.well_formed(),
        0 <= i < catalog.categories_view().len(),
        0 <= j < catalog.categories_view().len(),
        catalog.categories_view()[i].name == name,
        catalog.categories_view()[j].name == name,
    ensures
        i == j,
        catalog.lookup_category(name) == Some(catalog.categories_view()[i]),
{
    let names = category_name_seq(catalog.categories_view());
    assert(names[i] == name && names[j] == name);
    lookup_of_position(names, catalog.categories_view(), i);
}

/// In a catalog whose assets all resolve, the picture and the sound of every
/// card of every deck, and the cover of every deck, are files of the listing.
pub proof fn card_assets_are_listed(catalog: &Catalog, listing: &AssetListing, i: int, j: int)
    requires
        catalog.all_assets_resolve(listing),
        0 <= i < catalog.decks_view().len(),
        0 <= j < catalog.decks_view()[i].cards.len(),
    ensures
        listing.holds(Bucket::Covers, catalog.decks_view()[i].cover),
        listing.holds(Bucket::Visuals, catalog.decks_view()[i].cards[j].visual),
        listing.holds(Bucket::Audio, catalog.decks_view()[i].cards[j].audio),
{
    assert(deck_assets_resolve(listing, catalog.decks_view()[i]));
}

/// In a catalog whose assets all resolve, every listed category is found
/// under its name and its icon is a file of the listing.
pub proof fn listed_category_icon_is_listed(catalog: &Catalog, listing: &AssetListing, k: int)
    requires
        catalog.well_formed(),
        catalog.all_assets_resolve(listing),
        0 <= k < catalog.categories_view().len(),
    ensures
        catalog.lookup_category(catalog.categories_view()[k].name) == Some(
            catalog.categories_view()[k],
        ),
        listing.holds(Bucket::CategoryIcons, catalog.categories_view()[k].icon),
{
    let names = category_name_seq(catalog.categories_view());
    assert(names[k] == catalog.categories_view()[k].name);
    lookup_of_position(names, catalog.categories_view(), k);
}

} // verus!
