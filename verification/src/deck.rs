//! The records of the catalog and their mathematical views.

use vstd::prelude::*;

verus! {

/// One card of a deck: a picture and a sound that belong together.
#[derive(Debug)]
pub struct Card {
    pub anime: String,
    pub type_: String,
    pub visual: String,
    pub audio: String,
}

/// A deck of cards, known by its name.
#[derive(Debug)]
pub struct Deck {
    pub name: String,
    pub category: String,
    pub type_: String,
    pub cover: String,
    pub cards: Vec<Card>,
}

/// A category of decks, with the file name of its icon.
#[derive(Debug)]
pub struct Category {
    pub name: String,
    pub icon: String,
}

/// The category index as declared: the categories and the type labels.
#[derive(Debug)]
pub struct CategoryJSON {
    pub categories: Vec<Category>,
    pub types: Vec<String>,
}

pub struct CardView {
    pub anime: Seq<char>,
    pub type_: Seq<char>,
    pub visual: Seq<char>,
    pub audio: Seq<char>,
}

pub struct DeckView {
    pub name: Seq<char>,
    pub category: Seq<char>,
    pub type_: Seq<char>,
    pub cover: Seq<char>,
    pub cards: Seq<CardView>,
}

pub struct CategoryView {
    pub name: Seq<char>,
    pub icon: Seq<char>,
}

impl View for Card {
    type V = CardView;

    open spec fn view(&self) -> CardView {
        CardView {
            anime: self.anime@,
            type_: self.type_@,
            visual: self.visual@,
            audio: self.audio@,
        }
    }
}

impl View for Deck {
    type V = DeckView;

    open spec fn view(&self) -> DeckView {
        DeckView {
            name: self.name@,
            category: self.category@,
            type_: self.type_@,
            cover: self.cover@,
            cards: Seq::new(self.cards@.len(), |i: int| self.cards@[i]@),
        }
    }
}

impl View for Category {
    type V = CategoryView;

    open spec fn view(&self) -> CategoryView {
        CategoryView { name: self.name@, icon: self.icon@ }
    }
}

/// The views of a list of decks, in order.
pub open spec fn deck_views(decks: Seq<Deck>) -> Seq<DeckView> {
    Seq::new(decks.len(), |i: int| decks[i]@)
}

/// The views of a list of categories, in order.
pub open spec fn category_views(categories: Seq<Category>) -> Seq<CategoryView> {
    Seq::new(categories.len(), |i: int| categories[i]@)
}

/// The names of a list of decks, in order.
pub open spec fn deck_name_seq(decks: Seq<DeckView>) -> Seq<Seq<char>> {
    Seq::new(decks.len(), |i: int| decks[i].name)
}

/// The names of a list of categories, in order.
pub open spec fn category_name_seq(categories: Seq<CategoryView>) -> Seq<Seq<char>> {
    Seq::new(categories.len(), |i: int| categories[i].name)
}

} // verus!
