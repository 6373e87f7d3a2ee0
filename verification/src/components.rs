//! The data that can be attached to an entity.

use vstd::prelude::*;
use vstd::string::StringExecFns;

use crate::world::Entity;

verus! {

/// A colour as its red, green and blue parts.
#[derive(Clone, Copy, Debug, PartialEq, Eq, Structural)]
pub struct Color {
    pub r: u8,
    pub g: u8,
    pub b: u8,
}

impl Color {
    /// The colour behind every glyph that does not ask for another.
    pub open spec fn black() -> Color {
        Color { r: 0, g: 0, b: 0 }
    }
}

/// Grid coordinates of an entity that stands on the map.
#[derive(Clone, Copy, Debug, PartialEq, Eq, Structural)]
pub struct Position {
    pub x: i32,
    pub y: i32,
}

/// How an entity is drawn. It has no effect on the rules of the game.
#[derive(Clone, Copy, Debug, PartialEq, Eq, Structural)]
pub struct Renderable {
    pub glyph: u16,
    pub fg: Color,
    pub bg: Color,
}

impl Renderable {
    /// A glyph in the given colour on a black background.
    pub fn new(glyph: u16, fg: Color) -> (r: Self)
        ensures
            r == (Renderable { glyph, fg, bg: Color::black() }),
    {
        Self { glyph, fg, bg: Color { r: 0, g: 0, b: 0 } }
    }
}

/// The label of an entity, as the log shows it.
#[derive(Debug)]
pub struct Name {
    name: String,
}

impl View for Name {
    type V = Seq<char>;

    closed spec fn view(&self) -> Seq<char> {
        self.name@
    }
}

impl Name {
    pub fn new(name: &str) -> (r: Self)
        ensures
            r@ == name@,
    {
        Name { name: String::from_str(name) }
    }

    /// The label as text.
    pub fn as_str(&self) -> (s: &str)
        ensures
            s@ == self@,
    {
        self.name.as_str()
    }

    /// The label as an owned string.
    pub fn to_string(&self) -> (s: String)
        ensures
            s@ == self@,
    {
        self.name.clone()
    }

    /// A second name with the same text.
    pub fn duplicate(&self) -> (r: Self)
        ensures
            r@ == self@,
    {
        Name { name: self.name.clone() }
    }
}

/// The rank of an item: a higher number is a better item.
#[derive(Clone, Copy, Debug, PartialEq, Eq, Structural)]
pub struct Tier {
    pub rank: u8,
}

impl Tier {
    pub fn new(rank: u8) -> (t: Self)
        ensures
            t.rank == rank,
    {
        Tier { rank }
    }

    /// Whether this tier ranks strictly above `other`.
    pub fn outranks(self, other: Tier) -> (b: bool)
        ensures
            b == (self.rank > other.rank),
    {
        self.rank > other.rank
    }
}

/// What a craft request asks for: the item to make, and the tiers of the
/// backpack items that making it uses up.
#[derive(Debug)]
pub struct Recipe {
    pub product: String,
    pub tier: Tier,
    pub materials: Vec<Tier>,
}

/// A recipe as plain values.
pub struct RecipeView {
    pub product: Seq<char>,
    pub tier: Tier,
    pub materials: Seq<Tier>,
}

impl View for Recipe {
    type V = RecipeView;

    open spec fn view(&self) -> RecipeView {
        RecipeView { product: self.product@, tier: self.tier, materials: self.materials@ }
    }
}

impl Recipe {
    pub fn new(product: &str, tier: Tier, materials: Vec<Tier>) -> (r: Self)
        ensures
            r@ == (RecipeView { product: product@, tier, materials: materials@ }),
    {
        Recipe { product: String::from_str(product), tier, materials }
    }
}

/// Requests of one actor to pick entities up, oldest first.
#[derive(Debug)]
pub struct PickupQueue {
    pub queue: Vec<Entity>,
}

impl View for PickupQueue {
    type V = Seq<Entity>;

    open spec fn view(&self) -> Seq<Entity> {
        self.queue@
    }
}

impl PickupQueue {
    pub fn new() -> (q: Self)
        ensures
            q@ == Seq::<Entity>::empty(),
    {
        PickupQueue { queue: Vec::new() }
    }
}

/// The recipes of a sequence as plain values, in the same order.
pub open spec fn recipe_views(recipes: Seq<Recipe>) -> Seq<RecipeView> {
    Seq::new(recipes.len(), |i: int| recipes[i]@)
}

/// Requests of one actor to craft, oldest first.
#[derive(Debug)]
pub struct CraftQueue {
    pub queue: Vec<Recipe>,
}

impl View for CraftQueue {
    type V = Seq<RecipeView>;

    open spec fn view(&self) -> Seq<RecipeView> {
        recipe_views(self.queue@)
    }
}

impl CraftQueue {
    pub fn new() -> (q: Self)
        ensures
            q@ == Seq::<RecipeView>::empty(),
    {
        let q = CraftQueue { queue: Vec::new() };
        assert(q@ =~= Seq::<RecipeView>::empty());
        q
    }
}

/// The types of component that an entity can carry, at most one of each.
#[derive(Clone, Copy, Debug, PartialEq, Eq, Structural)]
pub enum Kind {
    Position,
    Renderable,
    Name,
    Item,
    Tier,
    BlocksMovement,
    Player,
    InBackpack,
    PickupQueue,
    CraftQueue,
}

/// One component, ready to be attached. `Item`, `BlocksMovement`, `Player` and
/// `InBackpack` are tags: they carry nothing, and only their presence counts.
#[derive(Debug)]
pub enum Component {
    Position(Position),
    Renderable(Renderable),
    Name(Name),
    Item,
    Tier(Tier),
    BlocksMovement,
    Player,
    InBackpack,
    PickupQueue(PickupQueue),
    CraftQueue(CraftQueue),
}

impl Component {
    /// The type of this component.
    pub open spec fn spec_kind(&self) -> Kind {
        match self {
            Component::Position(_) => Kind::Position,
            Component::Renderable(_) => Kind::Renderable,
            Component::Name(_) => Kind::Name,
            Component::Item => Kind::Item,
            Component::Tier(_) => Kind::Tier,
            Component::BlocksMovement => Kind::BlocksMovement,
            Component::Player => Kind::Player,
            Component::InBackpack => Kind::InBackpack,
            Component::PickupQueue(_) => Kind::PickupQueue,
            Component::CraftQueue(_) => Kind::CraftQueue,
        }
    }

    /// The type of this component.
    #[verifier::when_used_as_spec(spec_kind)]
    pub fn kind(&self) -> (k: Kind)
        ensures
            k == self.spec_kind(),
    {
        match self {
            Component::Position(_) => Kind::Position,
            Component::Renderable(_) => Kind::Renderable,
            Component::Name(_) => Kind::Name,
            Component::Item => Kind::Item,
            Component::Tier(_) => Kind::Tier,
            Component::BlocksMovement => Kind::BlocksMovement,
            Component::Player => Kind::Player,
            Component::InBackpack => Kind::InBackpack,
            Component::PickupQueue(_) => Kind::PickupQueue,
            Component::CraftQueue(_) => Kind::CraftQueue,
        }
    }
}

} // verus!
