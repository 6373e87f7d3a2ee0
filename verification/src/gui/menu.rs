//! The options of the side menu, and where their texts go on the screen.

use vstd::prelude::*;
use vstd::string::StringExecFns;

use crate::components::{Recipe, RecipeView, Tier};
use crate::gui::MenuMode;

verus! {

/// A text and the cell of the screen where it starts.
#[derive(Debug)]
pub struct Text {
    pub x: i32,
    pub y: i32,
    pub text: String,
}

/// One line of the menu: the key that activates the option, and what the
/// option is called.
#[derive(Debug)]
pub struct MenuOption {
    pub key: String,
    pub name: String,
}

/// A menu option as plain values.
pub struct OptionView {
    pub key: Seq<char>,
    pub name: Seq<char>,
}

impl View for MenuOption {
    type V = OptionView;

    open spec fn view(&self) -> OptionView {
        OptionView { key: self.key@, name: self.name@ }
    }
}

/// A menu option laid out: its key, and after it its label.
#[derive(Debug)]
pub struct OptionText {
    pub key: Text,
    pub label: Text,
}

/// The length of `text` in bytes, which is how many cells the layout allows
/// for it. For plain ASCII that is its number of characters.
pub open spec fn width(text: Seq<char>) -> nat {
    vstd::utf8::encode_utf8(text).len()
}

/// A text of ASCII characters is as wide as it is long.
pub proof fn lemma_ascii_width(text: Seq<char>)
    requires
        vstd::utf8::is_ascii_chars(text),
    ensures
        width(text) == text.len(),
{
    vstd::utf8::is_ascii_chars_encode_utf8(text);
}

/// The label of an option called `name`: a colon, a space, and the name.
pub open spec fn label_of(name: Seq<char>) -> Seq<char> {
    ": "@ + name
}

impl MenuOption {
    /// Whether `placed` is `option` laid out from the cell (`x`, `y`): the key
    /// there, and the label on the same row right after the key.
    pub open spec fn placed_at(option: OptionView, x: int, y: int, placed: OptionText) -> bool {
        &&& placed.key.x == x
        &&& placed.key.y == y
        &&& placed.key.text@ == option.key
        &&& placed.label.x == x + width(option.key)
        &&& placed.label.y == y
        &&& placed.label.text@ == label_of(option.name)
    }

    /// Lays the option out from the cell (`x`, `y`).
    pub fn print(&self, x: i32, y: i32) -> (placed: OptionText)
        requires
            x + width(self.key@) <= i32::MAX,
        ensures
            Self::placed_at(self@, x as int, y as int, placed),
    {
        let cells = self.key.as_str().len();
        let new_x = (x as i64 + cells as i64) as i32;
        OptionText {
            key: Text { x, y, text: self.key.clone() },
            label: Text { x: new_x, y, text: String::from_str(": ").concat(self.name.as_str()) },
        }
    }
}

/// The options of a menu, from the top down.
#[derive(Debug)]
pub struct Menu {
    pub options: Vec<MenuOption>,
}

impl View for Menu {
    type V = Seq<OptionView>;

    open spec fn view(&self) -> Seq<OptionView> {
        Seq::new(self.options@.len(), |i: int| self.options@[i]@)
    }
}

/// An option that `key` activates and that is called `name`.
pub fn option(key: &str, name: &str) -> (made: MenuOption)
    ensures
        made@ == (OptionView { key: key@, name: name@ }),
{
    MenuOption { key: String::from_str(key), name: String::from_str(name) }
}

/// The options that the menu offers in `mode`, from the top down.
pub open spec fn options_of(mode: MenuMode) -> Seq<OptionView> {
    match mode {
        MenuMode::Default => seq![OptionView { key: "d"@, name: "build"@ }],
        MenuMode::Interact => seq![OptionView { key: "g"@, name: "pick up"@ }],
        MenuMode::Inventory => seq![],
        MenuMode::Craft => seq![
            OptionView { key: "a"@, name: "axe"@ },
            OptionView { key: "f"@, name: "fire pit"@ },
        ],
    }
}

/// How many options the menu offers in `mode`.
pub open spec fn spec_option_count(mode: MenuMode) -> usize {
    match mode {
        MenuMode::Default => 1,
        MenuMode::Interact => 1,
        MenuMode::Inventory => 0,
        MenuMode::Craft => 2,
    }
}

/// The option count of a mode is the length of its list of options, and
/// every key is one cell wide.
pub proof fn lemma_options(mode: MenuMode)
    ensures
        options_of(mode).len() == spec_option_count(mode),
        forall|i: int| 0 <= i < options_of(mode).len() ==> width(#[trigger] options_of(mode)[i].key) == 1,
{
    reveal_strlit("d");
    reveal_strlit("g");
    reveal_strlit("a");
    reveal_strlit("f");
    lemma_ascii_width("d"@);
    lemma_ascii_width("g"@);
    lemma_ascii_width("a"@);
    lemma_ascii_width("f"@);
}

/// How many options the menu offers in `mode`.
#[verifier::when_used_as_spec(spec_option_count)]
pub fn option_count(mode: MenuMode) -> (count: usize)
    ensures
        count == spec_option_count(mode),
{
    match mode {
        MenuMode::Default => 1,
        MenuMode::Interact => 1,
        MenuMode::Inventory => 0,
        MenuMode::Craft => 2,
    }
}

/// The menu of `mode`.
pub fn menu(mode: MenuMode) -> (made: Menu)
    ensures
        made@ == options_of(mode),
{
    let mut options: Vec<MenuOption> = Vec::new();
    match mode {
        MenuMode::Default => {
            options.push(option("d", "build"));
        },
        MenuMode::Interact => {
            options.push(option("g", "pick up"));
        },
        MenuMode::Inventory => {},
        MenuMode::Craft => {
            options.push(option("a", "axe"));
            options.push(option("f", "fire pit"));
        },
    }
    let made = Menu { options };
    assert(made@ =~= options_of(mode));
    made
}

/// What the option `option` of the craft menu stands for: the recipe of the
/// item that the option names.
pub open spec fn recipe_of(option: int) -> RecipeView {
    let product = options_of(MenuMode::Craft)[option].name;
    if option == 0 {
        RecipeView {
            product,
            tier: Tier { rank: 2 },
            materials: seq![Tier { rank: 1 }, Tier { rank: 1 }],
        }
    } else {
        RecipeView {
            product,
            tier: Tier { rank: 3 },
            materials: seq![Tier { rank: 2 }, Tier { rank: 1 }],
        }
    }
}

/// The recipe that the option `option` of the craft menu stands for, if the
/// craft menu has such an option.
pub fn recipe_for(option: usize) -> (found: Option<Recipe>)
    ensures
        found is Some <==> option < options_of(MenuMode::Craft).len(),
        found matches Some(recipe) ==> recipe@ == recipe_of(option as int),
{
    let menu = menu(MenuMode::Craft);
    if option >= menu.options.len() {
        return None;
    }
    assert(menu@[option as int] == menu.options[option as int]@);
    let product = menu.options[option].name.as_str();
    let mut materials: Vec<Tier> = Vec::new();
    if option == 0 {
        materials.push(Tier::new(1));
        materials.push(Tier::new(1));
        assert(materials@ =~= seq![Tier { rank: 1 }, Tier { rank: 1 }]);
        Some(Recipe::new(product, Tier::new(2), materials))
    } else {
        materials.push(Tier::new(2));
        materials.push(Tier::new(1));
        assert(materials@ =~= seq![Tier { rank: 2 }, Tier { rank: 1 }]);
        Some(Recipe::new(product, Tier::new(3), materials))
    }
}

/// The option of `mode` that the key `key` activates: the first one from the
/// top that has this key, if there is any.
pub fn activated(mode: MenuMode, key: &str) -> (found: Option<usize>)
    ensures
        match found {
            Some(index) => {
                &&& index < options_of(mode).len()
                &&& options_of(mode)[index as int].key == key@
                &&& forall|j: int| 0 <= j < index ==> (#[trigger] options_of(mode)[j]).key != key@
            },
            None => forall|j: int|
                0 <= j < options_of(mode).len() ==> (#[trigger] options_of(mode)[j]).key != key@,
        },
{
    let menu = menu(mode);
    let pressed = String::from_str(key);
    let mut index: usize = 0;
    while index < menu.options.len()
        invariant
            index <= menu.options.len(),
            menu@ == options_of(mode),
            pressed@ == key@,
            forall|j: int| 0 <= j < index ==> (#[trigger] options_of(mode)[j]).key != key@,
        decreases menu.options.len() - index,
    {
        assert(menu@[index as int] == menu.options[index as int]@);
        if menu.options[index].key == pressed {
            return Some(index);
        }
        index += 1;
    }
    None
}

/// Lays out the options of `mode`, from the top down: the first one row
/// below (`x`, `y`), and each further one two rows below the one before.
pub fn show_options(mode: MenuMode, x: i32, y: i32) -> (shown: Vec<OptionText>)
    requires
        option_count(mode) > 0 ==> x < i32::MAX,
        option_count(mode) > 0 ==> y + 2 * option_count(mode) - 1 <= i32::MAX,
    ensures
        shown.len() == option_count(mode),
        forall|i: int|
            0 <= i < shown.len() ==> MenuOption::placed_at(
                options_of(mode)[i],
                x as int,
                y + 2 * i + 1,
                #[trigger] shown[i],
            ),
{
    let menu = menu(mode);
    proof {
        lemma_options(mode);
    }
    let mut shown: Vec<OptionText> = Vec::new();
    let mut i: usize = 0;
    while i < menu.options.len()
        invariant
            i <= menu.options.len(),
            menu@ == options_of(mode),
            menu.options.len() == option_count(mode),
            option_count(mode) <= 2,
            option_count(mode) > 0 ==> x < i32::MAX,
            option_count(mode) > 0 ==> y + 2 * option_count(mode) - 1 <= i32::MAX,
            forall|k: int| 0 <= k < options_of(mode).len() ==> width(#[trigger] options_of(mode)[k].key) == 1,
            shown.len() == i,
            forall|k: int|
                0 <= k < i ==> MenuOption::placed_at(
                    options_of(mode)[k],
                    x as int,
                    y + 2 * k + 1,
                    #[trigger] shown[k],
                ),
        decreases menu.options.len() - i,
    {
        assert(menu@[i as int] == menu.options[i as int]@);
        assert(width(options_of(mode)[i as int].key) == 1);
        let row = (y as i64 + 2 * (i as i64) + 1) as i32;
        shown.push(menu.options[i].print(x, row));
        i += 1;
    }
    shown
}

} // verus!
