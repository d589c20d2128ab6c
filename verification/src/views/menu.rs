//! The options of the menus and the main menu.

use crate::text::{lemma_filter_take_none, lemma_filter_take_step, listed, same_text};
use vstd::prelude::*;
use vstd::string::StringExecFns;

verus! {

/// The screens and commands that a menu offers.
#[derive(Debug, Clone, Copy, PartialEq, Eq, Structural)]
pub enum MenuOptions {
    MainMenu,
    MVSelector,
    ToggleMVs,
    ToggleLive,
    SortAsc,
    SortDesc,
    SortMtime,
    Random,
    Quit,
    Update,
    SearchFilter,
    ClearPlayed,
}

/// The name under which an option is shown.
pub open spec fn label_of(option: MenuOptions) -> Seq<char> {
    match option {
        MenuOptions::MainMenu => "Main Menu"@,
        MenuOptions::MVSelector => "MV Selector"@,
        MenuOptions::ToggleMVs => "Toggle MVs"@,
        MenuOptions::ToggleLive => "Toggle Live"@,
        MenuOptions::SortAsc => "Sort Ascending"@,
        MenuOptions::SortDesc => "Sort Descending"@,
        MenuOptions::SortMtime => "Sort by Mtime"@,
        MenuOptions::Random => "Random"@,
        MenuOptions::Quit => "Quit"@,
        MenuOptions::Update => "Update"@,
        MenuOptions::SearchFilter => "Search Filter"@,
        MenuOptions::ClearPlayed => "Clear Played"@,
    }
}

/// The line that stands for an option in a menu: its name in double square
/// brackets.
pub open spec fn entry_of(option: MenuOptions) -> Seq<char> {
    "[["@ + label_of(option) + "]]"@
}

/// Every option, in the order of the menu.
pub open spec fn all_options() -> Seq<MenuOptions> {
    seq![
        MenuOptions::MainMenu,
        MenuOptions::MVSelector,
        MenuOptions::ToggleMVs,
        MenuOptions::ToggleLive,
        MenuOptions::SortAsc,
        MenuOptions::SortDesc,
        MenuOptions::SortMtime,
        MenuOptions::Random,
        MenuOptions::Quit,
        MenuOptions::Update,
        MenuOptions::SearchFilter,
        MenuOptions::ClearPlayed,
    ]
}

/// The options of a menu that leaves out those whose names are in `exclude`.
pub open spec fn offered(exclude: Seq<Seq<char>>) -> Seq<MenuOptions> {
    all_options().filter(|option: MenuOptions| !exclude.contains(label_of(option)))
}

/// The lines of a menu that leaves out the options whose names are in
/// `exclude`.
pub open spec fn menu_of(exclude: Seq<Seq<char>>) -> Seq<Seq<char>> {
    offered(exclude).map_values(|option: MenuOptions| entry_of(option))
}

/// The line `selected` stands for the option at position `i` of the menu and
/// for none before it.
pub open spec fn selects(selected: Seq<char>, i: int) -> bool {
    &&& 0 <= i < all_options().len()
    &&& entry_of(all_options()[i]) == selected
    &&& forall|j: int| 0 <= j < i ==> entry_of(#[trigger] all_options()[j]) != selected
}

impl MenuOptions {
    /// The name under which the option is shown.
    pub fn to_string(&self) -> (r: String)
        ensures
            r@ == label_of(*self),
    {
        match self {
            MenuOptions::MainMenu => "Main Menu".to_owned(),
            MenuOptions::MVSelector => "MV Selector".to_owned(),
            MenuOptions::ToggleMVs => "Toggle MVs".to_owned(),
            MenuOptions::ToggleLive => "Toggle Live".to_owned(),
            MenuOptions::SortAsc => "Sort Ascending".to_owned(),
            MenuOptions::SortDesc => "Sort Descending".to_owned(),
            MenuOptions::SortMtime => "Sort by Mtime".to_owned(),
            MenuOptions::Random => "Random".to_owned(),
            MenuOptions::Quit => "Quit".to_owned(),
            MenuOptions::Update => "Update".to_owned(),
            MenuOptions::SearchFilter => "Search Filter".to_owned(),
            MenuOptions::ClearPlayed => "Clear Played".to_owned(),
        }
    }

    /// The line that stands for the option in a menu.
    pub fn entry(&self) -> (r: String)
        ensures
            r@ == entry_of(*self),
    {
        let label = self.to_string();
        "[[".to_owned().concat(label.as_str()).concat("]]")
    }

    /// Every option, in the order of the menu.
    pub fn iterator() -> (r: Vec<MenuOptions>)
        ensures
            r@ == all_options(),
    {
        let mut r: Vec<MenuOptions> = Vec::new();
        r.push(MenuOptions::MainMenu);
        r.push(MenuOptions::MVSelector);
        r.push(MenuOptions::ToggleMVs);
        r.push(MenuOptions::ToggleLive);
        r.push(MenuOptions::SortAsc);
        r.push(MenuOptions::SortDesc);
        r.push(MenuOptions::SortMtime);
        r.push(MenuOptions::Random);
        r.push(MenuOptions::Quit);
        r.push(MenuOptions::Update);
        r.push(MenuOptions::SearchFilter);
        r.push(MenuOptions::ClearPlayed);
        assert(r@ =~= all_options());
        r
    }

    /// The option that the line `selected` stands for: the first of the menu
    /// whose line it is, or `None` where it is the line of no option.
    pub fn get_selection(selected: &str) -> (r: Option<MenuOptions>)
        ensures
            match r {
                Some(option) => exists|i: int| selects(selected@, i) && all_options()[i] == option,
                None => forall|i: int|
                    0 <= i < all_options().len() ==> entry_of(#[trigger] all_options()[i])
                        != selected@,
            },
    {
        let options = MenuOptions::iterator();
        let mut i: usize = 0;
        while i < options.len()
            invariant
                options@ == all_options(),
                i <= options.len(),
                forall|j: int| 0 <= j < i ==> entry_of(#[trigger] all_options()[j]) != selected@,
            decreases options.len() - i,
        {
            let entry = options[i].entry();
            if same_text(selected, entry.as_str()) {
                assert(selects(selected@, i as int));
                return Some(options[i]);
            }
            i = i + 1;
        }
        None
    }

    /// The lines of a menu that leaves out the options whose names are in
    /// `exclude`.
    pub fn generate_menu(exclude: Vec<String>) -> (r: Vec<String>)
        ensures
            r.deep_view() == menu_of(exclude.deep_view()),
    {
        let options = MenuOptions::iterator();
        let ghost pred = |option: MenuOptions| !exclude.deep_view().contains(label_of(option));
        let ghost kept = Seq::<MenuOptions>::empty();
        let mut r: Vec<String> = Vec::new();
        let mut i: usize = 0;
        proof {
            lemma_filter_take_none(options@, pred);
        }
        while i < options.len()
            invariant
                options@ == all_options(),
                pred == |option: MenuOptions| !exclude.deep_view().contains(label_of(option)),
                i <= options.len(),
                kept == options@.take(i as int).filter(pred),
                r.len() == kept.len(),
                forall|j: int| 0 <= j < r.len() ==> r@[j]@ == entry_of(kept[j]),
            decreases options.len() - i,
        {
            let label = options[i].to_string();
            proof {
                lemma_filter_take_step(options@, pred, i as int);
            }
            if !listed(&exclude, label.as_str()) {
                r.push(options[i].entry());
                proof {
                    kept = kept.push(options@[i as int]);
                }
            }
            i = i + 1;
        }
        proof {
            assert(options@.take(options.len() as int) =~= options@);
            assert(r.deep_view() =~= menu_of(exclude.deep_view()));
        }
        r
    }
}

/// The main menu.
pub struct MainMenu {
    view_type: MenuOptions,
    header: String,
}

impl MainMenu {
    /// The option that stands for this screen.
    pub closed spec fn view_type(&self) -> MenuOptions {
        self.view_type
    }

    /// The text shown above the menu.
    pub closed spec fn header(&self) -> Seq<char> {
        self.header@
    }

    /// The text shown above the menu.
    pub fn header_text(&self) -> (r: String)
        ensures
            r@ == self.header(),
    {
        self.header.clone()
    }

    /// The lines of the main menu: every option but the main menu itself.
    pub fn menu(&self) -> (r: Vec<String>)
        ensures
            r.deep_view() == menu_of(seq![label_of(self.view_type())]),
    {
        let mut exclude: Vec<String> = Vec::new();
        exclude.push(self.view_type.to_string());
        assert(exclude.deep_view() =~= seq![label_of(self.view_type())]);
        MenuOptions::generate_menu(exclude)
    }
}

impl MainMenu {
    /// One turn of the main menu, given the line that was selected on it: the
    /// option that the line stands for, or `None` where it stands for none and
    /// the menu is shown again.
    pub fn start(&mut self, selected: &str) -> (r: Option<MenuOptions>)
        ensures
            *final(self) == *old(self),
            match r {
                Some(option) => exists|i: int| selects(selected@, i) && all_options()[i] == option,
                None => forall|i: int|
                    0 <= i < all_options().len() ==> entry_of(#[trigger] all_options()[i])
                        != selected@,
            },
    {
        MenuOptions::get_selection(selected)
    }
}

impl Default for MainMenu {
    fn default() -> (r: Self)
        ensures
            r.view_type() == MenuOptions::MainMenu,
            r.header() == "Main Menu"@,
    {
        MainMenu { view_type: MenuOptions::MainMenu, header: "Main Menu".to_owned() }
    }
}

} // verus!
