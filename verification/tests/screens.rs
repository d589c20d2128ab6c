use mvplayer::views::fzf_selector::{FzfSelector, SelectType};
use mvplayer::views::menu::{MainMenu, MenuOptions};
use mvplayer::views::search_filter::SearchFilters;
use mvplayer::views::FzfMenu;

fn texts(list: &[&str]) -> Vec<String> {
    list.iter().map(|s| s.to_string()).collect()
}

#[test]
fn every_option_has_its_name() {
    let names: Vec<String> = MenuOptions::iterator().iter().map(|o| o.to_string()).collect();
    assert_eq!(
        names,
        texts(&[
            "Main Menu",
            "MV Selector",
            "Toggle MVs",
            "Toggle Live",
            "Sort Ascending",
            "Sort Descending",
            "Sort by Mtime",
            "Random",
            "Quit",
            "Update",
            "Search Filter",
            "Clear Played",
        ])
    );
    assert_eq!(MenuOptions::Quit.entry(), "[[Quit]]");
}

#[test]
fn a_line_of_the_menu_selects_its_option() {
    for option in MenuOptions::iterator() {
        assert_eq!(MenuOptions::get_selection(&option.entry()), Some(option));
    }
    assert_eq!(MenuOptions::get_selection("[[Sort by Mtime]]"), Some(MenuOptions::SortMtime));
    assert_eq!(MenuOptions::get_selection("Quit"), None);
    assert_eq!(MenuOptions::get_selection("[Quit]"), None);
    assert_eq!(MenuOptions::get_selection("[[quit]]"), None);
    assert_eq!(MenuOptions::get_selection(""), None);
    assert_eq!(MenuOptions::get_selection("a.mp4"), None);
}

#[test]
fn the_menu_leaves_out_what_is_excluded() {
    let all = MenuOptions::generate_menu(vec![]);
    assert_eq!(all.len(), 12);
    assert_eq!(all[0], "[[Main Menu]]");
    assert_eq!(all[11], "[[Clear Played]]");
    let menu = MenuOptions::generate_menu(texts(&["Quit", "Main Menu", "unknown"]));
    assert_eq!(
        menu,
        texts(&[
            "[[MV Selector]]",
            "[[Toggle MVs]]",
            "[[Toggle Live]]",
            "[[Sort Ascending]]",
            "[[Sort Descending]]",
            "[[Sort by Mtime]]",
            "[[Random]]",
            "[[Update]]",
            "[[Search Filter]]",
            "[[Clear Played]]",
        ])
    );
}

#[test]
fn the_main_menu_leaves_itself_out() {
    let mut main_menu = MainMenu::default();
    assert_eq!(main_menu.header_text(), "Main Menu");
    assert_eq!(main_menu.start("[[Random]]"), Some(MenuOptions::Random));
    assert_eq!(main_menu.start("Random"), None);
    let menu = main_menu.menu();
    assert_eq!(menu.len(), 11);
    assert_eq!(menu[0], "[[MV Selector]]");
    assert!(!menu.contains(&"[[Main Menu]]".to_string()));
}

#[test]
fn the_selector_request_lists_inputs_then_options() {
    let request = FzfSelector::new(
        Some(texts(&["a.mp4", "b c.mp4"])),
        Some(texts(&["[[Back]]", "[[Quit]]"])),
        None,
    );
    assert_eq!(request.fzf_input(), "a.mp4\nb c.mp4\n[[Back]]\n[[Quit]]\n");
    assert_eq!(
        request.fzf_args(SelectType::Single),
        texts(&["-i", "--height", "80%", "--reverse", "--tiebreak=begin"])
    );
    assert_eq!(
        request.fzf_args(SelectType::Multi),
        texts(&["-i", "--height", "80%", "--reverse", "--tiebreak=begin", "-m"])
    );
}

#[test]
fn the_selector_request_has_defaults() {
    let request = FzfSelector::new(None, None, Some("40%".to_string()));
    assert_eq!(request.fzf_input(), "");
    assert_eq!(
        request.fzf_args(SelectType::Single),
        texts(&["-i", "--height", "40%", "--reverse", "--tiebreak=begin"])
    );
}

#[test]
fn the_answer_of_the_selector_is_trimmed() {
    assert_eq!(FzfSelector::selection("a.mp4\n"), "a.mp4");
    assert_eq!(FzfSelector::selection("  a b.mp4 \t\r\n"), "a b.mp4");
    assert_eq!(FzfSelector::selection("a.mp4\nb.mp4\n"), "a.mp4\nb.mp4");
    assert_eq!(FzfSelector::selection("\n"), "");
    assert_eq!(FzfSelector::selection(""), "");
    assert_eq!(FzfSelector::selection("\u{3000}x\u{a0}"), "x");
}

#[test]
fn the_small_menu_puts_options_in_brackets() {
    let menu = FzfMenu::new(texts(&["a", "b"]), Some(texts(&["Back", "Quit"])), None);
    assert_eq!(menu.fzf_input(), "a\nb\n[Back]\n[Quit]\n");
    assert_eq!(menu.fzf_args(), texts(&["--height", "20%", "--reverse"]));
    let menu = FzfMenu::new(texts(&[]), None, Some("50%".to_string()));
    assert_eq!(menu.fzf_input(), "");
    assert_eq!(menu.fzf_args(), texts(&["--height", "50%", "--reverse"]));
}

#[test]
fn the_search_screen_offers_videos_and_reads_lines() {
    let mut screen = SearchFilters::new(texts(&["a.mp4", "b.mp4"]));
    assert_eq!(screen.video_list, texts(&["a.mp4", "b.mp4"]));
    let request = screen.selector();
    assert_eq!(request.fzf_input(), "a.mp4\nb.mp4\n[[Back]]\n");
    assert_eq!(screen.start("a.mp4\nb.mp4"), texts(&["a.mp4", "b.mp4"]));
    assert_eq!(screen.start("a.mp4"), texts(&["a.mp4"]));
    assert_eq!(screen.start(""), texts(&[""]));
}
