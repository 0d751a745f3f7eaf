use audio_eq::equalizer::{parse_menu_choice, plan_filter_bands, Band, MenuChoice};

#[test]
fn every_channel_gets_the_active_bands_in_order() {
    let plan = plan_filter_bands(true, false, true, 2);
    assert_eq!(plan, vec![vec![Band::LowShelf, Band::HighShelf], vec![Band::LowShelf, Band::HighShelf]]);
}

#[test]
fn all_bands_active() {
    let plan = plan_filter_bands(true, true, true, 1);
    assert_eq!(plan, vec![vec![Band::LowShelf, Band::PeakingEq, Band::HighShelf]]);
}

#[test]
fn no_active_band_leaves_empty_chains() {
    assert_eq!(plan_filter_bands(false, false, false, 3), vec![Vec::<Band>::new(); 3]);
    assert_eq!(plan_filter_bands(true, true, true, 0), Vec::<Vec<Band>>::new());
}

#[test]
fn menu_commands_are_read() {
    assert_eq!(parse_menu_choice("1\n"), MenuChoice::LowShelfGain);
    assert_eq!(parse_menu_choice(" 2 "), MenuChoice::PeakingEqGain);
    assert_eq!(parse_menu_choice("3\r\n"), MenuChoice::HighShelfGain);
    assert_eq!(parse_menu_choice("q"), MenuChoice::Quit);
    assert_eq!(parse_menu_choice("Q\n"), MenuChoice::Quit);
}

#[test]
fn other_menu_lines_are_invalid() {
    for s in ["", "\n", "4", "11", "quit", "1 2", "q q"] {
        assert_eq!(parse_menu_choice(s), MenuChoice::Invalid, "{:?}", s);
    }
}
