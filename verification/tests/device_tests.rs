use audio_eq::devices::{find_cable_input, find_loopback_input, is_loopback_device_name, parse_device_choice, speaker_indices};

fn names(v: &[Option<&str>]) -> Vec<Option<String>> {
    v.iter().map(|n| n.map(|s| s.to_string())).collect()
}

#[test]
fn loopback_names_are_matched_without_regard_to_case() {
    assert!(is_loopback_device_name("Monitor of Built-in Audio Analog Stereo"));
    assert!(is_loopback_device_name("MONITOR"));
    assert!(is_loopback_device_name("Realtek LoopBack"));
    assert!(is_loopback_device_name("Stereo Mix (Realtek(R) Audio)"));
    assert!(is_loopback_device_name("\u{c2a4}\u{d14c}\u{b808}\u{c624} \u{bbf9}\u{c2a4}(Realtek)"));
}

#[test]
fn other_names_are_not_loopback() {
    assert!(!is_loopback_device_name("Microphone (USB)"));
    assert!(!is_loopback_device_name("Stereo  Mix"));
    assert!(!is_loopback_device_name(""));
}

#[test]
fn first_loopback_device_is_chosen() {
    let list = names(&[Some("Mic"), None, Some("Monitor of A"), Some("Loopback B")]);
    assert_eq!(find_loopback_input(&list), Some(2));
}

#[test]
fn no_loopback_device_gives_none() {
    let list = names(&[Some("Mic"), None, Some("Line In")]);
    assert_eq!(find_loopback_input(&list), None);
    assert_eq!(find_loopback_input(&Vec::new()), None);
}

#[test]
fn cable_input_is_found_by_exact_case() {
    let list = names(&[Some("Speakers"), Some("cable output"), Some("CABLE Output (VB-Audio Virtual Cable)")]);
    assert_eq!(find_cable_input(&list), Some(2));
    assert_eq!(find_cable_input(&names(&[None, Some("Mic")])), None);
}

#[test]
fn speakers_exclude_the_cable() {
    let list = names(&[Some("CABLE Input (VB-Audio)"), None, Some("Speakers"), Some("Headphones CABLE")]);
    assert_eq!(speaker_indices(&list), vec![1, 2]);
    assert_eq!(speaker_indices(&Vec::new()), Vec::<usize>::new());
}

#[test]
fn device_choice_counts_from_one() {
    assert_eq!(parse_device_choice("1", 3), Some(0));
    assert_eq!(parse_device_choice(" 3\r\n", 3), Some(2));
    assert_eq!(parse_device_choice("+2", 3), Some(1));
}

#[test]
fn device_choice_out_of_range_or_garbage_is_refused() {
    assert_eq!(parse_device_choice("0", 3), None);
    assert_eq!(parse_device_choice("4", 3), None);
    assert_eq!(parse_device_choice("two", 3), None);
    assert_eq!(parse_device_choice("", 3), None);
    assert_eq!(parse_device_choice("-1", 3), None);
    assert_eq!(parse_device_choice("1", 0), None);
}

#[test]
fn device_choice_ignores_surrounding_whitespace() {
    for s in ["2", " 2", "2 \n", "\u{a0}2\u{3000}"] {
        assert_eq!(parse_device_choice(s, 5), Some(1));
    }
}
