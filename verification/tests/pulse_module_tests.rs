use audio_eq::ensure_windows_loopback_setup;
use audio_eq::pulse_module::{loopback_module_id, module_id_arg};

#[test]
fn module_id_is_read_from_pactl_output() {
    assert_eq!(loopback_module_id(true, b"536870913\n"), Some(536870913));
    assert_eq!(loopback_module_id(true, b"  27 "), Some(27));
}

#[test]
fn failed_load_gives_none() {
    assert_eq!(loopback_module_id(false, b"12\n"), None);
    assert_eq!(loopback_module_id(false, b""), None);
}

#[test]
fn unreadable_output_gives_zero() {
    assert_eq!(loopback_module_id(true, b"Failure: Module initialization failed"), Some(0));
    assert_eq!(loopback_module_id(true, b""), Some(0));
    assert_eq!(loopback_module_id(true, b"4294967296"), Some(0));
    assert_eq!(loopback_module_id(true, b"\xff12"), Some(0));
    assert_eq!(loopback_module_id(true, b"-3"), Some(0));
}

#[test]
fn module_id_arg_is_decimal() {
    assert_eq!(module_id_arg(0), "0");
    assert_eq!(module_id_arg(7), "7");
    assert_eq!(module_id_arg(10), "10");
    assert_eq!(module_id_arg(536870913), "536870913");
    assert_eq!(module_id_arg(u32::MAX), u32::MAX.to_string());
}

#[test]
fn unload_names_the_loaded_module() {
    for id in [0u32, 9, 10, 99, 100, 4096, 536870913, u32::MAX] {
        let arg = module_id_arg(id);
        assert_eq!(loopback_module_id(true, arg.as_bytes()), Some(id));
    }
}

#[test]
fn windows_setup_does_nothing() {
    ensure_windows_loopback_setup();
}

#[test]
fn module_42_is_reported() {
    assert_eq!(loopback_module_id(true, b"42\n"), Some(42));
}
