use nib::mode::Mode;

#[test]
fn mode_names_roundtrip() {
    for m in [Mode::Normal, Mode::Insert, Mode::Command] {
        assert_eq!(Mode::from_str(m.as_str()).unwrap(), m);
    }
    assert_eq!(Mode::Normal.as_str(), "normal");
    assert_eq!(Mode::Insert.as_str(), "insert");
    assert_eq!(Mode::Command.as_str(), "command");
}

#[test]
fn unknown_mode_carries_its_name() {
    let e = Mode::from_str("visual").unwrap_err();
    assert_eq!(e.0, "visual");
    assert!(Mode::from_str("Normal").is_err());
}
