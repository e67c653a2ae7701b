use nib::term::input::{decode_csi_modifier, from_c0, EventSink, Key, KeyMod};

#[test]
fn c0_control_letters_are_ctrl_chords() {
    assert_eq!(from_c0(0x01), (Key::Char('a'), KeyMod::ctrl()));
    assert_eq!(from_c0(0x13), (Key::Char('s'), KeyMod::ctrl()));
    assert_eq!(from_c0(0x1a), (Key::Char('z'), KeyMod::ctrl()));
}

#[test]
fn c0_special_bytes() {
    assert_eq!(from_c0(0x0d), (Key::Enter, KeyMod::empty()));
    assert_eq!(from_c0(0x0a), (Key::Enter, KeyMod::empty()));
    assert_eq!(from_c0(0x09), (Key::Tab, KeyMod::empty()));
    assert_eq!(from_c0(0x7f), (Key::Backspace, KeyMod::empty()));
    assert_eq!(from_c0(0x08), (Key::Backspace, KeyMod::empty()));
    assert_eq!(from_c0(0x1b), (Key::Escape, KeyMod::empty()));
    assert_eq!(from_c0(0x00), (Key::Char('\0'), KeyMod::empty()));
    assert_eq!(from_c0(0x1c), (Key::Char('\u{1c}'), KeyMod::empty()));
}

#[test]
fn csi_modifier_decoding() {
    assert_eq!(decode_csi_modifier(1), KeyMod::empty());
    assert_eq!(decode_csi_modifier(0), KeyMod::empty());
    assert_eq!(decode_csi_modifier(2), KeyMod::shift());
    assert_eq!(decode_csi_modifier(3), KeyMod::alt());
    assert_eq!(decode_csi_modifier(5), KeyMod::ctrl());
    assert_eq!(decode_csi_modifier(8), KeyMod::shift().union(KeyMod::alt()).union(KeyMod::ctrl()));
    // Bits above ctrl (meta and beyond) are dropped.
    assert_eq!(decode_csi_modifier(9), KeyMod::empty());
}

#[test]
fn keymod_set_operations() {
    let m = KeyMod::ctrl().union(KeyMod::shift());
    assert!(m.contains(KeyMod::ctrl()));
    assert!(m.contains(KeyMod::shift()));
    assert!(!m.contains(KeyMod::alt()));
    assert!(!m.is_empty());
    assert!(KeyMod::empty().is_empty());
}

#[test]
fn sink_collects_events_in_order() {
    let mut s = EventSink::new();
    s.print('x');
    s.execute(0x0d);
    s.csi_dispatch(None, Some(5), 'A');
    s.csi_dispatch(Some(3), None, '~');
    s.csi_dispatch(Some(15), None, '~');
    s.csi_dispatch(Some(24), Some(2), '~');
    s.csi_dispatch(Some(200), None, '~');
    s.csi_dispatch(Some(99), None, '~');
    s.csi_dispatch(None, None, 'q');
    s.esc_dispatch(0x50);
    s.esc_dispatch(0x7a);
    let evs = s.take_events();
    assert_eq!(
        evs,
        vec![
            (Key::Char('x'), KeyMod::empty()),
            (Key::Enter, KeyMod::empty()),
            (Key::Up, KeyMod::ctrl()),
            (Key::Delete, KeyMod::empty()),
            (Key::Function(5), KeyMod::empty()),
            (Key::Function(12), KeyMod::shift()),
            (Key::PasteStart, KeyMod::empty()),
            (Key::Function(1), KeyMod::empty()),
        ]
    );
    assert!(s.take_events().is_empty());
}

#[test]
fn csi_tilde_family() {
    let cases: [(u16, Key); 12] = [
        (1, Key::Home),
        (7, Key::Home),
        (2, Key::Insert),
        (4, Key::End),
        (8, Key::End),
        (5, Key::PageUp),
        (6, Key::PageDown),
        (11, Key::Function(1)),
        (17, Key::Function(6)),
        (21, Key::Function(10)),
        (23, Key::Function(11)),
        (201, Key::PasteEnd),
    ];
    for (n, k) in cases {
        let mut s = EventSink::new();
        s.csi_dispatch(Some(n), None, '~');
        assert_eq!(s.take_events(), vec![(k, KeyMod::empty())], "CSI {n} ~");
    }
    let mut s = EventSink::new();
    s.csi_dispatch(Some(16), None, '~');
    s.csi_dispatch(Some(22), None, '~');
    s.csi_dispatch(None, None, '~');
    assert!(s.take_events().is_empty());
}

#[test]
fn csi_letters() {
    let mut s = EventSink::new();
    for a in ['B', 'C', 'D', 'H', 'F', 'Z'] {
        s.csi_dispatch(None, None, a);
    }
    assert_eq!(
        s.take_events(),
        vec![
            (Key::Down, KeyMod::empty()),
            (Key::Right, KeyMod::empty()),
            (Key::Left, KeyMod::empty()),
            (Key::Home, KeyMod::empty()),
            (Key::End, KeyMod::empty()),
            (Key::BackTab, KeyMod::empty()),
        ]
    );
}

#[test]
fn lone_escape_is_only_the_single_byte() {
    assert!(nib::term::input::lone_escape(&[0x1b]));
    assert!(!nib::term::input::lone_escape(&[0x1b, b'[', b'A']));
    assert!(!nib::term::input::lone_escape(&[]));
    assert!(!nib::term::input::lone_escape(&[b'x']));
}

#[test]
fn ss3_sequences_give_their_keys() {
    let cases = [
        ('A', Key::Up),
        ('B', Key::Down),
        ('C', Key::Right),
        ('D', Key::Left),
        ('H', Key::Home),
        ('F', Key::End),
        ('P', Key::Function(1)),
        ('Q', Key::Function(2)),
        ('R', Key::Function(3)),
        ('S', Key::Function(4)),
    ];
    for (c, k) in cases {
        let mut s = EventSink::new();
        s.esc_dispatch(b'O');
        assert!(s.ss3);
        s.print(c);
        assert!(!s.ss3);
        assert_eq!(s.take_events(), vec![(k, KeyMod::empty())], "ESC O {c}");
    }
}

#[test]
fn ss3_split_across_reads() {
    let mut s = EventSink::new();
    s.esc_dispatch(b'O');
    assert!(s.take_events().is_empty());
    s.print('P');
    s.print('P');
    assert_eq!(
        s.take_events(),
        vec![(Key::Function(1), KeyMod::empty()), (Key::Char('P'), KeyMod::empty())]
    );
}

#[test]
fn ss3_state_ends_with_any_other_event() {
    let mut s = EventSink::new();
    s.esc_dispatch(b'O');
    s.print('x');
    s.esc_dispatch(b'O');
    s.execute(0x0d);
    s.print('A');
    s.esc_dispatch(b'O');
    s.csi_dispatch(None, None, 'B');
    s.print('C');
    assert_eq!(
        s.take_events(),
        vec![
            (Key::Char('x'), KeyMod::empty()),
            (Key::Enter, KeyMod::empty()),
            (Key::Char('A'), KeyMod::empty()),
            (Key::Down, KeyMod::empty()),
            (Key::Char('C'), KeyMod::empty()),
        ]
    );
}
