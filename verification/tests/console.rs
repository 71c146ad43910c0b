use danger_os::console::{classify, Command, EditAction, LineEditor};

#[test]
fn typing_and_erasing() {
    let mut e = LineEditor::new();
    assert!(matches!(e.feed(b'h'), EditAction::Echo(b'h')));
    assert!(matches!(e.feed(b'x'), EditAction::Echo(b'x')));
    assert!(matches!(e.feed(8), EditAction::Erase));
    assert!(matches!(e.feed(b'i'), EditAction::Echo(b'i')));
    assert_eq!(e.text(), "hi");
    assert!(matches!(e.feed(127), EditAction::Erase));
    assert!(matches!(e.feed(127), EditAction::Erase));
    assert!(matches!(e.feed(127), EditAction::Ignore));
    assert!(matches!(e.feed(0x1b), EditAction::Ignore));
    assert!(matches!(e.feed(200), EditAction::Ignore));
    assert_eq!(e.text(), "");
    e.feed(b'o');
    e.feed(b'k');
    assert!(matches!(e.feed(b'\r'), EditAction::Submit));
    assert!(matches!(e.feed(b'\n'), EditAction::Submit));
    assert_eq!(e.text(), "ok");
    e.clear();
    assert_eq!(e.text(), "");
}

#[test]
fn commands() {
    assert!(matches!(classify(""), Command::Empty));
    assert!(matches!(classify("help"), Command::Help));
    assert!(matches!(classify("help me"), Command::Intent));
    assert!(matches!(classify("read file a"), Command::Intent));
}
