use fontgrid::shortcut::{find_shortcut, Effect, Function};

#[test]
fn bound_keys() {
    assert!(find_shortcut(0xFF63, 0x01) == Some(Function::Paste));
    assert!(find_shortcut(0xFF52, 0x04) == Some(Function::ZoomIn));
    assert!(find_shortcut(0xFF54, 0x04 | 0x01) == Some(Function::ZoomOut));
}

#[test]
fn unbound_keys() {
    assert!(find_shortcut(0x41, 0x04) == None);
    assert!(find_shortcut(0xFF63, 0x04) == None);
    assert!(find_shortcut(0xFF52, 0) == None);
    assert!(find_shortcut(0x1_0000_FF52, 0x04) == Some(Function::ZoomIn));
}

#[test]
fn effects() {
    assert!(Function::Paste.execute() == Effect::Paste);
    assert!(Function::ZoomIn.execute() == Effect::Zoom(1));
    assert!(Function::ZoomOut.execute() == Effect::Zoom(-1));
}
