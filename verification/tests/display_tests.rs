use libchip8::display::{Scr, Screen};

#[test]
fn setget_no_xor_test() {
    let mut a = Screen::new();
    let of = a.xor(10, 12, true);
    assert_eq!(true, a.get(10, 12));
    assert_eq!(false, of);
}

#[test]
fn setget_xor_test() {
    let mut a = Screen::new();
    let of = a.xor(10, 12, true);
    let of = of | a.xor(10, 12, true);
    assert_eq!(false, a.get(10, 12));
    assert_eq!(true, of);
}

#[test]
fn display_display_test() {
    let mut d = Screen::new();
    d.xor(2, 2, true);
    d.xor(4, 4, true);
    d.xor(4, 4, true);
    d.xor(100, 100, true);

    assert_eq!(d.get(2, 2), true);
    assert_eq!(d.get(36, 4), true);
    assert_eq!(d.get(4, 4), false);
}
