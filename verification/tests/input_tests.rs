use libchip8::input::Keyboard;

#[test]
fn switch_test() {
    let mut k = Keyboard::new();
    k.switch(3);
    assert_eq!(k.get(3), true);
}

#[test]
fn down_key_test() {
    let mut k = Keyboard::new();
    k.switch(3);
    assert_eq!(Some(3), k.down_key());
}
