use vex_rt::{Gearset, Motor, Peripherals, SmartPort};

#[test]
fn ports_and_motors() {
    let p = SmartPort::new(7);
    assert_eq!(p.port(), 7);
    let m = p.as_motor(Gearset::ThirtySixToOne, true);
    assert_eq!(m.port(), 7);
    assert_eq!(m.get_gearset(), Gearset::ThirtySixToOne);
    assert!(m.is_reversed());
    let m2 = Motor::new(21, Gearset::SixToOne, false);
    assert!(!m2.is_reversed());
}

#[test]
fn gearset_codes() {
    assert_eq!(Gearset::ThirtySixToOne.to_motor_gearset_e_t(), 0);
    assert_eq!(Gearset::EighteenToOne.to_motor_gearset_e_t(), 1);
    assert_eq!(Gearset::SixToOne.to_motor_gearset_e_t(), 2);
}

#[test]
fn peripherals_hold_each_port() {
    let p = Peripherals::steal();
    assert_eq!(p.port01.port(), 1);
    assert_eq!(p.port12.port(), 12);
    assert_eq!(p.port21.port(), 21);
    assert!(Peripherals::take(true).is_none());
    let q = Peripherals::take(false).unwrap();
    assert_eq!(q.port05.port(), 5);
    assert_eq!(q.port20.port(), 20);
}
