use term_life::ModuloSignedExt;

#[test]
fn modulo_of_minus_one_is_the_last_index() {
    assert_eq!((-1i16).modulo(24), 23);
    assert_eq!((-1i32).modulo(80), 79);
    assert_eq!((-1i8).modulo(1), 0);
    assert_eq!((-1i64).modulo(65535), 65534);
}

#[test]
fn modulo_of_the_length_is_the_first_index() {
    assert_eq!(24i16.modulo(24), 0);
    assert_eq!(80i32.modulo(80), 0);
}

#[test]
fn modulo_keeps_what_is_in_range() {
    let mut i: i32 = 0;
    while i < 7 {
        assert_eq!(i.modulo(7), i);
        i += 1;
    }
}

#[test]
fn modulo_agrees_with_the_floored_remainder() {
    let mut a: i32 = -40;
    while a <= 40 {
        let mut n: i32 = -9;
        while n <= 9 {
            if n != 0 {
                let r = a.modulo(n);
                let q = (a - r) / n;
                assert_eq!(q * n + r, a);
                if n > 0 {
                    assert!(0 <= r && r < n);
                } else {
                    assert!(n < r && r <= 0);
                }
            }
            n += 1;
        }
        a += 1;
    }
}

#[test]
fn modulo_takes_the_sign_of_the_divisor() {
    assert_eq!(7i32.modulo(3), 1);
    assert_eq!((-7i32).modulo(3), 2);
    assert_eq!(7i32.modulo(-3), -2);
    assert_eq!((-7i32).modulo(-3), -1);
    assert_eq!(6i64.modulo(-3), 0);
    assert_eq!((-6i16).modulo(3), 0);
}

#[test]
fn modulo_at_the_ends_of_the_range() {
    assert_eq!(i8::MIN.modulo(-1), 0);
    assert_eq!(i16::MIN.modulo(-1), 0);
    assert_eq!(i32::MIN.modulo(-1), 0);
    assert_eq!(i64::MIN.modulo(-1), 0);
    assert_eq!(i8::MAX.modulo(i8::MAX), 0);
    assert_eq!(126i8.modulo(127), 126);
    assert_eq!((-126i8).modulo(127), 1);
    assert_eq!(i8::MIN.modulo(127), 126);
    assert_eq!(i8::MAX.modulo(i8::MIN), -1);
    assert_eq!(i32::MAX.modulo(i32::MIN), -1);
    assert_eq!(i32::MIN.modulo(i32::MAX), i32::MAX - 1);
    assert_eq!(i64::MIN.modulo(i64::MIN), 0);
    assert_eq!(i16::MAX.modulo(1), 0);
}
