use skill_engine::display::u64_to_decimal;
use skill_engine::skill::Level;
use skill_engine::values::Value;

#[test]
fn decimal_rendering() {
    assert_eq!(u64_to_decimal(0), "0");
    assert_eq!(u64_to_decimal(7), "7");
    assert_eq!(u64_to_decimal(10), "10");
    assert_eq!(u64_to_decimal(90201), "90201");
    assert_eq!(u64_to_decimal(u64::MAX), "18446744073709551615");
}

#[test]
fn absolute_values_display_bare() {
    assert_eq!(Value::F(5000).display(), "5");
    assert_eq!(Value::F(3540).display(), "3.5");
    assert_eq!(Value::F(3550).display(), "3.6", "rounds half up at one decimal");
    assert_eq!(Value::F(-2500).display(), "-2.5");
    assert_eq!(Value::F(0).display(), "0");
    assert_eq!(Value::U(7).display(), "7");
}

#[test]
fn deltas_display_signed() {
    assert_eq!(Value::AddF(2500).display(), "+2.5");
    assert_eq!(Value::AddF(-100).display(), "-0.1");
    assert_eq!(Value::AddF(0).display(), "+0");
    assert_eq!(Value::AddU(7).display(), "+7");
}

#[test]
fn percentages_display_with_mark() {
    assert_eq!(Value::Perc(25_000).display(), "+25%");
    assert_eq!(Value::Perc(-10_000).display(), "-10%");
    assert_eq!(Value::Perc(12_500).display(), "+12.5%");
}

#[test]
fn levels_display_one_based() {
    assert_eq!(Level::new(0).display(), "1");
    assert_eq!(Level::new(41).display(), "42");
}
