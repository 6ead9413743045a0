use viow::simtime::{SimTime, SimTimeUnit};

#[test]
fn test_simtime_div() {
    let s_232 = SimTime::from_s(232);
    let ms_13 = SimTime::from_ms(13);
    let us_42 = SimTime::from_us(42);
    let ns_100 = SimTime::from_ns(100);
    let ps_10 = SimTime::from_ps(10);
    let fs_5 = SimTime::from_fs(5);

    assert_eq!(10000, ns_100.divide(ps_10));
    assert_eq!(0, ps_10.divide(ns_100));

    assert_eq!((100.0e-9 / 5.0e-15) as u64, ns_100.divide(fs_5));
    assert_eq!((232.0 / 42.0e-6) as u64, s_232.divide(us_42));
    assert_eq!((13.0e-3 / 10.0e-12) as u64, ms_13.divide(ps_10));
}

#[test]
fn test_simtime_mul() {
    let a = SimTime::from_ms(15323);

    assert_eq!(15323 * 5, a.scale(5).get_value());
    assert_eq!(15323, a.scale(1).get_value());
    assert_eq!(15323 * 0, a.scale(0).get_value());
}

#[test]
fn divide_by_itself_is_one() {
    let a = SimTime::from_us(7);
    assert_eq!(1, a.divide(a));
    let zero = SimTime::zero();
    assert_eq!(0, zero.divide(a));
}

#[test]
fn scale_keeps_unit() {
    let a = SimTime::from_ns(12);
    let b = a.scale(3);
    assert_eq!(36, b.get_value());
    assert!(matches!(b.get_unit(), SimTimeUnit::Ns));
}

#[test]
fn unit_parsing_is_case_insensitive() {
    assert!(matches!(SimTimeUnit::from_string("ns"), Ok(SimTimeUnit::Ns)));
    assert!(matches!(SimTimeUnit::from_string("NS"), Ok(SimTimeUnit::Ns)));
    assert!(matches!(SimTimeUnit::from_string("Ps"), Ok(SimTimeUnit::Ps)));
    assert!(matches!(SimTimeUnit::from_string("s"), Ok(SimTimeUnit::S)));
    assert!(matches!(SimTimeUnit::from_string("MS"), Ok(SimTimeUnit::Ms)));
    assert!(matches!(SimTimeUnit::from_string("us"), Ok(SimTimeUnit::Us)));
    assert!(matches!(SimTimeUnit::from_string("fS"), Ok(SimTimeUnit::Fs)));
}

#[test]
fn unit_parsing_rejects_garbage() {
    assert!(SimTimeUnit::from_string("sec").is_err());
    assert!(SimTimeUnit::from_string("").is_err());
    assert!(SimTimeUnit::from_string("n").is_err());
    assert!(SimTimeUnit::from_string("xs").is_err());
}
