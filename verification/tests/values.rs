use viow::formatting::{format_value, WaveFormat};
use viow::value::SampleValue;

#[test]
fn values_compare_by_magnitude() {
    let a = SampleValue::from_u64(10);
    let b = SampleValue::from_u64(10);
    let c = SampleValue::from_u64(11);
    let z = SampleValue::zero();
    assert!(a.eq_value(&b));
    assert!(!a.eq_value(&c));
    assert!(!a.eq_value(&z));
    assert!(z.eq_value(&SampleValue::from_u64(0)));
}

#[test]
fn msb_first_assembly() {
    // bits 1,0,1,1 most significant first read as 11
    let v = SampleValue::from_bits_msb(&vec![true, false, true, true]);
    assert!(v.eq_value(&SampleValue::from_u64(11)));
    // leading zeros change nothing
    let w = SampleValue::from_bits_msb(&vec![false, false, true, false, true, true]);
    assert!(w.eq_value(&SampleValue::from_u64(11)));
}

#[test]
fn formatting_of_each_tag() {
    let v = SampleValue::from_u64(0x2f);
    assert_eq!("101111", format_value(&v, WaveFormat::Bit));
    assert_eq!("0x2f", format_value(&v, WaveFormat::Vector(8)));
    assert_eq!("0x02f", format_value(&v, WaveFormat::Vector(12)));
    assert_eq!("0x2f", format_value(&v, WaveFormat::Analog(8, 0, 0)));
    assert_eq!("0b00101111", format_value(&v, WaveFormat::BitVector(8)));
    assert_eq!("", format_value(&v, WaveFormat::Comment));
    let z = SampleValue::zero();
    assert_eq!("0", format_value(&z, WaveFormat::Bit));
    assert_eq!("0x00", format_value(&z, WaveFormat::Vector(8)));
}
