use viow::formatting::WaveFormat;
use viow::load::vcd::VcdLoader;
use viow::pipeline::SourceKind;
use viow::value::SampleValue;
use viow::wave::Wave;

fn step_trace() -> Vec<u8> {
    let mut s = String::new();
    s.push_str("$timescale 1 ns $end\n");
    s.push_str("$scope module top $end\n");
    s.push_str("$var wire 1 ! sig $end\n");
    s.push_str("$upscope $end\n");
    s.push_str("$enddefinitions $end\n");
    s.push_str("#0\n0!\n#1\n1!\n#41\n0!\n#50\n");
    s.into_bytes()
}

fn counter_trace() -> Vec<u8> {
    let mut s = String::new();
    s.push_str("$timescale 1 ns $end\n");
    s.push_str("$scope module top $end\n");
    s.push_str("$var wire 1 ! clk $end\n");
    s.push_str("$var wire 8 \" counter $end\n");
    s.push_str("$upscope $end\n");
    s.push_str("$enddefinitions $end\n");
    for t in 0..17u64 {
        s.push_str(&format!("#{}\n", t));
        if t < 16 {
            if t % 2 == 0 {
                s.push_str("0!\n");
            } else {
                s.push_str("1!\n");
            }
            if t % 4 == 0 {
                s.push_str(&format!("b{:08b} \"\n", t / 4));
            }
        }
    }
    s.into_bytes()
}

fn make_wave(bytes: Vec<u8>) -> Wave {
    let loader = VcdLoader::new(&bytes, None).unwrap();
    Wave::load(SourceKind::Vcd(loader)).unwrap()
}

#[test]
fn end_to_end_clk_and_counter() {
    let mut wave = make_wave(counter_trace());
    assert_eq!(2, wave.num_signals());
    assert_eq!(16, wave.num_cycles());
    for c in 0..16usize {
        let clk = wave.value(0, c).unwrap();
        assert!(clk.eq_value(&SampleValue::from_u64((c % 2) as u64)));
        let counter = wave.value(1, c).unwrap();
        assert!(counter.eq_value(&SampleValue::from_u64((c / 4) as u64)));
    }
}

#[test]
fn transitions_on_step_trace() {
    let mut wave = make_wave(step_trace());
    assert_eq!(Some(1), wave.cached_next_transition(0, 0));
    assert_eq!(Some(41), wave.cached_next_transition(0, 1));
    assert_eq!(Some(0), wave.cached_prev_transition(0, 40));
    assert_eq!(None, wave.cached_prev_transition(0, 0));
    assert_eq!(None, wave.cached_next_transition(0, 41));
}

#[test]
fn wave_slice_values_and_iter() {
    let mut wave = make_wave(step_trace());
    let ws = wave.cached_slice(0..1, 0..50).unwrap();
    let data = ws.signal_iter(0).unwrap();
    assert!(data[0].eq_value(&SampleValue::from_u64(0)));
    assert!(data[1].eq_value(&SampleValue::from_u64(1)));
    assert!(data[40].eq_value(&SampleValue::from_u64(1)));
    assert!(data[41].eq_value(&SampleValue::from_u64(0)));
    assert_eq!(Some(1), ws.next_transition(0, 0));
    assert_eq!(Some(41), ws.next_transition(0, 1));
    assert_eq!(Some(0), ws.prev_transition(0, 40));
}

#[test]
fn out_of_range_requests_are_rejected() {
    let mut wave = make_wave(step_trace());
    assert!(wave.cached_slice(0..2, 0..10).is_err());
    assert!(wave.cached_slice(0..1, 0..51).is_err());
    assert!(wave.value(0, 50).is_none());
    assert!(wave.value(1, 0).is_none());
}

#[test]
fn formatted_values_follow_format() {
    let mut wave = make_wave(counter_trace());
    assert_eq!("0", wave.formatted_value(0, 0).unwrap());
    assert_eq!("1", wave.formatted_value(0, 1).unwrap());
    assert_eq!("0x03", wave.formatted_value(1, 15).unwrap());
    wave.set_formatter(1, WaveFormat::BitVector(8));
    assert_eq!("0b00000011", wave.formatted_value(1, 15).unwrap());
    wave.set_formatter(1, WaveFormat::Bit);
    assert_eq!("11", wave.formatted_value(1, 15).unwrap());
}

#[test]
fn names_and_formatters_survive_slicing() {
    let mut wave = make_wave(counter_trace());
    assert_eq!("top.clk", wave.name(0).unwrap());
    assert_eq!("top.counter", wave.name(1).unwrap());
    assert!(wave.name(2).is_none());
    assert_eq!(2, wave.get_names().len());
    let ws = wave.cached_slice(0..2, 0..4).unwrap();
    assert_eq!("top.counter", ws.name(1).unwrap());
    assert!(matches!(ws.formatter(0), WaveFormat::Bit));
}
