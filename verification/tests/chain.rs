use viow::data::PipelineConfig;
use viow::load::vcd::VcdLoader;
use viow::pipeline::filter::{Grep, SignalList};
use viow::pipeline::{FilterKind, SourceKind};
use viow::value::SampleValue;
use viow::wave::Wave;

fn two_signal_trace() -> Vec<u8> {
    let mut s = String::new();
    s.push_str("$timescale 1 ns $end\n");
    s.push_str("$scope module top $end\n");
    s.push_str("$var wire 1 ! alpha $end\n");
    s.push_str("$var wire 1 \" beta $end\n");
    s.push_str("$upscope $end\n");
    s.push_str("$enddefinitions $end\n");
    s.push_str("#0\n0!\n1\"\n#4\n");
    s.into_bytes()
}

fn make_wave() -> Wave {
    let loader = VcdLoader::new(&two_signal_trace(), None).unwrap();
    Wave::load(SourceKind::Vcd(loader)).unwrap()
}

#[test]
fn push_filter_narrows_and_pop_restores() {
    let wave = make_wave();
    assert_eq!(2, wave.num_signals());
    let g = Grep::new("beta").unwrap();
    let wave = wave.push_filter(FilterKind::Grep(g)).unwrap();
    assert_eq!(1, wave.num_signals());
    assert_eq!("top.beta", wave.name(0).unwrap());
    let mut wave = wave;
    let v = wave.value(0, 0).unwrap();
    assert!(v.eq_value(&SampleValue::from_u64(1)));
    let (wave, popped) = wave.pop_filter().unwrap();
    assert!(popped.is_some());
    assert_eq!(2, wave.num_signals());
}

#[test]
fn reconfigure_reorders_through_signal_list() {
    let wave = make_wave();
    let sl = SignalList::new(Vec::new());
    // the freshly pushed list filter is enabled with an empty list: no
    // named signal survives
    let mut wave = wave.push_filter(FilterKind::SignalList(sl)).unwrap();
    assert_eq!(0, wave.num_signals());
    wave.set_config(PipelineConfig {
        name_list: vec!["top.beta".to_string(), "top.alpha".to_string()],
        enable_filter_list: true,
    });
    wave.reconfigure().unwrap();
    let wave = wave.reload().unwrap();
    assert_eq!(2, wave.num_signals());
    assert_eq!("top.beta", wave.name(0).unwrap());
    assert_eq!("top.alpha", wave.name(1).unwrap());
}
