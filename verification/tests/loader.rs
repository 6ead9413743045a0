use viow::load::vcd::VcdLoader;
use viow::simtime::SimTime;
use viow::value::SampleValue;

fn step_trace() -> Vec<u8> {
    let mut s = String::new();
    s.push_str("$timescale 1 ns $end\n");
    s.push_str("$scope module top $end\n");
    s.push_str("$var wire 1 ! sig $end\n");
    s.push_str("$upscope $end\n");
    s.push_str("$enddefinitions $end\n");
    s.push_str("#0\n0!\n");
    s.push_str("#1\n1!\n");
    s.push_str("#41\n0!\n");
    s.push_str("#50\n");
    s.into_bytes()
}

fn counter_trace() -> Vec<u8> {
    let mut s = String::new();
    s.push_str("$timescale 1 ns $end\n");
    s.push_str("$scope module top $end\n");
    s.push_str("$var wire 1 ! clk $end\n");
    s.push_str("$var wire 8 \" counter $end\n");
    s.push_str("$upscope $end\n");
    s.push_str("$enddefinitions $end\n");
    for t in 0..17u64 {
        s.push_str(&format!("#{}\n", t));
        if t < 16 {
            if t % 2 == 0 {
                s.push_str("0!\n");
            } else {
                s.push_str("1!\n");
            }
            if t % 4 == 0 {
                let v = t / 4;
                s.push_str(&format!("b{:08b} \"\n", v));
            }
        }
    }
    s.into_bytes()
}

#[test]
fn loader_declares_signals_in_order() {
    let loader = VcdLoader::new(&counter_trace(), None).unwrap();
    let signals = loader.query_signals();
    assert_eq!(2, signals.len());
    assert_eq!("top.clk", signals[0].name);
    assert_eq!("top.counter", signals[1].name);
    assert_eq!(16, loader.query_cycle_count());
}

#[test]
fn loader_lookup_round_trip() {
    let loader = VcdLoader::new(&counter_trace(), None).unwrap();
    let id = loader.lookup_id(&"top.counter".to_string()).unwrap();
    assert_eq!(1, id);
    assert_eq!("top.counter", loader.rev_lookup_id(id).unwrap());
    assert!(loader.lookup_id(&"top.missing".to_string()).is_err());
    assert!(loader.rev_lookup_id(5).is_err());
}

#[test]
fn loader_samples_counter_values() {
    let loader = VcdLoader::new(&counter_trace(), None).unwrap();
    let ids = vec!["top.clk".to_string(), "top.counter".to_string()];
    let a = loader.query_time(0);
    let b = loader.query_time(16);
    let m = loader
        .sample(&ids, &viow::simtime::SimTimeRange(a, b))
        .unwrap();
    assert_eq!(16, m.nrows());
    assert_eq!(2, m.ncols());
    for c in 0..16usize {
        let clk = m.get(c, 0);
        let counter = m.get(c, 1);
        assert!(clk.eq_value(&SampleValue::from_u64((c % 2) as u64)));
        assert!(counter.eq_value(&SampleValue::from_u64((c / 4) as u64)));
    }
}

#[test]
fn loader_rejects_malformed_header() {
    let bytes = b"$scope module top\n$var wire".to_vec();
    assert!(VcdLoader::new(&bytes, None).is_err());
}

#[test]
fn loader_rejects_too_fine_cycle_time() {
    let r = VcdLoader::new(&step_trace(), Some(SimTime::from_ps(1)));
    assert!(r.is_err());
}

#[test]
fn loader_counts_cycles_with_coarse_cycle_time() {
    let loader = VcdLoader::new(&step_trace(), Some(SimTime::from_ns(2))).unwrap();
    assert_eq!(25, loader.query_cycle_count());
}

#[test]
fn loader_keeps_comment_pseudo_signal() {
    let mut s = String::new();
    s.push_str("$timescale 1 ns $end\n");
    s.push_str("$scope module top $end\n");
    s.push_str("$var wire 1 ! a $end\n");
    s.push_str("$comment hello world $end\n");
    s.push_str("$upscope $end\n");
    s.push_str("$enddefinitions $end\n#0\n0!\n#2\n");
    let loader = VcdLoader::new(&s.into_bytes(), None).unwrap();
    let signals = loader.query_signals();
    assert_eq!(2, signals.len());
    assert_eq!("-- top: hello world", signals[1].name);
    assert!(matches!(
        signals[1].format,
        viow::formatting::WaveFormat::Comment
    ));
}
