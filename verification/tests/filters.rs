use viow::data::{PipelineConfig, Signal};
use viow::formatting::WaveFormat;
use viow::pipeline::filter::{
    Analog, Grep, Ignore, RemoveComments, ReplacePrefix, SignalList,
};

fn sig(id: usize, name: &str, format: WaveFormat) -> Signal<usize> {
    Signal { id, name: name.to_string(), format }
}

fn sample_signals() -> Vec<Signal<usize>> {
    vec![
        sig(0, "top.clk", WaveFormat::Bit),
        sig(1, "-- top: note", WaveFormat::Comment),
        sig(2, "top.data", WaveFormat::Vector(8)),
        sig(3, "bus.addr", WaveFormat::Vector(16)),
    ]
}

fn names(v: &Vec<Signal<usize>>) -> Vec<String> {
    v.iter().map(|s| s.name.clone()).collect()
}

#[test]
fn grep_keeps_matches_and_comments() {
    let g = Grep::new("^top").unwrap();
    let out = g.translate_signals(&sample_signals());
    assert_eq!(
        vec!["top.clk", "-- top: note", "top.data"],
        names(&out)
    );
}

#[test]
fn grep_rejects_invalid_pattern() {
    assert!(Grep::new("(unclosed").is_err());
}

#[test]
fn remove_comments_drops_pseudo_signals() {
    let f = RemoveComments::new();
    let out = f.translate_signals(&sample_signals());
    assert_eq!(vec!["top.clk", "top.data", "bus.addr"], names(&out));
}

#[test]
fn replace_prefix_rewrites_only_prefixes() {
    let f = ReplacePrefix::new("top.".to_string(), "t_".to_string());
    let out = f.translate_signals(&sample_signals());
    assert_eq!(
        vec!["t_clk", "-- top: note", "t_data", "bus.addr"],
        names(&out)
    );
    assert_eq!(0, out[0].id);
    assert_eq!(3, out[3].id);
}

#[test]
fn ignore_allow_overrides_deny() {
    let f = Ignore::new(
        &vec!["clk".to_string()],
        &vec!["^top".to_string()],
    )
    .unwrap();
    let out = f.translate_signals(&sample_signals());
    assert_eq!(
        vec!["top.clk", "-- top: note", "bus.addr"],
        names(&out)
    );
}

#[test]
fn ignore_twice_equals_once() {
    let f = Ignore::new(
        &vec!["clk".to_string()],
        &vec!["^top".to_string()],
    )
    .unwrap();
    let once = f.translate_signals(&sample_signals());
    let twice = f.translate_signals(&once);
    assert_eq!(names(&once), names(&twice));
    assert_eq!(once.len(), twice.len());
}

#[test]
fn signal_list_disabled_is_identity() {
    let mut f = SignalList::new(vec!["top.data".to_string()]);
    let config = PipelineConfig {
        name_list: vec!["top.data".to_string()],
        enable_filter_list: false,
    };
    f.configure_pipeline(&config).unwrap();
    let out = f.translate_signals(&sample_signals());
    assert_eq!(names(&sample_signals()), names(&out));
}

#[test]
fn signal_list_sorts_by_list_position() {
    let f = SignalList::new(vec![
        "top.data".to_string(),
        "top.clk".to_string(),
    ]);
    let out = f.translate_signals(&sample_signals());
    assert_eq!(vec!["top.data", "top.clk", "-- top: note"], names(&out));
}

#[test]
fn analog_reclassifies_matching_vectors() {
    let f = Analog::new(&vec!["data".to_string()], 1, 2).unwrap();
    let out = f.translate_signals(&sample_signals());
    assert!(matches!(out[0].format, WaveFormat::Bit));
    assert!(matches!(out[2].format, WaveFormat::Analog(8, 1, 2)));
    assert!(matches!(out[3].format, WaveFormat::Vector(16)));
}
