use viow::load::vcd::VcdLoader;
use viow::pipeline::SourceKind;
use viow::value::SampleValue;
use viow::wave::cache::Cache;
use viow::wave::pipeline_cid::PipelineCId;

fn ramp_trace() -> Vec<u8> {
    let mut s = String::new();
    s.push_str("$timescale 1 ns $end\n");
    s.push_str("$scope module top $end\n");
    for i in 0..4 {
        s.push_str(&format!("$var wire 8 {} sig{} $end\n", (33 + i) as u8 as char, i));
    }
    s.push_str("$upscope $end\n");
    s.push_str("$enddefinitions $end\n");
    for t in 0..200u64 {
        s.push_str(&format!("#{}\n", t));
        for i in 0..4u64 {
            // signal i counts in steps of i+1
            if t % (i + 1) == 0 {
                s.push_str(&format!(
                    "b{:08b} {}\n",
                    (t / (i + 1)) % 256,
                    (33 + i) as u8 as char
                ));
            }
        }
    }
    s.push_str("#200\n");
    s.into_bytes()
}

fn make_pipe() -> PipelineCId {
    let loader = VcdLoader::new(&ramp_trace(), None).unwrap();
    let mut pipe = PipelineCId::new(SourceKind::Vcd(loader)).unwrap();
    pipe.query_init().unwrap();
    pipe
}

fn direct(pipe: &PipelineCId, id: usize, lo: usize, hi: usize) -> Vec<SampleValue> {
    let a = pipe.query_time(lo);
    let b = pipe.query_time(hi);
    let ids = vec![id];
    let m = pipe.sample(&ids, &viow::simtime::SimTimeRange(a, b)).unwrap();
    let mut out = Vec::new();
    for r in 0..(hi - lo) {
        out.push(m.get(r, 0).dup());
    }
    out
}

#[test]
fn cache_matches_direct_sampling_across_orders() {
    let pipe = make_pipe();
    let n = pipe.query_cycle_count();
    assert_eq!(200, n);

    // small tiles and a tiny budget so eviction and stitching both happen
    let mut cache = Cache::new(3, 2, 16, 4, n);

    let plans: Vec<(usize, usize, usize)> = vec![
        (0, 0, 50),
        (3, 10, 60),
        (1, 0, 200),
        (2, 30, 31),
        (0, 0, 50),
        (3, 190, 200),
        (2, 0, 200),
        (1, 15, 33),
    ];
    for (id, lo, hi) in plans {
        let got = cache.get(&pipe, id, lo..hi);
        let want = direct(&pipe, id, lo, hi);
        assert_eq!(want.len(), got.len());
        for i in 0..got.len() {
            assert!(got[i].eq_value(&want[i]));
        }
    }
}

#[test]
fn repeated_requests_after_eviction_stay_correct() {
    let pipe = make_pipe();
    let n = pipe.query_cycle_count();
    let mut cache = Cache::new(2, 1, 64, 4, n);
    // touch more distinct tiles than the budget holds, twice over
    for round in 0..2 {
        for id in 0..4usize {
            let got = cache.get(&pipe, id, 0..n);
            let want = direct(&pipe, id, 0, n);
            for i in 0..n {
                assert!(got[i].eq_value(&want[i]), "round {} id {} cycle {}", round, id, i);
            }
        }
    }
}

#[test]
fn dense_id_round_trip() {
    let pipe = make_pipe();
    for i in 0..4usize {
        let native = pipe.rev_lookup_dense(i).unwrap();
        assert_eq!(i, pipe.lookup_dense(native).unwrap());
    }
    assert!(pipe.rev_lookup_dense(4).is_err());
}
