use xav::bits;
use xav::encoder::Encoder;
use xav::order;
use xav::report::{self, JsonChunk, JsonProbe, ProbeEntry, ProbeLog, Shown};
use xav::resume::{ChunkComp, ResumeInf, WorkerStats};
use xav::select::{Metric, Output};
use xav::tq::{
    self, Bounds, Coord, CoordStep, Guess, Outcome, Probe, ProbeText, Scored, TQState,
};

fn b(x: f32) -> u32 {
    x.to_bits()
}

fn scored(st: &TQState, target: f32, tol: f32, crf: f32, score: f32) -> Scored {
    let mut diffs: Vec<u32> =
        st.probes.iter().map(|p| b((f32::from_bits(p.score) - target).abs())).collect();
    diffs.push(b((score - target).abs()));
    let products = st
        .probes
        .iter()
        .map(|p| b((f32::from_bits(p.crf) - crf) * (f32::from_bits(p.score) - score)))
        .collect();
    Scored {
        crf: b(crf),
        score: b(score),
        diffs,
        products,
        bounds: Bounds {
            hi: b(target + tol),
            lo: b(target - tol),
            down: b(crf - 0.25),
            up: b(crf + 0.25),
        },
    }
}

#[test]
fn patterns_compare_as_their_numbers() {
    let xs = [
        -1.5f32, 0.0, -0.0, 1.0, 8.0, 10.0, f32::INFINITY, f32::NEG_INFINITY, f32::NAN, 1e-40, -f32::NAN,
    ];
    for x in xs {
        assert_eq!(bits::nan(b(x)), x.is_nan());
        for y in xs {
            assert_eq!(bits::lt(b(x), b(y)), x < y);
            assert_eq!(bits::le(b(x), b(y)), x <= y);
            assert_eq!(bits::rank(b(x)).cmp(&bits::rank(b(y))), x.total_cmp(&y));
        }
    }
    assert_eq!(bits::EIGHT, b(8.0));
    assert_eq!(bits::TEN, b(10.0));
    assert_eq!(bits::INFINITY, b(f32::INFINITY));
    assert_eq!(bits::THOUSANDTH, b(0.001));
}

#[test]
fn metrics_of_targets() {
    assert!(tq::is_cvvdp(b(8.0)) && tq::is_cvvdp(b(9.5)) && tq::is_cvvdp(b(10.0)));
    assert!(!tq::is_cvvdp(b(7.5)) && !tq::is_cvvdp(b(10.5)) && !tq::is_cvvdp(b(f32::NAN)));
    let m = |t: f32| tq::parse_tq_ctx(b(t), b(0.1), b(8.0), b(48.0)).metric();
    assert_eq!(m(2.0), Metric::Butter);
    assert_eq!(m(9.0), Metric::Cvvdp);
    assert_eq!(m(80.0), Metric::Ssimu2);
    assert_eq!(m(7.5), Metric::Butter);
    assert_eq!(m(8.0), Metric::Cvvdp);
    assert_eq!(m(10.0), Metric::Cvvdp);
    assert_eq!(m(10.5), Metric::Ssimu2);
    assert_eq!(m(f32::NAN), Metric::Ssimu2);
    assert_eq!(Metric::Ssimu2.metric_name(), "ssimulacra2");
    assert_eq!(Metric::Butter.metric_name(), "butter");
    assert_eq!(Metric::Cvvdp.metric_name(), "cvvdp");
}

#[test]
fn a_search_starts_with_the_whole_range() {
    let ctx = tq::parse_tq_ctx(b(80.0), b(0.5), b(8.0), b(48.0));
    let mut st = TQState::new(&ctx);
    assert_eq!((st.search_min, st.search_max, st.round), (b(8.0), b(48.0), 0));
    assert_eq!(st.next_round(), Guess::Bisect);
    assert_eq!(st.next_round(), Guess::Bisect);
    assert_eq!(st.next_round(), Guess::Interpolate);
    assert_eq!(st.tq_search_crf(b(50.0), Encoder::SvtAv1), (b(48.0), false));
    assert_eq!(st.tq_search_crf(b(7.0), Encoder::Vvenc), (b(8.0), true));
    assert_eq!(st.tq_search_crf(b(20.5), Encoder::X265), (b(20.5), false));
    assert_eq!(st.last_crf, b(20.5));
    st.settle_crf(b(21.0));
    assert_eq!(st.last_crf, b(21.0));
}

#[test]
fn scores_move_the_range() {
    let ctx = tq::parse_tq_ctx(b(80.0), b(0.5), b(8.0), b(48.0));
    let mut st = TQState::new(&ctx);
    let s = scored(&st, 80.0, 0.5, 28.0, 70.0);
    assert_eq!(st.after_score(&ctx, &s, false), Outcome::Again);
    assert_eq!((st.search_min, st.search_max), (b(8.0), b(27.75)));
    let s = scored(&st, 80.0, 0.5, 18.0, 85.0);
    assert_eq!(st.after_score(&ctx, &s, false), Outcome::Again);
    assert_eq!((st.search_min, st.search_max), (b(18.25), b(27.75)));
    let s = scored(&st, 80.0, 0.5, 23.0, 80.25);
    assert_eq!(st.after_score(&ctx, &s, false), Outcome::Done(2));
    assert_eq!(st.probes[2], Probe { crf: b(23.0), score: b(80.25) });
    assert_eq!(st.search_min, b(18.25));
}

#[test]
fn a_low_score_is_good_for_butter() {
    let ctx = tq::parse_tq_ctx(b(2.0), b(0.1), b(8.0), b(48.0));
    let mut st = TQState::new(&ctx);
    let s = scored(&st, 2.0, 0.1, 28.0, 3.0);
    assert_eq!(st.after_score(&ctx, &s, false), Outcome::Again);
    assert_eq!((st.search_min, st.search_max), (b(8.0), b(27.75)));
}

#[test]
fn an_empty_range_ends_the_search() {
    let ctx = tq::parse_tq_ctx(b(80.0), b(0.5), b(20.0), b(20.1));
    let mut st = TQState::new(&ctx);
    let s = scored(&st, 80.0, 0.5, 20.0, 70.0);
    assert_eq!(st.after_score(&ctx, &s, false), Outcome::Done(0));
}

#[test]
fn scores_out_of_line_end_the_search() {
    let ctx = tq::parse_tq_ctx(b(80.0), b(0.5), b(8.0), b(48.0));
    let mut st = TQState::new(&ctx);
    let s = scored(&st, 80.0, 0.5, 28.0, 70.0);
    st.after_score(&ctx, &s, true);
    let s = scored(&st, 80.0, 0.5, 18.0, 69.0);
    assert_eq!(st.after_score(&ctx, &s, true), Outcome::Final);
    assert!(st.final_enc);
    assert_eq!(st.last_crf, b(28.0));
    assert_eq!(st.search_max, b(27.75));
}

#[test]
fn the_first_of_equal_probes_is_best() {
    assert_eq!(tq::best_index(&vec![b(0.5), b(0.25), b(0.25)]), 1);
    assert_eq!(tq::best_index(&vec![b(f32::NAN), b(3.0)]), 1);
}

#[test]
fn the_nearest_probe_is_kept() {
    let ctx = tq::parse_tq_ctx(b(80.0), b(0.5), b(8.0), b(48.0));
    let mut st = TQState::new(&ctx);
    let mut probe = vec![1];
    st.retain_swap(&mut probe, b(5.0));
    assert_eq!((st.best_probe.clone(), probe.clone()), (vec![1], vec![]));
    probe = vec![2];
    st.retain_swap(&mut probe, b(5.0));
    assert_eq!((st.best_probe.clone(), probe.clone()), (vec![1], vec![2]));
    st.measured(b(20.0), 77);
    assert_eq!(st.probe_szs, [(b(20.0), 77)]);
}

#[test]
fn chunks_are_coordinated() {
    let mut c = Coord::new(2);
    assert_eq!(c.tq_coord(4096), CoordStep::Forward(4096));
    assert_eq!(c.tq_coord(1), CoordStep::Release);
    assert!(!c.finished());
    assert_eq!(c.tq_coord(1), CoordStep::Release);
    assert!(c.finished());
}

#[test]
fn sizes_of_probes() {
    let szs = vec![(b(20.0), 5), (b(21.0), 6)];
    assert_eq!(tq::probe_size(&vec![b(1.0), b(0.0)], &szs), 6);
    assert_eq!(tq::probe_size(&vec![b(0.0005), b(0.0)], &szs), 5);
    assert_eq!(tq::probe_size(&vec![b(1.0), b(0.001)], &szs), 0);
}

#[test]
fn a_chunk_is_done() {
    let mut kept = ResumeInf { chnks_done: vec![], prior_secs: 5 };
    let mut stats = WorkerStats::new(2, ResumeInf { chnks_done: vec![], prior_secs: 5 });
    let c = tq::complete_chnk(3, 48, 999, &mut kept, &mut stats);
    assert_eq!(c, ChunkComp { idx: 3, frames: 48, sz: 999 });
    assert_eq!(kept.chnks_done, [c]);
    assert_eq!(kept.prior_secs, 5);
    assert_eq!((stats.completed, stats.completed_frames, stats.tot_sz), (3, 48, 999));
    assert!(stats.completions.chnks_done.is_empty());
    assert_eq!(tq::params_for(false, "own", Some("alt")), "alt");
    assert_eq!(tq::params_for(true, "own", Some("alt")), "own");
    assert_eq!(tq::params_for(false, "own", None), "own");
}

#[test]
fn the_log_of_a_chunk() {
    let mut st = TQState::new(&tq::parse_tq_ctx(b(9.0), b(0.5), b(8.0), b(48.0)));
    assert_eq!(st.last_score(), None);
    st.round = 2;
    st.probes = vec![Probe { crf: b(20.0), score: b(9.5) }, Probe { crf: b(21.0), score: b(9.25) }];
    st.probe_szs = vec![(b(20.0), 500), (b(21.0), 400)];
    assert_eq!(st.last_score(), Some(b(9.25)));
    let shown = |c: &str, s: &str, dists: Vec<u32>| ProbeText {
        crf: c.to_string(),
        score: s.to_string(),
        dists,
    };
    let all = vec![
        shown("20.00", "9.5000", vec![b(0.0), b(1.0)]),
        shown("21.00", "9.2500", vec![b(1.0), b(0.0)]),
    ];
    let l = tq::chunk_log(7, 48, 400, &st, &all, 1);
    assert_eq!(
        report::write_chnk_log(&l, "w").text,
        "{\"id\":7,\"r\":2,\"f\":48,\"p\":[[20.00,9.5000,500],[21.00,9.2500,400]],\"fc\":21.00,\"fs\":9.2500,\"fz\":400}\n"
    );
}

#[test]
fn sizes_of_what_came_out() {
    assert_eq!(tq::output_size(Output::Bytes, 10, 20, Some(30)), 10);
    assert_eq!(tq::output_size(Output::Probe, 10, 20, Some(30)), 20);
    assert_eq!(tq::output_size(Output::Copy, 10, 20, Some(30)), 30);
    assert_eq!(tq::output_size(Output::Stat, 10, 20, None), 0);
}

#[test]
fn equal_keys_keep_their_order() {
    assert_eq!(order::stable_order(&vec![3, 1, 3, 2, 1]), [1, 4, 3, 0, 2]);
    assert_eq!(order::stable_order(&vec![]), Vec::<usize>::new());
    let rows = order::count_keys(&vec![7, 3, 7, 7, 1]);
    assert_eq!(rows, [(1, 1), (3, 1), (7, 3)]);
    assert_eq!(rows.iter().map(|r| r.1).sum::<usize>(), 5);
}

#[test]
fn lines_of_the_chunk_log() {
    let e = |c: &str, s: &str, sz: u64| ProbeEntry { crf: c.to_string(), score: s.to_string(), sz };
    let l = ProbeLog {
        chnk_idx: 12,
        probes: vec![e("28.00", "70.1234", 1000), e("18.00", "85.0000", 2000)],
        final_crf: "18.00".to_string(),
        final_score: "85.0000".to_string(),
        final_sz: 2000,
        round: 2,
        frames: 48,
    };
    let w = report::write_chnk_log(&l, "/w");
    assert_eq!(w.path, "/w/chunks.json");
    assert_eq!(
        w.text,
        "{\"id\":12,\"r\":2,\"f\":48,\"p\":[[28.00,70.1234,1000],[18.00,85.0000,2000]],\"fc\":18.00,\"fs\":85.0000,\"fz\":2000}\n"
    );
}

fn probe(c: f32) -> JsonProbe {
    JsonProbe { bits: b(c), crf: format!("{c:.2}"), score: "80.123".to_string(), kbs: "900".to_string() }
}

fn chunk(id: u64, r: usize, h: u64, crfs: &[f32]) -> JsonChunk {
    JsonChunk {
        id,
        r,
        probes: crfs.iter().map(|&c| probe(c)).collect(),
        final_crf: format!("{:.2}", h as f32 / 100.0),
        final_score: "80.000".to_string(),
        final_kbs: "850".to_string(),
        hundredths: h,
    }
}

#[test]
fn the_report_of_a_run() {
    let logs = vec![chunk(2, 7, 2000, &[20.0]), chunk(1, 2, 2150, &[28.0, 21.5])];
    assert_eq!(report::round_counts(&logs), [(1, 1), (2, 1)]);
    let crfs = report::crf_counts(&logs);
    assert_eq!(crfs, [(2000, 1), (2150, 1)]);
    assert_eq!(report::common_crfs(&crfs), [(2000, 1), (2150, 1)]);
    let shown = Shown {
        average: "1.5".to_string(),
        pcts: vec!["50.00".to_string(), "50.00".to_string()],
        crfs: vec!["20.00".to_string(), "21.50".to_string()],
    };
    let w = report::write_tq_log("/v/clip.mkv", logs, "cvvdp", &shown).unwrap();
    assert_eq!(w.path, "/v/clip.json");
    let want = "{
  \"chunks_cvvdp\": [
    {
      \"id\": 1,
      \"probes\": [
        { \"crf\": 21.50, \"score\": 80.123, \"kbs\": 900 },
        { \"crf\": 28.00, \"score\": 80.123, \"kbs\": 900 }
      ],
      \"final\": { \"crf\": 21.50, \"score\": 80.000, \"kbs\": 850 }
    },

    {
      \"id\": 2,
      \"probes\": [
        { \"crf\": 20.00, \"score\": 80.123, \"kbs\": 900 }
      ],
      \"final\": { \"crf\": 20.00, \"score\": 80.000, \"kbs\": 850 }
    }
  ],

  \"average_probes\": 1.5,
  \"in_range\": 1,
  \"out_range\": 1,

  \"rounds\": {
    \"1\": { \"count\": 1, \"%\": 50.00 },
    \"2\": { \"count\": 1, \"%\": 50.00 }
  },

  \"common_crfs\": [
    { \"crf\": 20.00, \"count\": 1 },
    { \"crf\": 21.50, \"count\": 1 }
  ]
}";
    assert_eq!(w.text, want);
}

#[test]
fn chunks_are_sorted_before_the_report() {
    let logs = || vec![chunk(2, 7, 2000, &[20.0]), chunk(1, 2, 2150, &[]), chunk(2, 1, 2150, &[])];
    let shown = Shown {
        average: "0.3".to_string(),
        pcts: vec!["66.67".to_string(), "33.33".to_string()],
        crfs: vec!["21.50".to_string(), "20.00".to_string()],
    };
    let rounds = report::round_counts(&logs());
    let crfs = report::crf_counts(&logs());
    assert_eq!((rounds.clone(), crfs.clone()), (vec![(0, 2), (1, 1)], vec![(2000, 1), (2150, 2)]));
    let ids = |s: &str| {
        let rows = s.lines().filter(|l| l.starts_with("      \"id\""));
        rows.map(|l| l.trim().to_string()).collect::<Vec<_>>()
    };
    let finals = |s: &str| {
        let rows = s.lines().filter(|l| l.starts_with("      \"final\""));
        rows.map(|l| l.trim()[18..23].to_string()).collect::<Vec<_>>()
    };
    let given = report::form_tq_json(&logs(), "cvvdp", &rounds, &crfs, &shown);
    assert_eq!(ids(&given), ["\"id\": 2,", "\"id\": 1,", "\"id\": 2,"]);
    let sorted = report::write_tq_log("c.mkv", logs(), "cvvdp", &shown).unwrap().text;
    assert_eq!(ids(&sorted), ["\"id\": 1,", "\"id\": 2,", "\"id\": 2,"]);
    assert_eq!(finals(&given), ["20.00", "21.50", "21.50"]);
    assert_eq!(finals(&sorted), ["21.50", "20.00", "21.50"]);
}

#[test]
fn the_most_frequent_qualities_come_first() {
    let mut logs: Vec<JsonChunk> = (0..30).map(|i| chunk(i, 1, i, &[1.0])).collect();
    logs.push(chunk(30, 1, 29, &[1.0]));
    let c = report::common_crfs(&report::crf_counts(&logs));
    assert_eq!(c.len(), 25);
    assert_eq!(c[0], (29, 2));
    assert_eq!(c[1], (0, 1));
    assert_eq!(c[24], (23, 1));
}

#[test]
fn a_run_without_chunks_has_no_report() {
    let shown = Shown { average: String::new(), pcts: vec![], crfs: vec![] };
    assert!(report::write_tq_log("/v/clip.mkv", vec![], "butter", &shown).is_none());
}
