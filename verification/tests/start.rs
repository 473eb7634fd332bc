use xav::args::{self, Args, Opt, Xerr};
use xav::encoder::{Build, Encoder};
use xav::quote;
use xav::resume::{ChunkComp, ResumeInf};
use xav::startup::{self, Facts, Left};

fn build() -> Build {
    Build { avm: true, vvenc: true, vship: true, avx512: false }
}

fn words(s: &str) -> Vec<String> {
    quote::parse_quoted_args(s)
}

fn parse_in(b: Build, s: &str) -> Result<Args, String> {
    let w = words(s);
    let au = vec![None; w.len()];
    args::parse_args_loop(&w, &au, b).map_err(said)
}

fn parse(s: &str) -> Result<Args, String> {
    parse_in(build(), s)
}

fn said(e: Xerr) -> String {
    match e {
        Xerr::Help => "help".to_string(),
        Xerr::Guide => "guide".to_string(),
        Xerr::BadInt(t) => format!("bad number {t}"),
        Xerr::Message(m) => m,
    }
}

fn facts() -> Facts {
    Facts {
        tq_numbers: vec![9.0f32.to_bits(), 9.5f32.to_bits()],
        qp_numbers: vec![8.0f32.to_bits(), 48.0f32.to_bits()],
        params_rc: false,
        alt_rc: false,
        params_fault: None,
        alt_fault: None,
        piped: false,
    }
}

fn get(s: &str, f: &Facts) -> Result<Args, String> {
    let w = words(s);
    let au = vec![None; w.len()];
    startup::start_args(&w, &au, build(), None, f).unwrap().map_err(said)
}

#[test]
fn words_of_a_command_line() {
    assert_eq!(args::classify("--encoder", build()), Opt::Encoder);
    assert_eq!(args::classify("-P", build()), Opt::AltParam);
    assert_eq!(args::classify("in.mkv", build()), Opt::Plain);
    assert_eq!(args::classify("", build()), Opt::Plain);
    assert_eq!(args::classify("-x", build()), Opt::Unknown);
    let bare = Build { avm: false, vvenc: false, vship: false, avx512: false };
    assert_eq!(args::classify("--preset", bare), Opt::Unknown);
    assert_eq!(args::classify("-t", bare), Opt::Unknown);
}

#[test]
fn defaults_of_a_command_line() {
    let a = parse("xav in.mkv").unwrap();
    assert_eq!(a.encoder, Encoder::SvtAv1);
    assert_eq!((a.worker, a.chnk_buff, a.metric_worker), (1, 1, 1));
    assert_eq!(a.metric_mode, "mean");
    assert_eq!((a.inp.as_str(), a.out.as_str()), ("in.mkv", ""));
    assert!(a.ranges.is_none() && a.tq.is_none() && !a.sc_only && !a.hwdec);
}

#[test]
fn options_set_what_they_name() {
    let a = parse(
        "xav -e X265 -w 4 -b 2 -s s.txt -p \"--crf 30\" -r 1-2,5- -a \"auto all\" -t 9-9.5 -m p5 -f 10-20 \
         -v 3 -d d.json -P \"--preset 9\" --hwdec --sc-only a.mkv b.mkv c.mkv",
    )
    .unwrap();
    assert_eq!(a.encoder, Encoder::X265);
    assert_eq!((a.worker, a.chnk_buff, a.metric_worker), (4, 6, 3));
    assert_eq!((a.sc_file.as_str(), a.params.as_str()), ("s.txt", "--crf 30"));
    assert_eq!(a.ranges, Some(vec![(1, 2), (5, usize::MAX)]));
    assert_eq!(a.au, Some("auto all".to_string()));
    assert_eq!(a.tq, Some("9-9.5".to_string()));
    assert_eq!(a.metric_mode, "p5");
    assert_eq!(a.qp_range, Some("10-20".to_string()));
    assert_eq!(a.cvvdp_conf, Some("d.json".to_string()));
    assert_eq!(a.alt_param, Some("--preset 9".to_string()));
    assert!(a.hwdec && a.sc_only);
    assert_eq!((a.inp.as_str(), a.out.as_str()), ("a.mkv", "b.mkv"));
}

#[test]
fn options_can_change_places() {
    let a = parse("xav --hwdec -w 4 -b 2 in.mkv -s s.txt").unwrap();
    let b = parse("xav --hwdec -b 2 -w 4 in.mkv -s s.txt").unwrap();
    assert_eq!((a.worker, a.chnk_buff, a.hwdec), (b.worker, b.chnk_buff, b.hwdec));
    assert_eq!((a.worker, a.chnk_buff), (4, 6));
    assert_eq!((a.inp, a.sc_file), (b.inp, b.sc_file));
    assert_eq!(parse("xav -w x -e foo in").err().unwrap(), "bad number x");
    assert_eq!(parse("xav -e foo -w x in").err().unwrap(), "Unknown encoder: foo");
    assert_eq!(parse("xav -e foo -w 2 in").err().unwrap(), "Unknown encoder: foo");
    assert_eq!(parse("xav -w 2 -e foo in").err().unwrap(), "Unknown encoder: foo");
}

#[test]
fn an_option_without_its_value_sets_nothing() {
    let a = parse("xav in.mkv -w").unwrap();
    assert_eq!(a.worker, 1);
}

#[test]
fn faults_of_a_command_line() {
    assert_eq!(parse("xav -e foo in").err().unwrap(), "Unknown encoder: foo");
    assert_eq!(parse("xav -w two in").err().unwrap(), "bad number two");
    assert_eq!(parse("xav --nope in").err().unwrap(), "Unknown arg: --nope");
    assert_eq!(parse("xav in -h --nope").err().unwrap(), "help");
    assert_eq!(parse("xav --guide").err().unwrap(), "guide");
    let bare = Build { avm: false, ..build() };
    assert_eq!(parse_in(bare, "xav -e avm in").err().unwrap(), "Unknown encoder: avm");
}

#[test]
fn the_audio_parser_is_asked() {
    let w = words("xav -a nonsense --nope");
    let au = vec![None, None, Some("bad audio".to_string()), None];
    assert_eq!(args::parse_args_loop(&w, &au, build()).map_err(said).err().unwrap(), "bad audio");
}

#[test]
fn ranges_such_as_the_help_shows() {
    let r = |s: &str| args::parse_ranges(s).map_err(said);
    assert_eq!(r("10-20,90-100").unwrap(), [(10, 20), (90, 100)]);
    assert_eq!(r(" 1 - 2 , 3 - ").unwrap(), [(1, 2), (3, usize::MAX)]);
    assert_eq!(r("7").unwrap_err(), "invalid range");
    assert_eq!(r("").unwrap_err(), "invalid range");
    assert_eq!(r("a-2").unwrap_err(), "bad number a");
    assert_eq!(r("1-b").unwrap_err(), "bad number b");
    assert_eq!(r("1-,2-3").unwrap_err(), "only the last range may omit its end");
}

#[test]
fn outputs_by_encoder() {
    let v = |o: &str, e: Encoder| startup::val_out(o, e).map_err(said);
    assert!(v("a.mkv", Encoder::X264).is_ok());
    assert!(v("a.webm", Encoder::SvtAv1).is_ok());
    assert_eq!(v("a.webm", Encoder::X265).unwrap_err(), "webm output requires svt-av1, not X265");
    assert_eq!(
        v("a.mp4", Encoder::SvtAv1).unwrap_err(),
        "Invalid extension .mp4 for SvtAv1. Use: mkv, webm"
    );
    assert_eq!(v("a", Encoder::Avm).unwrap_err(), "Invalid extension . for Avm. Use: mkv, webm");
}

#[test]
fn what_is_left_out_is_filled_in() {
    let a = get("xav /v/clip.ts -t 9-9.5", &facts()).unwrap();
    assert_eq!(a.out, "/v/clip_xav.mkv");
    assert_eq!(a.sc_file, "/v/clip_scd.txt");
    assert_eq!(a.qp_range, Some("8.0-48.0".to_string()));
    assert!(startup::val_out(&a.out, Encoder::X264).is_ok());
    let a = get("xav /v/clip.ts", &facts()).unwrap();
    assert_eq!(a.qp_range, None);
}

#[test]
fn ranges_of_numbers() {
    let v = |n: Vec<u32>| startup::val_range("s", &n, "-t/--tq").map_err(said);
    let b = |x: f32| x.to_bits();
    assert!(v(vec![b(1.0), b(2.0)]).is_ok());
    assert_eq!(v(vec![b(1.0)]).unwrap_err(), "-t/--tq requires a range: <min>-<max>");
    assert_eq!(v(vec![b(2.0), b(2.0)]).unwrap_err(), "-t/--tq min must be less than max: s");
    assert_eq!(v(vec![b(0.0), b(-0.0)]).unwrap_err(), "-t/--tq min must be less than max: s");
    assert!(v(vec![b(f32::NAN), b(1.0)]).is_ok());
}

#[test]
fn faults_that_others_find() {
    let tq = "xav i.mkv -t 9-9.5";
    assert_eq!(
        get("xav i.mkv -e avm -t 9-9.5", &facts()).err().unwrap(),
        "Target quality is not supported by avm"
    );
    let f = Facts { qp_numbers: vec![], ..facts() };
    assert_eq!(get(tq, &f).err().unwrap(), "-f/--qp requires a range: <min>-<max>");
    let f = Facts { params_rc: true, ..facts() };
    assert_eq!(
        get(tq, &f).err().unwrap(),
        "-p and -P must not set CRF/QP in target-quality mode: CRF is chosen automatically"
    );
    let f = Facts { alt_rc: true, ..facts() };
    assert!(get(tq, &f).is_ok());
    let f = Facts { params_fault: Some("bad svt".to_string()), ..facts() };
    assert_eq!(get("xav i.mkv", &f).err().unwrap(), "bad svt");
    assert!(get("xav i.mkv -e x264", &f).is_ok());
    let f = Facts { alt_fault: Some("bad alt".to_string()), ..facts() };
    assert!(get("xav i.mkv", &f).is_ok());
    assert_eq!(get("xav i.mkv -P x", &f).err().unwrap(), "bad alt");
    let f = Facts { piped: true, ..facts() };
    assert_eq!(
        get("xav i.mkv --hwdec", &f).err().unwrap(),
        "Hardware accelerated decoding can not be used with a pipe"
    );
}

#[test]
fn presets_are_for_vvenc() {
    let a = get("xav i.mkv -e vvenc -p \"--QP 30\" --preset Slow", &facts()).unwrap();
    assert_eq!(a.params, "--QP 30 --preset Slow");
    assert_eq!(
        get("xav i.mkv --preset slow", &facts()).err().unwrap(),
        "--preset is only supported by the vvenc encoder"
    );
    assert_eq!(
        get("xav i.mkv -e vvenc --preset x", &facts()).err().unwrap(),
        "Unknown vvenc preset: x (valid: faster, fast, medium, slow, slower, medium_lowDecEnergy)"
    );
}

#[test]
fn command_lines_that_ask_for_nothing() {
    assert_eq!(get("xav", &facts()).err().unwrap(), "Usage: xav [options] <input> <output>");
    assert_eq!(get("xav -w 2", &facts()).err().unwrap(), "Missing input");
}

#[test]
fn an_input_without_a_name() {
    let w = words("xav ..");
    assert!(startup::start_args(&w, &vec![None, None], build(), None, &facts()).is_none());
    let w = words("xav .. out.avi");
    let r = startup::start_args(&w, &vec![None; 3], build(), None, &facts());
    assert_eq!(
        r.unwrap().map_err(said).err().unwrap(),
        "Invalid extension .avi for SvtAv1. Use: mkv, webm"
    );
}

fn done() -> ResumeInf {
    ResumeInf { chnks_done: vec![ChunkComp { idx: 0, frames: 1, sz: 1 }], prior_secs: 0 }
}

fn left(line: &str, facts: Facts) -> Left {
    let au = vec![None; words(line).len()];
    Left { line: Some(line.to_string()), kept: Some(done()), au, facts }
}

fn get_after(s: &str, l: &Left) -> Option<Result<Args, String>> {
    let w = words(s);
    let au = vec![None; w.len()];
    startup::start_args(&w, &au, build(), Some(l), &facts()).map(|r| r.map_err(said))
}

#[test]
fn an_interrupted_run_is_taken_up() {
    let l = left("xav -w 7 -p \"a b\" old.mkv", facts());
    let a = get_after("xav new.mkv", &l).unwrap().unwrap();
    assert_eq!((a.worker, a.params.as_str(), a.inp.as_str()), (7, "a b", "old.mkv"));
    assert_eq!((a.out.as_str(), a.sc_file.as_str()), ("old_xav.mkv", "old_scd.txt"));
    let w = words("xav new.mkv");
    let a = startup::get_args(&w, &vec![None, None], build(), Some(&l), &facts()).ok().unwrap();
    assert_eq!(a.inp, "old.mkv");
    assert_eq!(get_after("xav --nope", &l).unwrap().err().unwrap(), "Unknown arg: --nope");
}

#[test]
fn an_interrupted_run_is_checked() {
    for line in ["xav old.mkv old.avi", "xav --nope", "xav -e avm -t 9-9.5 old.mkv"] {
        let l = left(line, facts());
        assert!(startup::get_saved_args(&l, build()).is_err());
        assert_eq!(get_after("xav new.mkv", &l).unwrap().unwrap().inp, "new.mkv");
    }
    let l = left("xav --hwdec old.mkv", Facts { piped: true, ..facts() });
    assert_eq!(
        startup::get_saved_args(&l, build()).map_err(said).err().unwrap(),
        "Hardware accelerated decoding can not be used with a pipe"
    );
    assert_eq!(get_after("xav new.mkv", &l).unwrap().unwrap().inp, "new.mkv");
    assert!(get_after("xav new.mkv", &left("xav ..", facts())).is_none());
    assert!(get_after("xav ..", &left("xav old.mkv", facts())).unwrap().is_ok());
    assert!(get_after("xav ..", &left("xav --nope", facts())).is_none());
}

#[test]
fn what_an_interrupted_run_left() {
    let none = ResumeInf { chnks_done: vec![], prior_secs: 0 };
    let line = "xav -p \"a b\" in.mkv";
    assert_eq!(startup::saved_words(Some(line), Some(&done())).ok().unwrap(), words(line));
    for r in [
        startup::saved_words(None, Some(&done())),
        startup::saved_words(Some(line), Some(&none)),
        startup::saved_words(Some(line), None),
    ] {
        assert_eq!(said(r.err().unwrap()), "No tmp dir found");
    }
    let l = Left { kept: Some(none), ..left(line, facts()) };
    assert_eq!(
        startup::get_saved_args(&l, build()).map_err(said).err().unwrap(),
        "No tmp dir found"
    );
    assert_eq!(get_after("xav new.mkv", &l).unwrap().unwrap().inp, "new.mkv");
}

#[test]
fn a_saved_line_asks_the_same() {
    let w = words("xav -w 3 -p \"--a b\" \"in put.mkv\"");
    let again = quote::parse_quoted_args(&quote::quote_args(&w));
    let au = vec![None; w.len()];
    let a = startup::read_args(&w, &au, build()).ok().unwrap();
    let b = startup::read_args(&again, &au, build()).ok().unwrap();
    assert_eq!((a.worker, a.params, a.inp), (b.worker, b.params, b.inp));
}

#[test]
fn the_work_directory() {
    assert_eq!(startup::work_dir("/v/in.mkv", 0x0123_4567_89ab_cdef), "/v/.1234567");
    assert_eq!(startup::work_dir("in.mkv", 0x100_0000), ".1000000");
}
