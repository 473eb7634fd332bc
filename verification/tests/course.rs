use xav::args::{self, Args, Xerr};
use xav::encoder::{Build, Encoder};
use xav::outpath::{self, OutPath, SplitPath};
use xav::progs::Palette;
use xav::resume::{self, Chunk, ChunkComp, ResumeInf, WorkerStats};
use xav::screen::{self, HelpInfo, SizeText, SumFacts, Ver};
use xav::select::{self, ChnkFn, Conv, Lanes, Lib, Metric, Output, Pipe, ProbeDec, ProbeFn, Shape, Strat, WatchEnc};
use xav::session::{self, Known, PipeInfo, Step};
use xav::video::VidInf;

fn build() -> Build {
    Build { avm: false, vvenc: false, vship: true, avx512: false }
}

fn args(s: &[&str]) -> Args {
    let w: Vec<String> = s.iter().map(|x| x.to_string()).collect();
    let au = vec![None; w.len()];
    match args::parse_args_loop(&w, &au, build()) {
        Ok(a) => a,
        Err(_) => panic!("not a command line"),
    }
}

fn inf() -> VidInf {
    VidInf {
        width: 1920,
        height: 1080,
        fps_num: 24,
        fps_den: 1,
        frames: 240,
        color_primaries: 1,
        transfer_characteristics: 1,
        matrix_coefficients: 1,
        color_range: 0,
        chroma_sample_position: 0,
        mastering_display: None,
        content_light: None,
        mastering: None,
        av1_mastering: None,
        content_light_level: None,
        is_10b: false,
        dar: Some((16, 9)),
        y_linesz: 0,
    }
}

fn pal() -> Palette {
    let s = |t: &str| t.to_string();
    Palette { b: s("<b>"), c: s("<c>"), g: s("<g>"), n: s("<n>"), p: s("<p>"), r: s("<r>"), w: s("<w>"), y: s("<y>") }
}

fn text(b: &[u8]) -> String {
    String::from_utf8(b.to_vec()).unwrap()
}

#[test]
fn names_of_chunks() {
    let mut p = OutPath::new("/w", "obu");
    for (i, want) in [(0, "/w/encode/0000.obu"), (9999, "/w/encode/9999.obu"), (10000, "/w/encode/10000.obu"), (65535, "/w/encode/65535.obu"), (7, "/w/encode/0007.obu")] {
        assert_eq!(text(p.set(i)), want);
    }
    assert_eq!(outpath::dot_ext("265"), [b'.', b'2', b'6', b'5']);
    assert_eq!(outpath::idx_digits(65535), 0x35_3335_3536);
    assert_eq!(outpath::idx_digits(7), 0x37_3030_3030);
}

#[test]
fn names_of_probes() {
    let mut p = SplitPath::new("/w", "266");
    assert_eq!(text(p.set(3, 2350)), "/w/split/0003_023.50.266");
    assert_eq!(text(p.set(12345, 99999)), "/w/split/12345_999.99.266");
    assert_eq!(text(p.set(12345, 5)), "/w/split/12345_000.05.266");
    assert_eq!(text(p.set_text(7, 2350)), "/w/split/0007_023.50.266");
    assert_eq!(text(p.set_text(3, 2350)), text(p.set(3, 2350)));
}

#[test]
fn names_of_probes_from_1000_up() {
    let mut p = SplitPath::new("/w", "266");
    assert_eq!(text(p.set(3, 100_000)), "/w/split/0003_:00.00.266");
    assert_eq!(text(p.set(3, 159_999)), "/w/split/0003_?99.99.266");
    assert_eq!(text(p.set(3, 160_000)), text(p.set(3, 0)));
    assert_eq!(p.set(3, u32::MAX), b"/w/split/0003_\xb8\xbf6.95.266");
    assert_eq!(text(p.set_text(3, 100_000)), "/w/split/0003_1000.00.266");
    assert_eq!(text(p.set_text(3, u32::MAX)), "/w/split/0003_42949672.95.266");
}

#[test]
fn names_of_different_probes_differ() {
    let mut p = SplitPath::new("/w", "266");
    let mut all: Vec<Vec<u8>> = (0..160_000).map(|h| p.set(9, h).clone()).collect();
    all.sort();
    all.dedup();
    assert_eq!(all.len(), 160_000);
}

#[test]
fn names_of_different_chunks_differ() {
    let mut p = OutPath::new("/w", "obu");
    let mut all: Vec<String> = (0..=u16::MAX).map(|i| text(p.set(i))).collect();
    all.sort();
    all.dedup();
    assert_eq!(all.len(), 65536);
}

#[test]
fn what_was_done_before() {
    let c = |idx: u16, frames: usize, sz: u64| ChunkComp { idx, frames, sz };
    let none = resume::load_resume_data(None);
    assert!(none.chnks_done.is_empty() && none.prior_secs == 0);
    let data = ResumeInf { chnks_done: vec![c(4, 10, 100), c(1, 20, 200), c(4, 5, 50)], prior_secs: 9 };
    assert!(resume::has_chunks(Some(&data)) && !resume::has_chunks(Some(&none)) && !resume::has_chunks(None));
    let (set, n, frames) = resume::build_skip_set(&data);
    assert_eq!(set.into_iter().collect::<Vec<u16>>(), [1, 4]);
    assert_eq!((n, frames), (2, 35));
    let mut s = WorkerStats::new(n, data);
    assert_eq!((s.completed, s.completed_frames, s.tot_sz), (2, 35, 350));
    s.add_completion(c(2, 7, 70));
    assert_eq!((s.completed, s.completed_frames, s.tot_sz), (2, 42, 420));
    assert_eq!(s.completions.chnks_done.len(), 4);
    s.finish_chunk(9, 1, 2);
    assert_eq!((s.completed, s.completed_frames, s.tot_sz), (3, 43, 422));
    assert_eq!(s.completions.chnks_done[4], c(9, 1, 2));
    s.count_chunk(c(8, 1, 3));
    assert_eq!((s.completed, s.completed_frames, s.tot_sz), (4, 44, 425));
    assert_eq!(s.completions.chnks_done.len(), 5);
    s.completed_frames = usize::MAX;
    s.add_completion(c(3, 2, 1));
    assert_eq!(s.completed_frames, 1);
}

#[test]
fn what_is_left_to_do() {
    let chunk = |idx: u16, start: usize, end: usize| Chunk { idx, start, end, params: None, tmpl: 0 };
    let v = vec![chunk(0, 0, 10), chunk(1, 10, 15), chunk(2, 15, 15)];
    assert_eq!(resume::total_frames(&v), 15);
    let skip = [1u16, 9].into_iter().collect();
    assert_eq!(resume::pending_chunks(&v, &skip), 2);
    assert_eq!(resume::pending_chunks(&v, &[0u16, 1, 2].into_iter().collect()), 0);
    assert_eq!(resume::pending_chunks(&v, &std::collections::BTreeSet::new()), 3);
    let kept = ResumeInf { chnks_done: vec![ChunkComp { idx: 1, frames: 5, sz: 9 }], prior_secs: 0 };
    let (skip, n, _) = resume::build_skip_set(&kept);
    assert_eq!(resume::pending_chunks(&v, &skip), 2);
    let mut s = WorkerStats::new(n, kept);
    s.finish_chunk(2, 0, 1);
    s.finish_chunk(0, 10, 1);
    let (skip, n, _) = resume::build_skip_set(&s.completions);
    assert_eq!((n, resume::pending_chunks(&v, &skip)), (3, 0));
}

#[test]
fn conversions_of_frames() {
    let lanes = Lanes { pack: 8, shift: 16, unpack: 40 };
    let pipe = Pipe { final_w: 64, final_h: 32, frame_sz: 320 };
    assert!(select::nv12_exact(pipe, lanes) && select::unpack_exact(pipe, lanes));
    let enc = |e: Encoder, raw: bool, nv12: bool, ten: bool, p: Pipe| {
        select::resolve_lib_enc(e, build(), Strat { raw, nv12 }, ten, p, lanes)
    };
    assert_eq!(enc(Encoder::SvtAv1, true, true, true, pipe).conv, Conv::Direct);
    assert_eq!(enc(Encoder::SvtAv1, false, true, true, pipe).conv, Conv::Nv12);
    assert_eq!(enc(Encoder::SvtAv1, false, false, true, pipe).conv, Conv::Unpack);
    assert_eq!(enc(Encoder::SvtAv1, false, false, false, pipe).conv, Conv::Shift);
    let odd = Pipe { final_w: 63, final_h: 31, frame_sz: 321 };
    assert_eq!(enc(Encoder::SvtAv1, false, true, true, odd).conv, Conv::Nv12Rem);
    assert_eq!(enc(Encoder::SvtAv1, false, false, true, odd).conv, Conv::UnpackRem);
    assert_eq!(enc(Encoder::SvtAv1, false, false, false, odd).conv, Conv::ShiftRem);
    assert_eq!(enc(Encoder::Avm, false, false, false, odd).lib, Lib::Svt);
    let linked = Build { avm: true, vvenc: true, ..build() };
    let e = select::resolve_lib_enc(Encoder::Avm, linked, Strat { raw: true, nv12: false }, true, pipe, lanes);
    assert_eq!((e.lib, e.probes), (Lib::Avm, false));
    let e = select::resolve_crf_enc(Encoder::Vvenc, linked, true, pipe, lanes);
    assert_eq!((e.lib, e.conv, e.probes), (Lib::Vvenc, Conv::Unpack, true));
    assert_eq!(select::resolve_crf_enc(Encoder::Vvenc, build(), true, pipe, lanes).lib, Lib::Svt);
    assert!(!select::unpack_exact(pipe, Lanes { pack: 0, shift: 16, unpack: 40 }));
}

#[test]
fn ways_of_encoders() {
    let linked = Build { avm: true, vvenc: true, ..build() };
    assert_eq!(select::resolve_watch_enc(Encoder::X264, build()), WatchEnc::Stderr);
    assert_eq!(select::resolve_watch_enc(Encoder::Vvenc, build()), WatchEnc::Stdout);
    assert_eq!(select::resolve_watch_enc(Encoder::Vvenc, linked), WatchEnc::Never);
    assert_eq!(select::resolve_chnk_fn(Encoder::X265, build(), true), ChnkFn::Program);
    assert_eq!(select::resolve_chnk_fn(Encoder::SvtAv1, build(), true), ChnkFn::LibZoned);
    assert_eq!(select::resolve_chnk_fn(Encoder::SvtAv1, build(), false), ChnkFn::Lib);
    assert_eq!(select::resolve_probe_fn(Encoder::X265, build()), ProbeFn::Program);
    assert_eq!(select::resolve_build_tmpl(Encoder::Avm, linked), Some(Lib::Avm));
    assert_eq!(select::resolve_build_tmpl(Encoder::Avm, build()), None);
    assert_eq!(select::resolve_build_tmpl(Encoder::X264, linked), None);
}

#[test]
fn ways_of_metrics() {
    let lanes = Lanes { pack: 8, shift: 16, unpack: 40 };
    let pipe = Pipe { final_w: 64, final_h: 32, frame_sz: 320 };
    let m = |e: Encoder, alt: bool| select::resolve_metric_loop(e, alt, Metric::Cvvdp, true, pipe, lanes);
    let d = m(Encoder::SvtAv1, false);
    assert_eq!((d.dec, d.output, d.retain, d.split_files), (ProbeDec::Dav1d, Output::Bytes, true, false));
    assert_eq!((d.metric, d.shape), (Metric::Cvvdp, Shape::Ten));
    assert_eq!(m(Encoder::SvtAv1, true).output, Output::Probe);
    assert_eq!(m(Encoder::X265, false).output, Output::Copy);
    let f = m(Encoder::Vvenc, true);
    assert_eq!((f.dec, f.output, f.retain, f.split_files), (ProbeDec::Ff, Output::Stat, false, true));
    assert_eq!(select::by_shape(false, pipe, lanes), Shape::Eight);
    assert_eq!(select::by_shape(true, Pipe { frame_sz: 321, ..pipe }, lanes), Shape::TenRem);
}

#[test]
fn templates_of_chunks() {
    let t = select::pick_template(false, false, 0, 3, None).unwrap();
    assert_eq!((t.for_probes, t.index), (false, 0));
    let t = select::pick_template(false, true, 2, 3, Some(3)).unwrap();
    assert_eq!((t.for_probes, t.index), (true, 2));
    let t = select::pick_template(true, true, 2, 3, Some(3)).unwrap();
    assert_eq!((t.for_probes, t.index), (false, 2));
    assert!(select::pick_template(false, false, 0, 0, None).is_none());
}

#[test]
fn plans_of_runs() {
    let a = args(&["xav", "-w", "4", "in.mkv"]);
    let p = select::enc_all(&a, build(), true);
    assert!(!p.target_quality && p.to_raw && !p.use_alt);
    assert_eq!((p.lines, p.permits, p.workers, p.metric_workers), (4, 4, 4, 0));
    assert_eq!(p.templates, Some(Lib::Svt));
    let a = args(&["xav", "-w", "4", "-b", "1", "in.mkv"]);
    assert!(!select::enc_all(&a, build(), true).to_raw);
    let a = args(&["xav", "-t", "9-9.5", "-f", "8-48", "-v", "2", "-P", "x", "-e", "x265", "in.mkv"]);
    let p = select::enc_all(&a, build(), true);
    assert!(p.target_quality && !p.to_raw && p.use_alt);
    assert_eq!((p.lines, p.metric_workers, p.watch), (3, 2, WatchEnc::Stderr));
    let lanes = Lanes { pack: 8, shift: 16, unpack: 40 };
    let pipe = Pipe { final_w: 64, final_h: 32, frame_sz: 320 };
    let q = select::spawn_tq_encoders(&a, build(), true, pipe, lanes, 2);
    assert!(!q.tq_loop.zoned && q.tq_loop.probe_files);
    assert_eq!((q.base, q.alt), (None, None));
    let a = args(&["xav", "-t", "9-9.5", "-f", "8-48", "-P", "x", "in.mkv"]);
    let q = select::spawn_tq_encoders(&a, build(), true, pipe, lanes, 2);
    assert!(q.tq_loop.zoned && !q.tq_loop.probe_files);
    assert_eq!((q.base, q.alt), (Some(Lib::Svt), Some(Lib::Svt)));
}

#[test]
fn crops_for_pipes() {
    assert_eq!(session::scale_crop((140, 3), 1920, 1080, 960, 540), (70, 0));
    assert_eq!(session::scale_crop((141, 8), 1920, 1080, 1920, 1080), (140, 8));
    let mut v = inf();
    assert_eq!(session::init_pipe_crop(&mut v, (140, 0), None), (140, 0));
    assert_eq!(v.width, 1920);
    let y = PipeInfo { width: 960, height: 540, is_10b: true };
    assert_eq!(session::init_pipe_crop(&mut v, (140, 0), Some(y)), (70, 0));
    assert_eq!((v.width, v.height, v.is_10b, v.dar), (960, 540, true, None));
    let mut v = inf();
    let y = PipeInfo { width: 1920, height: 800, is_10b: false };
    assert_eq!(session::init_pipe_crop(&mut v, (140, 0), Some(y)), (0, 0));
    let mut v = inf();
    let y = PipeInfo { width: 640, height: 480, is_10b: false };
    assert_eq!(session::init_pipe_crop(&mut v, (140, 0), Some(y)), (0, 0));
    let mut v = VidInf { width: 0, ..inf() };
    let y = PipeInfo { width: 640, height: 480, is_10b: false };
    assert_eq!(session::init_pipe_crop(&mut v, (140, 0), Some(y)), (0, 0));
    assert_eq!((v.width, v.height), (640, 480));
    assert_eq!(session::found_crop(None), (0, 0));
    assert_eq!(session::found_crop(Some((2, 4))), (2, 4));
}

#[test]
fn the_last_range_gets_an_end() {
    let mut r = vec![(1, 2), (5, usize::MAX)];
    session::close_ranges(&mut r, 240);
    assert_eq!(r, [(1, 2), (5, 239)]);
    let mut r = vec![(1, 2)];
    session::close_ranges(&mut r, 240);
    assert_eq!(r, [(1, 2)]);
}

#[test]
fn scenes_are_checked() {
    let said = |r: Result<(), Xerr>| match r {
        Ok(()) => None,
        Err(Xerr::Message(m)) => Some(m),
        Err(_) => panic!("not a message"),
    };
    let s = |t: &str| Some(t.to_string());
    let params = vec![None, s("first"), s("second")];
    assert_eq!(said(session::val_all_scenes(Encoder::SvtAv1, &s("order"), &params)), s("order"));
    assert_eq!(said(session::val_all_scenes(Encoder::SvtAv1, &None, &params)), s("first"));
    assert_eq!(said(session::val_all_scenes(Encoder::X264, &None, &params)), None);
    let a = args(&["xav", "--sc-only", "-s", "s.txt", "in.mkv"]);
    let k = Known { resumed: false, sc_exists: true, cvvdp: false };
    assert_eq!(said(session::check_scene_file(&a, k)), s("Scene file already exists: s.txt"));
    assert_eq!(said(session::check_scene_file(&a, Known { sc_exists: false, ..k })), None);
}

fn steps(a: &Args, k: Known) -> Vec<Step> {
    let mut v = vec![Step::EnterScreen];
    while *v.last().unwrap() != Step::Stop {
        let next = session::main_with_args(*v.last().unwrap(), a, k);
        v.push(next);
    }
    v
}

#[test]
fn the_course_of_a_run() {
    let k = Known { resumed: false, sc_exists: false, cvvdp: false };
    let s = steps(&args(&["xav", "in.mkv"]), k);
    assert!(s.contains(&Step::SaveArgs) && s.contains(&Step::FindScenes));
    assert!(!s.contains(&Step::EncodeAudio) && !s.contains(&Step::CutScenes) && !s.contains(&Step::ProbeHardware));
    let at = |x: Step| s.iter().position(|y| *y == x).unwrap();
    assert!(at(Step::Merge) < at(Step::RemoveWorkDir));
    let k = Known { resumed: true, sc_exists: true, cvvdp: true };
    let s = steps(&args(&["xav", "-t", "9-9.5", "-r", "1-2", "-a", "x", "--hwdec", "in.mkv"]), k);
    assert!(!s.contains(&Step::SaveArgs) && !s.contains(&Step::FindScenes));
    for x in [Step::LoadDisplay, Step::CutScenes, Step::EncodeAudio, Step::ProbeHardware] {
        assert!(s.contains(&x));
    }
}

#[test]
fn looking_for_scenes_encodes_nothing() {
    let k = Known { resumed: false, sc_exists: false, cvvdp: false };
    let s = steps(&args(&["xav", "--sc-only", "in.mkv"]), k);
    assert!(s.contains(&Step::CheckScenes));
    assert!(!s.contains(&Step::Encode) && !s.contains(&Step::RemoveWorkDir));
}

fn ver(v: &str) -> Ver {
    Ver { version: v.to_string(), date: "d".to_string() }
}

fn info() -> HelpInfo {
    HelpInfo {
        xav: ver("1.0"),
        svt: ver("3.1.0"),
        dav1d: ver("1.5"),
        avm: ver("longer than all"),
        vvenc: ver("1.14"),
        vship: ver("4"),
        vulkan: ver("1.4.300"),
        cuda: None,
        gpu: "580".to_string(),
    }
}

#[test]
fn the_options_of_a_build() {
    let h = screen::print_help(build(), &info(), &pal());
    assert!(h.starts_with("<p>Format: <y>xav <c>[options] <g><INPUT> <b>[<OUTPUT>]<w>\n\n<c>-e "));
    assert!(!h.contains("avm") && !h.contains("--preset") && h.contains("--alt-param"));
    assert!(h.contains("<c>XAV:         <g>1.0      <b>d<n>\n"));
    assert!(h.ends_with("<c>VULKAN:      <g>1.4.300  <b>d<n>\n<c>GPU Drivers: <g>580<n>\n"));
    let cuda = HelpInfo { cuda: Some("13".to_string()), ..info() };
    let h = screen::print_help(build(), &cuda, &pal());
    assert!(h.contains("<c>CUDA:        <g>13<n>\n") && h.contains("<g>1.0    <b>d<n>"));
    let b = Build { avm: true, vvenc: true, vship: false, avx512: false };
    let h = screen::print_help(b, &info(), &pal());
    assert!(h.contains("--preset") && !h.contains("--tq") && h.contains("<g>longer than all  <b>d<n>"));
    assert_eq!(screen::wmax(3, 9), 9);
}

#[test]
fn texts_in_colour() {
    let mut s = String::new();
    screen::paint(&mut s, "{C}a{Q}{{G}}b{", &pal());
    assert_eq!(s, "<c>a{Q}{<g>}b{");
    assert_eq!(screen::replace("aXbXX", "X", "yy"), "ayybyyyy");
    assert_eq!(screen::replace("aaa", "aa", "b"), "aaa".replace("aa", "b"));
    assert_eq!(screen::print_guide("{G}{R}{B}{P}{Y}{C}{W}{N}", &pal()), "<g><r><b><p><y><c><w>{N}");
}

#[test]
fn sizes_in_the_unit_that_fits() {
    let t = |bytes: u64| {
        screen::fmt_sz(&SizeText {
            bytes,
            mb: format!("{:.2}", bytes as f32 / 1_000_000.0),
            gb: format!("{:.2}", bytes as f32 / 1_000_000_000.0),
        })
    };
    assert_eq!(t(999_999), "999 KB");
    assert_eq!(t(1_500_000), "1.50 MB");
    assert_eq!(t(2_340_000_000), "2.34 GB");
}

#[test]
fn the_summary_of_a_run() {
    let sz = |bytes: u64| SizeText { bytes, mb: "m".to_string(), gb: "g".to_string() };
    let f = SumFacts {
        inp_name: "a name that is longer than thirty characters.mkv".to_string(),
        out_name: "out.mkv".to_string(),
        inp_sz: sz(5000),
        out_sz: sz(2000),
        inp_br: "10".to_string(),
        out_br: "4".to_string(),
        shrunk: true,
        change: "60.00".to_string(),
        width: 1920,
        height: 1080,
        crop: (140, 0),
        fps_rate: "23.976".to_string(),
        dur_secs: 3725,
        enc_secs: 59,
        enc_spd: " 12.34".to_string(),
    };
    let s = screen::print_sum(&f, &pal());
    assert!(s.contains("<r>a name that is longer than thi <g>"));
    assert!(s.contains("<g>out.mkv                        <p>"));
    assert!(s.contains("5 KB <c>(10 kb/s) <g>"));
    assert!(s.contains("2 KB <c>(4 kb/s) <g>\u{f06c0} 60.00%"));
    assert!(s.contains("<w>1920x800  <p>"));
    assert!(s.contains("<b>23.976 fps <p>"));
    assert!(s.contains("<w>01<c>:<w>02<c>:<w>05                               <p>"));
    assert!(s.contains("<w>00<c>:<w>00<c>:<w>59 <b>@  12.34 fps"));
    assert!(s.ends_with("<n>\n"));
    assert_eq!(s.lines().count(), 10);
}
