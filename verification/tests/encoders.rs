use xav::color;
use xav::command::{self, Crf, EncConfig};
use xav::encoder::{self, Build, Encoder, ProgramOutput, Versions};
use xav::video::{self, Mastering, VidInf};

fn build() -> Build {
    Build { avm: false, vvenc: false, vship: false, avx512: false }
}

fn inf() -> VidInf {
    VidInf {
        width: 1920,
        height: 1080,
        fps_num: 24000,
        fps_den: 1001,
        frames: 240,
        color_primaries: 1,
        transfer_characteristics: 1,
        matrix_coefficients: 1,
        color_range: 0,
        chroma_sample_position: 1,
        mastering_display: None,
        content_light: None,
        mastering: None,
        av1_mastering: None,
        content_light_level: None,
        is_10b: true,
        dar: None,
        y_linesz: 0,
    }
}

fn p3() -> Mastering {
    Mastering {
        gx: 13250,
        gy: 34500,
        bx: 7500,
        by: 3000,
        rx: 34000,
        ry: 16000,
        wx: 15635,
        wy: 16450,
        lmax: 10_000_000,
        lmin: 5,
    }
}

fn cfg<'a>(inf: &'a VidInf, crf: Option<&'a Crf>) -> EncConfig<'a> {
    EncConfig {
        inf,
        template: None,
        params: "--preset slow",
        crf,
        out: "/w/encode/0003.265",
        chnk_idx: 3,
        width: 1920,
        height: 800,
        frames: 48,
    }
}

fn value_of(args: &[String], name: &str) -> Option<String> {
    args.iter().position(|a| a == name).map(|i| args[i + 1].clone())
}

#[test]
fn encoders_by_name() {
    let all = Build { avm: true, ..build() };
    assert_eq!(Encoder::from_str("SVT-AV1", all), Some(Encoder::SvtAv1));
    assert_eq!(Encoder::from_str("Avm", all), Some(Encoder::Avm));
    assert_eq!(Encoder::from_str("vvEnc", all), Some(Encoder::Vvenc));
    assert_eq!(Encoder::from_str("X265", all), Some(Encoder::X265));
    assert_eq!(Encoder::from_str("x264", all), Some(Encoder::X264));
    assert_eq!(Encoder::from_str("av1", all), None);
    assert_eq!(Encoder::from_lowercase("X264", all), None);
    assert_eq!(Encoder::default(), Encoder::SvtAv1);
}

#[test]
fn a_build_without_avm_does_not_know_it() {
    assert_eq!(Encoder::from_str("avm", build()), None);
    assert_eq!(Encoder::from_lowercase("avm", build()), None);
    assert_eq!(Encoder::from_str("X265", build()), Some(Encoder::X265));
}

#[test]
fn what_is_known_of_each_encoder() {
    assert_eq!(Encoder::SvtAv1.extension(), "obu");
    assert_eq!(Encoder::Vvenc.extension(), "266");
    assert_eq!(Encoder::X264.codec_id(), "V_MPEG4/ISO/AVC".as_bytes());
    assert_eq!(Encoder::Avm.codec_name(), "Alliance for Open Media AV2 Video codec".as_bytes());
    assert!(Encoder::Avm.integer_qp() && Encoder::Vvenc.integer_qp());
    assert!(!Encoder::SvtAv1.integer_qp() && !Encoder::X265.integer_qp());
}

#[test]
fn matroska_identifiers_differ() {
    let all = [Encoder::SvtAv1, Encoder::Avm, Encoder::Vvenc, Encoder::X265, Encoder::X264];
    for a in all {
        assert_eq!(a.extension().len(), 3);
        for b in all {
            assert_eq!(a.codec_id() == b.codec_id(), a == b);
        }
    }
}

#[test]
fn versions_of_libraries_and_programs() {
    let v = Versions { svt: "3.1".to_string(), avm: "1".to_string(), vvenc: "1.14".to_string() };
    assert_eq!(Encoder::SvtAv1.version(build(), &v, None), "SVT-AV1 v3.1");
    let linked = Build { vvenc: true, ..build() };
    assert_eq!(Encoder::Vvenc.version(linked, &v, None), "vvenc v1.14");
    assert!(Encoder::Vvenc.version_query(linked).is_none());
    assert_eq!(Encoder::Vvenc.version_query(build()).unwrap().prog, "vvencFFapp");
    let out = ProgramOutput {
        stdout: Vec::new(),
        stderr: "x265 [info]: HEVC encoder version 4.1+1\nbuild".as_bytes().to_vec(),
    };
    assert_eq!(Encoder::X265.version(build(), &v, Some(&out)), "x265 4.1+1");
    assert_eq!(Encoder::X265.version(build(), &v, None), "x265");
    let out = ProgramOutput { stdout: "\n  x264 0.164  \n".as_bytes().to_vec(), stderr: Vec::new() };
    assert_eq!(Encoder::X264.version(build(), &v, Some(&out)), "x264 0.164");
}

#[test]
fn bytes_that_are_not_utf8_are_replaced() {
    let out = ProgramOutput { stdout: vec![b'v', 0xff, b'1'], stderr: Vec::new() };
    assert_eq!(encoder::run_version(Some(&out), "x264", None), "v\u{fffd}1");
}

#[test]
fn version_without_its_marker() {
    assert_eq!(encoder::version_in("nothing here", "x265", Some("version ")), "x265");
    assert_eq!(encoder::version_in("version ", "x265", Some("version ")), "x265");
    assert_eq!(encoder::version_in(" \n ", "x264", None), "x264");
}

#[test]
fn which_encoders_run_inside() {
    assert!(build().is_lib_enc(Encoder::SvtAv1));
    assert!(!build().is_lib_enc(Encoder::Vvenc));
    assert!(Build { vvenc: true, ..build() }.is_lib_enc(Encoder::Vvenc));
    assert!(!build().is_lib_enc(Encoder::X264));
}

#[test]
fn names_of_colours() {
    assert_eq!(color::h26x_color_prims_str(9), "bt2020");
    assert_eq!(color::h26x_color_prims_str(2), "unknown");
    assert_eq!(color::h26x_trans_char_str(18), "arib-std-b67");
    assert_eq!(color::h26x_matrix_coef_str(0), "gbr");
    assert_eq!(color::h26x_matrix_coef_str(-1), "unknown");
}

#[test]
fn mastering_displays() {
    assert_eq!(color::x265_color_volume(&p3()), Some("P3D65x1000n0005"));
    assert_eq!(
        color::x265_color_volume(&Mastering { lmax: 40_000_000, lmin: 50, ..p3() }),
        Some("P3D65x4000n005")
    );
    assert_eq!(color::x265_color_volume(&Mastering { lmin: 6, ..p3() }), None);
    assert_eq!(
        color::h26x_mastering(&p3(), true),
        "G(13250,34500)B(7500,3000)R(34000,16000)WP(15635,16450)L(10000000,5)"
    );
    assert_eq!(
        color::h26x_mastering(&p3(), false),
        "13250,34500,7500,3000,34000,16000,15635,16450,10000000,5"
    );
}

#[test]
fn descriptions_of_mastering_displays() {
    let t = video::mastering_texts(
        "G(0.265,0.69)B(0.15,0.06)R(0.68,0.32)WP(0.3127,0.329)L(1000,0.0005)",
    )
    .unwrap();
    assert_eq!(t.g, ("0.265".to_string(), "0.69".to_string()));
    assert_eq!(t.wp, ("0.3127".to_string(), "0.329".to_string()));
    assert_eq!(t.l, ("1000".to_string(), "0.0005".to_string()));
    assert!(video::mastering_texts("G(0.265,0.69)B(0.15,0.06)").is_none());
    assert!(video::pair_text("G(1)", "G(").is_none());
    assert!(video::pair_text("G(1,2", "G(").is_none());
}

#[test]
fn shapes_of_pixels() {
    assert_eq!(video::gcd(1920, 1080), 120);
    assert_eq!(video::gcd(0, 0), 0);
    assert_eq!(video::h26x_sar(&inf()), (1, 1));
    let v = VidInf { width: 720, height: 576, dar: Some((16, 9)), ..inf() };
    assert_eq!(video::h26x_sar(&v), (64, 45));
    let (n, d) = video::h26x_sar(&v);
    assert_eq!(n * 9 * 720, d * 16 * 576);
    assert_eq!(video::gcd(n, d), 1);
}

#[test]
fn command_of_x265() {
    let v = inf();
    let crf = Crf { two_places: "23.50".to_string(), whole: 23 };
    let c = command::make_x265_cmd(build(), &cfg(&v, Some(&crf)));
    assert_eq!(c.prog, "x265");
    assert!(c.pipe_stdin && !c.pipe_stdout && c.pipe_stderr);
    assert_eq!(&c.args[..2], ["--log-level", "error"]);
    assert_eq!(value_of(&c.args, "--fps"), Some("24000/1001".to_string()));
    assert_eq!(value_of(&c.args, "--input-res"), Some("1920x800".to_string()));
    assert_eq!(value_of(&c.args, "--frames"), Some("48".to_string()));
    assert_eq!(value_of(&c.args, "--sar"), Some("1:1".to_string()));
    assert_eq!(value_of(&c.args, "--crf"), Some("23.50".to_string()));
    assert_eq!(value_of(&c.args, "--video-signal-type-preset"), Some("BT709_YCC".to_string()));
    assert_eq!(value_of(&c.args, "--asm"), None);
    let n = c.args.len();
    assert_eq!(
        &c.args[n - 6..],
        ["--preset", "slow", "--output", "/w/encode/0003.265", "--input", "-"]
    );
}

#[test]
fn command_of_x265_for_high_dynamic_range() {
    let v = VidInf {
        color_primaries: 9,
        transfer_characteristics: 16,
        matrix_coefficients: 9,
        mastering_display: Some(p3()),
        content_light: Some("1000,400".to_string()),
        ..inf()
    };
    let c = command::make_x265_cmd(Build { avx512: true, ..build() }, &cfg(&v, None));
    assert_eq!(
        value_of(&c.args, "--video-signal-type-preset"),
        Some("BT2100_PQ_YCC:P3D65x1000n0005".to_string())
    );
    assert_eq!(value_of(&c.args, "--max-cll"), Some("1000,400".to_string()));
    assert_eq!(value_of(&c.args, "--asm"), Some("avx512".to_string()));
    assert_eq!(value_of(&c.args, "--crf"), None);
    let odd = VidInf { color_range: 1, ..v };
    let c = command::make_x265_cmd(build(), &cfg(&odd, None));
    assert_eq!(value_of(&c.args, "--video-signal-type-preset"), None);
    assert_eq!(value_of(&c.args, "--colorprim"), Some("bt2020".to_string()));
    assert_eq!(value_of(&c.args, "--range"), Some("full".to_string()));
    assert_eq!(value_of(&c.args, "--chromaloc"), Some("0".to_string()));
}

#[test]
fn command_of_x264() {
    let v = VidInf { color_primaries: 2, chroma_sample_position: 0, ..inf() };
    let c = command::make_x264_cmd(build(), &cfg(&v, None));
    assert_eq!(c.prog, "x264");
    assert_eq!(value_of(&c.args, "--colorprim"), Some("undef".to_string()));
    assert_eq!(value_of(&c.args, "--input-range"), Some("tv".to_string()));
    assert_eq!(value_of(&c.args, "--chromaloc"), None);
    assert_eq!(c.args[c.args.len() - 1], "-");
}

#[test]
fn command_of_vvenc() {
    let v = VidInf { color_primaries: 9, transfer_characteristics: 18, ..inf() };
    let crf = Crf { two_places: "-3.90".to_string(), whole: -3 };
    let c = command::make_vvenc_cmd(&cfg(&v, Some(&crf)));
    assert_eq!(c.prog, "vvencFFapp");
    assert!(c.pipe_stdout);
    assert_eq!(value_of(&c.args, "--QP"), Some("-3".to_string()));
    assert_eq!(value_of(&c.args, "--Hdr"), Some("hlg_2020".to_string()));
    assert_eq!(value_of(&c.args, "--Sdr"), None);
    let v = VidInf { color_primaries: 5, ..inf() };
    let c = command::make_vvenc_cmd(&cfg(&v, None));
    assert_eq!(value_of(&c.args, "--Sdr"), Some("sdr_470bg".to_string()));
    assert_eq!(value_of(&c.args, "-b"), Some("/w/encode/0003.265".to_string()));
}

#[test]
fn zones_come_last() {
    let v = inf();
    let e = cfg(&v, None);
    let plain = command::make_enc_cmd(Encoder::X264, build(), &e, None);
    let zoned = command::make_enc_cmd(Encoder::X264, build(), &e, Some(" --crf  12 "));
    assert_eq!(&zoned.args[..plain.args.len()], &plain.args[..]);
    assert_eq!(&zoned.args[plain.args.len()..], ["--crf", "12"]);
    assert!(plain.args.contains(&"/w/encode/0003.265".to_string()));
}

#[test]
fn failures_of_programs() {
    assert_eq!(command::chunk_failure(7), "encode failed: chunk 0007");
    assert_eq!(command::probe_failure("/w/split/x"), "probe encode failed: /w/split/x");
}
