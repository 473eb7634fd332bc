use xav::frames::{self, Drained, Feed, Packet};
use xav::svt::{self, ChromaPoints, ContentLightLevel, MasteringDisplayInfo, Param, SvtConf, SvtLimits};
use xav::video::{Av1Mastering, Mastering, Point16, VidInf};
use xav::vvenc::{self, DrainStep, VvencAccessUnit, VvencConfig};

fn pairs(v: &[Param]) -> Vec<(String, String)> {
    v.iter().map(|p| (p.name.clone(), p.value.clone())).collect()
}

fn pair(a: &str, b: &str) -> (String, String) {
    (a.to_string(), b.to_string())
}

fn point() -> ChromaPoints {
    ChromaPoints { x: [9, 9], y: [9, 9] }
}

fn conf() -> SvtConf {
    SvtConf {
        intra_period_length: 5,
        source_width: 1,
        source_height: 1,
        scene_change_detection: 1,
        screen_content_mode: 1,
        encoder_bit_depth: 8,
        encoder_color_format: 0,
        profile: 1,
        rate_control_mode: 1,
        frame_rate_numerator: 1,
        frame_rate_denominator: 1,
        color_primaries: 0,
        transfer_characteristics: 0,
        matrix_coefficients: 0,
        color_range: 0,
        chroma_sample_position: 0,
        mastering_display: MasteringDisplayInfo {
            r: point(),
            g: point(),
            b: point(),
            white_point: point(),
            max_luma: [9, 9, 9, 9],
            min_luma: [9, 9, 9, 9],
        },
        content_light_level: ContentLightLevel { max_cll: [9, 9], max_fall: [9, 9] },
        qp: 35,
        aq_mode: 1,
        extended_crf_qindex_offset: 77,
    }
}

fn inf() -> VidInf {
    VidInf {
        width: 1920,
        height: 1080,
        fps_num: 30000,
        fps_den: 1001,
        frames: 240,
        color_primaries: 9,
        transfer_characteristics: 16,
        matrix_coefficients: 9,
        color_range: 0,
        chroma_sample_position: 2,
        mastering_display: None,
        content_light: None,
        mastering: None,
        av1_mastering: None,
        content_light_level: None,
        is_10b: true,
        dar: None,
        y_linesz: 0,
    }
}

fn vvenc_conf() -> VvencConfig {
    VvencConfig {
        m_SourceWidth: 0,
        m_SourceHeight: 0,
        m_FrameRate: 0,
        m_FrameScale: 0,
        m_TicksPerSecond: 0,
        m_framesToBeEncoded: 3,
        m_inputBitDepth: [8, 8],
        m_numThreads: 0,
        m_QP: 32,
        m_verbosity: 1,
        m_profile: 0,
        m_levelTier: 1,
        m_level: 1,
        m_IntraPeriod: 0,
        m_IntraPeriodSec: 1,
        m_DecodingRefreshType: 0,
        m_internalBitDepth: [8, 8],
        m_HdrMode: 0,
        m_internChromaFormat: 0,
        m_outputBitDepth: [8, 8],
        m_MSBExtendedBitDepth: [8, 8],
        m_vuiParametersPresent: 0,
        m_colourDescriptionPresent: false,
        m_colourPrimaries: 0,
        m_transferCharacteristics: 0,
        m_matrixCoefficients: 0,
        m_chromaLocInfoPresent: 0,
        m_chromaSampleLocType: 4,
        m_videoFullRangeFlag: false,
        m_masteringDisplay: [1; 10],
        m_contentLightLevel: [1; 2],
        m_picReordering: false,
        m_poc0idr: false,
    }
}

#[test]
fn svt_settings_take_the_next_word() {
    let p = svt::parse_svt_params("--crf 30 stray --preset --tune x --last");
    assert_eq!(pairs(&p), [pair("crf", "30"), pair("preset", "--tune")]);
    assert!(svt::parse_svt_params("").is_empty());
}

#[test]
fn templates_of_zones_extend_the_base() {
    let t = svt::build_svt_templates("--crf 30", &vec!["--crf 20".to_string(), "".to_string()]);
    assert_eq!(t.len(), 3);
    assert_eq!(pairs(&t[0]), [pair("crf", "30")]);
    assert_eq!(pairs(&t[1]), [pair("crf", "30"), pair("crf", "20")]);
    assert_eq!(pairs(&t[2]), [pair("crf", "30")]);
}

#[test]
fn svt_settings_of_a_zone_are_one_text() {
    let zone = "--crf 20 --tune 0".to_string();
    for own in ["--crf 30 stray --preset 4", "", "stray"] {
        let t = svt::build_svt_templates(own, &vec![zone.clone()]);
        assert_eq!(pairs(&t[1]), pairs(&svt::parse_svt_params(&format!("{own} {zone}"))));
    }
    let t = svt::build_svt_templates("--preset 4 --last", &vec![zone.clone()]);
    assert_eq!(pairs(&t[1]), [pair("preset", "4"), pair("crf", "20"), pair("tune", "0")]);
    let at_once = svt::parse_svt_params("--preset 4 --last --crf 20 --tune 0");
    assert_eq!(pairs(&at_once), [pair("preset", "4"), pair("last", "--crf"), pair("tune", "0")]);
}

#[test]
fn svt_base_settings() {
    let mut c = conf();
    let p = svt::set_svt_base(&mut c, &inf(), "--preset 4", 1280, 720);
    assert_eq!(pairs(&p), [pair("preset", "4")]);
    assert_eq!((c.source_width, c.source_height), (1280, 720));
    assert_eq!(c.intra_period_length, -1);
    assert_eq!((c.frame_rate_numerator, c.frame_rate_denominator), (30000, 1001));
    assert_eq!(c.color_primaries, 9);
    assert_eq!((c.qp, c.aq_mode, c.extended_crf_qindex_offset), (35, 1, 77));
    assert_eq!(c.content_light_level.max_cll, [9, 9]);
    let p = Point16 { x: 0x1234, y: 0xffff };
    let v = VidInf {
        av1_mastering: Some(Av1Mastering { r: p, g: p, b: p, wp: p, max_luma: 0x01020304, min_luma: 1 }),
        content_light_level: Some((1000, 400)),
        ..inf()
    };
    svt::set_svt_base(&mut c, &v, "", 1280, 720);
    assert_eq!(c.mastering_display.r.x, 0x1234u16.to_be_bytes());
    assert_eq!(c.mastering_display.white_point.y, [0xff, 0xff]);
    assert_eq!(c.mastering_display.max_luma, [1, 2, 3, 4]);
    assert_eq!(c.content_light_level.max_cll, 1000u16.to_be_bytes());
    assert_eq!(c.content_light_level.max_fall, 400u16.to_be_bytes());
}

#[test]
fn svt_quality_in_quarter_steps() {
    let l = SvtLimits { max_qp: 63, crf_mode: 0 };
    for (h, qp, off) in [(2350u64, 23u32, 2u8), (2375, 23, 3), (2399, 23, 3), (0, 0, 0), (7000, 63, 28)] {
        let mut c = conf();
        svt::set_svt_crf(&mut c, h, l);
        assert_eq!((c.qp, c.extended_crf_qindex_offset, c.aq_mode), (qp, off, 2));
        assert_eq!(c.rate_control_mode, 0);
        assert_eq!(c.source_width, 1);
        if h / 100 <= 63 {
            assert_eq!(4 * u64::from(c.qp) + u64::from(c.extended_crf_qindex_offset), h / 25);
        }
    }
    let mut c = conf();
    svt::set_svt_crf(&mut c, u64::MAX, l);
    assert_eq!(c.extended_crf_qindex_offset, (u32::MAX - 252) as u8);
}

#[test]
fn names_of_vvenc_presets() {
    assert!(vvenc::val_preset("Slower"));
    assert!(vvenc::val_preset("MEDIUM_LOWDECENERGY"));
    assert!(!vvenc::val_preset("slowest"));
    assert!(!vvenc::val_preset(""));
}

#[test]
fn modes_of_the_dynamic_range() {
    assert_eq!(vvenc::hdr_mode(9, 16), 3);
    assert_eq!(vvenc::hdr_mode(1, 16), 1);
    assert_eq!(vvenc::hdr_mode(9, 18), 4);
    assert_eq!(vvenc::hdr_mode(1, 18), 2);
    assert_eq!(vvenc::hdr_mode(9, 1), 7);
    assert_eq!(vvenc::hdr_mode(5, 1), 8);
    assert_eq!(vvenc::hdr_mode(1, 1), 6);
}

#[test]
fn vvenc_base_settings() {
    let mut c = vvenc_conf();
    let v = VidInf {
        mastering: Some(Mastering {
            gx: 1,
            gy: 2,
            bx: 3,
            by: 4,
            rx: 5,
            ry: 6,
            wx: 7,
            wy: 8,
            lmax: 9,
            lmin: 10,
        }),
        content_light_level: Some((1000, 400)),
        ..inf()
    };
    vvenc::set_vvenc_base(&mut c, &v, 1280, 720);
    assert_eq!((c.m_SourceWidth, c.m_SourceHeight), (1280, 720));
    assert_eq!(c.m_TicksPerSecond, 30000);
    assert_eq!(c.m_inputBitDepth, [10, 10]);
    assert_eq!(c.m_HdrMode, 3);
    assert_eq!((c.m_chromaLocInfoPresent, c.m_chromaSampleLocType), (1, 1));
    assert_eq!(c.m_masteringDisplay, [1, 2, 3, 4, 5, 6, 7, 8, 9, 10]);
    assert_eq!(c.m_contentLightLevel, [1000, 400]);
    assert_eq!((c.m_QP, c.m_framesToBeEncoded), (32, 3));
    let mut c = vvenc_conf();
    let v = VidInf { fps_num: 50, fps_den: 2, chroma_sample_position: 7, ..inf() };
    vvenc::set_vvenc_base(&mut c, &v, 1280, 720);
    assert_eq!(c.m_TicksPerSecond, 25);
    assert_eq!(c.m_TicksPerSecond * 2 % 50, 0);
    assert_eq!(c.m_chromaSampleLocType, 4);
    assert_eq!(c.m_masteringDisplay, [1; 10]);
}

#[test]
fn vvenc_settings_per_chunk() {
    let mut c = vvenc_conf();
    vvenc::init_vvenc(&mut c, 48, None);
    assert_eq!((c.m_framesToBeEncoded, c.m_QP), (48, 32));
    vvenc::init_vvenc(&mut c, 49, Some(20));
    assert_eq!((c.m_framesToBeEncoded, c.m_QP), (49, 20));
}

#[test]
fn vvenc_layout_is_cross_checked() {
    let p = vvenc::layout_params(1280, 720);
    assert_eq!(pairs(&p), [pair("sourcewidth", "1280"), pair("sourceheight", "720")]);
    let mut c = vvenc_conf();
    vvenc::set_vvenc_base(&mut c, &inf(), 1280, 720);
    let threads = c.m_numThreads;
    vvenc::unset_size(&mut c, 1280, 720);
    assert_eq!(c.m_numThreads, threads);
    assert!(vvenc::layout_error(&c, 1280, 720).unwrap().contains("layout mismatch"));
    c.m_SourceWidth = 1280;
    assert!(vvenc::layout_error(&c, 1280, 720).is_some());
    c.m_SourceHeight = 720;
    assert_eq!(vvenc::layout_error(&c, 1280, 720), None);
    c.m_SourceWidth = 0;
    vvenc::unset_size(&mut c, 0, 720);
    assert!(c.m_SourceWidth != 0 && c.m_SourceHeight != 720);
}

#[test]
fn vvenc_settings_are_read_up_to_a_mistake() {
    let s = vvenc::vvenc_split("--QP=30 --Threads 4 --a=b=c");
    assert_eq!(pairs(&s.params), [pair("QP", "30"), pair("Threads", "4"), pair("a", "b=c")]);
    assert_eq!(s.error, None);
    let s = vvenc::vvenc_split("--QP 30 stray --x 1");
    assert_eq!(pairs(&s.params), [pair("QP", "30")]);
    assert_eq!(s.error, Some("vvenc: expected --option, got stray".to_string()));
    let s = vvenc::vvenc_split("--QP --x 1");
    assert_eq!(s.error, Some("vvenc: --QP needs a value".to_string()));
    let s = vvenc::vvenc_split("--QP");
    assert_eq!(s.error, Some("vvenc: --QP needs a value".to_string()));
}

#[test]
fn each_zone_has_its_vvenc_settings() {
    let zones = vec!["--QP 20".to_string(), "oops".to_string()];
    let t = vvenc::build_vvenc_templates("--Threads 4", &zones);
    assert_eq!(t.len(), 3);
    assert_eq!(pairs(&t[0].params), [pair("Threads", "4")]);
    assert_eq!(pairs(&t[1].params), [pair("Threads", "4"), pair("QP", "20")]);
    assert_eq!(pairs(&t[2].params), [pair("Threads", "4")]);
    assert_eq!(t[2].error, Some("vvenc: expected --option, got oops".to_string()));
    let t = vvenc::build_vvenc_templates("--a 1 oops --b 2", &zones);
    for s in &t {
        assert_eq!(pairs(&s.params), [pair("a", "1")]);
        assert_eq!(s.error, Some("vvenc: expected --option, got oops".to_string()));
    }
}

#[test]
fn each_zone_has_its_avm_settings() {
    let zones = vec!["--qp=20".to_string(), "--b=1".to_string()];
    let t = frames::build_avm_templates("--qp=30 --a=1", &zones);
    assert_eq!(t, [vec!["--qp=30 --a=1"], vec!["--qp=30 --a=1", "--qp=20"], vec!["--qp=30 --a=1", "--b=1"]]);
    assert_eq!(frames::build_avm_templates("", &vec![]), [vec![""]]);
}

#[test]
fn vvenc_messages() {
    assert_eq!(vvenc::param_text_error("a", "b"), None);
    assert!(vvenc::param_text_error("a\0", "b").is_some());
    assert_eq!(vvenc::set_param("a", "b", 0), None);
    assert_eq!(vvenc::set_param("a", "b", 1), None);
    assert_eq!(vvenc::set_param("a", "b", -2), Some("vvenc: rejected --a b".to_string()));
    assert_eq!(vvenc::err_msg(None, None), "vvenc: unknown");
    assert_eq!(vvenc::err_msg(Some("bad".as_bytes()), None), "vvenc: bad");
    assert_eq!(vvenc::err_msg(Some(&[]), Some("by number".as_bytes())), "vvenc: by number");
    assert_eq!(vvenc::err_msg(Some(&[0xff]), Some("by number".as_bytes())), "vvenc: unknown");
}

#[test]
fn vvenc_asks_for_larger_buffers() {
    assert!(matches!(vvenc::encode_drain(0, 0), DrainStep::Done));
    assert!(matches!(vvenc::encode_drain(-1, 10), DrainStep::Fail));
    assert!(matches!(vvenc::encode_drain(-5, 0), DrainStep::NoSize));
    assert!(matches!(vvenc::encode_drain(-5, 10), DrainStep::Grow(10)));
}

#[test]
fn access_units_are_counted() {
    let mut d = Drained::new();
    let au = VvencAccessUnit { payload: vec![1, 2, 3], payload_size: 3, payload_used_size: 2 };
    assert_eq!(vvenc::drain_vvenc_au(&au, &mut d), Some(vec![1, 2]));
    assert_eq!((d.done, d.sz), (1, 2));
    let au = VvencAccessUnit { payload_used_size: 0, ..au };
    assert_eq!(vvenc::drain_vvenc_au(&au, &mut d), None);
    assert_eq!((d.done, d.sz), (1, 2));
}

#[test]
fn planes_of_vvenc() {
    let b = vvenc::vvenc_img(100, 7, 5, 9);
    assert_eq!(b.sequence_number, 9);
    assert_eq!(b.planes[0].ptr, 100);
    assert_eq!(b.planes[1].ptr, 100 + 70);
    assert_eq!(b.planes[2].ptr, 100 + 70 + 12);
    assert_eq!((b.planes[2].width, b.planes[2].height, b.planes[2].stride), (3, 2, 3));
}

#[test]
fn layouts_of_frames() {
    let l = frames::frame_layout(1920, 1080);
    assert_eq!((l.y_sz, l.uv_sz), (4147200, 1036800));
    assert_eq!((l.y_stride, l.uv_stride), (1920, 960));
    let p = l.planes_at(10);
    assert_eq!((p.y, p.u, p.v), (10, 4147210, 5184010));
    assert_eq!(p.v + l.uv_sz, 10 + 6220800);
    assert_eq!(l.filled_len(), 6220800);
}

#[test]
fn frames_are_sent_in_order() {
    let mut f = Feed::new(3, 100);
    let mut seen = Vec::new();
    while let Some(x) = f.next_frame() {
        seen.push((x.index, x.offset));
    }
    assert_eq!(seen, [(0, 0), (1, 100), (2, 200)]);
    assert!(f.next_frame().is_none());
    let l = frames::frame_layout(4, 4);
    let mut f = Feed::new(2, 48);
    f.next_direct(l);
    let (x, p) = f.next_direct(l).unwrap();
    assert_eq!((x.index, p.y, p.u, p.v), (1, 48, 80, 88));
    assert_eq!(p.v + l.uv_sz, 2 * 48);
}

#[test]
fn failures_of_libraries() {
    assert_eq!(frames::send_error("svt_av1_enc_send_picture", 4, 0, 0), None);
    assert_eq!(
        frames::send_error("svt_av1_enc_send_picture", 4, -3, 0),
        Some("svt_av1_enc_send_picture failed at frame 4: -3".to_string())
    );
    assert_eq!(
        frames::call_error("vvenc_encoder_close", -1, 0),
        Some("vvenc_encoder_close failed: -1".to_string())
    );
}

#[test]
fn packets_are_counted() {
    let mut d = Drained::new();
    d.packet(Packet { is_frame: false, len: 7 });
    assert_eq!((d.done, d.sz), (1, 0));
    d.drain_avm_packets(&vec![
        Packet { is_frame: true, len: 10 },
        Packet { is_frame: false, len: 99 },
        Packet { is_frame: true, len: 5 },
    ]);
    assert_eq!((d.done, d.sz), (4, 15));
    assert!(d.finished(4) && !d.finished(1));
}

#[test]
fn avm_images_and_templates() {
    let i = frames::avm_img(1920, 1080, 7);
    assert_eq!((i.fmt, i.w, i.d_h, i.bit_depth, i.bps), (7, 1920, 1080, 16, 24));
    assert_eq!((i.y_stride, i.u_stride, i.v_stride), (3840, 1920, 1920));
    let t = frames::assemble_avm_tmpl(&[1, 2], &[3], &[4, 5, 6]);
    assert_eq!(t, [1, 2, 3, 4, 5, 6]);
    let p = frames::split_avm_tmpl(&t, 2, 1);
    assert_eq!((p.conf, p.hdr, p.extra), (vec![1, 2], vec![3], vec![4, 5, 6]));
}
