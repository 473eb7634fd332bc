//! The settings of the VVenC library, and what it hands out.
use vstd::prelude::*;
use vstd::utf8::{decode_utf8, valid_utf8};

use crate::frames::{chroma_bytes, frame_bytes, frame_layout, luma_bytes, Drained};
use crate::num::{decimal, signed, signed_text};
use crate::svt::{big_endian, law_svt_is_told_the_colors, param_texts, Param, SvtConf};
use crate::text::{
    after_prefix, ascii_lowered, eq_ignore_ascii_case, from_utf8, gives, is_free_of,
    law_first_separator_parts, law_prefix_comes_off, lemma_gives_here, lemma_gives_more, parted, split_once, starts_with, strip_prefix, texts, to_chars, words,
    words_of,
};
use crate::video::{common, gcd, gcd_of, VidInf};

verus! {

/// A call of the library succeeded.
pub const VVENC_OK: i32 = 0;

/// The buffer for an access unit is too small.
pub const VVENC_NOT_ENOUGH_MEM: i32 = -5;

/// A setting was taken, with a remark.
pub const VVENC_PARAM_INFO: i32 = 1;

/// The library prints nothing.
pub const VVENC_MSG_SILENT: i32 = 0;

/// The profile for ten bits.
pub const VVENC_PROFILE_MAIN_10: i32 = 1;

/// The main tier.
pub const VVENC_TIER_MAIN: i32 = 0;

/// The level is chosen by the library.
pub const VVENC_LEVEL_AUTO: i32 = 0;

/// Chunks start with an IDR picture.
pub const VVENC_DRT_IDR: i32 = 2;

/// Perceptual quantizer.
pub const VVENC_HDR_PQ: i32 = 1;

/// Hybrid log-gamma.
pub const VVENC_HDR_HLG: i32 = 2;

/// Perceptual quantizer with wide primaries.
pub const VVENC_HDR_PQ_BT2020: i32 = 3;

/// Hybrid log-gamma with wide primaries.
pub const VVENC_HDR_HLG_BT2020: i32 = 4;

/// Standard range.
pub const VVENC_SDR_BT709: i32 = 6;

/// Standard range with wide primaries.
pub const VVENC_SDR_BT2020: i32 = 7;

/// Standard range with the primaries of BT.470 B/G.
pub const VVENC_SDR_BT470BG: i32 = 8;

/// Chroma at half the width and height.
pub const VVENC_CHROMA_420: i32 = 1;

/// The bytes that an access unit can hold at first.
pub const VVENC_AU_CAP: usize = 16777216;

/// The names of the presets.
pub open spec fn presets() -> Seq<Seq<char>> {
    seq!["faster"@, "fast"@, "medium"@, "slow"@, "slower"@, "medium_lowDecEnergy"@]
}

/// Whether the text names a preset, whatever the case of its ASCII letters.
pub open spec fn is_preset(p: Seq<char>) -> bool {
    exists|i: int|
        0 <= i < presets().len() && ascii_lowered(#[trigger] presets()[i]) == ascii_lowered(p)
}

/// Whether the text names a preset, whatever the case of its ASCII letters.
pub fn val_preset(p: &str) -> (r: bool)
    ensures
        r == is_preset(p@),
{
    let names = ["faster", "fast", "medium", "slow", "slower", "medium_lowDecEnergy"];
    let mut i: usize = 0;
    assert(names@.map_values(|t: &str| t@) =~= presets());
    while i < 6
        invariant
            i <= 6,
            names@.len() == 6,
            names@.map_values(|t: &str| t@) == presets(),
            forall|k: int| 0 <= k < i ==> ascii_lowered(#[trigger] presets()[k]) != ascii_lowered(p@),
        decreases 6 - i,
    {
        assert(presets()[i as int] == names@[i as int]@);
        if eq_ignore_ascii_case(names[i], p) {
            return true;
        }
        i = i + 1;
    }
    false
}

/// The mode of the dynamic range.
pub open spec fn hdr_mode_of(cp: i8, tc: i8) -> i32 {
    if tc == 16 {
        if cp == 9 {
            VVENC_HDR_PQ_BT2020
        } else {
            VVENC_HDR_PQ
        }
    } else if tc == 18 {
        if cp == 9 {
            VVENC_HDR_HLG_BT2020
        } else {
            VVENC_HDR_HLG
        }
    } else if cp == 9 {
        VVENC_SDR_BT2020
    } else if cp == 5 {
        VVENC_SDR_BT470BG
    } else {
        VVENC_SDR_BT709
    }
}

/// The mode of the dynamic range, by the primaries and the transfer characteristic.
pub fn hdr_mode(cp: i8, tc: i8) -> (r: i32)
    ensures
        r == hdr_mode_of(cp, tc),
{
    let hlg: bool = tc == 18;
    let pq: bool = tc == 16;
    let bt2020: bool = cp == 9;
    if pq {
        if bt2020 {
            VVENC_HDR_PQ_BT2020
        } else {
            VVENC_HDR_PQ
        }
    } else if hlg {
        if bt2020 {
            VVENC_HDR_HLG_BT2020
        } else {
            VVENC_HDR_HLG
        }
    } else if bt2020 {
        VVENC_SDR_BT2020
    } else if cp == 5 {
        VVENC_SDR_BT470BG
    } else {
        VVENC_SDR_BT709
    }
}

/// The settings of the library that a run sets itself, under the library's own names.
#[allow(non_snake_case)]
#[derive(Clone, Copy, Debug)]
pub struct VvencConfig {
    pub m_SourceWidth: i32,
    pub m_SourceHeight: i32,
    pub m_FrameRate: i32,
    pub m_FrameScale: i32,
    pub m_TicksPerSecond: i32,
    pub m_framesToBeEncoded: i32,
    pub m_inputBitDepth: [i32; 2],
    pub m_numThreads: i32,
    pub m_QP: i32,
    pub m_verbosity: i32,
    pub m_profile: i32,
    pub m_levelTier: i32,
    pub m_level: i32,
    pub m_IntraPeriod: i32,
    pub m_IntraPeriodSec: i32,
    pub m_DecodingRefreshType: i32,
    pub m_internalBitDepth: [i32; 2],
    pub m_HdrMode: i32,
    pub m_internChromaFormat: i32,
    pub m_outputBitDepth: [i32; 2],
    pub m_MSBExtendedBitDepth: [i32; 2],
    pub m_vuiParametersPresent: i32,
    pub m_colourDescriptionPresent: bool,
    pub m_colourPrimaries: i32,
    pub m_transferCharacteristics: i32,
    pub m_matrixCoefficients: i32,
    pub m_chromaLocInfoPresent: i8,
    pub m_chromaSampleLocType: i32,
    pub m_videoFullRangeFlag: bool,
    pub m_masteringDisplay: [u32; 10],
    pub m_contentLightLevel: [u32; 2],
    pub m_picReordering: bool,
    pub m_poc0idr: bool,
}

/// Ten bits for luma and for chroma.
pub open spec fn ten_bits(v: [i32; 2]) -> bool {
    v@ == seq![10i32, 10i32]
}

/// The clock of the stream: the frame rate's numerator in lowest terms, at most 27 MHz.
pub open spec fn ticks_of(num: nat, den: nat) -> nat {
    let t = num / common(num, den);
    if t < 27_000_000 {
        t
    } else {
        27_000_000
    }
}

/// What stands in the settings once the run has set what it sets for every chunk.
pub open spec fn is_based(was: VvencConfig, cfg: VvencConfig, inf: &VidInf, w: u32, h: u32) -> bool {
    &&& cfg.m_SourceWidth == w as i32
    &&& cfg.m_SourceHeight == h as i32
    &&& cfg.m_FrameRate == inf.fps_num as i32
    &&& cfg.m_FrameScale == inf.fps_den as i32
    &&& cfg.m_TicksPerSecond == ticks_of(inf.fps_num as nat, inf.fps_den as nat)
    &&& cfg.m_framesToBeEncoded == was.m_framesToBeEncoded
    &&& ten_bits(cfg.m_inputBitDepth)
    &&& ten_bits(cfg.m_internalBitDepth)
    &&& ten_bits(cfg.m_outputBitDepth)
    &&& ten_bits(cfg.m_MSBExtendedBitDepth)
    &&& cfg.m_numThreads == 1
    &&& cfg.m_QP == was.m_QP
    &&& cfg.m_verbosity == VVENC_MSG_SILENT
    &&& cfg.m_profile == VVENC_PROFILE_MAIN_10
    &&& cfg.m_levelTier == VVENC_TIER_MAIN
    &&& cfg.m_level == VVENC_LEVEL_AUTO
    &&& cfg.m_IntraPeriod == -1
    &&& cfg.m_IntraPeriodSec == 0
    &&& cfg.m_DecodingRefreshType == VVENC_DRT_IDR
    &&& cfg.m_poc0idr
    &&& cfg.m_picReordering
    &&& cfg.m_internChromaFormat == VVENC_CHROMA_420
    &&& cfg.m_colourDescriptionPresent
    &&& cfg.m_vuiParametersPresent == 1
    &&& cfg.m_colourPrimaries == inf.color_primaries
    &&& cfg.m_transferCharacteristics == inf.transfer_characteristics
    &&& cfg.m_matrixCoefficients == inf.matrix_coefficients
    &&& cfg.m_videoFullRangeFlag == (inf.color_range == 1)
    &&& cfg.m_HdrMode == hdr_mode_of(inf.color_primaries, inf.transfer_characteristics)
    &&& if 1 <= inf.chroma_sample_position <= 6 {
        cfg.m_chromaLocInfoPresent == 1 && cfg.m_chromaSampleLocType == inf.chroma_sample_position
            - 1
    } else {
        cfg.m_chromaLocInfoPresent == was.m_chromaLocInfoPresent && cfg.m_chromaSampleLocType
            == was.m_chromaSampleLocType
    }
    &&& match inf.mastering {
        Some(m) => cfg.m_masteringDisplay@ == seq![
            m.gx,
            m.gy,
            m.bx,
            m.by,
            m.rx,
            m.ry,
            m.wx,
            m.wy,
            m.lmax,
            m.lmin,
        ],
        None => cfg.m_masteringDisplay == was.m_masteringDisplay,
    }
    &&& match inf.content_light_level {
        Some((c, f)) => cfg.m_contentLightLevel@ == seq![c as u32, f as u32],
        None => cfg.m_contentLightLevel == was.m_contentLightLevel,
    }
}

/// Sets what a run sets for every chunk.
pub fn set_vvenc_base(cfg: &mut VvencConfig, inf: &VidInf, w: u32, h: u32)
    ensures
        is_based(*old(cfg), *final(cfg), inf, w, h),
{
    let g0: u64 = gcd(inf.fps_num as u64, inf.fps_den as u64);
    let g: u64 = if g0 > 1 {
        g0
    } else {
        1
    };
    cfg.m_SourceWidth = w as i32;
    cfg.m_SourceHeight = h as i32;
    cfg.m_FrameRate = inf.fps_num as i32;
    cfg.m_FrameScale = inf.fps_den as i32;
    let ticks: u64 = inf.fps_num as u64 / g;
    cfg.m_TicksPerSecond =
    if ticks < 27_000_000 {
        ticks as i32
    } else {
        27_000_000
    };
    cfg.m_inputBitDepth = [10, 10];
    cfg.m_internalBitDepth = [10, 10];
    cfg.m_outputBitDepth = [10, 10];
    cfg.m_MSBExtendedBitDepth = [10, 10];
    cfg.m_numThreads = 1;
    cfg.m_verbosity = VVENC_MSG_SILENT;
    cfg.m_profile = VVENC_PROFILE_MAIN_10;
    cfg.m_levelTier = VVENC_TIER_MAIN;
    cfg.m_level = VVENC_LEVEL_AUTO;
    cfg.m_IntraPeriod = -1;
    cfg.m_IntraPeriodSec = 0;
    cfg.m_DecodingRefreshType = VVENC_DRT_IDR;
    cfg.m_poc0idr = true;
    cfg.m_picReordering = true;
    cfg.m_internChromaFormat = VVENC_CHROMA_420;
    cfg.m_colourDescriptionPresent = true;
    cfg.m_vuiParametersPresent = 1;
    cfg.m_colourPrimaries = inf.color_primaries as i32;
    cfg.m_transferCharacteristics = inf.transfer_characteristics as i32;
    cfg.m_matrixCoefficients = inf.matrix_coefficients as i32;
    cfg.m_videoFullRangeFlag = inf.color_range == 1;
    cfg.m_HdrMode = hdr_mode(inf.color_primaries, inf.transfer_characteristics);
    let csp: i8 = inf.chroma_sample_position;
    if csp >= 1 && csp <= 6 {
        cfg.m_chromaLocInfoPresent = 1;
        cfg.m_chromaSampleLocType = csp as i32 - 1;
    }
    if let Some(m) = inf.mastering {
        cfg.m_masteringDisplay = [m.gx, m.gy, m.bx, m.by, m.rx, m.ry, m.wx, m.wy, m.lmax, m.lmin];
        assert(cfg.m_masteringDisplay@ =~= seq![
            m.gx,
            m.gy,
            m.bx,
            m.by,
            m.rx,
            m.ry,
            m.wx,
            m.wy,
            m.lmax,
            m.lmin,
        ]);
    }
    if let Some((c, f)) = inf.content_light_level {
        cfg.m_contentLightLevel = [c as u32, f as u32];
        assert(cfg.m_contentLightLevel@ =~= seq![c as u32, f as u32]);
    }
    assert(cfg.m_inputBitDepth@ =~= seq![10i32, 10i32]);
    assert(cfg.m_internalBitDepth@ =~= seq![10i32, 10i32]);
    assert(cfg.m_outputBitDepth@ =~= seq![10i32, 10i32]);
    assert(cfg.m_MSBExtendedBitDepth@ =~= seq![10i32, 10i32]);
}

/// A clock up to its limit counts whole ticks per frame, and none slower does.
pub proof fn law_ticks_divide_frames(num: nat, den: nat, t: nat)
    requires
        num > 0,
        den > 0,
        num / common(num, den) <= 27_000_000,
    ensures
        ticks_of(num, den) > 0,
        (ticks_of(num, den) * den) % num == 0,
        t > 0 && (t * den) % num == 0 ==> ticks_of(num, den) <= t,
{
    crate::video::law_gcd(num, den);
    let g = gcd_of(num, den);
    let (p, q) = (num / g, den / g);
    assert(common(num, den) == g);
    vstd::arithmetic::div_mod::lemma_fundamental_div_mod(num as int, g as int);
    vstd::arithmetic::div_mod::lemma_fundamental_div_mod(den as int, g as int);
    assert(p * den == num * q) by (nonlinear_arith)
        requires
            num == g * p,
            den == g * q,
    ;
    vstd::arithmetic::div_mod::lemma_mod_multiples_basic(q as int, num as int);
    assert(num * q == q * num) by (nonlinear_arith);
    assert(p > 0) by (nonlinear_arith)
        requires
            num == g * p,
            num > 0,
    ;
    if t > 0 && (t * den) % num == 0 {
        crate::video::lemma_least_multiple(num, den, t);
    }
}

/// The settings by which the library is asked to write fields whose place is known, so that a
/// library with other places is found out.
pub fn layout_params(w: u32, h: u32) -> (r: Vec<Param>)
    ensures
        param_texts(r@) == seq![
            ("sourcewidth"@, signed((w as i32) as int)),
            ("sourceheight"@, signed((h as i32) as int)),
        ],
{
    let mut r: Vec<Param> = Vec::new();
    r.push(Param { name: "sourcewidth".to_owned(), value: signed_text((w as i32) as i64) });
    r.push(Param { name: "sourceheight".to_owned(), value: signed_text((h as i32) as i64) });
    assert(param_texts(r@) =~= seq![
        ("sourcewidth"@, signed((w as i32) as int)),
        ("sourceheight"@, signed((h as i32) as int)),
    ]);
    r
}

/// Whether the settings differ from those of before in nothing but the size, and both its numbers
/// are wrong.
pub open spec fn is_unset(was: VvencConfig, cfg: VvencConfig, w: u32, h: u32) -> bool {
    &&& cfg.m_SourceWidth != w as i32
    &&& cfg.m_SourceHeight != h as i32
    &&& cfg == (VvencConfig {
        m_SourceWidth: cfg.m_SourceWidth,
        m_SourceHeight: cfg.m_SourceHeight,
        ..was
    })
}

/// Puts a wrong size into the settings, before the library is asked to write the right one.
pub fn unset_size(cfg: &mut VvencConfig, w: u32, h: u32)
    ensures
        is_unset(*old(cfg), *final(cfg), w, h),
{
    cfg.m_SourceWidth = if w as i32 == 0 { 1 } else { 0 };
    cfg.m_SourceHeight = if h as i32 == 0 { 1 } else { 0 };
}

/// Whether the settings hold another size.
pub open spec fn size_differs(cfg: VvencConfig, w: u32, h: u32) -> bool {
    cfg.m_SourceWidth != w as i32 || cfg.m_SourceHeight != h as i32
}

/// A library that leaves either number of the wrong size where it stands is found out.
pub proof fn law_other_layout_is_found_out(
    based: VvencConfig,
    left: VvencConfig,
    written: VvencConfig,
    w: u32,
    h: u32,
)
    requires
        is_unset(based, left, w, h),
        written.m_SourceWidth == left.m_SourceWidth || written.m_SourceHeight
            == left.m_SourceHeight,
    ensures
        size_differs(written, w, h),
{
}

/// A library that writes the right size where it belongs leaves the settings as they were before
/// the wrong one was put in.
pub proof fn law_same_layout_restores_settings(
    was: VvencConfig,
    based: VvencConfig,
    left: VvencConfig,
    written: VvencConfig,
    inf: &VidInf,
    w: u32,
    h: u32,
)
    requires
        is_based(was, based, inf, w, h),
        is_unset(based, left, w, h),
        written == (VvencConfig { m_SourceWidth: w as i32, m_SourceHeight: h as i32, ..left }),
    ensures
        !size_differs(written, w, h),
        written == based,
{
}

/// What is said when the library wrote those fields elsewhere: when the settings, into which
/// `unset_size` had put a wrong size, do not hold the right one.
pub fn layout_error(cfg: &VvencConfig, w: u32, h: u32) -> (r: Option<&'static str>)
    ensures
        r is Some <==> size_differs(*cfg, w, h),
        r matches Some(s) ==> s@
            == "vvenc: libvvenc config layout mismatch (update src/vvenc.rs for the linked version)"@,
{
    if cfg.m_SourceWidth != w as i32 || cfg.m_SourceHeight != h as i32 {
        Some("vvenc: libvvenc config layout mismatch (update src/vvenc.rs for the linked version)")
    } else {
        None
    }
}

/// The settings for a chunk: with its number of frames, and a quality where there is one.
pub open spec fn for_chunk(conf: VvencConfig, frames: usize, qp: Option<i32>) -> VvencConfig {
    VvencConfig {
        m_framesToBeEncoded: frames as i32,
        m_QP: match qp {
            Some(q) => q,
            None => conf.m_QP,
        },
        ..conf
    }
}

/// Sets what differs from chunk to chunk: the number of frames, and a quality where there is one.
pub fn init_vvenc(conf: &mut VvencConfig, frames: usize, qp: Option<i32>)
    ensures
        *final(conf) == for_chunk(*old(conf), frames, qp),
{
    conf.m_framesToBeEncoded = frames as i32;
    if let Some(q) = qp {
        conf.m_QP = q;
    }
}

/// The outcome of reading settings.
pub struct VvencSplit {
    /// The settings before the first mistake.
    pub params: Vec<Param>,
    /// What is said of the first mistake.
    pub error: Option<String>,
}

/// The outcome of reading settings, as texts.
pub struct SplitText {
    pub params: Seq<(Seq<char>, Seq<char>)>,
    pub error: Option<Seq<char>>,
}

/// A setting in front of an outcome.
pub open spec fn with_param(p: (Seq<char>, Seq<char>), rest: SplitText) -> SplitText {
    SplitText { params: seq![p] + rest.params, error: rest.error }
}

/// An outcome with a mistake and nothing before it.
pub open spec fn mistake(message: Seq<char>) -> SplitText {
    SplitText { params: seq![], error: Some(message) }
}

/// The settings in a list of words: `--name=value`, or `--name` and then a value that does not
/// start with `--`.
pub open spec fn vvenc_params_of(w: Seq<Seq<char>>) -> SplitText
    decreases w.len(),
{
    if w.len() == 0 {
        SplitText { params: seq![], error: None }
    } else {
        match after_prefix(w[0], "--"@) {
            None => mistake("vvenc: expected --option, got "@ + w[0]),
            Some(key) => match parted(key, "="@) {
                Some(nv) => with_param(nv, vvenc_params_of(w.skip(1))),
                None => if w.len() >= 2 && !"--"@.is_prefix_of(w[1]) {
                    with_param((key, w[1]), vvenc_params_of(w.skip(2)))
                } else {
                    mistake("vvenc: --"@ + key + " needs a value"@)
                },
            },
        }
    }
}

/// Whether an outcome has the given texts.
pub open spec fn splits_as(r: VvencSplit, t: SplitText) -> bool {
    &&& param_texts(r.params@) == t.params
    &&& match r.error {
        Some(e) => t.error == Some(e@),
        None => t.error is None,
    }
}

/// Reads the settings in a text, up to the first mistake.
pub fn vvenc_split(params: &str) -> (r: VvencSplit)
    ensures
        splits_as(r, vvenc_params_of(words_of(params@))),
{
    let w = words(params);
    let ghost all = texts(w@);
    let n: usize = w.len();
    let mut list: Vec<Param> = Vec::new();
    let mut i: usize = 0;
    assert(all.skip(0) =~= all);
    assert(param_texts(list@) =~= seq![]);
    assert(vvenc_params_of(all).params =~= param_texts(list@) + vvenc_params_of(all.skip(0)).params);
    while i < n
        invariant
            n == w@.len(),
            i <= n,
            all == texts(w@),
            all == words_of(params@),
            vvenc_params_of(all).params == param_texts(list@) + vvenc_params_of(
                all.skip(i as int),
            ).params,
            vvenc_params_of(all).error == vvenc_params_of(all.skip(i as int)).error,
        decreases n - i,
    {
        let ghost rest = all.skip(i as int);
        let ghost before = param_texts(list@);
        assert(rest[0] == w@[i as int]@);
        let tok = w[i].as_str();
        match strip_prefix(tok, "--") {
            None => {
                let mut e = "vvenc: expected --option, got ".to_owned();
                e.append(tok);
                assert(vvenc_params_of(all).params =~= before);
                return VvencSplit { params: list, error: Some(e) };
            },
            Some(key) => {
                match split_once(key.as_str(), "=") {
                    Some(nv) => {
                        assert(rest.skip(1) =~= all.skip(i + 1));
                        let ghost p = (nv.0@, nv.1@);
                        list.push(Param { name: nv.0, value: nv.1 });
                        assert(param_texts(list@) =~= before.push(p));
                        assert(before + vvenc_params_of(rest).params =~= param_texts(list@)
                            + vvenc_params_of(all.skip(i + 1)).params);
                        i = i + 1;
                    },
                    None => {
                        if i + 1 < n && !starts_with(w[i + 1].as_str(), "--") {
                            assert(rest[1] == w@[i + 1]@);
                            assert(rest.skip(2) =~= all.skip(i + 2));
                            let ghost p = (key@, w@[i + 1]@);
                            list.push(Param { name: key, value: w[i + 1].clone() });
                            assert(param_texts(list@) =~= before.push(p));
                            assert(before + vvenc_params_of(rest).params =~= param_texts(list@)
                                + vvenc_params_of(all.skip(i + 2)).params);
                            i = i + 2;
                        } else {
                            if i + 1 < n {
                                assert(rest[1] == w@[i + 1]@);
                            }
                            let mut e = "vvenc: --".to_owned();
                            e.append(key.as_str());
                            e.append(" needs a value");
                            assert(vvenc_params_of(all).params =~= before);
                            return VvencSplit { params: list, error: Some(e) };
                        }
                    },
                }
            },
        }
    }
    assert(all.skip(i as int) =~= seq![]);
    assert(vvenc_params_of(all).params =~= param_texts(list@));
    VvencSplit { params: list, error: None }
}

/// One outcome behind another: nothing follows a mistake.
pub open spec fn followed(first: SplitText, second: SplitText) -> SplitText {
    if first.error is Some {
        first
    } else {
        SplitText { params: first.params + second.params, error: second.error }
    }
}

/// The settings in a text and then those in another, up to the first mistake.
fn split_both(params: &str, more: &str) -> (r: VvencSplit)
    ensures
        splits_as(
            r,
            followed(vvenc_params_of(words_of(params@)), vvenc_params_of(words_of(more@))),
        ),
{
    let mut first = vvenc_split(params);
    if first.error.is_some() {
        return first;
    }
    let mut second = vvenc_split(more);
    let ghost (a, b) = (first.params@, second.params@);
    first.params.append(&mut second.params);
    assert(param_texts(first.params@) =~= param_texts(a) + param_texts(b));
    VvencSplit { params: first.params, error: second.error }
}

/// What the template of a zone is made with; that of no zone is the first.
pub open spec fn vvenc_template(params: Seq<char>, zones: Seq<Seq<char>>, i: int) -> SplitText {
    if i == 0 {
        vvenc_params_of(words_of(params))
    } else {
        followed(vvenc_params_of(words_of(params)), vvenc_params_of(words_of(zones[i - 1])))
    }
}

/// A zone's template starts with the run's own settings, so that a zone overrides only what it
/// names; a mistake in the run's own settings is one in every template.
pub proof fn law_vvenc_zones_extend_base(params: Seq<char>, zones: Seq<Seq<char>>, i: int)
    requires
        0 <= i <= zones.len(),
    ensures
        vvenc_template(params, zones, 0).params.is_prefix_of(
            vvenc_template(params, zones, i).params,
        ),
        vvenc_template(params, zones, 0).error is Some ==> vvenc_template(params, zones, i)
            == vvenc_template(params, zones, 0),
{
}

/// What each template is made with: the run's own settings for the first, and for each zone those
/// settings with the zone's own behind them.
pub fn build_vvenc_templates(params: &str, zones: &Vec<String>) -> (r: Vec<VvencSplit>)
    ensures
        r@.len() == zones@.len() + 1,
        forall|i: int|
            0 <= i < r@.len() ==> splits_as(
                #[trigger] r@[i],
                vvenc_template(params@, texts(zones@), i),
            ),
{
    let mut r: Vec<VvencSplit> = Vec::new();
    r.push(vvenc_split(params));
    let mut i: usize = 0;
    while i < zones.len()
        invariant
            i <= zones@.len(),
            r@.len() == i + 1,
            forall|k: int|
                0 <= k < r@.len() ==> splits_as(
                    #[trigger] r@[k],
                    vvenc_template(params@, texts(zones@), k),
                ),
        decreases zones@.len() - i,
    {
        assert(texts(zones@)[i as int] == zones@[i as int]@);
        r.push(split_both(params, zones[i].as_str()));
        i = i + 1;
    }
    r
}

/// Whether the text holds the character zero, which ends a text for the library.
pub open spec fn has_nul(s: Seq<char>) -> bool {
    exists|i: int| 0 <= i < s.len() && s[i] == '\0'
}

fn contains_nul(s: &str) -> (r: bool)
    ensures
        r == has_nul(s@),
{
    let v = to_chars(s);
    let mut i: usize = 0;
    while i < v.len()
        invariant
            v@ == s@,
            i <= v@.len(),
            forall|k: int| 0 <= k < i ==> v@[k] != '\0',
        decreases v@.len() - i,
    {
        if v[i] == '\0' {
            assert(s@[i as int] == '\0');
            return true;
        }
        i = i + 1;
    }
    false
}

/// What is said of a setting that the library cannot be given.
pub fn param_text_error(name: &str, value: &str) -> (r: Option<&'static str>)
    ensures
        r is Some <==> has_nul(name@) || has_nul(value@),
        r matches Some(s) ==> s@ == "vvenc: option name/value contains a NUL byte"@,
{
    if contains_nul(name) || contains_nul(value) {
        Some("vvenc: option name/value contains a NUL byte")
    } else {
        None
    }
}

/// What is said of a setting that the library did not take, given what it returned.
pub fn set_param(name: &str, value: &str, ret: i32) -> (r: Option<String>)
    ensures
        r is Some <==> ret != VVENC_OK && ret != VVENC_PARAM_INFO,
        r matches Some(s) ==> s@ == "vvenc: rejected --"@ + name@ + " "@ + value@,
{
    if ret != VVENC_OK && ret != VVENC_PARAM_INFO {
        let mut s = "vvenc: rejected --".to_owned();
        s.append(name);
        s.append(" ");
        s.append(value);
        Some(s)
    } else {
        None
    }
}

/// What the library says of an error, where it says it in UTF-8.
pub open spec fn detail_of(bytes: Option<Seq<u8>>) -> Seq<char> {
    match bytes {
        Some(b) => if valid_utf8(b) {
            decode_utf8(b)
        } else {
            "unknown"@
        },
        None => "unknown"@,
    }
}

/// The bytes, where there are any.
pub open spec fn opt_bytes(b: Option<&[u8]>) -> Option<Seq<u8>> {
    match b {
        Some(s) => Some(s@),
        None => None,
    }
}

/// What is said of an error: the encoder's last message where it has one, else the library's
/// message for the number.
pub fn err_msg(last: Option<&[u8]>, by_number: Option<&[u8]>) -> (r: String)
    ensures
        r@ == "vvenc: "@ + detail_of(
            if last is Some && last->0@.len() > 0 {
                opt_bytes(last)
            } else {
                opt_bytes(by_number)
            },
        ),
{
    let bytes = match last {
        Some(l) => if l.len() > 0 {
            last
        } else {
            by_number
        },
        None => by_number,
    };
    let mut r = "vvenc: ".to_owned();
    match bytes {
        Some(b) => {
            match from_utf8(b) {
                Some(s) => {
                    r.append(s.as_str());
                },
                None => {
                    r.append("unknown");
                },
            }
        },
        None => {
            r.append("unknown");
        },
    }
    r
}

/// What follows a request for the next access unit.
pub enum DrainStep {
    /// It is there.
    Done,
    /// The call failed.
    Fail,
    /// The buffer was too small, but no size was named.
    NoSize,
    /// The buffer was too small: give it this many bytes and ask again.
    Grow(i32),
}

/// What follows a request for the next access unit, given what the library returned and the size
/// that it named.
pub fn encode_drain(ret: i32, payload_used_size: i32) -> (r: DrainStep)
    ensures
        r == if ret == VVENC_OK {
            DrainStep::Done
        } else if ret != VVENC_NOT_ENOUGH_MEM {
            DrainStep::Fail
        } else if payload_used_size <= 0 {
            DrainStep::NoSize
        } else {
            DrainStep::Grow(payload_used_size)
        },
{
    if ret == VVENC_OK {
        return DrainStep::Done;
    }
    if ret != VVENC_NOT_ENOUGH_MEM {
        return DrainStep::Fail;
    }
    if payload_used_size <= 0 {
        return DrainStep::NoSize;
    }
    DrainStep::Grow(payload_used_size)
}

/// What the library hands out for a frame.
pub struct VvencAccessUnit {
    pub payload: Vec<u8>,
    pub payload_size: i32,
    pub payload_used_size: i32,
}

/// Counts an access unit, and gives the bytes that are to be written, where it holds any.
pub fn drain_vvenc_au(au: &VvencAccessUnit, d: &mut Drained) -> (r: Option<Vec<u8>>)
    requires
        au.payload_used_size <= au.payload@.len(),
        old(d).done < usize::MAX,
        old(d).sz + au.payload@.len() <= u64::MAX,
    ensures
        r is Some <==> au.payload_used_size > 0,
        match r {
            Some(b) => {
                &&& b@ == au.payload@.take(au.payload_used_size as int)
                &&& final(d).done == old(d).done + 1
                &&& final(d).sz == old(d).sz + au.payload_used_size
            },
            None => *final(d) == *old(d),
        },
{
    let used: i32 = au.payload_used_size;
    if used <= 0 {
        return None;
    }
    let n: usize = used as usize;
    let mut b: Vec<u8> = Vec::new();
    let mut i: usize = 0;
    while i < n
        invariant
            i <= n <= au.payload@.len(),
            b@ == au.payload@.take(i as int),
        decreases n - i,
    {
        b.push(au.payload[i]);
        i = i + 1;
        assert(b@ =~= au.payload@.take(i as int));
    }
    d.done = d.done + 1;
    d.sz = d.sz + used as u64;
    Some(b)
}

/// One plane of a frame.
#[derive(Clone, Copy, Debug, PartialEq, Eq, Structural)]
pub struct VvencYUVPlane {
    /// The offset of its first byte in the buffer.
    pub ptr: usize,
    pub width: i32,
    pub height: i32,
    pub stride: i32,
}

/// A frame as the library is given it.
#[derive(Clone, Copy, Debug)]
pub struct VvencYUVBuffer {
    pub planes: [VvencYUVPlane; 3],
    pub sequence_number: u64,
    pub cts: i64,
    pub cts_valid: bool,
}

/// The planes of a frame of `w` by `h` samples at `base`.
pub open spec fn vvenc_planes(base: nat, w: u32, h: u32) -> Seq<VvencYUVPlane> {
    let y = luma_bytes(w as nat, h as nat);
    let uv = chroma_bytes(w as nat, h as nat);
    seq![
        VvencYUVPlane {
            ptr: base as usize,
            width: w as i32,
            height: h as i32,
            stride: w as i32,
        },
        VvencYUVPlane {
            ptr: (base + y) as usize,
            width: (w / 2) as i32,
            height: (h / 2) as i32,
            stride: (w / 2) as i32,
        },
        VvencYUVPlane {
            ptr: (base + y + uv) as usize,
            width: (w / 2) as i32,
            height: (h / 2) as i32,
            stride: (w / 2) as i32,
        },
    ]
}

/// A frame of `w` by `h` samples at `base`, with the number of its place in the chunk.
pub fn vvenc_img(base: usize, w: u32, h: u32, index: u64) -> (r: VvencYUVBuffer)
    requires
        base + frame_bytes(w as nat, h as nat) <= usize::MAX,
    ensures
        r.planes@ == vvenc_planes(base as nat, w, h),
        r.sequence_number == index,
        r.cts == 0,
        !r.cts_valid,
{
    let l = frame_layout(w, h);
    let p = l.planes_at(base);
    let planes = [
        VvencYUVPlane { ptr: p.y, width: w as i32, height: h as i32, stride: w as i32 },
        VvencYUVPlane {
            ptr: p.u,
            width: (w / 2) as i32,
            height: (h / 2) as i32,
            stride: (w / 2) as i32,
        },
        VvencYUVPlane {
            ptr: p.v,
            width: (w / 2) as i32,
            height: (h / 2) as i32,
            stride: (w / 2) as i32,
        },
    ];
    assert(planes@ =~= vvenc_planes(base as nat, w, h));
    VvencYUVBuffer { planes, sequence_number: index, cts: 0, cts_valid: false }
}

/// SVT-AV1 and VVenC, set up for the same video, are told the same size, rate, colours and light.
pub proof fn law_libraries_are_told_the_same(
    svt_was: SvtConf,
    svt: SvtConf,
    was: VvencConfig,
    cfg: VvencConfig,
    inf: &VidInf,
    w: u32,
    h: u32,
)
    requires
        crate::svt::is_based(svt_was, svt, inf, w, h),
        is_based(was, cfg, inf, w, h),
        w <= i32::MAX,
        h <= i32::MAX,
        inf.fps_num <= i32::MAX,
        inf.fps_den <= i32::MAX,
    ensures
        cfg.m_SourceWidth == svt.source_width && cfg.m_SourceHeight == svt.source_height,
        cfg.m_FrameRate == svt.frame_rate_numerator && cfg.m_FrameScale
            == svt.frame_rate_denominator,
        cfg.m_colourPrimaries == svt.color_primaries,
        cfg.m_transferCharacteristics == svt.transfer_characteristics,
        cfg.m_matrixCoefficients == svt.matrix_coefficients,
        cfg.m_videoFullRangeFlag <==> svt.color_range == 1,
        cfg.m_colourDescriptionPresent && cfg.m_vuiParametersPresent != 0,
        1 <= svt.chroma_sample_position <= 6 ==> cfg.m_chromaLocInfoPresent != 0
            && cfg.m_chromaSampleLocType == svt.chroma_sample_position - 1,
        cfg.m_internalBitDepth@[0] == svt.encoder_bit_depth && cfg.m_inputBitDepth@[1]
            == svt.encoder_bit_depth,
        cfg.m_internChromaFormat == svt.encoder_color_format,
        cfg.m_IntraPeriod == svt.intra_period_length,
        inf.content_light_level is Some ==> {
            &&& cfg.m_contentLightLevel@[0] == big_endian(svt.content_light_level.max_cll@)
            &&& cfg.m_contentLightLevel@[1] == big_endian(svt.content_light_level.max_fall@)
        },
{
    law_svt_is_told_the_colors(svt_was, svt, inf, w, h);
}

/// The display that VVenC is told is the video's own: green, blue, red and white each as two
/// numbers, then the highest and the lowest light.
pub proof fn law_vvenc_is_told_the_display(
    was: VvencConfig,
    cfg: VvencConfig,
    inf: &VidInf,
    w: u32,
    h: u32,
)
    requires
        is_based(was, cfg, inf, w, h),
    ensures
        inf.mastering matches Some(m) ==> {
            let d = cfg.m_masteringDisplay@;
            &&& (d[0], d[1]) == (m.gx, m.gy)
            &&& (d[2], d[3]) == (m.bx, m.by)
            &&& (d[4], d[5]) == (m.rx, m.ry)
            &&& (d[6], d[7]) == (m.wx, m.wy)
            &&& (d[8], d[9]) == (m.lmax, m.lmin)
        },
        inf.mastering is None ==> cfg.m_masteringDisplay == was.m_masteringDisplay,
        inf.content_light_level is None ==> cfg.m_contentLightLevel == was.m_contentLightLevel,
{
}

/// The planes of a frame lie side by side, each as many bytes long as its rows of two bytes a sample
/// take, and the chroma planes have half the width and height.
pub proof fn law_vvenc_planes_lie_side_by_side(base: nat, w: u32, h: u32)
    requires
        base + frame_bytes(w as nat, h as nat) <= usize::MAX,
        w <= i32::MAX,
        h <= i32::MAX,
    ensures
        ({
            let p = vvenc_planes(base, w, h);
            &&& p.len() == 3
            &&& p[0].ptr == base
            &&& p[1].ptr == p[0].ptr + p[0].stride * p[0].height * 2
            &&& p[2].ptr == p[1].ptr + p[1].stride * p[1].height * 2
            &&& p[2].ptr + p[2].stride * p[2].height * 2 == base + frame_bytes(w as nat, h as nat)
            &&& (p[0].width, p[0].height, p[0].stride) == (w as i32, h as i32, w as i32)
            &&& forall|k: int|
                1 <= k < 3 ==> (#[trigger] p[k]).stride == p[k].width && p[k].width * 2 <= w
                    < p[k].width * 2 + 2 && p[k].height * 2 <= h < p[k].height * 2 + 2
        }),
{
    let (a, b) = (w as nat, h as nat);
    assert(a * b >= 0) by (nonlinear_arith);
    assert((a / 2) * (b / 2) >= 0) by (nonlinear_arith);
    let p = vvenc_planes(base, w, h);
    assert(p[0].stride * p[0].height * 2 == luma_bytes(a, b));
    assert(p[1].stride * p[1].height * 2 == chroma_bytes(a, b));
}


/// Settings that are written as options are read back, in either form, each with its own value and in
/// order, whatever follows them; a word that is no option, and an option without a value, end the
/// reading with a message that names it.
pub proof fn law_vvenc_settings_read_back(
    name: Seq<char>,
    value: Seq<char>,
    word: Seq<char>,
    rest: Seq<Seq<char>>,
)
    requires
        is_free_of(name, '='),
        !"--"@.is_prefix_of(word),
    ensures
        ({
            let next = vvenc_params_of(rest);
            let one = vvenc_params_of(seq!["--"@ + name + "="@ + value] + rest);
            let two = vvenc_params_of(seq!["--"@ + name, word] + rest);
            &&& one.params == seq![(name, value)] + next.params && one.error == next.error
            &&& two.params == seq![(name, word)] + next.params && two.error == next.error
        }),
        ({
            let bad = vvenc_params_of(seq![word] + rest);
            &&& bad.params.len() == 0
            &&& bad.error matches Some(e) && e.skip(e.len() - word.len()) == word
        }),
        rest.len() == 0 || "--"@.is_prefix_of(rest[0]) ==> {
            let bad = vvenc_params_of(seq!["--"@ + name] + rest);
            &&& bad.params.len() == 0
            &&& bad.error == Some("vvenc: --"@ + name + " needs a value"@)
        },
        vvenc_params_of(seq![]).params.len() == 0 && vvenc_params_of(seq![]).error is None,
{
    reveal_strlit("=");
    assert("="@ =~= seq!['=']);
    law_prefix_comes_off("--"@, name);
    law_prefix_comes_off("--"@, word);
    let joined = name.push('=') + value;
    law_prefix_comes_off("--"@, joined);
    assert("--"@ + name + "="@ + value =~= "--"@ + joined);
    law_first_separator_parts(name, '=', value);
    law_first_separator_parts(name, '=', name);
    let one = seq!["--"@ + name + "="@ + value] + rest;
    assert(one[0] == "--"@ + joined);
    assert(one.skip(1) =~= rest);
    let two = seq!["--"@ + name, word] + rest;
    assert(two[0] == "--"@ + name && two[1] == word);
    assert(two.skip(2) =~= rest);
    let bad = seq![word] + rest;
    assert(bad[0] == word);
    let m = "vvenc: expected --option, got "@ + word;
    assert(m.skip(m.len() - word.len()) =~= word);
    let none = seq!["--"@ + name] + rest;
    assert(none[0] == "--"@ + name);
    if rest.len() > 0 {
        assert(none[1] == rest[0]);
    }
}

/// A zone's template has the run's own settings and then the zone's; a mistake in the zone is one in
/// its own template alone.
pub proof fn law_vvenc_templates_follow_zones(params: Seq<char>, zones: Seq<Seq<char>>, i: int)
    requires
        0 <= i < zones.len(),
        vvenc_params_of(words_of(params)).error is None,
    ensures
        ({
            let own = vvenc_params_of(words_of(params));
            let zone = vvenc_params_of(words_of(zones[i]));
            &&& vvenc_template(params, zones, 0).params == own.params
            &&& vvenc_template(params, zones, 0).error is None
            &&& vvenc_template(params, zones, i + 1).params == own.params + zone.params
            &&& vvenc_template(params, zones, i + 1).error == zone.error
        }),
{
}

/// The encoder's last message goes before the library's message for the number; an empty one counts
/// as none.
pub proof fn law_last_message_goes_first(
    last: &[u8],
    by_number: Option<&[u8]>,
    other: Option<&[u8]>,
    a: String,
    b: String,
    none: String,
)
    requires
        call_ensures(err_msg, (Some(last), by_number), a),
        call_ensures(err_msg, (Some(last), other), b),
        call_ensures(err_msg, (None, by_number), none),
    ensures
        last@.len() > 0 ==> a@ == b@,
        last@.len() == 0 ==> a@ == none@,
        last@.len() > 0 && valid_utf8(last@) ==> a@ == "vvenc: "@ + decode_utf8(last@),
        by_number matches Some(m) ==> valid_utf8(m@) ==> none@ == "vvenc: "@ + decode_utf8(m@),
        by_number is None ==> none@ == "vvenc: unknown"@,
{
    reveal_strlit("vvenc: unknown");
    reveal_strlit("vvenc: ");
    reveal_strlit("unknown");
    assert("vvenc: "@ + "unknown"@ =~= "vvenc: unknown"@);
}

/// The library is asked again exactly when it has no room, and with the room that it named; a setting
/// is refused exactly when the library neither takes it nor remarks on it.
pub proof fn law_library_answers(
    ret: i32,
    size: i32,
    name: &str,
    value: &str,
    step: DrainStep,
    refused: Option<String>,
)
    requires
        call_ensures(encode_drain, (ret, size), step),
        call_ensures(set_param, (name, value, ret), refused),
    ensures
        step is Done <==> ret == 0,
        step is Fail <==> ret != 0 && ret != -5,
        step matches DrainStep::Grow(n) ==> n == size && n > 0 && ret == -5,
        step is NoSize ==> size <= 0 && ret == -5,
        refused is None <==> ret == 0 || ret == 1,
        refused matches Some(m) ==> gives(m@, "vvenc: rejected --"@, name@, " "@) && m@.skip(
            m@.len() - value@.len(),
        ) == value@,
        ret == 0 ==> step is Done && refused is None,
{
    if let Some(m) = refused {
        let e = Seq::<char>::empty();
        let x = "vvenc: rejected --"@ + name@ + " "@;
        assert(e + "vvenc: rejected --"@ + name@ + " "@ =~= x);
        lemma_gives_here(e, "vvenc: rejected --"@, name@, " "@);
        lemma_gives_more(x, value@);
        assert(m@.skip(m@.len() - value@.len()) =~= value@);
    }
}

/// The library is asked for the size of the frames, each number under its own name.
pub proof fn law_layout_is_asked_by_size(w: u32, h: u32, r: Vec<Param>)
    requires
        call_ensures(layout_params, (w, h), r),
        w <= i32::MAX,
        h <= i32::MAX,
    ensures
        r@.len() == 2,
        r@[0].name@ == "sourcewidth"@ && r@[0].value@ == decimal(w as nat),
        r@[1].name@ == "sourceheight"@ && r@[1].value@ == decimal(h as nat),
{
    let t = param_texts(r@);
    assert(t.len() == 2);
    assert(t[0] == (r@[0].name@, r@[0].value@));
    assert(t[1] == (r@[1].name@, r@[1].value@));
}

/// A text names a preset exactly when it is one of the six names, whatever the case of its letters.
pub proof fn law_presets_are_known(p: Seq<char>)
    ensures
        is_preset(p) <==> {
            let l = ascii_lowered(p);
            ||| l == ascii_lowered("faster"@)
            ||| l == ascii_lowered("fast"@)
            ||| l == ascii_lowered("medium"@)
            ||| l == ascii_lowered("slow"@)
            ||| l == ascii_lowered("slower"@)
            ||| l == ascii_lowered("medium_lowDecEnergy"@)
        },
{
    let l = ascii_lowered(p);
    assert(presets()[0] == "faster"@ && presets()[1] == "fast"@ && presets()[2] == "medium"@);
    assert(presets()[3] == "slow"@ && presets()[4] == "slower"@ && presets()[5]
        == "medium_lowDecEnergy"@);
    if is_preset(p) {
        let k = choose|k: int|
            0 <= k < presets().len() && ascii_lowered(#[trigger] presets()[k]) == ascii_lowered(p);
        assert(k == 0 || k == 1 || k == 2 || k == 3 || k == 4 || k == 5);
    }
}

/// The range is high exactly for the transfers of perceptual quantization and hybrid log-gamma; and
/// the modes tell wide primaries from others, whatever the transfer.
pub proof fn law_range_mode_follows_the_transfer(cp: i8, tc: i8, other: i8)
    ensures
        hdr_mode_of(cp, tc) < VVENC_SDR_BT709 <==> tc == 16 || tc == 18,
        cp == 9 && other != 9 ==> hdr_mode_of(cp, tc) != hdr_mode_of(other, tc),
        tc == 16 ==> hdr_mode_of(cp, tc) == VVENC_HDR_PQ || hdr_mode_of(cp, tc)
            == VVENC_HDR_PQ_BT2020,
        tc == 18 ==> hdr_mode_of(cp, tc) == VVENC_HDR_HLG || hdr_mode_of(cp, tc)
            == VVENC_HDR_HLG_BT2020,
        tc == 16 && cp == 9 ==> hdr_mode_of(cp, tc) == VVENC_HDR_PQ_BT2020,
        tc == 18 && cp == 9 ==> hdr_mode_of(cp, tc) == VVENC_HDR_HLG_BT2020,
        tc != 16 && tc != 18 ==> hdr_mode_of(cp, tc) == match cp {
            9 => VVENC_SDR_BT2020,
            5 => VVENC_SDR_BT470BG,
            _ => VVENC_SDR_BT709,
        },
{
}


/// The bytes that are written are the first of the access unit, as many as it says; they and the unit
/// are counted once, and a unit without any is neither written nor counted.
pub proof fn law_units_are_written_and_counted(
    au: &VvencAccessUnit,
    d: &mut Drained,
    r: Option<Vec<u8>>,
)
    requires
        au.payload_used_size <= au.payload@.len(),
        d.done < usize::MAX,
        d.sz + au.payload@.len() <= u64::MAX,
        call_ensures(drain_vvenc_au, (au, d), r),
    ensures
        r is None <==> au.payload_used_size <= 0,
        r is None ==> *final(d) == *old(d),
        r matches Some(b) ==> {
            &&& b@.len() == au.payload_used_size
            &&& b@.is_prefix_of(au.payload@)
            &&& final(d).done == old(d).done + 1
            &&& final(d).sz == old(d).sz + b@.len()
        },
{
}

/// A frame is given its number, and no time of its own.
pub proof fn law_frame_has_its_number(base: usize, w: u32, h: u32, index: u64, r: VvencYUVBuffer)
    requires
        base + frame_bytes(w as nat, h as nat) <= usize::MAX,
        call_ensures(vvenc_img, (base, w, h, index), r),
    ensures
        r.sequence_number == index,
        !r.cts_valid,
        r.planes@.len() == 3 && r.planes@[0].ptr == base,
{
}

/// A setting with the character that ends a text is not given to the library, any other is.
pub proof fn law_nul_is_refused(name: &str, value: &str, r: Option<&'static str>)
    requires
        call_ensures(param_text_error, (name, value), r),
    ensures
        r is None <==> is_free_of(name@, '\0') && is_free_of(value@, '\0'),
        r matches Some(m) ==> m@ == "vvenc: option name/value contains a NUL byte"@,
{
}


/// A clock never runs faster than 27 MHz, and at that where the frame rate asks for more.
pub proof fn law_clock_has_a_limit(num: nat, den: nat)
    ensures
        ticks_of(num, den) <= 27_000_000,
        num / common(num, den) > 27_000_000 ==> ticks_of(num, den) == 27_000_000,
        num / common(num, den) <= 27_000_000 ==> ticks_of(num, den) == num / common(num, den),
{
}


/// What VVenC is set to for every chunk is what the video is, and what it is set to for one chunk adds
/// its frames and its quality alone.
pub proof fn law_vvenc_is_set_up_for_the_video(
    cfg: &mut VvencConfig,
    inf: &VidInf,
    w: u32,
    h: u32,
    chunk: &mut VvencConfig,
    frames: usize,
    qp: Option<i32>,
)
    requires
        call_ensures(set_vvenc_base, (cfg, inf, w, h), ()),
        call_ensures(init_vvenc, (chunk, frames, qp), ()),
        w <= i32::MAX && h <= i32::MAX && frames <= i32::MAX,
    ensures
        is_based(*old(cfg), *final(cfg), inf, w, h),
        (final(cfg).m_SourceWidth, final(cfg).m_SourceHeight) == (w as i32, h as i32),
        final(cfg).m_colourPrimaries == inf.color_primaries,
        final(cfg).m_transferCharacteristics == inf.transfer_characteristics,
        final(cfg).m_matrixCoefficients == inf.matrix_coefficients,
        (final(cfg).m_profile, final(cfg).m_levelTier, final(cfg).m_level) == (1i32, 0i32, 0i32),
        final(cfg).m_DecodingRefreshType == 2 && final(cfg).m_internChromaFormat == 1,
        final(cfg).m_verbosity == 0 && final(cfg).m_numThreads == 1,
        final(cfg).m_picReordering && final(cfg).m_poc0idr,
        final(cfg).m_HdrMode == match (inf.transfer_characteristics, inf.color_primaries) {
            (16, 9) => 3i32,
            (16, _) => 1i32,
            (18, 9) => 4i32,
            (18, _) => 2i32,
            (_, 9) => 7i32,
            (_, 5) => 8i32,
            _ => 6i32,
        },
        final(chunk).m_framesToBeEncoded == frames,
        qp matches Some(q) ==> final(chunk).m_QP == q,
        qp is None ==> final(chunk).m_QP == old(chunk).m_QP,
        *final(chunk) == for_chunk(*old(chunk), frames, qp),
{
}

/// A wrong size is put in before the library writes the right one, and a library that did not is told
/// of; every template has its own settings.
pub proof fn law_vvenc_layout_is_tried_out(
    cfg: &mut VvencConfig,
    w: u32,
    h: u32,
    fault: Option<&'static str>,
    params: &str,
    zones: &Vec<String>,
    r: Vec<VvencSplit>,
    i: int,
)
    requires
        call_ensures(unset_size, (cfg, w, h), ()),
        call_ensures(layout_error, (final(cfg), w, h), fault),
        call_ensures(build_vvenc_templates, (params, zones), r),
        0 <= i < zones@.len(),
    ensures
        fault is Some,
        final(cfg).m_QP == old(cfg).m_QP && final(cfg).m_FrameRate == old(cfg).m_FrameRate,
        r@.len() == zones@.len() + 1,
        param_texts(r@[0].params@) == vvenc_params_of(words_of(params@)).params,
        vvenc_params_of(words_of(params@)).error is None ==> param_texts(r@[i + 1].params@)
            == vvenc_params_of(words_of(params@)).params + vvenc_params_of(
            words_of(zones@[i]@),
        ).params,
{
    assert(texts(zones@)[i] == zones@[i]@);
    assert(splits_as(r@[0], vvenc_template(params@, texts(zones@), 0)));
    assert(splits_as(r@[i + 1], vvenc_template(params@, texts(zones@), i + 1)));
}

} // verus!
