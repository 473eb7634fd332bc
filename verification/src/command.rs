//! The command lines of the encoders that run as programs.
use vstd::prelude::*;

use crate::color::{
    color_volume, h26x_color_prims_str, h26x_mastering, h26x_matrix_coef_str, h26x_trans_char_str,
    mastering_value, matrix_text, primaries_text, signal_preset, transfer_text, x265_color_volume,
    x265_signal_preset,
};
use crate::encoder::{in_process, Build, Encoder, VersionQuery};
use crate::num::{
    all_digits, decimal, decimal_text, digits_value, lemma_zero_padded, push_decimal, push_zero_padded,
    signed, signed_text, usize_text, zero_padded,
};
use crate::select::{resolve_watch_enc, WatchEnc};
use crate::text::{push_strings, push_text, push_texts, same, starts_with, texts, words, words_of};
use crate::video::{h26x_sar, pixel_shape, Mastering, VidInf};
use crate::vvenc::{
    for_chunk, hdr_mode_of, is_based, VvencConfig, VVENC_CHROMA_420, VVENC_DRT_IDR, VVENC_HDR_HLG,
    VVENC_HDR_HLG_BT2020, VVENC_HDR_PQ, VVENC_HDR_PQ_BT2020, VVENC_MSG_SILENT, VVENC_PROFILE_MAIN_10,
    VVENC_SDR_BT2020, VVENC_SDR_BT470BG, VVENC_TIER_MAIN,
};

verus! {

/// A quality as command lines show it.
pub struct Crf {
    /// The number with two places behind the point.
    pub two_places: String,
    /// The number cut to a whole.
    pub whole: i32,
}

/// What one chunk is encoded with.
pub struct EncConfig<'a> {
    pub inf: &'a VidInf,
    pub template: Option<&'a [u8]>,
    pub params: &'a str,
    pub crf: Option<&'a Crf>,
    pub out: &'a str,
    pub chnk_idx: u16,
    pub width: u32,
    pub height: u32,
    pub frames: usize,
}

/// A program, its arguments, and which of its streams are pipes.
pub struct Command {
    pub prog: String,
    pub args: Vec<String>,
    pub pipe_stdin: bool,
    pub pipe_stdout: bool,
    pub pipe_stderr: bool,
}

/// Two numbers with a text between them.
pub open spec fn two_numbers(a: nat, sep: Seq<char>, b: nat) -> Seq<char> {
    decimal(a) + sep + decimal(b)
}

fn two_numbers_text(a: u64, sep: &str, b: u64) -> (s: String)
    ensures
        s@ == two_numbers(a as nat, sep@, b as nat),
{
    let mut s = decimal_text(a);
    s.append(sep);
    push_decimal(&mut s, b);
    s
}

/// Appends an option and its value.
fn push_option(args: &mut Vec<String>, name: &str, value: &str)
    ensures
        texts(final(args)@) == texts(old(args)@) + seq![name@, value@],
{
    push_text(args, name);
    push_text(args, value);
    assert(texts(args@) =~= texts(old(args)@) + seq![name@, value@]);
}

/// How a decoder's colour name is written for x264.
pub open spec fn x264_name(s: Seq<char>, is_x264: bool) -> Seq<char> {
    if is_x264 && s == "unknown"@ {
        "undef"@
    } else {
        s
    }
}

fn named(s: &'static str, is_x264: bool) -> (r: &'static str)
    ensures
        r@ == x264_name(s@, is_x264),
{
    if is_x264 && same(s, "unknown") {
        "undef"
    } else {
        s
    }
}

/// An option with a value, where there is one.
pub open spec fn option_of(name: Seq<char>, value: Option<Seq<char>>) -> Seq<Seq<char>> {
    match value {
        Some(v) => seq![name, v],
        None => seq![],
    }
}

/// Where the chroma samples stand, as encoders number it.
pub open spec fn chroma_loc(inf: &VidInf) -> Option<Seq<char>> {
    if 1 <= inf.chroma_sample_position <= 6 {
        Some(signed(inf.chroma_sample_position - 1))
    } else {
        None
    }
}

/// The colour volume of the display as an option's value.
pub open spec fn mastering_option(inf: &VidInf, x264_format: bool) -> Option<Seq<char>> {
    match inf.mastering_display {
        Some(m) => Some(mastering_value(m, x264_format)),
        None => None,
    }
}

/// The light levels as an option's value.
pub open spec fn light_option(inf: &VidInf) -> Option<Seq<char>> {
    match inf.content_light {
        Some(t) => Some(t@),
        None => None,
    }
}

/// Whether the range of the samples is the full one, in a program's own two words.
pub open spec fn range_word(inf: &VidInf, full: Seq<char>, limited: Seq<char>) -> Seq<char> {
    if inf.color_range == 1 {
        full
    } else {
        limited
    }
}

/// The arguments that describe the colours to x264 or x265.
pub open spec fn h26x_colors(inf: &VidInf, is_x264: bool) -> Seq<Seq<char>> {
    seq![
        "--colorprim"@,
        x264_name(primaries_text(inf.color_primaries), is_x264),
        "--transfer"@,
        x264_name(transfer_text(inf.transfer_characteristics), is_x264),
        "--colormatrix"@,
        x264_name(matrix_text(inf.matrix_coefficients), is_x264),
        "--range"@,
        if is_x264 {
            range_word(inf, "pc"@, "tv"@)
        } else {
            range_word(inf, "full"@, "limited"@)
        },
    ] + option_of("--chromaloc"@, chroma_loc(inf)) + option_of(
        if is_x264 {
            "--mastering-display"@
        } else {
            "--master-display"@
        },
        mastering_option(inf, is_x264),
    ) + option_of(
        if is_x264 {
            "--cll"@
        } else {
            "--max-cll"@
        },
        light_option(inf),
    )
}

fn push_chroma_loc(args: &mut Vec<String>, name: &str, inf: &VidInf)
    ensures
        texts(final(args)@) == texts(old(args)@) + option_of(name@, chroma_loc(inf)),
{
    let csp: i8 = inf.chroma_sample_position;
    if csp >= 1 && csp <= 6 {
        let t = signed_text((csp - 1) as i64);
        push_option(args, name, t.as_str());
    }
    assert(texts(args@) =~= texts(old(args)@) + option_of(name@, chroma_loc(inf)));
}

fn push_mastering(args: &mut Vec<String>, name: &str, inf: &VidInf, x264_format: bool)
    ensures
        texts(final(args)@) == texts(old(args)@) + option_of(
            name@,
            mastering_option(inf, x264_format),
        ),
{
    if let Some(m) = inf.mastering_display {
        let t = h26x_mastering(&m, x264_format);
        push_option(args, name, t.as_str());
    }
    assert(texts(args@) =~= texts(old(args)@) + option_of(
        name@,
        mastering_option(inf, x264_format),
    ));
}

fn push_light(args: &mut Vec<String>, name: &str, inf: &VidInf)
    ensures
        texts(final(args)@) == texts(old(args)@) + option_of(name@, light_option(inf)),
{
    if let Some(cl) = &inf.content_light {
        push_option(args, name, cl.as_str());
    }
    assert(texts(args@) =~= texts(old(args)@) + option_of(name@, light_option(inf)));
}

/// Appends the arguments that describe the colours to x264 or x265.
pub fn colorize_h26x(args: &mut Vec<String>, inf: &VidInf, is_x264: bool)
    ensures
        texts(final(args)@) == texts(old(args)@) + h26x_colors(inf, is_x264),
{
    push_option(args, "--colorprim", named(h26x_color_prims_str(inf.color_primaries), is_x264));
    push_option(
        args,
        "--transfer",
        named(h26x_trans_char_str(inf.transfer_characteristics), is_x264),
    );
    push_option(
        args,
        "--colormatrix",
        named(h26x_matrix_coef_str(inf.matrix_coefficients), is_x264),
    );
    let full: bool = inf.color_range == 1;
    if is_x264 {
        push_option(args, "--range", if full { "pc" } else { "tv" });
    } else {
        push_option(args, "--range", if full { "full" } else { "limited" });
    }
    push_chroma_loc(args, "--chromaloc", inf);
    push_mastering(
        args,
        if is_x264 {
            "--mastering-display"
        } else {
            "--master-display"
        },
        inf,
        is_x264,
    );
    push_light(args, if is_x264 { "--cll" } else { "--max-cll" }, inf);
    assert(texts(args@) =~= texts(old(args)@) + h26x_colors(inf, is_x264));
}

/// The dynamic range mode of VVenC, with the option that sets it.
pub open spec fn range_mode(inf: &VidInf) -> Seq<Seq<char>> {
    let wide = inf.color_primaries == 9;
    if inf.transfer_characteristics == 16 {
        seq!["--Hdr"@, if wide { "pq_2020"@ } else { "pq"@ }]
    } else if inf.transfer_characteristics == 18 {
        seq!["--Hdr"@, if wide { "hlg_2020"@ } else { "hlg"@ }]
    } else if wide {
        seq!["--Sdr"@, "sdr_2020"@]
    } else if inf.color_primaries == 5 {
        seq!["--Sdr"@, "sdr_470bg"@]
    } else {
        seq!["--Sdr"@, "sdr_709"@]
    }
}

/// The words by which the program is told a mode that the library is told by number.
pub open spec fn mode_words(mode: i32) -> Seq<Seq<char>> {
    if mode == VVENC_HDR_PQ_BT2020 {
        seq!["--Hdr"@, "pq_2020"@]
    } else if mode == VVENC_HDR_PQ {
        seq!["--Hdr"@, "pq"@]
    } else if mode == VVENC_HDR_HLG_BT2020 {
        seq!["--Hdr"@, "hlg_2020"@]
    } else if mode == VVENC_HDR_HLG {
        seq!["--Hdr"@, "hlg"@]
    } else if mode == VVENC_SDR_BT2020 {
        seq!["--Sdr"@, "sdr_2020"@]
    } else if mode == VVENC_SDR_BT470BG {
        seq!["--Sdr"@, "sdr_470bg"@]
    } else {
        seq!["--Sdr"@, "sdr_709"@]
    }
}

/// VVenC is told the same mode whether it runs as a program or as a library.
pub proof fn law_vvenc_modes_agree(inf: &VidInf)
    ensures
        range_mode(inf) == mode_words(
            hdr_mode_of(inf.color_primaries, inf.transfer_characteristics),
        ),
{
}

/// The arguments that describe the colours to VVenC.
pub open spec fn vvenc_colors(inf: &VidInf) -> Seq<Seq<char>> {
    range_mode(inf) + seq![
        "--ColourPrimaries"@,
        primaries_text(inf.color_primaries),
        "--TransferCharacteristics"@,
        transfer_text(inf.transfer_characteristics),
        "--MatrixCoefficients"@,
        matrix_text(inf.matrix_coefficients),
        "--Range"@,
        range_word(inf, "full"@, "limited"@),
    ] + option_of("--ChromaSampleLocType"@, chroma_loc(inf)) + option_of(
        "--MasteringDisplayColourVolume"@,
        mastering_option(inf, false),
    ) + option_of("--MaxContentLightLevel"@, light_option(inf))
}

/// Appends the arguments that describe the colours to VVenC.
pub fn colorize_vvenc(args: &mut Vec<String>, inf: &VidInf)
    ensures
        texts(final(args)@) == texts(old(args)@) + vvenc_colors(inf),
{
    let is_hlg: bool = inf.transfer_characteristics == 18;
    let is_pq: bool = inf.transfer_characteristics == 16;
    let is_bt2020: bool = inf.color_primaries == 9;
    let is_bt470bg: bool = inf.color_primaries == 5;
    if is_pq || is_hlg {
        let hdr_mode = match (is_pq, is_hlg, is_bt2020) {
            (true, _, true) => "pq_2020",
            (true, _, false) => "pq",
            (_, true, true) => "hlg_2020",
            (_, true, false) => "hlg",
            _ => "off",
        };
        push_option(args, "--Hdr", hdr_mode);
    } else {
        let sdr_mode = match (is_bt2020, is_bt470bg) {
            (true, _) => "sdr_2020",
            (_, true) => "sdr_470bg",
            _ => "sdr_709",
        };
        push_option(args, "--Sdr", sdr_mode);
    }
    push_option(args, "--ColourPrimaries", h26x_color_prims_str(inf.color_primaries));
    push_option(args, "--TransferCharacteristics", h26x_trans_char_str(inf.transfer_characteristics));
    push_option(args, "--MatrixCoefficients", h26x_matrix_coef_str(inf.matrix_coefficients));
    push_option(args, "--Range", if inf.color_range == 1 { "full" } else { "limited" });
    push_chroma_loc(args, "--ChromaSampleLocType", inf);
    push_mastering(args, "--MasteringDisplayColourVolume", inf, false);
    push_light(args, "--MaxContentLightLevel", inf);
    assert(texts(args@) =~= texts(old(args)@) + vvenc_colors(inf));
}

/// The fixed arguments of VVenC.
pub open spec fn vvenc_fixed() -> Seq<Seq<char>> {
    seq![
        "-v"@, "4"@,
        "--stats"@, "0"@,
        "--InputBitDepth"@, "10"@,
        "--InputChromaFormat"@, "420"@,
        "--IntraPeriod"@, "-1"@,
        "--RefreshSec"@, "0"@,
        "--DecodingRefreshType"@, "idr"@,
        "--POC0IDR"@, "1"@,
        "--NumPasses"@, "1"@,
        "--Passes"@, "1"@,
        "--Threads"@, "1"@,
        "--Profile"@, "main_10"@,
        "--Tier"@, "main"@,
        "--MaxBitDepthConstraint"@, "10"@,
        "--InternalBitDepth"@, "10"@,
        "--OutputBitDepth"@, "10"@,
    ]
}

/// The quality option of VVenC.
pub open spec fn vvenc_qp(cfg: &EncConfig) -> Option<Seq<char>> {
    match cfg.crf {
        Some(c) => Some(signed(c.whole as int)),
        None => None,
    }
}

/// The command line of VVenC.
pub open spec fn vvenc_args(cfg: &EncConfig) -> Seq<Seq<char>> {
    vvenc_fixed() + seq![
        "--SourceWidth"@,
        decimal(cfg.width as nat),
        "--SourceHeight"@,
        decimal(cfg.height as nat),
        "--fps"@,
        two_numbers(cfg.inf.fps_num as nat, "/"@, cfg.inf.fps_den as nat),
        "--FramesToBeEncoded"@,
        decimal(cfg.frames as nat),
    ] + option_of("--QP"@, vvenc_qp(cfg)) + vvenc_colors(cfg.inf) + words_of(cfg.params@) + seq![
        "-i"@,
        "-"@,
        "-b"@,
        cfg.out@,
    ]
}

fn vvenc_fixed_args() -> (args: Vec<String>)
    ensures
        texts(args@) == vvenc_fixed(),
{
    let mut args: Vec<String> = Vec::new();
    let fixed = [
        "-v", "4",
        "--stats", "0",
        "--InputBitDepth", "10",
        "--InputChromaFormat", "420",
        "--IntraPeriod", "-1",
        "--RefreshSec", "0",
        "--DecodingRefreshType", "idr",
        "--POC0IDR", "1",
        "--NumPasses", "1",
        "--Passes", "1",
        "--Threads", "1",
        "--Profile", "main_10",
        "--Tier", "main",
        "--MaxBitDepthConstraint", "10",
        "--InternalBitDepth", "10",
        "--OutputBitDepth", "10",
    ];
    push_texts(&mut args, &fixed);
    assert(texts(args@) =~= vvenc_fixed());
    args
}

/// The program that encodes a chunk with VVenC.
pub fn make_vvenc_cmd(cfg: &EncConfig) -> (cmd: Command)
    ensures
        cmd.prog@ == "vvencFFapp"@,
        texts(cmd.args@) == vvenc_args(cfg),
        cmd.pipe_stdin && cmd.pipe_stdout && cmd.pipe_stderr,
{
    let mut args = vvenc_fixed_args();
    let width = decimal_text(cfg.width as u64);
    let height = decimal_text(cfg.height as u64);
    let fps = two_numbers_text(cfg.inf.fps_num as u64, "/", cfg.inf.fps_den as u64);
    let frames = usize_text(cfg.frames);
    push_option(&mut args, "--SourceWidth", width.as_str());
    push_option(&mut args, "--SourceHeight", height.as_str());
    push_option(&mut args, "--fps", fps.as_str());
    push_option(&mut args, "--FramesToBeEncoded", frames.as_str());
    if let Some(crf) = cfg.crf {
        let qp = signed_text(crf.whole as i64);
        push_option(&mut args, "--QP", qp.as_str());
    }
    colorize_vvenc(&mut args, cfg.inf);
    let w = words(cfg.params);
    push_strings(&mut args, &w);
    push_option(&mut args, "-i", "-");
    push_option(&mut args, "-b", cfg.out);
    assert(texts(args@) =~= vvenc_args(cfg));
    Command {
        prog: "vvencFFapp".to_owned(),
        args,
        pipe_stdin: true,
        pipe_stdout: true,
        pipe_stderr: true,
    }
}

/// The arguments of x264 and x265 that say what is encoded.
pub open spec fn h26x_shape(cfg: &EncConfig) -> Seq<Seq<char>> {
    seq![
        two_numbers(cfg.inf.fps_num as nat, "/"@, cfg.inf.fps_den as nat),
        "--input-res"@,
        two_numbers(cfg.width as nat, "x"@, cfg.height as nat),
        "--frames"@,
        decimal(cfg.frames as nat),
        "--sar"@,
        two_numbers(pixel_shape(cfg.inf).0, ":"@, pixel_shape(cfg.inf).1),
    ] + option_of("--crf"@, h26x_crf(cfg))
}

/// The quality option of x264 and x265.
pub open spec fn h26x_crf(cfg: &EncConfig) -> Option<Seq<char>> {
    match cfg.crf {
        Some(c) => Some(c.two_places@),
        None => None,
    }
}

fn push_shape(args: &mut Vec<String>, cfg: &EncConfig)
    ensures
        texts(final(args)@) == texts(old(args)@) + h26x_shape(cfg),
{
    let fps = two_numbers_text(cfg.inf.fps_num as u64, "/", cfg.inf.fps_den as u64);
    push_text(args, fps.as_str());
    let res = two_numbers_text(cfg.width as u64, "x", cfg.height as u64);
    push_option(args, "--input-res", res.as_str());
    let frames = usize_text(cfg.frames);
    push_option(args, "--frames", frames.as_str());
    let sar = h26x_sar(cfg.inf);
    let sar_text = two_numbers_text(sar.0, ":", sar.1);
    push_option(args, "--sar", sar_text.as_str());
    if let Some(crf) = cfg.crf {
        push_option(args, "--crf", crf.two_places.as_str());
    }
    assert(texts(args@) =~= texts(old(args)@) + h26x_shape(cfg));
}

/// The fixed arguments of x265.
pub open spec fn x265_fixed() -> Seq<Seq<char>> {
    seq![
        "--log-level"@, "error"@,
        "--input-csp"@, "1"@,
        "--input-depth"@, "10"@,
        "--output-depth"@, "10"@,
        "--profile"@, "main10"@,
        "--gop-lookahead"@, "0"@,
        "--rc-lookahead"@, "250"@,
        "--keyint"@, "-1"@,
        "--min-keyint"@, "9999"@,
        "--no-scenecut"@,
        "--lookahead-slices"@, "1"@,
        "--lookahead-threads"@, "1"@,
        "--frame-threads"@, "1"@,
        "--slices"@, "1"@,
        "--pools"@, "1"@,
        "--no-wpp"@,
        "--no-info"@,
        "--no-vui-hrd-info"@,
        "--no-vui-timing-info"@,
        "--fps"@,
    ]
}

fn x265_fixed_args() -> (args: Vec<String>)
    ensures
        texts(args@) == x265_fixed(),
{
    let mut args: Vec<String> = Vec::new();
    let fixed = [
        "--log-level", "error",
        "--input-csp", "1",
        "--input-depth", "10",
        "--output-depth", "10",
        "--profile", "main10",
        "--gop-lookahead", "0",
        "--rc-lookahead", "250",
        "--keyint", "-1",
        "--min-keyint", "9999",
        "--no-scenecut",
        "--lookahead-slices", "1",
        "--lookahead-threads", "1",
        "--frame-threads", "1",
        "--slices", "1",
        "--pools", "1",
        "--no-wpp",
        "--no-info",
        "--no-vui-hrd-info",
        "--no-vui-timing-info",
        "--fps",
    ];
    push_texts(&mut args, &fixed);
    assert(texts(args@) =~= x265_fixed());
    args
}

/// The signal preset as x265 takes it: with the name of the colour volume where it has one.
pub open spec fn preset_value(inf: &VidInf, preset: Seq<char>) -> Seq<char> {
    let volume = match inf.mastering_display {
        Some(m) => color_volume(m),
        None => None,
    };
    match volume {
        Some(v) => if "BT2100_PQ"@.is_prefix_of(preset) {
            preset + ":"@ + v
        } else {
            preset
        },
        None => preset,
    }
}

/// The arguments that describe the colours to x265: a signal preset where one fits.
pub open spec fn x265_colors(inf: &VidInf) -> Seq<Seq<char>> {
    match signal_preset(inf) {
        Some(p) => seq!["--video-signal-type-preset"@, preset_value(inf, p)] + option_of(
            "--master-display"@,
            mastering_option(inf, false),
        ) + option_of("--max-cll"@, light_option(inf)),
        None => h26x_colors(inf, false),
    }
}

fn preset_text(inf: &VidInf, preset: &str) -> (r: String)
    ensures
        r@ == preset_value(inf, preset@),
{
    let mut r = preset.to_owned();
    if starts_with(preset, "BT2100_PQ") {
        if let Some(m) = inf.mastering_display {
            if let Some(cv) = x265_color_volume(&m) {
                r.append(":");
                r.append(cv);
            }
        }
    }
    r
}

fn push_x265_colors(args: &mut Vec<String>, inf: &VidInf)
    ensures
        texts(final(args)@) == texts(old(args)@) + x265_colors(inf),
{
    match x265_signal_preset(inf) {
        Some(preset) => {
            let value = preset_text(inf, preset);
            push_option(args, "--video-signal-type-preset", value.as_str());
            push_mastering(args, "--master-display", inf, false);
            push_light(args, "--max-cll", inf);
            assert(texts(args@) =~= texts(old(args)@) + x265_colors(inf));
        },
        None => {
            colorize_h26x(args, inf, false);
        },
    }
}

/// The arguments that a build for AVX-512 adds.
pub open spec fn asm_args(build: Build) -> Seq<Seq<char>> {
    if build.avx512 {
        seq!["--asm"@, "avx512"@]
    } else {
        seq![]
    }
}

fn push_asm(args: &mut Vec<String>, build: Build)
    ensures
        texts(final(args)@) == texts(old(args)@) + asm_args(build),
{
    if build.avx512 {
        push_option(args, "--asm", "avx512");
    }
    assert(texts(args@) =~= texts(old(args)@) + asm_args(build));
}

/// The command line of x265.
pub open spec fn x265_args(build: Build, cfg: &EncConfig) -> Seq<Seq<char>> {
    x265_fixed() + h26x_shape(cfg) + x265_colors(cfg.inf) + asm_args(build) + words_of(cfg.params@)
        + seq!["--output"@, cfg.out@, "--input"@, "-"@]
}

/// The program that encodes a chunk with x265.
pub fn make_x265_cmd(build: Build, cfg: &EncConfig) -> (cmd: Command)
    ensures
        cmd.prog@ == "x265"@,
        texts(cmd.args@) == x265_args(build, cfg),
        cmd.pipe_stdin && !cmd.pipe_stdout && cmd.pipe_stderr,
{
    let mut args = x265_fixed_args();
    push_shape(&mut args, cfg);
    push_x265_colors(&mut args, cfg.inf);
    push_asm(&mut args, build);
    let w = words(cfg.params);
    push_strings(&mut args, &w);
    push_option(&mut args, "--output", cfg.out);
    push_option(&mut args, "--input", "-");
    assert(texts(args@) =~= x265_args(build, cfg));
    Command {
        prog: "x265".to_owned(),
        args,
        pipe_stdin: true,
        pipe_stdout: false,
        pipe_stderr: true,
    }
}

/// The fixed arguments of x264.
pub open spec fn x264_fixed() -> Seq<Seq<char>> {
    seq![
        "--log-level"@, "error"@,
        "--input-csp"@, "i420"@,
        "--output-csp"@, "i420"@,
        "--input-depth"@, "10"@,
        "--output-depth"@, "10"@,
        "--profile"@, "high10"@,
        "--keyint"@, "infinite"@,
        "--min-keyint"@, "9999"@,
        "--no-scenecut"@,
        "--b-adapt"@, "2"@,
        "--muxer"@, "raw"@,
        "--demuxer"@, "raw"@,
        "--threads"@, "1"@,
        "--lookahead-threads"@, "1"@,
        "--force-cfr"@,
        "--non-deterministic"@,
        "--nal-hrd"@, "none"@,
        "--rc-lookahead"@, "250"@,
        "--fps"@,
    ]
}

fn x264_fixed_args() -> (args: Vec<String>)
    ensures
        texts(args@) == x264_fixed(),
{
    let mut args: Vec<String> = Vec::new();
    let fixed = [
        "--log-level", "error",
        "--input-csp", "i420",
        "--output-csp", "i420",
        "--input-depth", "10",
        "--output-depth", "10",
        "--profile", "high10",
        "--keyint", "infinite",
        "--min-keyint", "9999",
        "--no-scenecut",
        "--b-adapt", "2",
        "--muxer", "raw",
        "--demuxer", "raw",
        "--threads", "1",
        "--lookahead-threads", "1",
        "--force-cfr",
        "--non-deterministic",
        "--nal-hrd", "none",
        "--rc-lookahead", "250",
        "--fps",
    ];
    push_texts(&mut args, &fixed);
    assert(texts(args@) =~= x264_fixed());
    args
}

/// The command line of x264.
pub open spec fn x264_args(build: Build, cfg: &EncConfig) -> Seq<Seq<char>> {
    x264_fixed() + h26x_shape(cfg) + seq!["--input-range"@, range_word(cfg.inf, "pc"@, "tv"@)]
        + h26x_colors(cfg.inf, true) + asm_args(build) + words_of(cfg.params@) + seq![
        "--output"@,
        cfg.out@,
        "-"@,
    ]
}

/// The program that encodes a chunk with x264.
pub fn make_x264_cmd(build: Build, cfg: &EncConfig) -> (cmd: Command)
    ensures
        cmd.prog@ == "x264"@,
        texts(cmd.args@) == x264_args(build, cfg),
        cmd.pipe_stdin && !cmd.pipe_stdout && cmd.pipe_stderr,
{
    let mut args = x264_fixed_args();
    push_shape(&mut args, cfg);
    push_option(&mut args, "--input-range", if cfg.inf.color_range == 1 { "pc" } else { "tv" });
    colorize_h26x(&mut args, cfg.inf, true);
    push_asm(&mut args, build);
    let w = words(cfg.params);
    push_strings(&mut args, &w);
    push_option(&mut args, "--output", cfg.out);
    push_text(&mut args, "-");
    assert(texts(args@) =~= x264_args(build, cfg));
    Command {
        prog: "x264".to_owned(),
        args,
        pipe_stdin: true,
        pipe_stdout: false,
        pipe_stderr: true,
    }
}

/// The program of an encoder.
pub open spec fn enc_prog(encoder: Encoder) -> Seq<char> {
    match encoder {
        Encoder::X265 => "x265"@,
        Encoder::X264 => "x264"@,
        _ => "vvencFFapp"@,
    }
}

/// The command line of an encoder, before what a zone adds.
pub open spec fn enc_args(encoder: Encoder, build: Build, cfg: &EncConfig) -> Seq<Seq<char>> {
    match encoder {
        Encoder::X265 => x265_args(build, cfg),
        Encoder::X264 => x264_args(build, cfg),
        _ => vvenc_args(cfg),
    }
}

/// The words that a zone adds.
pub open spec fn zone_words(zone: Option<&str>) -> Seq<Seq<char>> {
    match zone {
        Some(z) => words_of(z@),
        None => seq![],
    }
}

/// The program that encodes a chunk, for the encoders that run as programs; what a zone sets
/// comes last, so that it overrides what the run sets.
pub fn make_enc_cmd(encoder: Encoder, build: Build, cfg: &EncConfig, zone: Option<&str>) -> (cmd:
    Command)
    requires
        !in_process(build, encoder),
    ensures
        cmd.prog@ == enc_prog(encoder),
        texts(cmd.args@) == enc_args(encoder, build, cfg) + zone_words(zone),
        cmd.pipe_stdin && cmd.pipe_stderr,
        cmd.pipe_stdout <==> encoder is Vvenc,
{
    let mut cmd = match encoder {
        Encoder::X265 => make_x265_cmd(build, cfg),
        Encoder::X264 => make_x264_cmd(build, cfg),
        _ => make_vvenc_cmd(cfg),
    };
    if let Some(z) = zone {
        let w = words(z);
        push_strings(&mut cmd.args, &w);
    }
    assert(texts(cmd.args@) =~= enc_args(encoder, build, cfg) + zone_words(zone));
    cmd
}

/// What is said when a program could not encode a chunk.
pub fn chunk_failure(idx: u16) -> (r: String)
    ensures
        r@ == "encode failed: chunk "@ + zero_padded(idx as nat, 4),
{
    let mut r = "encode failed: chunk ".to_owned();
    push_zero_padded(&mut r, idx as u64, 4);
    r
}

/// What is said when a program could not encode a probe.
pub fn probe_failure(out: &str) -> (r: String)
    ensures
        r@ == "probe encode failed: "@ + out@,
{
    let mut r = "probe encode failed: ".to_owned();
    r.append(out);
    r
}

/// The output file stands among the arguments of every encoder.
pub proof fn law_commands_name_their_output(encoder: Encoder, build: Build, cfg: &EncConfig)
    ensures
        enc_args(encoder, build, cfg).contains(cfg.out@),
{
    let a = enc_args(encoder, build, cfg);
    match encoder {
        Encoder::X265 => {
            assert(a[a.len() - 3] == cfg.out@);
        },
        Encoder::X264 => {
            assert(a[a.len() - 2] == cfg.out@);
        },
        _ => {
            assert(a[a.len() - 1] == cfg.out@);
        },
    }
}

/// Whether an option stands among arguments with a value right behind it.
pub open spec fn tells(args: Seq<Seq<char>>, name: Seq<char>, value: Seq<char>) -> bool {
    exists|i: int| 0 <= i && i + 1 < args.len() && #[trigger] args[i] == name && args[i + 1] == value
}

/// The arguments of an encoder that stand before the words of the run's own parameters; `behind` is
/// how many stand behind those words.
pub open spec fn own_args(args: Seq<Seq<char>>, cfg: &EncConfig, behind: int) -> Seq<Seq<char>> {
    args.take(args.len() - behind - words_of(cfg.params@).len())
}

/// How many arguments name where frames come from and where the stream goes.
pub open spec fn io_args(encoder: Encoder) -> int {
    if encoder is X264 {
        3
    } else {
        4
    }
}

/// What the run sets itself stands before the run's own parameters, and those before the zone's: an
/// encoder takes the last of several values, so that a parameter overrides what the run sets, and a
/// zone overrides both. Behind them stand only the output, and that frames are read from a pipe.
pub proof fn law_parameters_override_settings(encoder: Encoder, build: Build, cfg: &EncConfig)
    ensures
        ({
            let a = enc_args(encoder, build, cfg);
            let own = own_args(a, cfg, io_args(encoder));
            let io = a.skip(a.len() - io_args(encoder));
            &&& a.len() >= io_args(encoder) + words_of(cfg.params@).len()
            &&& a == own + words_of(cfg.params@) + io
            &&& if encoder is X265 {
                io == seq!["--output"@, cfg.out@, "--input"@, "-"@]
            } else if encoder is X264 {
                io == seq!["--output"@, cfg.out@, "-"@]
            } else {
                io == seq!["-i"@, "-"@, "-b"@, cfg.out@]
            }
        }),
{
    let a = enc_args(encoder, build, cfg);
    let w = words_of(cfg.params@);
    let n = a.len() - io_args(encoder) - w.len();
    let io = a.skip(a.len() - io_args(encoder));
    assert(a.subrange(n, n + w.len()) =~= w);
    assert(a =~= own_args(a, cfg, io_args(encoder)) + w + io);
    match encoder {
        Encoder::X265 => {
            assert(io =~= seq!["--output"@, cfg.out@, "--input"@, "-"@]);
        },
        Encoder::X264 => {
            assert(io =~= seq!["--output"@, cfg.out@, "-"@]);
        },
        _ => {
            assert(io =~= seq!["-i"@, "-"@, "-b"@, cfg.out@]);
        },
    }
}

/// VVenC is told the size of the frames, their rate and their number as they are, each number in
/// decimal, and a quality where there is one.
pub proof fn law_vvenc_is_told_the_chunk(cfg: &EncConfig)
    ensures
        ({
            let own = own_args(vvenc_args(cfg), cfg, 4);
            &&& tells(own, "--SourceWidth"@, decimal(cfg.width as nat))
            &&& tells(own, "--SourceHeight"@, decimal(cfg.height as nat))
            &&& tells(
                own,
                "--fps"@,
                decimal(cfg.inf.fps_num as nat) + "/"@ + decimal(cfg.inf.fps_den as nat),
            )
            &&& tells(own, "--FramesToBeEncoded"@, decimal(cfg.frames as nat))
            &&& cfg.crf matches Some(c) ==> tells(own, "--QP"@, signed(c.whole as int))
        }),
{
    let own = own_args(vvenc_args(cfg), cfg, 4);
    let n = vvenc_fixed().len() as int;
    assert(own[n] == "--SourceWidth"@ && own[n + 1] == decimal(cfg.width as nat));
    assert(own[n + 2] == "--SourceHeight"@ && own[n + 3] == decimal(cfg.height as nat));
    assert(own[n + 4] == "--fps"@ && own[n + 5] == decimal(cfg.inf.fps_num as nat) + "/"@ + decimal(
        cfg.inf.fps_den as nat,
    ));
    assert(own[n + 6] == "--FramesToBeEncoded"@ && own[n + 7] == decimal(cfg.frames as nat));
    if let Some(c) = cfg.crf {
        assert(own[n + 8] == "--QP"@ && own[n + 9] == signed(c.whole as int));
    }
}

/// x264 and x265 are told the size of the frames, their rate, their number and the shape of a pixel
/// as they are, and a quality where there is one.
pub proof fn law_h26x_are_told_the_chunk(is_x264: bool, build: Build, cfg: &EncConfig)
    ensures
        ({
            let own = if is_x264 {
                own_args(x264_args(build, cfg), cfg, 3)
            } else {
                own_args(x265_args(build, cfg), cfg, 4)
            };
            &&& tells(
                own,
                "--input-res"@,
                decimal(cfg.width as nat) + "x"@ + decimal(cfg.height as nat),
            )
            &&& tells(
                own,
                "--fps"@,
                decimal(cfg.inf.fps_num as nat) + "/"@ + decimal(cfg.inf.fps_den as nat),
            )
            &&& tells(own, "--frames"@, decimal(cfg.frames as nat))
            &&& tells(
                own,
                "--sar"@,
                decimal(pixel_shape(cfg.inf).0) + ":"@ + decimal(pixel_shape(cfg.inf).1),
            )
            &&& cfg.crf matches Some(c) ==> tells(own, "--crf"@, c.two_places@)
        }),
{
    let own = if is_x264 {
        own_args(x264_args(build, cfg), cfg, 3)
    } else {
        own_args(x265_args(build, cfg), cfg, 4)
    };
    let n = if is_x264 {
        x264_fixed().len() as int
    } else {
        x265_fixed().len() as int
    };
    assert(own[n - 1] == "--fps"@ && own[n] == decimal(cfg.inf.fps_num as nat) + "/"@ + decimal(
        cfg.inf.fps_den as nat,
    ));
    assert(own[n - 1 + 1] == own[n]);
    assert(own[n + 1] == "--input-res"@ && own[n + 2] == decimal(cfg.width as nat) + "x"@ + decimal(
        cfg.height as nat,
    ));
    assert(own[n + 3] == "--frames"@ && own[n + 4] == decimal(cfg.frames as nat));
    assert(own[n + 5] == "--sar"@ && own[n + 6] == decimal(pixel_shape(cfg.inf).0) + ":"@ + decimal(
        pixel_shape(cfg.inf).1,
    ));
    if let Some(c) = cfg.crf {
        assert(own[n + 7] == "--crf"@ && own[n + 8] == c.two_places@);
    }
}

proof fn lemma_tells_in(a: Seq<Seq<char>>, b: Seq<Seq<char>>, c: Seq<Seq<char>>)
    ensures
        forall|name: Seq<char>, value: Seq<char>|
            #[trigger] tells(b, name, value) ==> tells(a + b + c, name, value),
{
    assert forall|name: Seq<char>, value: Seq<char>| #[trigger] tells(b, name, value) implies tells(
        a + b + c,
        name,
        value,
    ) by {
        let i = choose|i: int| 0 <= i && i + 1 < b.len() && #[trigger] b[i] == name && b[i + 1] == value;
        let s = a + b + c;
        let k = a.len() + i;
        assert(s[k] == name && s[k + 1] == value);
    }
}

/// Whether arguments tell what a display volume, light levels and places of chroma samples are.
pub open spec fn tells_extras(
    args: Seq<Seq<char>>,
    inf: &VidInf,
    loc: Seq<char>,
    volume: Seq<char>,
    light: Seq<char>,
    x264_format: bool,
) -> bool {
    &&& 1 <= inf.chroma_sample_position <= 6 ==> tells(
        args,
        loc,
        decimal((inf.chroma_sample_position - 1) as nat),
    )
    &&& inf.mastering_display matches Some(m) ==> tells(
        args,
        volume,
        mastering_value(m, x264_format),
    )
    &&& inf.content_light matches Some(t) ==> tells(args, light, t@)
}

proof fn lemma_extras(
    own: Seq<Seq<char>>,
    n: int,
    inf: &VidInf,
    loc: Seq<char>,
    volume: Seq<char>,
    light: Seq<char>,
    x264_format: bool,
)
    requires
        0 <= n <= own.len(),
        own == own.take(n) + option_of(loc, chroma_loc(inf)) + option_of(
            volume,
            mastering_option(inf, x264_format),
        ) + option_of(light, light_option(inf)),
    ensures
        tells_extras(own, inf, loc, volume, light, x264_format),
{
    let k: int = n + option_of(loc, chroma_loc(inf)).len();
    let j: int = k + option_of(volume, mastering_option(inf, x264_format)).len();
    if 1 <= inf.chroma_sample_position <= 6 {
        assert(own[n] == loc && own[n + 1] == decimal((inf.chroma_sample_position - 1) as nat));
    }
    if let Some(m) = inf.mastering_display {
        assert(own[k] == volume && own[k + 1] == mastering_value(m, x264_format));
    }
    if let Some(t) = inf.content_light {
        assert(own[j] == light && own[j + 1] == t@);
    }
}

/// The colours of a video as x264 and x265 are told them are the video's own: primaries, transfer,
/// matrix and range each under its own option, and what else is known of the display.
pub proof fn law_h26x_are_told_the_colors(inf: &VidInf, is_x264: bool)
    ensures
        ({
            let c = h26x_colors(inf, is_x264);
            &&& tells(c, "--colorprim"@, x264_name(primaries_text(inf.color_primaries), is_x264))
            &&& tells(
                c,
                "--transfer"@,
                x264_name(transfer_text(inf.transfer_characteristics), is_x264),
            )
            &&& tells(c, "--colormatrix"@, x264_name(matrix_text(inf.matrix_coefficients), is_x264))
            &&& inf.color_range == 1 ==> tells(
                c,
                "--range"@,
                if is_x264 {
                    "pc"@
                } else {
                    "full"@
                },
            )
            &&& inf.color_range != 1 ==> tells(
                c,
                "--range"@,
                if is_x264 {
                    "tv"@
                } else {
                    "limited"@
                },
            )
            &&& is_x264 ==> tells_extras(
                c,
                inf,
                "--chromaloc"@,
                "--mastering-display"@,
                "--cll"@,
                true,
            )
            &&& !is_x264 ==> tells_extras(
                c,
                inf,
                "--chromaloc"@,
                "--master-display"@,
                "--max-cll"@,
                false,
            )
        }),
{
    let c = h26x_colors(inf, is_x264);
    assert(c[0] == "--colorprim"@ && c[1] == x264_name(
        primaries_text(inf.color_primaries),
        is_x264,
    ));
    assert(c[2] == "--transfer"@ && c[3] == x264_name(
        transfer_text(inf.transfer_characteristics),
        is_x264,
    ));
    assert(c[4] == "--colormatrix"@ && c[5] == x264_name(
        matrix_text(inf.matrix_coefficients),
        is_x264,
    ));
    assert(c[6] == "--range"@);
    assert(c[7] == if is_x264 {
        range_word(inf, "pc"@, "tv"@)
    } else {
        range_word(inf, "full"@, "limited"@)
    });
    if is_x264 {
        assert(c =~= c.take(8) + option_of("--chromaloc"@, chroma_loc(inf)) + option_of(
            "--mastering-display"@,
            mastering_option(inf, true),
        ) + option_of("--cll"@, light_option(inf)));
        lemma_extras(c, 8, inf, "--chromaloc"@, "--mastering-display"@, "--cll"@, true);
    } else {
        assert(c =~= c.take(8) + option_of("--chromaloc"@, chroma_loc(inf)) + option_of(
            "--master-display"@,
            mastering_option(inf, false),
        ) + option_of("--max-cll"@, light_option(inf)));
        lemma_extras(c, 8, inf, "--chromaloc"@, "--master-display"@, "--max-cll"@, false);
    }
}

/// The colours of a video as VVenC is told them are the video's own, each under its own option.
pub proof fn law_vvenc_is_told_the_colors(inf: &VidInf)
    ensures
        ({
            let c = vvenc_colors(inf);
            &&& tells(c, "--ColourPrimaries"@, primaries_text(inf.color_primaries))
            &&& tells(c, "--TransferCharacteristics"@, transfer_text(inf.transfer_characteristics))
            &&& tells(c, "--MatrixCoefficients"@, matrix_text(inf.matrix_coefficients))
            &&& inf.color_range == 1 ==> tells(c, "--Range"@, "full"@)
            &&& inf.color_range != 1 ==> tells(c, "--Range"@, "limited"@)
            &&& tells_extras(
                c,
                inf,
                "--ChromaSampleLocType"@,
                "--MasteringDisplayColourVolume"@,
                "--MaxContentLightLevel"@,
                false,
            )
        }),
{
    let c = vvenc_colors(inf);
    assert(c[2] == "--ColourPrimaries"@ && c[3] == primaries_text(inf.color_primaries));
    assert(c[4] == "--TransferCharacteristics"@ && c[5] == transfer_text(
        inf.transfer_characteristics,
    ));
    assert(c[6] == "--MatrixCoefficients"@ && c[7] == matrix_text(inf.matrix_coefficients));
    assert(c[8] == "--Range"@ && c[9] == range_word(inf, "full"@, "limited"@));
    assert(c =~= c.take(10) + option_of("--ChromaSampleLocType"@, chroma_loc(inf)) + option_of(
        "--MasteringDisplayColourVolume"@,
        mastering_option(inf, false),
    ) + option_of("--MaxContentLightLevel"@, light_option(inf)));
    lemma_extras(
        c,
        10,
        inf,
        "--ChromaSampleLocType"@,
        "--MasteringDisplayColourVolume"@,
        "--MaxContentLightLevel"@,
        false,
    );
}

/// Every program is told the colours of the video: x264 and VVenC as they are, x265 as they are or by
/// the signal preset that stands for all of them.
pub proof fn law_programs_are_told_the_colors(build: Build, cfg: &EncConfig)
    ensures
        forall|name: Seq<char>, value: Seq<char>| #[trigger]
            tells(h26x_colors(cfg.inf, true), name, value) ==> tells(
                own_args(x264_args(build, cfg), cfg, 3),
                name,
                value,
            ),
        forall|name: Seq<char>, value: Seq<char>| #[trigger]
            tells(vvenc_colors(cfg.inf), name, value) ==> tells(
                own_args(vvenc_args(cfg), cfg, 4),
                name,
                value,
            ),
        signal_preset(cfg.inf) is None ==> forall|name: Seq<char>, value: Seq<char>| #[trigger]
            tells(h26x_colors(cfg.inf, false), name, value) ==> tells(
                own_args(x265_args(build, cfg), cfg, 4),
                name,
                value,
            ),
        signal_preset(cfg.inf) matches Some(p) ==> {
            &&& exists|v: Seq<char>|
                p.is_prefix_of(v) && tells(
                    own_args(x265_args(build, cfg), cfg, 4),
                    "--video-signal-type-preset"@,
                    v,
                )
            &&& cfg.inf.mastering_display matches Some(m) ==> tells(
                own_args(x265_args(build, cfg), cfg, 4),
                "--master-display"@,
                mastering_value(m, false),
            )
            &&& cfg.inf.content_light matches Some(t) ==> tells(
                own_args(x265_args(build, cfg), cfg, 4),
                "--max-cll"@,
                t@,
            )
        },
        tells(
            own_args(x264_args(build, cfg), cfg, 3),
            "--input-range"@,
            if cfg.inf.color_range == 1 {
                "pc"@
            } else {
                "tv"@
            },
        ),
{
    let x4 = own_args(x264_args(build, cfg), cfg, 3);
    let x5 = own_args(x265_args(build, cfg), cfg, 4);
    let vv = own_args(vvenc_args(cfg), cfg, 4);
    let r4 = seq!["--input-range"@, range_word(cfg.inf, "pc"@, "tv"@)];
    let h4 = x264_fixed() + h26x_shape(cfg) + r4;
    let c4 = h26x_colors(cfg.inf, true);
    assert(x4 =~= h4 + c4 + asm_args(build));
    lemma_tells_in(h4, c4, asm_args(build));
    assert(x4 =~= (x264_fixed() + h26x_shape(cfg)) + r4 + (c4 + asm_args(build)));
    assert(r4[0] == "--input-range"@);
    assert(tells(r4, "--input-range"@, r4[1]));
    lemma_tells_in(x264_fixed() + h26x_shape(cfg), r4, c4 + asm_args(build));
    let cv = vvenc_colors(cfg.inf);
    let hv = vvenc_args(cfg).take(vv.len() - cv.len());
    assert(vv =~= hv + cv + seq![]);
    lemma_tells_in(hv, cv, seq![]);
    let c5 = x265_colors(cfg.inf);
    let h5 = x265_fixed() + h26x_shape(cfg);
    assert(x5 =~= h5 + c5 + asm_args(build));
    lemma_tells_in(h5, c5, asm_args(build));
    if let Some(p) = signal_preset(cfg.inf) {
        let v = preset_value(cfg.inf, p);
        assert(p.is_prefix_of(v));
        assert(c5[0] == "--video-signal-type-preset"@ && c5[1] == v);
        assert(tells(c5, "--video-signal-type-preset"@, v));
        let j: int = 2 + option_of("--master-display"@, mastering_option(cfg.inf, false)).len() as int;
        if let Some(m) = cfg.inf.mastering_display {
            assert(c5[2] == "--master-display"@ && c5[3] == mastering_value(m, false));
            assert(tells(c5, "--master-display"@, mastering_value(m, false)));
        }
        if let Some(t) = cfg.inf.content_light {
            assert(c5[j] == "--max-cll"@ && c5[j + 1] == t@);
            assert(tells(c5, "--max-cll"@, t@));
        }
    }
}


/// x265 is told to read and write ten bits with chroma at half size, to start no picture group by
/// itself, to work in one thread, and to leave out what a chunk's neighbours would contradict.
pub proof fn law_x265_is_told_how_to_encode(build: Build, cfg: &EncConfig)
    ensures
        ({
            let own = own_args(x265_args(build, cfg), cfg, 4);
            &&& tells(own, "--log-level"@, "error"@)
            &&& tells(own, "--input-csp"@, "1"@)
            &&& tells(own, "--input-depth"@, "10"@)
            &&& tells(own, "--output-depth"@, "10"@)
            &&& tells(own, "--profile"@, "main10"@)
            &&& tells(own, "--gop-lookahead"@, "0"@)
            &&& tells(own, "--rc-lookahead"@, "250"@)
            &&& tells(own, "--keyint"@, "-1"@)
            &&& tells(own, "--min-keyint"@, "9999"@)
            &&& own.contains("--no-scenecut"@)
            &&& tells(own, "--lookahead-slices"@, "1"@)
            &&& tells(own, "--lookahead-threads"@, "1"@)
            &&& tells(own, "--frame-threads"@, "1"@)
            &&& tells(own, "--slices"@, "1"@)
            &&& tells(own, "--pools"@, "1"@)
            &&& own.contains("--no-wpp"@)
            &&& own.contains("--no-info"@)
            &&& own.contains("--no-vui-hrd-info"@)
            &&& own.contains("--no-vui-timing-info"@)
        }),
{
    let own = own_args(x265_args(build, cfg), cfg, 4);
    assert(own[0] == "--log-level"@ && own[1] == "error"@);
    assert(own[2] == "--input-csp"@ && own[3] == "1"@);
    assert(own[4] == "--input-depth"@ && own[5] == "10"@);
    assert(own[6] == "--output-depth"@ && own[7] == "10"@);
    assert(own[8] == "--profile"@ && own[9] == "main10"@);
    assert(own[10] == "--gop-lookahead"@ && own[11] == "0"@);
    assert(own[12] == "--rc-lookahead"@ && own[13] == "250"@);
    assert(own[14] == "--keyint"@ && own[15] == "-1"@);
    assert(own[16] == "--min-keyint"@ && own[17] == "9999"@);
    assert(own[18] == "--no-scenecut"@);
    assert(own[19] == "--lookahead-slices"@ && own[20] == "1"@);
    assert(own[21] == "--lookahead-threads"@ && own[22] == "1"@);
    assert(own[23] == "--frame-threads"@ && own[24] == "1"@);
    assert(own[25] == "--slices"@ && own[26] == "1"@);
    assert(own[27] == "--pools"@ && own[28] == "1"@);
    assert(own[29] == "--no-wpp"@);
    assert(own[30] == "--no-info"@);
    assert(own[31] == "--no-vui-hrd-info"@);
    assert(own[32] == "--no-vui-timing-info"@);
}

/// x264 is told to read and write ten bits with chroma at half size, to start no picture group by
/// itself, to work in one thread, and to write a raw stream.
pub proof fn law_x264_is_told_how_to_encode(build: Build, cfg: &EncConfig)
    ensures
        ({
            let own = own_args(x264_args(build, cfg), cfg, 3);
            &&& tells(own, "--log-level"@, "error"@)
            &&& tells(own, "--input-csp"@, "i420"@)
            &&& tells(own, "--output-csp"@, "i420"@)
            &&& tells(own, "--input-depth"@, "10"@)
            &&& tells(own, "--output-depth"@, "10"@)
            &&& tells(own, "--profile"@, "high10"@)
            &&& tells(own, "--keyint"@, "infinite"@)
            &&& tells(own, "--min-keyint"@, "9999"@)
            &&& own.contains("--no-scenecut"@)
            &&& tells(own, "--b-adapt"@, "2"@)
            &&& tells(own, "--muxer"@, "raw"@)
            &&& tells(own, "--demuxer"@, "raw"@)
            &&& tells(own, "--threads"@, "1"@)
            &&& tells(own, "--lookahead-threads"@, "1"@)
            &&& own.contains("--force-cfr"@)
            &&& own.contains("--non-deterministic"@)
            &&& tells(own, "--nal-hrd"@, "none"@)
            &&& tells(own, "--rc-lookahead"@, "250"@)
        }),
{
    let own = own_args(x264_args(build, cfg), cfg, 3);
    assert(own[0] == "--log-level"@ && own[1] == "error"@);
    assert(own[2] == "--input-csp"@ && own[3] == "i420"@);
    assert(own[4] == "--output-csp"@ && own[5] == "i420"@);
    assert(own[6] == "--input-depth"@ && own[7] == "10"@);
    assert(own[8] == "--output-depth"@ && own[9] == "10"@);
    assert(own[10] == "--profile"@ && own[11] == "high10"@);
    assert(own[12] == "--keyint"@ && own[13] == "infinite"@);
    assert(own[14] == "--min-keyint"@ && own[15] == "9999"@);
    assert(own[16] == "--no-scenecut"@);
    assert(own[17] == "--b-adapt"@ && own[18] == "2"@);
    assert(own[19] == "--muxer"@ && own[20] == "raw"@);
    assert(own[21] == "--demuxer"@ && own[22] == "raw"@);
    assert(own[23] == "--threads"@ && own[24] == "1"@);
    assert(own[25] == "--lookahead-threads"@ && own[26] == "1"@);
    assert(own[27] == "--force-cfr"@);
    assert(own[28] == "--non-deterministic"@);
    assert(own[29] == "--nal-hrd"@ && own[30] == "none"@);
    assert(own[31] == "--rc-lookahead"@ && own[32] == "250"@);
}

proof fn lemma_small_numbers()
    ensures
        signed(10) == "10"@,
        signed(1) == "1"@,
        signed(0) == "0"@,
        signed(-1) == "-1"@,
{
    reveal_strlit("10");
    reveal_strlit("1");
    reveal_strlit("0");
    reveal_strlit("-1");
    reveal_with_fuel(decimal, 2);
    assert(signed(10) =~= "10"@);
    assert(signed(1) =~= "1"@);
    assert(signed(0) =~= "0"@);
    assert(signed(-1) =~= "-1"@);
}

/// VVenC is told the same whether it runs as a program or as a library: the size, the rate and the
/// number of frames, the quality, the depths, one thread, and no picture group of its own.
pub proof fn law_vvenc_is_told_the_same_both_ways(
    cfg: &EncConfig,
    was: VvencConfig,
    based: VvencConfig,
    qp: Option<i32>,
)
    requires
        is_based(was, based, cfg.inf, cfg.width, cfg.height),
        cfg.width <= i32::MAX,
        cfg.height <= i32::MAX,
        cfg.frames <= i32::MAX,
        cfg.inf.fps_num <= i32::MAX,
        cfg.inf.fps_den <= i32::MAX,
        match cfg.crf {
            Some(c) => qp == Some(c.whole),
            None => qp is None,
        },
    ensures
        ({
            let own = own_args(vvenc_args(cfg), cfg, 4);
            let lib = for_chunk(based, cfg.frames, qp);
            &&& tells(own, "--SourceWidth"@, signed(lib.m_SourceWidth as int))
            &&& tells(own, "--SourceHeight"@, signed(lib.m_SourceHeight as int))
            &&& tells(
                own,
                "--fps"@,
                signed(lib.m_FrameRate as int) + "/"@ + signed(lib.m_FrameScale as int),
            )
            &&& tells(own, "--FramesToBeEncoded"@, signed(lib.m_framesToBeEncoded as int))
            &&& qp is Some ==> tells(own, "--QP"@, signed(lib.m_QP as int))
            &&& qp is None ==> lib.m_QP == was.m_QP
            &&& tells(own, "--InputBitDepth"@, signed(lib.m_inputBitDepth@[0] as int))
            &&& tells(own, "--InternalBitDepth"@, signed(lib.m_internalBitDepth@[0] as int))
            &&& tells(own, "--OutputBitDepth"@, signed(lib.m_outputBitDepth@[0] as int))
            &&& tells(own, "--MaxBitDepthConstraint"@, signed(lib.m_MSBExtendedBitDepth@[0] as int))
            &&& lib.m_inputBitDepth@[1] == lib.m_inputBitDepth@[0]
            &&& lib.m_internalBitDepth@[1] == lib.m_internalBitDepth@[0]
            &&& lib.m_outputBitDepth@[1] == lib.m_outputBitDepth@[0]
            &&& lib.m_MSBExtendedBitDepth@[1] == lib.m_MSBExtendedBitDepth@[0]
            &&& tells(own, "--Threads"@, signed(lib.m_numThreads as int))
            &&& tells(own, "--IntraPeriod"@, signed(lib.m_IntraPeriod as int))
            &&& tells(own, "--RefreshSec"@, signed(lib.m_IntraPeriodSec as int))
            &&& tells(own, "--POC0IDR"@, "1"@) && lib.m_poc0idr
            &&& tells(own, "--DecodingRefreshType"@, "idr"@) && lib.m_DecodingRefreshType
                == VVENC_DRT_IDR
            &&& tells(own, "--InputChromaFormat"@, "420"@) && lib.m_internChromaFormat
                == VVENC_CHROMA_420
            &&& tells(own, "--Profile"@, "main_10"@) && lib.m_profile == VVENC_PROFILE_MAIN_10
            &&& tells(own, "--Tier"@, "main"@) && lib.m_levelTier == VVENC_TIER_MAIN
            &&& tells(own, "--NumPasses"@, "1"@) && tells(own, "--Passes"@, "1"@)
            &&& tells(own, "--stats"@, "0"@) && tells(own, "-v"@, "4"@) && lib.m_verbosity
                == VVENC_MSG_SILENT
        }),
{
    lemma_small_numbers();
    law_vvenc_is_told_the_chunk(cfg);
    let own = own_args(vvenc_args(cfg), cfg, 4);
    assert(own[0] == "-v"@ && own[1] == "4"@);
    assert(own[2] == "--stats"@ && own[3] == "0"@);
    assert(own[4] == "--InputBitDepth"@ && own[5] == "10"@);
    assert(own[6] == "--InputChromaFormat"@ && own[7] == "420"@);
    assert(own[8] == "--IntraPeriod"@ && own[9] == "-1"@);
    assert(own[10] == "--RefreshSec"@ && own[11] == "0"@);
    assert(own[12] == "--DecodingRefreshType"@ && own[13] == "idr"@);
    assert(own[14] == "--POC0IDR"@ && own[15] == "1"@);
    assert(own[16] == "--NumPasses"@ && own[17] == "1"@);
    assert(own[18] == "--Passes"@ && own[19] == "1"@);
    assert(own[20] == "--Threads"@ && own[21] == "1"@);
    assert(own[22] == "--Profile"@ && own[23] == "main_10"@);
    assert(own[24] == "--Tier"@ && own[25] == "main"@);
    assert(own[26] == "--MaxBitDepthConstraint"@ && own[27] == "10"@);
    assert(own[28] == "--InternalBitDepth"@ && own[29] == "10"@);
    assert(own[30] == "--OutputBitDepth"@ && own[31] == "10"@);
}

/// The stream on which a program shows its progress is read, its frames go in through a pipe, and it
/// is the program that is asked for its version.
pub proof fn law_watched_streams_are_pipes(
    encoder: Encoder,
    build: Build,
    cfg: &EncConfig,
    zone: Option<&str>,
    cmd: Command,
    watch: WatchEnc,
    query: Option<VersionQuery>,
)
    requires
        !in_process(build, encoder),
        call_ensures(make_enc_cmd, (encoder, build, cfg, zone), cmd),
        call_ensures(resolve_watch_enc, (encoder, build), watch),
        call_ensures(Encoder::version_query, (encoder, build), query),
    ensures
        cmd.pipe_stdin && cmd.pipe_stderr,
        cmd.pipe_stdout <==> watch is Stdout,
        !cmd.pipe_stdout <==> watch is Stderr,
        query matches Some(q) ==> q.prog@ == cmd.prog@,
        query is Some,
{
}

/// What a zone sets stands behind everything else, word by word, and a chunk outside of zones is
/// encoded with what the run sets alone.
pub proof fn law_zones_come_last(
    encoder: Encoder,
    build: Build,
    cfg: &EncConfig,
    zone: &str,
    plain: Command,
    zoned: Command,
)
    requires
        !in_process(build, encoder),
        call_ensures(make_enc_cmd, (encoder, build, cfg, None), plain),
        call_ensures(make_enc_cmd, (encoder, build, cfg, Some(zone)), zoned),
    ensures
        texts(zoned.args@) == texts(plain.args@) + words_of(zone@),
        texts(plain.args@) == enc_args(encoder, build, cfg),
        zoned.prog@ == plain.prog@,
{
    assert(texts(plain.args@) =~= enc_args(encoder, build, cfg));
}

/// x264 has a word of its own for a colour that is not known; every other name, and every name for
/// x265, stays.
pub proof fn law_unknown_colors_are_undefined_to_x264(s: Seq<char>)
    ensures
        x264_name(s, false) == s,
        s != "unknown"@ ==> x264_name(s, true) == s,
        s == "unknown"@ ==> x264_name(s, true) == "undef"@,
        x264_name(s, true) != "unknown"@,
{
    reveal_strlit("unknown");
    reveal_strlit("undef");
    assert("unknown"@.len() == 7 && "undef"@.len() == 5);
}

/// A build for AVX-512 says so to x264 and x265, and differs from other builds in nothing else.
pub proof fn law_builds_differ_in_one_option(cfg: &EncConfig, a: Build, b: Build)
    requires
        a.avx512,
        !b.avx512,
    ensures
        tells(own_args(x264_args(a, cfg), cfg, 3), "--asm"@, "avx512"@),
        tells(own_args(x265_args(a, cfg), cfg, 4), "--asm"@, "avx512"@),
        own_args(x264_args(b, cfg), cfg, 3) == own_args(x264_args(a, cfg), cfg, 3).drop_last().drop_last(),
        own_args(x265_args(b, cfg), cfg, 4) == own_args(x265_args(a, cfg), cfg, 4).drop_last().drop_last(),
{
    let x4 = own_args(x264_args(a, cfg), cfg, 3);
    let x5 = own_args(x265_args(a, cfg), cfg, 4);
    assert(x4[x4.len() - 2] == "--asm"@ && x4[x4.len() - 1] == "avx512"@);
    assert(x4[x4.len() - 2 + 1] == "avx512"@);
    assert(x5[x5.len() - 2] == "--asm"@ && x5[x5.len() - 1] == "avx512"@);
    assert(x5[x5.len() - 2 + 1] == "avx512"@);
    assert(own_args(x264_args(b, cfg), cfg, 3) =~= x4.drop_last().drop_last());
    assert(own_args(x265_args(b, cfg), cfg, 4) =~= x5.drop_last().drop_last());
}

/// The name of a display's colour volume stands behind a preset for perceptual quantization, with a
/// colon between them, and behind no other preset.
pub proof fn law_presets_name_the_volume(inf: &VidInf, preset: Seq<char>, v: Seq<char>)
    ensures
        inf.mastering_display is None ==> preset_value(inf, preset) == preset,
        inf.mastering_display matches Some(m) ==> color_volume(m) is None ==> preset_value(inf, preset)
            == preset,
        inf.mastering_display matches Some(m) ==> color_volume(m) == Some(v)
            && "BT2100_PQ"@.is_prefix_of(preset) ==> preset_value(inf, preset) == preset.push(':') + v,
        !"BT2100_PQ"@.is_prefix_of(preset) ==> preset_value(inf, preset) == preset,
{
    reveal_strlit(":");
    assert(preset + ":"@ + v =~= preset.push(':') + v);
}

/// A colour volume with a name has the primaries that the name tells: P3 with D65 white, or BT.2100
/// ones; and different volumes have different names.
pub proof fn law_volumes_have_their_names(a: Mastering, b: Mastering)
    requires
        color_volume(a) is Some,
    ensures
        color_volume(a) == color_volume(b) ==> a == b,
        (a.wx, a.wy) == (15635u32, 16450u32),
        (color_volume(a)->0)[0] == 'P' <==> (a.gx, a.gy) == (13250u32, 34500u32),
        (color_volume(a)->0)[0] == 'P' ==> (color_volume(a)->0)[6] as u32 - '0' as u32 == a.lmax
            / 10_000_000,
{
    reveal_strlit("P3D65x1000n0005");
    reveal_strlit("P3D65x4000n005");
    reveal_strlit("BT2100x108n0005");
    assert("P3D65x1000n0005"@.len() == 15 && "P3D65x1000n0005"@[0] == 'P' && "P3D65x1000n0005"@[6]
        == '1');
    assert("P3D65x4000n005"@.len() == 14 && "P3D65x4000n005"@[0] == 'P' && "P3D65x4000n005"@[6]
        == '4');
    assert("BT2100x108n0005"@.len() == 15 && "BT2100x108n0005"@[0] == 'B');
}

/// A message about a chunk or a probe that failed ends with what failed, the chunk by its number.
pub proof fn law_failures_name_what_failed(idx: u16, out: &str, chunk: String, probe: String)
    requires
        call_ensures(chunk_failure, (idx,), chunk),
        call_ensures(probe_failure, (out,), probe),
    ensures
        exists|k: int|
            #![trigger chunk@.skip(k)]
            0 <= k < chunk@.len() && all_digits(chunk@.skip(k)) && digits_value(chunk@.skip(k)) == idx
                && chunk@.skip(k).len() >= 4,
        "encode failed: chunk "@.is_prefix_of(chunk@),
        "probe encode failed: "@.is_prefix_of(probe@),
        probe@.skip(probe@.len() - out@.len()) == out@,
{
    lemma_zero_padded(idx as nat, 4);
    let head = "encode failed: chunk "@;
    assert(chunk@.skip(head.len() as int) =~= zero_padded(idx as nat, 4));
    assert(probe@.skip(probe@.len() - out@.len()) =~= out@);
}


/// How many words an option takes where it is there.
pub open spec fn words_if(there: bool) -> int {
    if there {
        2
    } else {
        0
    }
}

/// The programs are told nothing else: what is not known of a video, and a quality that is not set,
/// takes no word.
pub proof fn law_nothing_else_is_told(build: Build, cfg: &EncConfig, is_x264: bool)
    ensures
        ({
            let inf = cfg.inf;
            let extras = words_if(1 <= inf.chroma_sample_position <= 6) + words_if(
                inf.mastering_display is Some,
            ) + words_if(inf.content_light is Some);
            let crf = words_if(cfg.crf is Some);
            let simd = words_if(build.avx512);
            &&& h26x_colors(inf, is_x264).len() == 8 + extras
            &&& vvenc_colors(inf).len() == 10 + extras
            &&& own_args(vvenc_args(cfg), cfg, 4).len() == 40 + crf + vvenc_colors(inf).len()
            &&& own_args(x264_args(build, cfg), cfg, 3).len() == 43 + crf + h26x_colors(
                inf,
                true,
            ).len() + simd
            &&& signal_preset(inf) is None ==> own_args(x265_args(build, cfg), cfg, 4).len() == 41 + crf
                + h26x_colors(inf, false).len() + simd
            &&& signal_preset(inf) is Some ==> own_args(x265_args(build, cfg), cfg, 4).len() == 43 + crf
                + words_if(inf.mastering_display is Some) + words_if(inf.content_light is Some) + simd
        }),
{
}

} // verus!
