//! Which way a video, a build and an encoder take through the program.
use vstd::prelude::*;

use crate::args::Args;
use crate::encoder::{in_process, Build, Encoder};

verus! {

/// What the decoder hands out.
#[derive(Clone, Copy, Debug, PartialEq, Eq, Structural)]
pub struct Strat {
    /// Frames that an encoder takes as they are.
    pub raw: bool,
    /// Frames with their chroma samples side by side.
    pub nv12: bool,
}

/// The sizes of a frame on its way through the program.
#[derive(Clone, Copy, Debug, PartialEq, Eq, Structural)]
pub struct Pipe {
    pub final_w: usize,
    pub final_h: usize,
    pub frame_sz: usize,
}

/// How many items the conversions take at a time.
#[derive(Clone, Copy, Debug, PartialEq, Eq, Structural)]
pub struct Lanes {
    pub pack: usize,
    pub shift: usize,
    pub unpack: usize,
}

/// Whether `n` is a multiple of `d`; of zero only zero is.
pub open spec fn is_multiple(n: nat, d: nat) -> bool {
    if d == 0 {
        n == 0
    } else {
        n % d == 0
    }
}

fn multiple(n: usize, d: usize) -> (r: bool)
    ensures
        r == is_multiple(n as nat, d as nat),
{
    if d == 0 {
        n == 0
    } else {
        n % d == 0
    }
}

/// The sizes can be multiplied.
pub open spec fn fits(pipe: Pipe, lanes: Lanes) -> bool {
    pipe.final_w * pipe.final_h <= usize::MAX && lanes.shift * 2 <= usize::MAX
}

/// Whether the conversion from side-by-side chroma leaves nothing over.
pub open spec fn nv12_fits(pipe: Pipe, lanes: Lanes) -> bool {
    &&& is_multiple((pipe.final_w * pipe.final_h) as nat, lanes.shift as nat)
    &&& is_multiple(
        ((pipe.final_w / 2) * (pipe.final_h / 2)) as nat,
        (lanes.shift * 2) as nat,
    )
}

/// Whether the unpacking of ten bits leaves nothing over.
pub open spec fn unpack_fits(pipe: Pipe, lanes: Lanes) -> bool {
    is_multiple(pipe.final_w as nat, lanes.pack as nat) && is_multiple(
        pipe.frame_sz as nat,
        lanes.unpack as nat,
    )
}

/// Whether the conversion from side-by-side chroma leaves nothing over.
pub fn nv12_exact(pipe: Pipe, lanes: Lanes) -> (r: bool)
    requires
        fits(pipe, lanes),
    ensures
        r == nv12_fits(pipe, lanes),
{
    let w: usize = pipe.final_w / 2;
    let h: usize = pipe.final_h / 2;
    assert(0 <= w * h <= pipe.final_w * pipe.final_h) by (nonlinear_arith)
        requires
            w <= pipe.final_w,
            h <= pipe.final_h,
            0 <= w,
            0 <= h,
    ;
    multiple(pipe.final_w * pipe.final_h, lanes.shift) && multiple(w * h, lanes.shift * 2)
}

/// Whether the unpacking of ten bits leaves nothing over.
pub fn unpack_exact(pipe: Pipe, lanes: Lanes) -> (r: bool)
    ensures
        r == unpack_fits(pipe, lanes),
{
    multiple(pipe.final_w, lanes.pack) && multiple(pipe.frame_sz, lanes.unpack)
}

/// How frames become what an encoder takes. The forms with `Rem` handle what is left over.
#[derive(Clone, Copy, Debug, PartialEq, Eq, Structural)]
pub enum Conv {
    Direct,
    Nv12,
    Nv12Rem,
    Unpack,
    UnpackRem,
    Shift,
    ShiftRem,
}

/// How frames become what an encoder takes.
pub open spec fn conv_of(strat: Strat, is_10b: bool, pipe: Pipe, lanes: Lanes) -> Conv {
    if strat.raw {
        Conv::Direct
    } else if strat.nv12 {
        if nv12_fits(pipe, lanes) {
            Conv::Nv12
        } else {
            Conv::Nv12Rem
        }
    } else {
        depth_conv(is_10b, pipe, lanes)
    }
}

/// How frames with planes of their own become what an encoder takes, by their depth.
pub open spec fn depth_conv(is_10b: bool, pipe: Pipe, lanes: Lanes) -> Conv {
    if is_10b {
        if unpack_fits(pipe, lanes) {
            Conv::Unpack
        } else {
            Conv::UnpackRem
        }
    } else if is_multiple(pipe.frame_sz as nat, lanes.shift as nat) {
        Conv::Shift
    } else {
        Conv::ShiftRem
    }
}

fn by_depth(is_10b: bool, pipe: Pipe, lanes: Lanes) -> (r: Conv)
    ensures
        r == depth_conv(is_10b, pipe, lanes),
{
    if is_10b {
        if unpack_exact(pipe, lanes) {
            Conv::Unpack
        } else {
            Conv::UnpackRem
        }
    } else if multiple(pipe.frame_sz, lanes.shift) {
        Conv::Shift
    } else {
        Conv::ShiftRem
    }
}

/// The libraries that encode inside the process.
#[derive(Clone, Copy, Debug, PartialEq, Eq, Structural)]
pub enum Lib {
    Svt,
    Avm,
    Vvenc,
}

/// How a chunk is encoded inside the process.
#[derive(Clone, Copy, Debug, PartialEq, Eq, Structural)]
pub struct LibEnc {
    pub lib: Lib,
    pub conv: Conv,
    /// The frames are kept for the next probe, and each probe sets a quality.
    pub probes: bool,
}

/// The library of an encoder in a build; SVT-AV1 stands in for those that are not linked.
pub open spec fn lib_of(encoder: Encoder, build: Build) -> Lib {
    if encoder is Avm && build.avm {
        Lib::Avm
    } else if encoder is Vvenc && build.vvenc {
        Lib::Vvenc
    } else {
        Lib::Svt
    }
}

/// How a chunk is encoded inside the process, at a fixed quality.
pub fn resolve_lib_enc(
    encoder: Encoder,
    build: Build,
    strat: Strat,
    is_10b: bool,
    pipe: Pipe,
    lanes: Lanes,
) -> (r: LibEnc)
    requires
        strat.nv12 && !strat.raw ==> fits(pipe, lanes),
    ensures
        r == (LibEnc {
            lib: lib_of(encoder, build),
            conv: conv_of(strat, is_10b, pipe, lanes),
            probes: false,
        }),
{
    let lib = match encoder {
        Encoder::Avm => if build.avm {
            Lib::Avm
        } else {
            Lib::Svt
        },
        Encoder::Vvenc => if build.vvenc {
            Lib::Vvenc
        } else {
            Lib::Svt
        },
        _ => Lib::Svt,
    };
    let conv = if strat.raw {
        Conv::Direct
    } else if strat.nv12 {
        if nv12_exact(pipe, lanes) {
            Conv::Nv12
        } else {
            Conv::Nv12Rem
        }
    } else {
        by_depth(is_10b, pipe, lanes)
    };
    LibEnc { lib, conv, probes: false }
}

/// How a probe is encoded inside the process.
pub fn resolve_crf_enc(encoder: Encoder, build: Build, is_10b: bool, pipe: Pipe, lanes: Lanes) -> (r:
    LibEnc)
    ensures
        r == (LibEnc {
            lib: if encoder is Vvenc && build.vvenc {
                Lib::Vvenc
            } else {
                Lib::Svt
            },
            conv: depth_conv(is_10b, pipe, lanes),
            probes: true,
        }),
{
    let vvenc: bool = match encoder {
        Encoder::Vvenc => build.vvenc,
        _ => false,
    };
    LibEnc {
        lib: if vvenc {
            Lib::Vvenc
        } else {
            Lib::Svt
        },
        conv: by_depth(is_10b, pipe, lanes),
        probes: true,
    }
}

/// The exact forms are chosen only where nothing is left over.
pub proof fn law_exact_forms_leave_nothing(
    strat: Strat,
    is_10b: bool,
    pipe: Pipe,
    lanes: Lanes,
)
    requires
        lanes.shift > 0,
        lanes.pack > 0,
        lanes.unpack > 0,
    ensures
        conv_of(strat, is_10b, pipe, lanes) is Shift ==> pipe.frame_sz % lanes.shift == 0,
        conv_of(strat, is_10b, pipe, lanes) is Unpack ==> pipe.frame_sz % lanes.unpack == 0
            && pipe.final_w % lanes.pack == 0,
        conv_of(strat, is_10b, pipe, lanes) is Nv12 ==> (pipe.final_w * pipe.final_h) as nat
            % (lanes.shift as nat) == 0 && ((pipe.final_w / 2) * (pipe.final_h / 2)) as nat
            % ((lanes.shift * 2) as nat) == 0,
{
}

/// Where the progress of an encoder that runs as a program is read.
#[derive(Clone, Copy, Debug, PartialEq, Eq, Structural)]
pub enum WatchEnc {
    Stderr,
    Stdout,
    /// It does not run as a program.
    Never,
}

/// Where the progress of an encoder is read.
pub open spec fn watch_of(encoder: Encoder, build: Build) -> WatchEnc {
    match encoder {
        Encoder::X265 | Encoder::X264 => WatchEnc::Stderr,
        Encoder::Vvenc => if build.vvenc {
            WatchEnc::Never
        } else {
            WatchEnc::Stdout
        },
        _ => WatchEnc::Never,
    }
}

/// Where the progress of an encoder is read.
pub fn resolve_watch_enc(encoder: Encoder, build: Build) -> (r: WatchEnc)
    ensures
        r == watch_of(encoder, build),
        r is Never <==> in_process(build, encoder),
{
    match encoder {
        Encoder::X265 | Encoder::X264 => WatchEnc::Stderr,
        Encoder::Vvenc => if build.vvenc {
            WatchEnc::Never
        } else {
            WatchEnc::Stdout
        },
        Encoder::SvtAv1 | Encoder::Avm => WatchEnc::Never,
    }
}

/// How chunks are encoded at a fixed quality.
#[derive(Clone, Copy, Debug, PartialEq, Eq, Structural)]
pub enum ChnkFn {
    /// By a program.
    Program,
    /// Inside the process, all from one template.
    Lib,
    /// Inside the process, each from the template of its zone.
    LibZoned,
}

/// How chunks are encoded at a fixed quality.
pub fn resolve_chnk_fn(encoder: Encoder, build: Build, zoned: bool) -> (r: ChnkFn)
    ensures
        r == if !in_process(build, encoder) {
            ChnkFn::Program
        } else if zoned {
            ChnkFn::LibZoned
        } else {
            ChnkFn::Lib
        },
{
    if !build.is_lib_enc(encoder) {
        ChnkFn::Program
    } else if zoned {
        ChnkFn::LibZoned
    } else {
        ChnkFn::Lib
    }
}

/// How probes are encoded.
#[derive(Clone, Copy, Debug, PartialEq, Eq, Structural)]
pub enum ProbeFn {
    Lib,
    Program,
}

/// How probes are encoded.
pub fn resolve_probe_fn(encoder: Encoder, build: Build) -> (r: ProbeFn)
    ensures
        r is Lib <==> in_process(build, encoder),
{
    if build.is_lib_enc(encoder) {
        ProbeFn::Lib
    } else {
        ProbeFn::Program
    }
}

/// Whose templates a run needs.
pub open spec fn templates_of(encoder: Encoder, build: Build) -> Option<Lib> {
    match encoder {
        Encoder::SvtAv1 => Some(Lib::Svt),
        Encoder::Avm => if build.avm {
            Some(Lib::Avm)
        } else {
            None
        },
        Encoder::Vvenc => if build.vvenc {
            Some(Lib::Vvenc)
        } else {
            None
        },
        _ => None,
    }
}

/// Whose templates a run needs.
pub fn resolve_build_tmpl(encoder: Encoder, build: Build) -> (r: Option<Lib>)
    ensures
        r == templates_of(encoder, build),
{
    match encoder {
        Encoder::SvtAv1 => Some(Lib::Svt),
        Encoder::Avm => if build.avm {
            Some(Lib::Avm)
        } else {
            None
        },
        Encoder::Vvenc => if build.vvenc {
            Some(Lib::Vvenc)
        } else {
            None
        },
        Encoder::X265 | Encoder::X264 => None,
    }
}

/// Who decodes a probe.
#[derive(Clone, Copy, Debug, PartialEq, Eq, Structural)]
pub enum ProbeDec {
    Dav1d,
    Ff,
}

/// The metrics.
#[derive(Clone, Copy, Debug, PartialEq, Eq, Structural)]
pub enum Metric {
    Butter,
    Cvvdp,
    Ssimu2,
}

/// The shape of the frames that a metric compares.
#[derive(Clone, Copy, Debug, PartialEq, Eq, Structural)]
pub enum Shape {
    Eight,
    Ten,
    TenRem,
}

/// What becomes of the best probe.
#[derive(Clone, Copy, Debug, PartialEq, Eq, Structural)]
pub enum Output {
    /// Its bytes are written.
    Bytes,
    /// The last encode was written already; its bytes are counted.
    Probe,
    /// Its file is copied.
    Copy,
    /// The last encode was written already; its file is measured.
    Stat,
}

/// How probes are measured.
#[derive(Clone, Copy, Debug, PartialEq, Eq, Structural)]
pub struct MetricLoop {
    pub dec: ProbeDec,
    pub metric: Metric,
    pub shape: Shape,
    pub output: Output,
    /// The bytes of the best probe so far are kept.
    pub retain: bool,
    /// Probes are files.
    pub split_files: bool,
}

/// The metric of a target quality.
pub open spec fn metric_of(use_butter: bool, use_cvvdp: bool) -> Metric {
    if use_butter {
        Metric::Butter
    } else if use_cvvdp {
        Metric::Cvvdp
    } else {
        Metric::Ssimu2
    }
}

/// The metric of a target quality.
pub fn choose_metric(use_butter: bool, use_cvvdp: bool) -> (r: Metric)
    ensures
        r == metric_of(use_butter, use_cvvdp),
{
    if use_butter {
        Metric::Butter
    } else if use_cvvdp {
        Metric::Cvvdp
    } else {
        Metric::Ssimu2
    }
}

impl Metric {
    /// The name of the metric in the log.
    pub fn metric_name(self) -> (r: &'static str)
        ensures
            r@ == match self {
                Metric::Butter => "butter"@,
                Metric::Cvvdp => "cvvdp"@,
                Metric::Ssimu2 => "ssimulacra2"@,
            },
    {
        match self {
            Metric::Butter => "butter",
            Metric::Cvvdp => "cvvdp",
            Metric::Ssimu2 => "ssimulacra2",
        }
    }
}

/// The shape of the frames that a metric compares.
pub open spec fn shape_of(is_10b: bool, pipe: Pipe, lanes: Lanes) -> Shape {
    if !is_10b {
        Shape::Eight
    } else if unpack_fits(pipe, lanes) {
        Shape::Ten
    } else {
        Shape::TenRem
    }
}

/// The shape of the frames that a metric compares.
pub fn by_shape(is_10b: bool, pipe: Pipe, lanes: Lanes) -> (r: Shape)
    ensures
        r == shape_of(is_10b, pipe, lanes),
{
    if !is_10b {
        Shape::Eight
    } else if unpack_exact(pipe, lanes) {
        Shape::Ten
    } else {
        Shape::TenRem
    }
}

/// How probes are measured: those of SVT-AV1 stay in memory; with parameters of their own for
/// probes, the best quality is encoded once more at the end.
pub fn resolve_metric_loop(
    encoder: Encoder,
    use_alt: bool,
    metric: Metric,
    is_10b: bool,
    pipe: Pipe,
    lanes: Lanes,
) -> (r: MetricLoop)
    ensures
        r == (MetricLoop {
            dec: if encoder is SvtAv1 {
                ProbeDec::Dav1d
            } else {
                ProbeDec::Ff
            },
            metric,
            shape: shape_of(is_10b, pipe, lanes),
            output: match (encoder is SvtAv1, use_alt) {
                (true, false) => Output::Bytes,
                (true, true) => Output::Probe,
                (false, false) => Output::Copy,
                (false, true) => Output::Stat,
            },
            retain: encoder is SvtAv1 && !use_alt,
            split_files: !(encoder is SvtAv1),
        }),
{
    let dav1d: bool = match encoder {
        Encoder::SvtAv1 => true,
        _ => false,
    };
    let (dec, output) = match (dav1d, use_alt) {
        (true, false) => (ProbeDec::Dav1d, Output::Bytes),
        (true, true) => (ProbeDec::Dav1d, Output::Probe),
        (false, false) => (ProbeDec::Ff, Output::Copy),
        (false, true) => (ProbeDec::Ff, Output::Stat),
    };
    MetricLoop {
        dec,
        metric,
        shape: by_shape(is_10b, pipe, lanes),
        output,
        retain: dav1d && !use_alt,
        split_files: !dav1d,
    }
}

/// How the workers of a target-quality run encode.
#[derive(Clone, Copy, Debug, PartialEq, Eq, Structural)]
pub struct TqLoop {
    /// Each chunk has the template of its zone.
    pub zoned: bool,
    /// Probes are files.
    pub probe_files: bool,
}

/// How the workers of a target-quality run encode.
pub fn resolve_tq_loop(zoned: bool, lib: bool) -> (r: TqLoop)
    ensures
        r == (TqLoop { zoned, probe_files: !lib }),
{
    TqLoop { zoned, probe_files: !lib }
}

/// A template: one of the run's own, or one for probes.
#[derive(Clone, Copy, Debug, PartialEq, Eq, Structural)]
pub struct TemplateAt {
    pub for_probes: bool,
    pub index: usize,
}

/// The template that a chunk is encoded from. `own` and `alt` are how many templates there are:
/// of the run's own, and of those for probes where there are any.
pub open spec fn template_of(
    is_final: bool,
    zoned: bool,
    tmpl: u16,
    own: usize,
    alt: Option<usize>,
) -> Option<TemplateAt> {
    let for_probes = !is_final && alt is Some;
    let n = if for_probes {
        alt->0
    } else {
        own
    };
    if zoned {
        Some(TemplateAt { for_probes, index: tmpl as usize })
    } else if n > 0 {
        Some(TemplateAt { for_probes, index: 0 })
    } else {
        None
    }
}

/// The template that a chunk is encoded from: the last encode takes the run's own, a probe that
/// for probes where there is one; with zones the one of the chunk's zone, else the first.
pub fn pick_template(is_final: bool, zoned: bool, tmpl: u16, own: usize, alt: Option<usize>) -> (r:
    Option<TemplateAt>)
    requires
        zoned ==> tmpl < own && (alt matches Some(n) ==> tmpl < n),
    ensures
        r == template_of(is_final, zoned, tmpl, own, alt),
        r matches Some(t) ==> t.index < if t.for_probes {
            alt->0
        } else {
            own
        },
{
    let (for_probes, n): (bool, usize) = match alt {
        Some(n) => if is_final {
            (false, own)
        } else {
            (true, n)
        },
        None => (false, own),
    };
    if zoned {
        Some(TemplateAt { for_probes, index: tmpl as usize })
    } else if n > 0 {
        Some(TemplateAt { for_probes, index: 0 })
    } else {
        None
    }
}

/// How a run starts to encode.
#[derive(Clone, Copy, Debug, PartialEq, Eq, Structural)]
pub struct EncPlan {
    /// Each chunk is encoded for a target quality.
    pub target_quality: bool,
    /// The decoder hands out frames that the encoder takes as they are.
    pub to_raw: bool,
    /// Whose templates are made; zones are told apart only where there are any.
    pub templates: Option<Lib>,
    pub watch: WatchEnc,
    pub probe: ProbeFn,
    /// The lines that show progress.
    pub lines: usize,
    /// The chunks that are decoded ahead.
    pub permits: usize,
    pub workers: usize,
    pub metric_workers: usize,
    /// Probes have parameters of their own.
    pub use_alt: bool,
}

/// Whether a run has a target quality.
pub open spec fn has_target(args: &Args, build: Build) -> bool {
    build.vship && args.tq is Some && args.qp_range is Some
}

/// How a run starts to encode.
pub fn enc_all(args: &Args, build: Build, is_10b: bool) -> (r: EncPlan)
    requires
        has_target(args, build) ==> args.worker + args.metric_worker <= usize::MAX,
    ensures
        r.target_quality == has_target(args, build),
        r.to_raw == (!has_target(args, build) && in_process(build, args.encoder) && is_10b
            && args.chnk_buff == args.worker),
        r.templates == templates_of(args.encoder, build),
        r.watch == watch_of(args.encoder, build),
        r.probe is Lib <==> in_process(build, args.encoder),
        r.lines == if has_target(args, build) {
            args.worker + args.metric_worker
        } else {
            args.worker as int
        },
        r.permits == args.chnk_buff,
        r.workers == args.worker,
        r.metric_workers == if has_target(args, build) {
            args.metric_worker
        } else {
            0
        },
        r.use_alt == (has_target(args, build) && args.alt_param is Some),
{
    let tq: bool = build.vship && args.tq.is_some() && args.qp_range.is_some();
    let metric_workers: usize = if tq {
        args.metric_worker
    } else {
        0
    };
    EncPlan {
        target_quality: tq,
        to_raw: !tq && build.is_lib_enc(args.encoder) && is_10b && args.chnk_buff == args.worker,
        templates: resolve_build_tmpl(args.encoder, build),
        watch: resolve_watch_enc(args.encoder, build),
        probe: resolve_probe_fn(args.encoder, build),
        lines: args.worker + metric_workers,
        permits: args.chnk_buff,
        workers: args.worker,
        metric_workers,
        use_alt: tq && args.alt_param.is_some(),
    }
}

/// How the workers of a target-quality run encode.
#[derive(Clone, Copy, Debug, PartialEq, Eq, Structural)]
pub struct TqPlan {
    pub lib_enc: LibEnc,
    pub tq_loop: TqLoop,
    pub watch: WatchEnc,
    pub probe: ProbeFn,
    /// Whose templates are made from the run's parameters.
    pub base: Option<Lib>,
    /// Whose templates are made from the parameters for probes.
    pub alt: Option<Lib>,
    pub workers: usize,
}

/// How the workers of a target-quality run encode; `zones` is how many zones have parameters of
/// their own.
pub fn spawn_tq_encoders(
    args: &Args,
    build: Build,
    is_10b: bool,
    pipe: Pipe,
    lanes: Lanes,
    zones: usize,
) -> (r: TqPlan)
    ensures
        r.lib_enc == (LibEnc {
            lib: if args.encoder is Vvenc && build.vvenc {
                Lib::Vvenc
            } else {
                Lib::Svt
            },
            conv: depth_conv(is_10b, pipe, lanes),
            probes: true,
        }),
        r.tq_loop == (TqLoop {
            zoned: zones > 0 && templates_of(args.encoder, build) is Some,
            probe_files: !in_process(build, args.encoder),
        }),
        r.watch == watch_of(args.encoder, build),
        r.probe is Lib <==> in_process(build, args.encoder),
        r.base == templates_of(args.encoder, build),
        r.alt == if args.alt_param is Some {
            templates_of(args.encoder, build)
        } else {
            None
        },
        r.workers == args.worker,
{
    let base = resolve_build_tmpl(args.encoder, build);
    let alt = if args.alt_param.is_some() {
        base
    } else {
        None
    };
    TqPlan {
        lib_enc: resolve_crf_enc(args.encoder, build, is_10b, pipe, lanes),
        tq_loop: resolve_tq_loop(zones > 0 && base.is_some(), build.is_lib_enc(args.encoder)),
        watch: resolve_watch_enc(args.encoder, build),
        probe: resolve_probe_fn(args.encoder, build),
        base,
        alt,
        workers: args.worker,
    }
}

/// A run that encodes inside the process needs templates in every build that links the library,
/// and no other run does.
pub proof fn law_templates_are_for_libraries(encoder: Encoder, build: Build)
    requires
        encoder is Avm ==> build.avm,
    ensures
        templates_of(encoder, build) is Some <==> in_process(build, encoder),
        templates_of(encoder, build) matches Some(l) ==> l == lib_of(encoder, build),
        watch_of(encoder, build) is Never <==> in_process(build, encoder),
{
}


/// How a run starts to encode hangs together: every line that shows progress belongs to a worker;
/// the workers of a metric, and parameters of their own for probes, are there only for a target
/// quality; frames are handed on as they are only inside the process, where no chunk waits; and
/// progress is read of programs alone.
pub proof fn law_plan_hangs_together(args: &Args, build: Build, is_10b: bool, r: EncPlan)
    requires
        call_ensures(enc_all, (args, build, is_10b), r),
    ensures
        r.lines == r.workers + r.metric_workers,
        r.workers == args.worker,
        r.permits == args.chnk_buff,
        r.target_quality <==> build.vship && args.tq is Some && args.qp_range is Some,
        r.target_quality ==> r.metric_workers == args.metric_worker,
        !r.target_quality ==> r.metric_workers == 0,
        r.use_alt <==> r.target_quality && args.alt_param is Some,
        r.to_raw <==> !r.target_quality && r.probe is Lib && is_10b && r.permits == r.workers,
        r.probe is Lib <==> r.watch is Never,
        (args.encoder is Avm ==> build.avm) ==> (r.templates is Some <==> r.probe is Lib),
{
}

/// How the workers of a target-quality run encode hangs together: templates are made for the library
/// that encodes; those for probes are made only from parameters for probes; zones have templates
/// only where templates are made; and probes are files exactly where a program encodes.
pub proof fn law_target_quality_plan_hangs_together(
    args: &Args,
    build: Build,
    is_10b: bool,
    pipe: Pipe,
    lanes: Lanes,
    zones: usize,
    r: TqPlan,
)
    requires
        call_ensures(spawn_tq_encoders, (args, build, is_10b, pipe, lanes, zones), r),
        !(args.encoder is Avm),
    ensures
        r.workers == args.worker,
        r.base matches Some(l) ==> l == r.lib_enc.lib,
        r.base is Some <==> r.probe is Lib,
        r.alt is Some <==> r.base is Some && args.alt_param is Some,
        r.alt is Some ==> r.alt == r.base,
        r.tq_loop.zoned <==> zones > 0 && r.base is Some,
        r.tq_loop.probe_files <==> r.probe is Program,
        r.watch is Never <==> r.probe is Lib,
        r.lib_enc.probes,
        r.lib_enc.lib is Vvenc <==> args.encoder is Vvenc && build.vvenc,
        is_10b <==> (r.lib_enc.conv is Unpack || r.lib_enc.conv is UnpackRem),
        !is_10b <==> (r.lib_enc.conv is Shift || r.lib_enc.conv is ShiftRem),
{
}

/// Frames are converted as they come: raw ones not at all, those with chroma samples side by side,
/// those of ten bits and those of eight bits each in their own way; and what is left over is handled
/// exactly where something is left over.
pub proof fn law_conversion_suits_the_frames(
    encoder: Encoder,
    build: Build,
    strat: Strat,
    is_10b: bool,
    pipe: Pipe,
    lanes: Lanes,
    r: LibEnc,
)
    requires
        call_ensures(resolve_lib_enc, (encoder, build, strat, is_10b, pipe, lanes), r),
        lanes.shift > 0,
        lanes.pack > 0,
        lanes.unpack > 0,
    ensures
        !r.probes,
        r.lib is Avm <==> encoder is Avm && build.avm,
        r.lib is Vvenc <==> encoder is Vvenc && build.vvenc,
        r.conv is Direct <==> strat.raw,
        !strat.raw && strat.nv12 <==> (r.conv is Nv12 || r.conv is Nv12Rem),
        !strat.raw && !strat.nv12 && is_10b <==> (r.conv is Unpack || r.conv is UnpackRem),
        !strat.raw && !strat.nv12 && !is_10b <==> (r.conv is Shift || r.conv is ShiftRem),
        r.conv is ShiftRem ==> pipe.frame_sz % lanes.shift != 0,
        r.conv is UnpackRem ==> pipe.frame_sz % lanes.unpack != 0 || pipe.final_w % lanes.pack
            != 0,
        r.conv is Nv12Rem ==> (pipe.final_w * pipe.final_h) as nat % (lanes.shift as nat) != 0 || ((
        pipe.final_w / 2) * (pipe.final_h / 2)) as nat % ((lanes.shift * 2) as nat) != 0,
        r.conv is Shift ==> pipe.frame_sz % lanes.shift == 0,
        r.conv is Unpack ==> pipe.frame_sz % lanes.unpack == 0 && pipe.final_w % lanes.pack == 0,
        r.conv is Nv12 ==> (pipe.final_w * pipe.final_h) as nat % (lanes.shift as nat) == 0 && ((
        pipe.final_w / 2) * (pipe.final_h / 2)) as nat % ((lanes.shift * 2) as nat) == 0,
{
}

/// A probe is encoded as a chunk of frames with planes of their own is, and by the same library.
pub proof fn law_probes_are_encoded_as_chunks(
    encoder: Encoder,
    build: Build,
    is_10b: bool,
    pipe: Pipe,
    lanes: Lanes,
    probe: LibEnc,
    chunk: LibEnc,
)
    requires
        !(encoder is Avm),
        call_ensures(resolve_crf_enc, (encoder, build, is_10b, pipe, lanes), probe),
        call_ensures(
            resolve_lib_enc,
            (encoder, build, (Strat { raw: false, nv12: false }), is_10b, pipe, lanes),
            chunk,
        ),
    ensures
        probe.lib == chunk.lib,
        probe.conv == chunk.conv,
        probe.probes && !chunk.probes,
{
}

/// How probes are measured hangs together: what stays in memory is decoded from memory, its best
/// bytes are kept where they are what is written in the end, and the last encode is written by
/// itself exactly where probes have parameters of their own.
pub proof fn law_probes_are_measured_where_they_are(
    encoder: Encoder,
    use_alt: bool,
    metric: Metric,
    is_10b: bool,
    pipe: Pipe,
    lanes: Lanes,
    r: MetricLoop,
)
    requires
        call_ensures(resolve_metric_loop, (encoder, use_alt, metric, is_10b, pipe, lanes), r),
        lanes.pack > 0,
        lanes.unpack > 0,
    ensures
        r.dec is Dav1d <==> encoder is SvtAv1,
        r.split_files <==> r.dec is Ff,
        r.split_files <==> (r.output is Copy || r.output is Stat),
        use_alt <==> (r.output is Probe || r.output is Stat),
        r.retain <==> r.output is Bytes,
        r.metric == metric,
        is_10b <==> !(r.shape is Eight),
        r.shape is Ten ==> pipe.final_w % lanes.pack == 0 && pipe.frame_sz % lanes.unpack == 0,
        r.shape is TenRem ==> pipe.final_w % lanes.pack != 0 || pipe.frame_sz % lanes.unpack != 0,
{
}

/// The last encode of a chunk never takes a template for probes, a probe always does where there is
/// one; and what a chunk is encoded from depends on its zone exactly where there are zones.
pub proof fn law_last_encode_takes_the_run_s_own(
    is_final: bool,
    zoned: bool,
    tmpl: u16,
    own: usize,
    alt: Option<usize>,
    r: Option<TemplateAt>,
)
    requires
        call_ensures(pick_template, (is_final, zoned, tmpl, own, alt), r),
    ensures
        r matches Some(t) ==> {
            &&& t.for_probes <==> !is_final && alt is Some
            &&& t.index == if zoned {
                tmpl as int
            } else {
                0
            }
        },
        zoned || own > 0 && (is_final || alt is None) ==> r is Some,
        !zoned && own == 0 && (is_final || alt is None) ==> r is None,
{
}

/// Chunks are encoded by a program exactly where its progress is read and it is asked for probes;
/// else each from the template of its zone exactly where there are zones.
pub proof fn law_chunks_and_probes_go_the_same_way(
    encoder: Encoder,
    build: Build,
    zoned: bool,
    chnk: ChnkFn,
    probe: ProbeFn,
    watch: WatchEnc,
)
    requires
        call_ensures(resolve_chnk_fn, (encoder, build, zoned), chnk),
        call_ensures(resolve_probe_fn, (encoder, build), probe),
        call_ensures(resolve_watch_enc, (encoder, build), watch),
    ensures
        chnk is Program <==> probe is Program,
        chnk is Program <==> !(watch is Never),
        chnk is LibZoned ==> zoned,
        chnk is Lib ==> !zoned,
        encoder is SvtAv1 || encoder is Avm ==> probe is Lib,
        encoder is X264 || encoder is X265 ==> probe is Program,
        encoder is Vvenc ==> (probe is Lib <==> build.vvenc),
{
}

/// Butter goes before CVVDP, and CVVDP before SSIMULACRA 2, which needs no asking; each has a name
/// that starts as its own does.
pub proof fn law_metric_is_the_one_asked_for(
    use_butter: bool,
    use_cvvdp: bool,
    r: Metric,
    name: &'static str,
)
    requires
        call_ensures(choose_metric, (use_butter, use_cvvdp), r),
        call_ensures(Metric::metric_name, (r,), name),
    ensures
        use_butter ==> r is Butter,
        r is Cvvdp <==> use_cvvdp && !use_butter,
        r is Ssimu2 <==> !use_cvvdp && !use_butter,
        name@.len() > 0,
        name@[0] == match r {
            Metric::Butter => 'b',
            Metric::Cvvdp => 'c',
            Metric::Ssimu2 => 's',
        },
{
    reveal_strlit("butter");
    reveal_strlit("cvvdp");
    reveal_strlit("ssimulacra2");
}

} // verus!
