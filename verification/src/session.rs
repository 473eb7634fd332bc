//! The course of a run.
use vstd::prelude::*;

use crate::args::{joined_text, messages, opt_message, Args, Xerr};
use crate::encoder::Encoder;
use crate::startup::says;
use crate::video::VidInf;

verus! {

/// What is cut off a frame: rows above and below, columns left and right.
pub type Crop = (u32, u32);

/// The largest even number up to `n`.
pub open spec fn even(n: nat) -> nat {
    (n - n % 2) as nat
}

fn round_even(n: u32) -> (r: u32)
    ensures
        r == even(n as nat),
{
    assert(n & !1u32 == n - n % 2) by (bit_vector);
    n & !1
}

/// A crop for a frame of another size.
pub open spec fn scaled(crop: Crop, orig_w: u32, orig_h: u32, pipe_w: u32, pipe_h: u32) -> (
    nat,
    nat,
) {
    (
        even((crop.0 * pipe_h) as nat / orig_h as nat),
        even((crop.1 * pipe_w) as nat / orig_w as nat),
    )
}

/// A crop for a frame of another size, rounded down to even numbers.
pub fn scale_crop(crop: Crop, orig_w: u32, orig_h: u32, pipe_w: u32, pipe_h: u32) -> (r: Crop)
    requires
        orig_w > 0,
        orig_h > 0,
        crop.0 * pipe_h <= u32::MAX,
        crop.1 * pipe_w <= u32::MAX,
    ensures
        (r.0 as nat, r.1 as nat) == scaled(crop, orig_w, orig_h, pipe_w, pipe_h),
{
    assert(crop.0 * pipe_h >= 0) by (nonlinear_arith)
        requires
            crop.0 >= 0,
            pipe_h >= 0,
    ;
    assert(crop.1 * pipe_w >= 0) by (nonlinear_arith)
        requires
            crop.1 >= 0,
            pipe_w >= 0,
    ;
    (round_even(crop.0 * pipe_h / orig_h), round_even(crop.1 * pipe_w / orig_w))
}

/// A crop for a frame of the same size stays, but for being even.
pub proof fn law_same_size_keeps_crop(crop: Crop, w: u32, h: u32)
    requires
        w > 0,
        h > 0,
    ensures
        scaled(crop, w, h, w, h) == (even(crop.0 as nat), even(crop.1 as nat)),
{
    vstd::arithmetic::div_mod::lemma_div_multiples_vanish(crop.0 as int, h as int);
    vstd::arithmetic::div_mod::lemma_div_multiples_vanish(crop.1 as int, w as int);
    assert(h * crop.0 == crop.0 * h) by (nonlinear_arith);
    assert(w * crop.1 == crop.1 * w) by (nonlinear_arith);
}

/// What is known of frames that come through a pipe.
#[derive(Clone, Copy, Debug, PartialEq, Eq, Structural)]
pub struct PipeInfo {
    pub width: u32,
    pub height: u32,
    pub is_10b: bool,
}

/// Whether two frames have the same shape.
pub open spec fn same_shape(w: int, h: int, w2: int, h2: int) -> bool {
    w * h2 == h * w2
}

/// Whether frames that come through a pipe have the shape of the whole video, and not that of the
/// cropped one.
pub open spec fn is_uncropped(inf: &VidInf, crop: Crop, y: PipeInfo) -> bool {
    &&& !same_shape(
        y.width as int,
        y.height as int,
        inf.width - crop.1 * 2,
        inf.height - crop.0 * 2,
    )
    &&& same_shape(y.width as int, y.height as int, inf.width as int, inf.height as int)
}

/// The crop for frames that come through a pipe: a scaled one where they are not cropped yet, else
/// none.
pub open spec fn pipe_crop(inf: &VidInf, crop: Crop, y: PipeInfo) -> (nat, nat) {
    if is_uncropped(inf, crop, y) {
        scaled(crop, inf.width, inf.height, y.width, y.height)
    } else {
        (0, 0)
    }
}

/// The sizes can be multiplied, and the crop takes no more than there is.
pub open spec fn pipe_fits(inf: &VidInf, crop: Crop, y: PipeInfo) -> bool {
    &&& crop.1 * 2 <= inf.width
    &&& crop.0 * 2 <= inf.height
    &&& y.width * inf.height <= u32::MAX
    &&& y.height * inf.width <= u32::MAX
    &&& is_uncropped(inf, crop, y) ==> crop.0 * y.height <= u32::MAX && crop.1 * y.width <= u32::MAX
}

/// Frames that have the shape of a video without rows or columns have that of the cropped video
/// too.
proof fn lemma_empty_has_any_shape(w: u32, h: u32, crop: Crop, y: PipeInfo)
    requires
        crop.1 * 2 <= w,
        crop.0 * 2 <= h,
        y.width * h == y.height * w,
        w == 0 || h == 0,
    ensures
        y.width * (h - crop.0 * 2) == y.height * (w - crop.1 * 2),
{
    if w == 0 {
        assert(y.height * w == 0) by (nonlinear_arith)
            requires
                w == 0,
        ;
        assert(y.width == 0 || h == 0) by (nonlinear_arith)
            requires
                y.width * h == 0,
        ;
        assert(y.width * (h - crop.0 * 2) == 0) by (nonlinear_arith)
            requires
                y.width == 0 || h - crop.0 * 2 == 0,
        ;
        assert(y.height * (w - crop.1 * 2) == 0) by (nonlinear_arith)
            requires
                w - crop.1 * 2 == 0,
        ;
    } else {
        assert(y.width * h == 0) by (nonlinear_arith)
            requires
                h == 0,
        ;
        assert(y.height == 0) by (nonlinear_arith)
            requires
                y.height * w == 0,
                w > 0,
        ;
        assert(y.width * (h - crop.0 * 2) == 0) by (nonlinear_arith)
            requires
                h - crop.0 * 2 == 0,
        ;
        assert(y.height * (w - crop.1 * 2) == 0) by (nonlinear_arith)
            requires
                y.height == 0,
        ;
    }
}

/// Takes what is known of frames that come through a pipe; gives the crop for them.
pub fn init_pipe_crop(inf: &mut VidInf, crop: Crop, pipe: Option<PipeInfo>) -> (r: Crop)
    requires
        pipe matches Some(y) ==> pipe_fits(old(inf), crop, y),
    ensures
        match pipe {
            Some(y) => {
                &&& (r.0 as nat, r.1 as nat) == pipe_crop(old(inf), crop, y)
                &&& *final(inf) == (VidInf {
                    width: y.width,
                    height: y.height,
                    is_10b: y.is_10b,
                    dar: None,
                    ..*old(inf)
                })
            },
            None => r == crop && *final(inf) == *old(inf),
        },
{
    match pipe {
        Some(y) => {
            let target_w: u32 = inf.width - crop.1 * 2;
            let target_h: u32 = inf.height - crop.0 * 2;
            assert(y.width * target_h <= y.width * inf.height) by (nonlinear_arith)
                requires
                    target_h <= inf.height,
                    y.width >= 0,
            ;
            assert(y.height * target_w <= y.height * inf.width) by (nonlinear_arith)
                requires
                    target_w <= inf.width,
                    y.height >= 0,
            ;
            assert(y.width * target_h >= 0 && y.height * target_w >= 0 && y.width * inf.height >= 0
                && y.height * inf.width >= 0) by (nonlinear_arith)
                requires
                    y.width >= 0,
                    y.height >= 0,
                    target_w >= 0,
                    target_h >= 0,
                    inf.width >= 0,
                    inf.height >= 0,
            ;
            proof {
                if (inf.width == 0 || inf.height == 0) && y.width * inf.height == y.height
                    * inf.width {
                    lemma_empty_has_any_shape(inf.width, inf.height, crop, y);
                }
            }
            let match_orig_ar: bool = y.width * inf.height == y.height * inf.width;
            let match_crop_ar: bool = y.width * target_h == y.height * target_w;
            let new_crop = if match_crop_ar {
                (0, 0)
            } else if match_orig_ar {
                scale_crop(crop, inf.width, inf.height, y.width, y.height)
            } else {
                (0, 0)
            };
            inf.width = y.width;
            inf.height = y.height;
            inf.is_10b = y.is_10b;
            inf.dar = None;
            new_crop
        },
        None => crop,
    }
}

/// The crop that was found, where one was.
pub fn found_crop(detected: Option<Crop>) -> (r: Crop)
    ensures
        r == match detected {
            Some(c) => c,
            None => (0u32, 0u32),
        },
{
    match detected {
        Some(c) => c,
        None => (0, 0),
    }
}

/// Ranges in which the last has an end: the last frame of the video where none was named.
pub open spec fn closed(r: Seq<(usize, usize)>, frames: usize) -> Seq<(usize, usize)> {
    if r.len() > 0 && r.last().1 == usize::MAX {
        r.update(r.len() - 1, (r.last().0, (frames - 1) as usize))
    } else {
        r
    }
}

/// Gives the last range an end.
pub fn close_ranges(ranges: &mut Vec<(usize, usize)>, frames: usize)
    requires
        old(ranges)@.len() > 0,
        old(ranges)@.last().1 == usize::MAX ==> frames > 0,
    ensures
        final(ranges)@ == closed(old(ranges)@, frames),
{
    let n: usize = ranges.len();
    let l: (usize, usize) = ranges[n - 1];
    if l.1 == usize::MAX {
        ranges.set(n - 1, (l.0, frames - 1));
    }
}

/// What is said against the parameters of a scene, the first that is.
pub open spec fn first_fault(faults: Seq<Option<Seq<char>>>) -> Option<Seq<char>>
    decreases faults.len(),
{
    if faults.len() == 0 {
        None
    } else if faults[0] is Some {
        faults[0]
    } else {
        first_fault(faults.drop_first())
    }
}

/// What is said against scenes: against their order first, and for SVT-AV1 against the parameters
/// of each.
pub open spec fn scenes_fault(
    enc: Encoder,
    order: Option<Seq<char>>,
    params: Seq<Option<Seq<char>>>,
) -> Option<Seq<char>> {
    if order is Some {
        order
    } else if enc is SvtAv1 {
        first_fault(params)
    } else {
        None
    }
}

/// Whether scenes can be encoded, given what is said against their order, and against the
/// parameters of each.
pub fn val_all_scenes(enc: Encoder, order: &Option<String>, params: &Vec<Option<String>>) -> (r:
    Result<(), Xerr>)
    ensures
        says(
            r,
            scenes_fault(enc, opt_message(order), messages(params@)),
        ),
{
    if let Some(m) = order {
        return Err(Xerr::Message(m.clone()));
    }
    if let Encoder::SvtAv1 = enc {
        let ghost all = messages(params@);
        let mut i: usize = 0;
        assert(all.skip(0) =~= all);
        while i < params.len()
            invariant
                i <= params@.len(),
                all == messages(params@),
                first_fault(all) == first_fault(all.skip(i as int)),
                enc is SvtAv1,
                order is None,
            decreases params@.len() - i,
        {
            assert(all.skip(i as int)[0] == opt_message(&params@[i as int]));
            assert(all.skip(i as int).drop_first() =~= all.skip(i + 1));
            if let Some(m) = &params[i] {
                return Err(Xerr::Message(m.clone()));
            }
            i = i + 1;
        }
    }
    Ok(())
}

/// The steps of a run, in order.
#[derive(Clone, Copy, Debug, PartialEq, Eq, Structural)]
pub enum Step {
    EnterScreen,
    MakeWorkDir,
    SaveArgs,
    CheckSceneFile,
    ReadVideo,
    LoadDisplay,
    DetectCrop,
    FindScenes,
    ClearScreen,
    LoadScenes,
    CutScenes,
    CheckScenes,
    MakeOutDirs,
    OpenPipe,
    ProbeHardware,
    ChooseDecoder,
    Encode,
    EncodeAudio,
    Merge,
    RemoveAudio,
    Summary,
    RemoveWorkDir,
    Stop,
}

/// The place of a step.
pub open spec fn place(s: Step) -> int {
    match s {
        Step::EnterScreen => 0,
        Step::MakeWorkDir => 1,
        Step::SaveArgs => 2,
        Step::CheckSceneFile => 3,
        Step::ReadVideo => 4,
        Step::LoadDisplay => 5,
        Step::DetectCrop => 6,
        Step::FindScenes => 7,
        Step::ClearScreen => 8,
        Step::LoadScenes => 9,
        Step::CutScenes => 10,
        Step::CheckScenes => 11,
        Step::MakeOutDirs => 12,
        Step::OpenPipe => 13,
        Step::ProbeHardware => 14,
        Step::ChooseDecoder => 15,
        Step::Encode => 16,
        Step::EncodeAudio => 17,
        Step::Merge => 18,
        Step::RemoveAudio => 19,
        Step::Summary => 20,
        Step::RemoveWorkDir => 21,
        Step::Stop => 22,
    }
}

/// What the course of a run depends on besides its arguments.
#[derive(Clone, Copy, Debug, PartialEq, Eq, Structural)]
pub struct Known {
    /// An earlier run left chunks that are done.
    pub resumed: bool,
    /// The scene file is there.
    pub sc_exists: bool,
    /// The target quality belongs to the metric CVVDP.
    pub cvvdp: bool,
}

/// What is said of a scene file that would be written over.
pub open spec fn scene_file_fault(args: &Args, known: Known) -> Option<Seq<char>> {
    if args.sc_only && known.sc_exists {
        Some("Scene file already exists: "@ + args.sc_file@)
    } else {
        None
    }
}

/// What is said of a scene file that would be written over.
pub fn check_scene_file(args: &Args, known: Known) -> (r: Result<(), Xerr>)
    ensures
        says(r, scene_file_fault(args, known)),
{
    if args.sc_only && known.sc_exists {
        Err(Xerr::Message(joined_text("Scene file already exists: ", args.sc_file.as_str())))
    } else {
        Ok(())
    }
}

/// The step that follows.
pub open spec fn following(s: Step, args: &Args, known: Known) -> Step {
    match s {
        Step::EnterScreen => Step::MakeWorkDir,
        Step::MakeWorkDir => if known.resumed {
            Step::CheckSceneFile
        } else {
            Step::SaveArgs
        },
        Step::SaveArgs => Step::CheckSceneFile,
        Step::CheckSceneFile => Step::ReadVideo,
        Step::ReadVideo => if args.tq is Some && known.cvvdp {
            Step::LoadDisplay
        } else {
            Step::DetectCrop
        },
        Step::LoadDisplay => Step::DetectCrop,
        Step::DetectCrop => if known.sc_exists {
            Step::ClearScreen
        } else {
            Step::FindScenes
        },
        Step::FindScenes => Step::ClearScreen,
        Step::ClearScreen => Step::LoadScenes,
        Step::LoadScenes => if args.ranges is Some {
            Step::CutScenes
        } else {
            Step::CheckScenes
        },
        Step::CutScenes => Step::CheckScenes,
        Step::CheckScenes => if args.sc_only {
            Step::Stop
        } else {
            Step::MakeOutDirs
        },
        Step::MakeOutDirs => Step::OpenPipe,
        Step::OpenPipe => if args.hwdec {
            Step::ProbeHardware
        } else {
            Step::ChooseDecoder
        },
        Step::ProbeHardware => Step::ChooseDecoder,
        Step::ChooseDecoder => Step::Encode,
        Step::Encode => if args.au is Some {
            Step::EncodeAudio
        } else {
            Step::Merge
        },
        Step::EncodeAudio => Step::Merge,
        Step::Merge => Step::RemoveAudio,
        Step::RemoveAudio => Step::Summary,
        Step::Summary => Step::RemoveWorkDir,
        Step::RemoveWorkDir => Step::Stop,
        Step::Stop => Step::Stop,
    }
}

/// The step that follows one that went well.
pub fn main_with_args(s: Step, args: &Args, known: Known) -> (r: Step)
    ensures
        r == following(s, args, known),
{
    match s {
        Step::EnterScreen => Step::MakeWorkDir,
        Step::MakeWorkDir => if known.resumed {
            Step::CheckSceneFile
        } else {
            Step::SaveArgs
        },
        Step::SaveArgs => Step::CheckSceneFile,
        Step::CheckSceneFile => Step::ReadVideo,
        Step::ReadVideo => if args.tq.is_some() && known.cvvdp {
            Step::LoadDisplay
        } else {
            Step::DetectCrop
        },
        Step::LoadDisplay => Step::DetectCrop,
        Step::DetectCrop => if known.sc_exists {
            Step::ClearScreen
        } else {
            Step::FindScenes
        },
        Step::FindScenes => Step::ClearScreen,
        Step::ClearScreen => Step::LoadScenes,
        Step::LoadScenes => if args.ranges.is_some() {
            Step::CutScenes
        } else {
            Step::CheckScenes
        },
        Step::CutScenes => Step::CheckScenes,
        Step::CheckScenes => if args.sc_only {
            Step::Stop
        } else {
            Step::MakeOutDirs
        },
        Step::MakeOutDirs => Step::OpenPipe,
        Step::OpenPipe => if args.hwdec {
            Step::ProbeHardware
        } else {
            Step::ChooseDecoder
        },
        Step::ProbeHardware => Step::ChooseDecoder,
        Step::ChooseDecoder => Step::Encode,
        Step::Encode => if args.au.is_some() {
            Step::EncodeAudio
        } else {
            Step::Merge
        },
        Step::EncodeAudio => Step::Merge,
        Step::Merge => Step::RemoveAudio,
        Step::RemoveAudio => Step::Summary,
        Step::Summary => Step::RemoveWorkDir,
        Step::RemoveWorkDir => Step::Stop,
        Step::Stop => Step::Stop,
    }
}

/// Whether a run comes to a step, within so many steps from another; `known` is what is known once
/// each step is done.
pub open spec fn comes_to(
    from: Step,
    to: Step,
    args: &Args,
    known: spec_fn(Step) -> Known,
    fuel: nat,
) -> bool
    decreases fuel,
{
    from == to || (fuel > 0 && from != Step::Stop && comes_to(
        following(from, args, known(from)),
        to,
        args,
        known,
        (fuel - 1) as nat,
    ))
}

/// Every step leads forward, so that a run comes to an end.
pub proof fn law_steps_lead_forward(s: Step, args: &Args, known: Known)
    ensures
        s != Step::Stop ==> place(following(s, args, known)) > place(s),
{
}

proof fn lemma_no_way_back(
    from: Step,
    to: Step,
    args: &Args,
    known: spec_fn(Step) -> Known,
    fuel: nat,
)
    requires
        comes_to(from, to, args, known, fuel),
    ensures
        place(from) <= place(to),
    decreases fuel,
{
    if from != to {
        lemma_no_way_back(following(from, args, known(from)), to, args, known, (fuel - 1) as nat);
    }
}

/// A run that only looks for scenes encodes nothing, and removes nothing.
pub proof fn law_scenes_only_encodes_nothing(
    from: Step,
    args: &Args,
    known: spec_fn(Step) -> Known,
    fuel: nat,
)
    requires
        args.sc_only,
        place(from) <= place(Step::CheckScenes),
    ensures
        !comes_to(from, Step::Encode, args, known, fuel),
        !comes_to(from, Step::RemoveWorkDir, args, known, fuel),
    decreases fuel,
{
    if fuel > 0 {
        let next = following(from, args, known(from));
        if from == Step::CheckScenes {
            assert(!comes_to(Step::Stop, Step::Encode, args, known, (fuel - 1) as nat));
            assert(!comes_to(Step::Stop, Step::RemoveWorkDir, args, known, (fuel - 1) as nat));
        } else {
            law_scenes_only_encodes_nothing(next, args, known, (fuel - 1) as nat);
        }
    }
}

/// The work directory is removed only after what was encoded is merged.
pub proof fn law_work_is_merged_before_it_is_removed(
    from: Step,
    args: &Args,
    known: spec_fn(Step) -> Known,
    fuel: nat,
)
    requires
        place(from) <= place(Step::Merge),
        comes_to(from, Step::RemoveWorkDir, args, known, fuel),
    ensures
        comes_to(from, Step::Merge, args, known, fuel),
    decreases fuel,
{
    if from != Step::Merge {
        let next = following(from, args, known(from));
        if next == Step::Stop {
            lemma_no_way_back(next, Step::RemoveWorkDir, args, known, (fuel - 1) as nat);
        } else {
            law_work_is_merged_before_it_is_removed(next, args, known, (fuel - 1) as nat);
        }
    }
}

/// Every run comes to its end, whatever is known on the way.
pub proof fn law_run_ends(from: Step, args: &Args, known: spec_fn(Step) -> Known)
    ensures
        comes_to(from, Step::Stop, args, known, (place(Step::Stop) - place(from)) as nat),
    decreases place(Step::Stop) - place(from),
{
    if from != Step::Stop {
        let next = following(from, args, known(from));
        law_run_ends(next, args, known);
        lemma_more_fuel(
            next,
            Step::Stop,
            args,
            known,
            (place(Step::Stop) - place(next)) as nat,
            (place(Step::Stop) - place(from) - 1) as nat,
        );
    }
}

proof fn lemma_more_fuel(
    from: Step,
    to: Step,
    args: &Args,
    known: spec_fn(Step) -> Known,
    less: nat,
    more: nat,
)
    requires
        less <= more,
        comes_to(from, to, args, known, less),
    ensures
        comes_to(from, to, args, known, more),
    decreases less,
{
    if from != to {
        lemma_more_fuel(
            following(from, args, known(from)),
            to,
            args,
            known,
            (less - 1) as nat,
            (more - 1) as nat,
        );
    }
}

/// A run that is not asked for scenes only encodes, from wherever it stands before.
pub proof fn law_run_encodes(from: Step, args: &Args, known: spec_fn(Step) -> Known)
    requires
        !args.sc_only,
        place(from) <= place(Step::Encode),
    ensures
        comes_to(from, Step::Encode, args, known, (place(Step::Stop) - place(from)) as nat),
    decreases place(Step::Stop) - place(from),
{
    if from != Step::Encode {
        let next = following(from, args, known(from));
        law_run_encodes(next, args, known);
        lemma_more_fuel(
            next,
            Step::Encode,
            args,
            known,
            (place(Step::Stop) - place(next)) as nat,
            (place(Step::Stop) - place(from) - 1) as nat,
        );
    }
}

/// Nothing is merged before it is encoded: a run that comes to the merge from a step before the
/// encoding comes to the encoding first.
pub proof fn law_work_is_encoded_before_it_is_merged(
    from: Step,
    args: &Args,
    known: spec_fn(Step) -> Known,
    fuel: nat,
)
    requires
        place(from) <= place(Step::Encode),
        comes_to(from, Step::Merge, args, known, fuel),
    ensures
        comes_to(from, Step::Encode, args, known, fuel),
        !comes_to(Step::Merge, Step::Encode, args, known, fuel),
    decreases fuel,
{
    if comes_to(Step::Merge, Step::Encode, args, known, fuel) {
        lemma_no_way_back(Step::Merge, Step::Encode, args, known, fuel);
    }
    if from != Step::Encode {
        let next = following(from, args, known(from));
        if next == Step::Stop {
            lemma_no_way_back(next, Step::Merge, args, known, (fuel - 1) as nat);
        } else {
            law_work_is_encoded_before_it_is_merged(next, args, known, (fuel - 1) as nat);
        }
    }
}

/// Whether a step belongs to a run: all do, but for those that something has to call for, and those
/// behind the scenes of a run that is asked for scenes only.
pub open spec fn is_due(s: Step, args: &Args, known: spec_fn(Step) -> Known) -> bool {
    &&& s == Step::SaveArgs ==> !known(Step::MakeWorkDir).resumed
    &&& s == Step::LoadDisplay ==> args.tq is Some && known(Step::ReadVideo).cvvdp
    &&& s == Step::FindScenes ==> !known(Step::DetectCrop).sc_exists
    &&& s == Step::CutScenes ==> args.ranges is Some
    &&& s == Step::ProbeHardware ==> args.hwdec
    &&& s == Step::EncodeAudio ==> args.au is Some
    &&& args.sc_only ==> place(s) <= place(Step::CheckScenes) || s == Step::Stop
}

proof fn lemma_comes_to_what_is_due(
    from: Step,
    s: Step,
    args: &Args,
    known: spec_fn(Step) -> Known,
    fuel: nat,
)
    requires
        place(from) <= place(s),
        args.sc_only ==> place(from) <= place(Step::CheckScenes) || from == Step::Stop,
        fuel >= place(Step::Stop) - place(from),
    ensures
        comes_to(from, s, args, known, fuel) <==> from == s || is_due(s, args, known),
    decreases place(Step::Stop) - place(from),
{
    if from != s {
        let next = following(from, args, known(from));
        let less = (fuel - 1) as nat;
        assert(comes_to(from, s, args, known, fuel) == comes_to(next, s, args, known, less));
        if place(next) <= place(s) {
            lemma_comes_to_what_is_due(next, s, args, known, less);
        } else if comes_to(next, s, args, known, less) {
            lemma_no_way_back(next, s, args, known, less);
        }
    }
}

/// A run comes to exactly the steps that belong to it, each behind those before it: what an earlier
/// run saved is not saved again, scenes are looked for where there is no scene file, cut where ranges
/// are named, audio is encoded where it is asked for, and hardware is asked where it decodes.
pub proof fn law_run_comes_to_what_is_due(s: Step, args: &Args, known: spec_fn(Step) -> Known)
    ensures
        comes_to(Step::EnterScreen, s, args, known, 22) <==> is_due(s, args, known),
{
    lemma_comes_to_what_is_due(Step::EnterScreen, s, args, known, 22);
}

/// What a step needs is done before it: a run that stands at the later of two steps does not come
/// to the earlier one any more.
pub proof fn law_steps_need_each_other(args: &Args, known: spec_fn(Step) -> Known, fuel: nat)
    ensures
        !comes_to(Step::SaveArgs, Step::MakeWorkDir, args, known, fuel),
        !comes_to(Step::ReadVideo, Step::CheckSceneFile, args, known, fuel),
        !comes_to(Step::DetectCrop, Step::ReadVideo, args, known, fuel),
        !comes_to(Step::FindScenes, Step::DetectCrop, args, known, fuel),
        !comes_to(Step::LoadScenes, Step::FindScenes, args, known, fuel),
        !comes_to(Step::CutScenes, Step::LoadScenes, args, known, fuel),
        !comes_to(Step::CheckScenes, Step::CutScenes, args, known, fuel),
        !comes_to(Step::Encode, Step::CheckScenes, args, known, fuel),
        !comes_to(Step::Encode, Step::MakeOutDirs, args, known, fuel),
        !comes_to(Step::ChooseDecoder, Step::OpenPipe, args, known, fuel),
        !comes_to(Step::ChooseDecoder, Step::ProbeHardware, args, known, fuel),
        !comes_to(Step::Encode, Step::ChooseDecoder, args, known, fuel),
        !comes_to(Step::EncodeAudio, Step::Encode, args, known, fuel),
        !comes_to(Step::Merge, Step::Encode, args, known, fuel),
        !comes_to(Step::Merge, Step::EncodeAudio, args, known, fuel),
        !comes_to(Step::RemoveAudio, Step::Merge, args, known, fuel),
        !comes_to(Step::RemoveWorkDir, Step::Merge, args, known, fuel),
        !comes_to(Step::RemoveWorkDir, Step::Summary, args, known, fuel),
{
    lemma_before(Step::MakeWorkDir, Step::SaveArgs, args, known, fuel);
    lemma_before(Step::CheckSceneFile, Step::ReadVideo, args, known, fuel);
    lemma_before(Step::ReadVideo, Step::DetectCrop, args, known, fuel);
    lemma_before(Step::DetectCrop, Step::FindScenes, args, known, fuel);
    lemma_before(Step::FindScenes, Step::LoadScenes, args, known, fuel);
    lemma_before(Step::LoadScenes, Step::CutScenes, args, known, fuel);
    lemma_before(Step::CutScenes, Step::CheckScenes, args, known, fuel);
    lemma_before(Step::CheckScenes, Step::Encode, args, known, fuel);
    lemma_before(Step::MakeOutDirs, Step::Encode, args, known, fuel);
    lemma_before(Step::OpenPipe, Step::ChooseDecoder, args, known, fuel);
    lemma_before(Step::ProbeHardware, Step::ChooseDecoder, args, known, fuel);
    lemma_before(Step::ChooseDecoder, Step::Encode, args, known, fuel);
    lemma_before(Step::Encode, Step::EncodeAudio, args, known, fuel);
    lemma_before(Step::Encode, Step::Merge, args, known, fuel);
    lemma_before(Step::EncodeAudio, Step::Merge, args, known, fuel);
    lemma_before(Step::Merge, Step::RemoveAudio, args, known, fuel);
    lemma_before(Step::Merge, Step::RemoveWorkDir, args, known, fuel);
    lemma_before(Step::Summary, Step::RemoveWorkDir, args, known, fuel);
}

proof fn lemma_before(
    early: Step,
    late: Step,
    args: &Args,
    known: spec_fn(Step) -> Known,
    fuel: nat,
)
    requires
        place(early) < place(late),
    ensures
        !comes_to(late, early, args, known, fuel),
{
    if comes_to(late, early, args, known, fuel) {
        lemma_no_way_back(late, early, args, known, fuel);
    }
}

/// A scaled crop is the largest even number of rows and of columns that takes no larger a share of
/// the frame than the crop did, so that it takes no more than there is.
pub proof fn law_scaled_crop_keeps_its_share(crop: Crop, w: u32, h: u32, pipe_w: u32, pipe_h: u32)
    requires
        w > 0,
        h > 0,
    ensures
        ({
            let (v, c) = scaled(crop, w, h, pipe_w, pipe_h);
            &&& v % 2 == 0 && c % 2 == 0
            &&& v * h <= crop.0 * pipe_h < (v + 2) * h
            &&& c * w <= crop.1 * pipe_w < (c + 2) * w
            &&& crop.0 * 2 <= h ==> v * 2 <= pipe_h
            &&& crop.1 * 2 <= w ==> c * 2 <= pipe_w
        }),
{
    lemma_share(crop.0 as int, h as int, pipe_h as int);
    lemma_share(crop.1 as int, w as int, pipe_w as int);
}

proof fn lemma_share(c: int, n: int, p: int)
    requires
        0 <= c,
        0 < n,
        0 <= p,
    ensures
        c * p >= 0,
        ({
            let v = even(((c * p) as nat) / (n as nat)) as int;
            &&& v % 2 == 0
            &&& v * n <= c * p < (v + 2) * n
            &&& c * 2 <= n ==> v * 2 <= p
        }),
{
    assert(c * p >= 0) by (nonlinear_arith)
        requires
            c >= 0,
            p >= 0,
    ;
    let m = c * p;
    let q = m / n;
    vstd::arithmetic::div_mod::lemma_fundamental_div_mod(m, n);
    let v = even(q as nat) as int;
    assert(q - 1 <= v <= q);
    assert(v * n <= m < (v + 2) * n) by (nonlinear_arith)
        requires
            m == n * q + m % n,
            0 <= m % n < n,
            q - 1 <= v <= q,
            n > 0,
    ;
    if c * 2 <= n {
        assert(v * 2 <= p) by (nonlinear_arith)
            requires
                v * n <= m,
                m == c * p,
                c * 2 <= n,
                0 < n,
                0 <= p,
        ;
    }
}

/// Frames that come through a pipe as they are in the video keep its crop, but for being even; those
/// that are cropped already are not cropped again.
pub proof fn law_pipe_crop_is_taken_once(inf: &VidInf, crop: Crop, y: PipeInfo)
    requires
        pipe_fits(inf, crop, y),
        inf.width > 0,
        inf.height > 0,
    ensures
        y.width == inf.width - crop.1 * 2 && y.height == inf.height - crop.0 * 2 ==> pipe_crop(
            inf,
            crop,
            y,
        ) == (0nat, 0nat),
        y.width == inf.width && y.height == inf.height && y.width * (inf.height - crop.0 * 2)
            != y.height * (inf.width - crop.1 * 2) ==> pipe_crop(inf, crop, y) == (
            even(crop.0 as nat),
            even(crop.1 as nat),
        ),
{
    assert(y.width * y.height == y.height * y.width) by (nonlinear_arith);
    if y.width == inf.width && y.height == inf.height {
        law_same_size_keeps_crop(crop, y.width, y.height);
    }
}

/// Ranges that are given an end keep their starts and all but the last of their ends; a last range
/// without one runs through the last frame.
pub proof fn law_closed_ranges_end_with_the_video(r: Seq<(usize, usize)>, frames: usize)
    requires
        r.len() > 0,
        r.last().1 == usize::MAX ==> 0 < frames,
    ensures
        closed(r, frames).len() == r.len(),
        forall|i: int| 0 <= i < r.len() ==> (#[trigger] closed(r, frames)[i]).0 == r[i].0,
        forall|i: int|
            0 <= i < r.len() && r[i].1 != usize::MAX ==> #[trigger] closed(r, frames)[i] == r[i],
        r.last().1 == usize::MAX ==> closed(r, frames).last().1 + 1 == frames,
{
}

/// Scenes are accepted exactly when nothing is said against their order nor, for SVT-AV1, against
/// the parameters of any; their order is spoken of first, and then the first scene that has a fault.
pub proof fn law_scenes_pass_without_faults(
    enc: Encoder,
    order: Option<Seq<char>>,
    params: Seq<Option<Seq<char>>>,
    i: int,
)
    requires
        0 <= i < params.len(),
    ensures
        order is Some ==> scenes_fault(enc, order, params) == order,
        order is None && enc != Encoder::SvtAv1 ==> scenes_fault(enc, order, params) is None,
        order is None && enc == Encoder::SvtAv1 && params[i] is Some && (forall|k: int|
            0 <= k < i ==> (#[trigger] params[k]) is None) ==> scenes_fault(enc, order, params)
            == params[i],
        order is None && (forall|k: int| 0 <= k < params.len() ==> (#[trigger] params[k]) is None)
            ==> scenes_fault(enc, order, params) is None,
{
    lemma_first_fault(params, i);
}

proof fn lemma_first_fault(params: Seq<Option<Seq<char>>>, i: int)
    requires
        0 <= i < params.len(),
    ensures
        params[i] is Some && (forall|k: int| 0 <= k < i ==> (#[trigger] params[k]) is None)
            ==> first_fault(params) == params[i],
        (forall|k: int| 0 <= k < params.len() ==> (#[trigger] params[k]) is None) ==> first_fault(
            params,
        ) is None,
    decreases params.len(),
{
    let rest = params.drop_first();
    assert(forall|k: int| 0 <= k < rest.len() ==> #[trigger] rest[k] == params[k + 1]);
    if rest.len() > 0 {
        lemma_first_fault(rest, if i > 0 { i - 1 } else { 0 });
        if params[i] is Some && i > 0 && (forall|k: int|
            0 <= k < i ==> (#[trigger] params[k]) is None) {
            assert(params[0] is None);
            assert forall|k: int| 0 <= k < i - 1 implies (#[trigger] rest[k]) is None by {
                assert(params[k + 1] is None);
            }
        }
        if forall|k: int| 0 <= k < params.len() ==> (#[trigger] params[k]) is None {
            assert(params[0] is None);
            assert forall|k: int| 0 <= k < rest.len() implies (#[trigger] rest[k]) is None by {
                assert(params[k + 1] is None);
            }
        }
    } else {
        assert(first_fault(rest) is None);
    }
}

/// Only a run that looks for scenes alone is kept from writing over a scene file; any other takes
/// the file that is there.
pub proof fn law_scene_file_is_not_written_over(args: &Args, known: Known)
    ensures
        scene_file_fault(args, known) is Some ==> args.sc_only && known.sc_exists,
        args.sc_only && known.sc_exists ==> scene_file_fault(args, known) is Some,
{
}


/// What is known of a video that comes through a pipe is what the pipe says, and no display shape;
/// the rest stays. A crop for it takes no more than there is. Without a pipe nothing changes.
pub proof fn law_pipe_tells_the_frames(
    inf: &mut VidInf,
    crop: Crop,
    pipe: Option<PipeInfo>,
    r: Crop,
)
    requires
        pipe matches Some(y) ==> pipe_fits(inf, crop, y),
        inf.width > 0,
        inf.height > 0,
        call_ensures(init_pipe_crop, (inf, crop, pipe), r),
    ensures
        pipe is None ==> r == crop && *final(inf) == *old(inf),
        pipe matches Some(y) ==> {
            &&& (final(inf).width, final(inf).height) == (y.width, y.height)
            &&& final(inf).is_10b == y.is_10b
            &&& final(inf).dar is None
            &&& final(inf).frames == old(inf).frames
            &&& (final(inf).fps_num, final(inf).fps_den) == (old(inf).fps_num, old(inf).fps_den)
            &&& final(inf).color_primaries == old(inf).color_primaries
            &&& r.0 % 2 == 0 && r.1 % 2 == 0
            &&& r.0 * 2 <= y.height && r.1 * 2 <= y.width
        },
{
    if let Some(y) = pipe {
        law_scaled_crop_keeps_its_share(
            crop,
            old(inf).width,
            old(inf).height,
            y.width,
            y.height,
        );
    }
}

/// What was found is cut, and nothing where nothing was found.
pub proof fn law_found_crop_is_taken(detected: Option<Crop>, r: Crop)
    requires
        call_ensures(found_crop, (detected,), r),
    ensures
        detected matches Some(c) ==> r == c,
        detected is None ==> r == (0u32, 0u32),
{
}

/// The message about a scene file that is there already ends with its name.
pub proof fn law_scene_file_is_named(args: &Args, known: Known)
    ensures
        scene_file_fault(args, known) matches Some(m) ==> m.skip(m.len() - args.sc_file@.len())
            == args.sc_file@,
{
    if let Some(m) = scene_file_fault(args, known) {
        assert(m.skip(m.len() - args.sc_file@.len()) =~= args.sc_file@);
    }
}


/// Only frames with the shape of the whole video are cropped, and not where that is the shape of the
/// cropped video too; what is cut of them is the crop's share.
pub proof fn law_only_whole_frames_are_cropped(inf: &VidInf, crop: Crop, y: PipeInfo)
    ensures
        y.width * inf.height != y.height * inf.width ==> pipe_crop(inf, crop, y) == (0nat, 0nat),
        y.width * (inf.height - crop.0 * 2) == y.height * (inf.width - crop.1 * 2) ==> pipe_crop(
            inf,
            crop,
            y,
        ) == (0nat, 0nat),
        y.width * inf.height == y.height * inf.width && y.width * (inf.height - crop.0 * 2)
            != y.height * (inf.width - crop.1 * 2) ==> pipe_crop(inf, crop, y) == scaled(
            crop,
            inf.width,
            inf.height,
            y.width,
            y.height,
        ),
{
}


/// The step that a run takes is the one that is due: the video is encoded once its decoder is chosen
/// and nothing else follows that; audio only behind it and where it is asked for; and the parts are
/// put together behind both.
pub proof fn law_run_takes_the_step_that_is_due(s: Step, args: &Args, known: Known, r: Step)
    requires
        call_ensures(main_with_args, (s, args, known), r),
    ensures
        r == following(s, args, known),
        s != Step::Stop ==> place(s) < place(r),
        s == Step::ChooseDecoder <==> r == Step::Encode,
        r == Step::EncodeAudio ==> s == Step::Encode && args.au is Some,
        r == Step::Merge ==> s == Step::EncodeAudio || (s == Step::Encode && args.au is None),
        s == Step::Merge ==> r == Step::RemoveAudio,
        r == Step::Stop ==> s == Step::RemoveWorkDir || s == Step::Stop || (s == Step::CheckScenes
            && args.sc_only),
{
    if s != Step::Stop {
        law_steps_lead_forward(s, args, known);
    }
}

/// Ranges are given an end in place, and what stands against scenes or a scene file is what is told;
/// where nothing does, nothing is.
pub proof fn law_scenes_are_told_of(
    ranges: &mut Vec<(usize, usize)>,
    frames: usize,
    enc: Encoder,
    order: &Option<String>,
    params: &Vec<Option<String>>,
    scenes: Result<(), Xerr>,
    args: &Args,
    known: Known,
    file: Result<(), Xerr>,
)
    requires
        ranges@.len() > 0,
        frames > 0,
        call_ensures(close_ranges, (ranges, frames), ()),
        call_ensures(val_all_scenes, (enc, order, params), scenes),
        call_ensures(check_scene_file, (args, known), file),
    ensures
        final(ranges)@.len() == old(ranges)@.len(),
        final(ranges)@.drop_last() == old(ranges)@.drop_last(),
        final(ranges)@.last().0 == old(ranges)@.last().0,
        old(ranges)@.last().1 == usize::MAX ==> final(ranges)@.last().1 == frames - 1,
        old(ranges)@.last().1 != usize::MAX ==> final(ranges)@ == old(ranges)@,
        scenes is Err <==> scenes_fault(enc, opt_message(order), messages(params@)) is Some,
        order is Some ==> scenes is Err,
        order is None && !(enc is SvtAv1) ==> scenes is Ok,
        file is Err <==> args.sc_only && known.sc_exists,
{
    assert(final(ranges)@.drop_last() =~= old(ranges)@.drop_last());
}

} // verus!
