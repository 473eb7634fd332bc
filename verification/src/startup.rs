//! From the command line to what a run does: defaults, checks, and the run before this one.
use vstd::prelude::*;

use crate::args::{
    fault, joined_text, messages, nothing_asked, parse_args_loop, parsed, reads_as, words_read, Args,
    Fault, Parsed, Xerr,
};
use crate::bits::{is_le, is_lt, is_nan, le};
use crate::encoder::{variant_text, Build, Encoder};
use crate::num::{hexadecimal, is_digit, law_hexadecimal_reads_back, push_hexadecimal};
use crate::paths::{
    dot_of, extension, extension_of, file_name_of, file_stem, file_stem_of, law_renamed_has_name,
    lemma_dot_of, lemma_name_has_no_slash, parent_of, renamed, with_file_name,
};
use crate::quote::{holds, law_saved_args_read_back, line_of, parse_quoted_args, unquoted};
use crate::resume::{has_chunks, has_done, ResumeInf};
use crate::text::{
    gives, is_space, is_word, join_by, joined_by, law_words_hold_no_white_space, law_words_of_both,
    lemma_gives_here, lemma_gives_more, push_texts, same, text_of, texts, to_chars, words_of,
};
use crate::vvenc::{is_preset, presets, val_preset};

verus! {

/// The extension of a path, or nothing.
pub open spec fn extension_or_none(p: Seq<char>) -> Seq<char> {
    match extension_of(p) {
        Some(e) => e,
        None => seq![],
    }
}

/// What is said against an output file.
pub open spec fn out_fault(out: Seq<char>, encoder: Encoder) -> Option<Seq<char>> {
    let ext = extension_or_none(out);
    if ext == "mkv"@ || (encoder is SvtAv1 && ext == "webm"@) {
        None
    } else if ext == "webm"@ {
        Some("webm output requires svt-av1, not "@ + variant_text(encoder))
    } else {
        Some(
            "Invalid extension ."@ + ext + " for "@ + variant_text(encoder) + ". Use: mkv, webm"@,
        )
    }
}

/// Whether a step went well, or the message that it must give.
pub open spec fn says(r: Result<(), Xerr>, m: Option<Seq<char>>) -> bool {
    match r {
        Ok(_) => m is None,
        Err(e) => m matches Some(t) && fault(e) == Fault::Message(t),
    }
}

/// Every encoder writes `mkv`; SVT-AV1 writes `webm` too.
pub fn val_out(out: &str, encoder: Encoder) -> (r: Result<(), Xerr>)
    ensures
        says(r, out_fault(out@, encoder)),
{
    let ext = match extension(out) {
        Some(e) => e,
        None => String::new(),
    };
    assert(ext@ =~= extension_or_none(out@));
    if same(ext.as_str(), "mkv") {
        return Ok(());
    }
    if same(ext.as_str(), "webm") {
        if let Encoder::SvtAv1 = encoder {
            return Ok(());
        }
        return Err(
            Xerr::Message(
                joined_text("webm output requires svt-av1, not ", encoder.variant_name()),
            ),
        );
    }
    let mut m = "Invalid extension .".to_owned();
    m.append(ext.as_str());
    m.append(" for ");
    m.append(encoder.variant_name());
    m.append(". Use: mkv, webm");
    Err(Xerr::Message(m))
}

/// A path beside the input, named after it.
pub open spec fn beside(inp: Seq<char>, ending: Seq<char>) -> Seq<char> {
    match file_stem_of(inp) {
        Some(stem) => renamed(inp, stem + ending),
        None => seq![],
    }
}

/// What is asked for, with what was left out filled in.
pub open spec fn with_defaults(p: Parsed) -> Parsed {
    Parsed {
        out: if p.out.len() == 0 {
            beside(p.inp, "_xav.mkv"@)
        } else {
            p.out
        },
        sc_file: if p.sc_file.len() == 0 {
            beside(p.inp, "_scd.txt"@)
        } else {
            p.sc_file
        },
        qp_range: if p.tq is Some && p.qp_range is None {
            Some("8.0-48.0"@)
        } else {
            p.qp_range
        },
        ..p
    }
}

/// Whether the input has a name, where other files are named after it.
pub open spec fn can_name(p: Parsed) -> bool {
    p.out.len() == 0 || p.sc_file.len() == 0 ==> file_stem_of(p.inp) is Some
}

fn beside_text(inp: &str, ending: &str) -> (r: String)
    requires
        file_stem_of(inp@) is Some,
    ensures
        r@ == beside(inp@, ending@),
{
    match file_stem(inp) {
        Some(mut stem) => {
            stem.append(ending);
            with_file_name(inp, stem.as_str())
        },
        None => String::new(),
    }
}

/// Fills in what was left out: the output and the scene file beside the input, and the range of
/// qualities for a target quality.
pub fn apply_defaults(args: &mut Args)
    requires
        can_name(parsed(*old(args), None)),
    ensures
        forall|b: Option<usize>|
            #[trigger] parsed(*final(args), b) == with_defaults(parsed(*old(args), b)),
        final(args).chnk_buff == old(args).chnk_buff,
{
    if args.out.as_str().is_empty() {
        args.out = beside_text(args.inp.as_str(), "_xav.mkv");
    }
    if args.sc_file.as_str().is_empty() {
        args.sc_file = beside_text(args.inp.as_str(), "_scd.txt");
    }
    if args.tq.is_some() && args.qp_range.is_none() {
        args.qp_range = Some("8.0-48.0".to_owned());
    }
}

/// What is said against a range of two numbers; `numbers` are the bit patterns of those of its
/// parts that are numbers.
pub open spec fn range_fault(s: Seq<char>, numbers: Seq<u32>, name: Seq<char>) -> Option<
    Seq<char>,
> {
    if numbers.len() != 2 {
        Some(name + " requires a range: <min>-<max>"@)
    } else if is_le(numbers[1], numbers[0]) {
        Some(name + " min must be less than max: "@ + s)
    } else {
        None
    }
}

/// A range is two numbers, the first less than the second; `numbers` are the bit patterns of
/// those of its parts that are numbers.
pub fn val_range(s: &str, numbers: &Vec<u32>, name: &str) -> (r: Result<(), Xerr>)
    ensures
        says(r, range_fault(s@, numbers@, name@)),
{
    if numbers.len() != 2 {
        return Err(Xerr::Message(joined_text(name, " requires a range: <min>-<max>")));
    }
    if le(numbers[1], numbers[0]) {
        let mut m = joined_text(name, " min must be less than max: ");
        m.append(s);
        return Err(Xerr::Message(m));
    }
    Ok(())
}

/// What others say of a command line.
pub struct Facts {
    /// The numbers in the target quality, as bit patterns.
    pub tq_numbers: Vec<u32>,
    /// The numbers in the range of qualities, as bit patterns.
    pub qp_numbers: Vec<u32>,
    /// The encoder parameters set a quality.
    pub params_rc: bool,
    /// The parameters for probes set a quality.
    pub alt_rc: bool,
    /// What is said against the parameters of SVT-AV1.
    pub params_fault: Option<String>,
    /// What is said against its parameters for probes.
    pub alt_fault: Option<String>,
    /// The video comes through a pipe.
    pub piped: bool,
}

/// What is said against a target quality.
pub open spec fn tq_fault(p: Parsed, f: &Facts) -> Option<Seq<char>> {
    match (p.tq, p.qp_range) {
        (Some(tq), Some(qp)) => if p.encoder is Avm {
            Some("Target quality is not supported by avm"@)
        } else if range_fault(tq, f.tq_numbers@, "-t/--tq"@) is Some {
            range_fault(tq, f.tq_numbers@, "-t/--tq"@)
        } else if range_fault(qp, f.qp_numbers@, "-f/--qp"@) is Some {
            range_fault(qp, f.qp_numbers@, "-f/--qp"@)
        } else if f.params_rc || (p.alt_param is Some && f.alt_rc) {
            Some(
                "-p and -P must not set CRF/QP in target-quality mode: CRF is chosen automatically"@,
            )
        } else {
            None
        },
        _ => None,
    }
}

/// What is said against the parameters of SVT-AV1.
pub open spec fn svt_fault(p: Parsed, f: &Facts) -> Option<Seq<char>> {
    if !(p.encoder is SvtAv1) {
        None
    } else if f.params_fault is Some {
        Some(f.params_fault->0@)
    } else if p.alt_param is Some && f.alt_fault is Some {
        Some(f.alt_fault->0@)
    } else {
        None
    }
}

/// What is said against a preset.
pub open spec fn preset_fault(p: Parsed) -> Option<Seq<char>> {
    match p.preset {
        Some(name) => if !(p.encoder is Vvenc) {
            Some("--preset is only supported by the vvenc encoder"@)
        } else if !is_preset(name) {
            Some(
                "Unknown vvenc preset: "@ + name + " (valid: "@ + joined_by(presets(), ", "@)
                    + ")"@,
            )
        } else {
            None
        },
        None => None,
    }
}

/// What is asked for, with the preset among the parameters.
pub open spec fn with_preset(p: Parsed) -> Parsed {
    match p.preset {
        Some(name) => Parsed { params: p.params + " --preset "@ + name, ..p },
        None => p,
    }
}

/// What a run does, or what is said against it first.
pub open spec fn checked(p: Parsed, f: &Facts) -> Result<Parsed, Fault> {
    let q = with_defaults(p);
    if p.out.len() > 0 && out_fault(p.out, p.encoder) is Some {
        Err(Fault::Message(out_fault(p.out, p.encoder)->0))
    } else if tq_fault(q, f) is Some {
        Err(Fault::Message(tq_fault(q, f)->0))
    } else if svt_fault(q, f) is Some {
        Err(Fault::Message(svt_fault(q, f)->0))
    } else if preset_fault(q) is Some {
        Err(Fault::Message(preset_fault(q)->0))
    } else if q.hwdec && f.piped {
        Err(Fault::Message("Hardware accelerated decoding can not be used with a pipe"@))
    } else {
        Ok(with_preset(q))
    }
}

fn check_tq(a: &Args, f: &Facts) -> (r: Result<(), Xerr>)
    ensures
        forall|b: Option<usize>| says(r, tq_fault(#[trigger] parsed(*a, b), f)),
{
    match (&a.tq, &a.qp_range) {
        (Some(tq), Some(qp)) => {
            if let Encoder::Avm = a.encoder {
                return Err(Xerr::Message("Target quality is not supported by avm".to_owned()));
            }
            match val_range(tq.as_str(), &f.tq_numbers, "-t/--tq") {
                Ok(_) => {},
                Err(e) => {
                    return Err(e);
                },
            }
            match val_range(qp.as_str(), &f.qp_numbers, "-f/--qp") {
                Ok(_) => {},
                Err(e) => {
                    return Err(e);
                },
            }
            if f.params_rc || (a.alt_param.is_some() && f.alt_rc) {
                return Err(
                    Xerr::Message(
                        "-p and -P must not set CRF/QP in target-quality mode: CRF is chosen automatically".to_owned(),
                    ),
                );
            }
            Ok(())
        },
        _ => Ok(()),
    }
}

fn check_svt(a: &Args, f: &Facts) -> (r: Result<(), Xerr>)
    ensures
        forall|b: Option<usize>| says(r, svt_fault(#[trigger] parsed(*a, b), f)),
{
    if let Encoder::SvtAv1 = a.encoder {
        if let Some(m) = &f.params_fault {
            return Err(Xerr::Message(m.clone()));
        }
        if a.alt_param.is_some() {
            if let Some(m) = &f.alt_fault {
                return Err(Xerr::Message(m.clone()));
            }
        }
    }
    Ok(())
}

fn preset_names() -> (r: String)
    ensures
        r@ == joined_by(presets(), ", "@),
{
    let mut v: Vec<String> = Vec::new();
    let names = ["faster", "fast", "medium", "slow", "slower", "medium_lowDecEnergy"];
    push_texts(&mut v, &names);
    assert(texts(v@) =~= presets());
    join_by(&v, ", ")
}

fn check_preset(a: &Args) -> (r: Result<(), Xerr>)
    ensures
        forall|b: Option<usize>| says(r, preset_fault(#[trigger] parsed(*a, b))),
{
    if let Some(name) = &a.preset {
        match a.encoder {
            Encoder::Vvenc => {},
            _ => {
                return Err(
                    Xerr::Message("--preset is only supported by the vvenc encoder".to_owned()),
                );
            },
        }
        if !val_preset(name.as_str()) {
            let mut m = joined_text("Unknown vvenc preset: ", name.as_str());
            m.append(" (valid: ");
            let names = preset_names();
            m.append(names.as_str());
            m.append(")");
            return Err(Xerr::Message(m));
        }
    }
    Ok(())
}

/// Whether the checks come to an end: the output is refused, or the files that are not named can be
/// named after the input.
pub open spec fn can_start(p: Parsed) -> bool {
    (p.out.len() > 0 && out_fault(p.out, p.encoder) is Some) || can_name(p)
}

/// What is asked for, or why a command line asks for nothing.
pub open spec fn asked(
    args: Seq<Seq<char>>,
    au: Seq<Option<Seq<char>>>,
    build: Build,
) -> Result<Parsed, Fault> {
    if args.len() < 2 {
        Err(Fault::Message("Usage: xav [options] <input> <output>"@))
    } else {
        match words_read(args, au, build, 1, nothing_asked()) {
            Err(e) => Err(e),
            Ok(p) => if p.inp.len() == 0 {
                Err(Fault::Message("Missing input"@))
            } else {
                Ok(p)
            },
        }
    }
}

/// Reads the command line as it stands. `au[i]` is what the parser of audio words says against
/// the word `i`.
pub fn read_args(args: &Vec<String>, au: &Vec<Option<String>>, build: Build) -> (r: Result<
    Args,
    Xerr,
>)
    requires
        args@.len() == au@.len(),
    ensures
        reads_as(r, asked(texts(args@), messages(au@), build)),
{
    if args.len() < 2 {
        return Err(Xerr::Message("Usage: xav [options] <input> <output>".to_owned()));
    }
    match parse_args_loop(args, au, build) {
        Ok(a) => {
            if a.inp.as_str().is_empty() {
                return Err(Xerr::Message("Missing input".to_owned()));
            }
            Ok(a)
        },
        Err(e) => Err(e),
    }
}

/// What a command line makes a run do by itself, or what is said against it first.
pub open spec fn started(
    args: Seq<Seq<char>>,
    au: Seq<Option<Seq<char>>>,
    build: Build,
    f: &Facts,
) -> Result<Parsed, Fault> {
    match asked(args, au, build) {
        Err(e) => Err(e),
        Ok(p) => checked(p, f),
    }
}

/// Whether a command line is refused, or can be started.
pub open spec fn can_begin(
    args: Seq<Seq<char>>,
    au: Seq<Option<Seq<char>>>,
    build: Build,
) -> bool {
    asked(args, au, build) matches Ok(p) ==> can_start(p)
}

/// Whether what a run does is sound: it has an input, its output can be written, its scene file has
/// a name, its target quality and its parameters are accepted, and it asks for no hardware decoding
/// of a pipe.
pub open spec fn is_sound(q: Parsed, f: &Facts) -> bool {
    &&& q.inp.len() > 0
    &&& out_fault(q.out, q.encoder) is None
    &&& q.sc_file.len() > 0
    &&& q.tq matches Some(tq) ==> {
        &&& !(q.encoder is Avm)
        &&& range_fault(tq, f.tq_numbers@, "-t/--tq"@) is None
        &&& q.qp_range is Some
        &&& range_fault(q.qp_range->0, f.qp_numbers@, "-f/--qp"@) is None
        &&& !f.params_rc
        &&& q.alt_param is Some ==> !f.alt_rc
    }
    &&& svt_fault(q, f) is None
    &&& preset_fault(q) is None
    &&& !(q.hwdec && f.piped)
}

proof fn lemma_beside_is_there(inp: Seq<char>)
    requires
        file_stem_of(inp) is Some,
    ensures
        beside(inp, "_scd.txt"@).len() > 0,
{
    let stem = file_stem_of(inp)->0;
    reveal_strlit("_scd.txt");
    let name = stem + "_scd.txt"@;
    let full = file_name_of(inp)->0;
    lemma_name_has_no_slash(inp);
    if dot_of(full) is Some {
        lemma_dot_of(full);
    }
    assert forall|k: int| 0 <= k < name.len() implies name[k] != '/' by {
        if k < stem.len() {
            assert(name[k] == full[k]);
        }
    }
    assert(name.len() >= 8);
    law_renamed_has_name(inp, name);
}

/// What passes the checks is sound.
pub proof fn law_checked_is_sound(p: Parsed, f: &Facts)
    requires
        p.inp.len() > 0,
        can_start(p),
        checked(p, f) is Ok,
    ensures
        is_sound(checked(p, f)->Ok_0, f),
{
    if p.out.len() == 0 {
        law_default_output_is_accepted(p.inp, p.encoder);
    }
    if p.sc_file.len() == 0 {
        lemma_beside_is_there(p.inp);
    }
}

/// What a command line makes a run do by itself, with defaults and checks.
fn own_args(args: &Vec<String>, au: &Vec<Option<String>>, build: Build, facts: &Facts) -> (r: Result<
    Args,
    Xerr,
>)
    requires
        args@.len() == au@.len(),
        can_begin(texts(args@), messages(au@), build),
    ensures
        reads_as(r, started(texts(args@), messages(au@), build, facts)),
        r matches Ok(a) ==> is_sound(parsed(a, None), facts),
{
    let mut a = match read_args(args, au, build) {
        Ok(a) => a,
        Err(e) => {
            return Err(e);
        },
    };
    let ghost p = asked(texts(args@), messages(au@), build)->Ok_0;
    assert(parsed(a, p.buff) == p);
    if !a.out.as_str().is_empty() {
        match val_out(a.out.as_str(), a.encoder) {
            Ok(_) => {},
            Err(e) => {
                return Err(e);
            },
        }
    }
    assert(can_name(parsed(a, None)));
    apply_defaults(&mut a);
    let ghost q = with_defaults(p);
    assert(parsed(a, p.buff) == q);
    match check_tq(&a, facts) {
        Ok(_) => {},
        Err(e) => {
            return Err(e);
        },
    }
    match check_svt(&a, facts) {
        Ok(_) => {},
        Err(e) => {
            return Err(e);
        },
    }
    match check_preset(&a) {
        Ok(_) => {},
        Err(e) => {
            return Err(e);
        },
    }
    if a.hwdec && facts.piped {
        return Err(
            Xerr::Message(
                "Hardware accelerated decoding can not be used with a pipe".to_owned(),
            ),
        );
    }
    if let Some(name) = &a.preset {
        let mut params = joined_text(a.params.as_str(), " --preset ");
        params.append(name.as_str());
        a.params = params;
    }
    assert(parsed(a, p.buff) == with_preset(q));
    proof {
        law_checked_is_sound(p, facts);
    }
    Ok(a)
}

/// What an earlier run on the same input left behind, and what others say of its command line.
pub struct Left {
    /// Its command line.
    pub line: Option<String>,
    /// What it noted of its chunks.
    pub kept: Option<ResumeInf>,
    /// What the parser of audio words says against each word of its command line.
    pub au: Vec<Option<String>>,
    pub facts: Facts,
}

/// Whether it left a command line and chunks that are done.
pub open spec fn is_left(l: &Left) -> bool {
    l.line is Some && (l.kept matches Some(k) && k.chnks_done@.len() > 0)
}

/// The words of the command line that it left.
pub open spec fn left_words(l: &Left) -> Seq<Seq<char>> {
    unquoted(l.line->0@)
}

/// Whether there is something said, or nothing, of each word that it left.
pub open spec fn is_heard(l: &Left) -> bool {
    is_left(l) ==> l.au@.len() == left_words(l).len()
}

/// Whether the command line that it left is refused, or can be started.
pub open spec fn left_can_begin(l: &Left, build: Build) -> bool {
    is_left(l) ==> can_begin(left_words(l), messages(l.au@), build)
}

/// What the run was doing that is taken up: one that left a command line and chunks that are done,
/// and whose command line is accepted.
pub open spec fn resumed(left: Option<&Left>, build: Build) -> Option<Parsed> {
    match left {
        Some(l) => if is_left(l) {
            match started(left_words(l), messages(l.au@), build, &l.facts) {
                Ok(q) => Some(q),
                Err(_) => None,
            }
        } else {
            None
        },
        None => None,
    }
}

/// What others say of the command line that is run in the end.
pub open spec fn facts_used(left: Option<&Left>, build: Build, facts: &Facts) -> Facts {
    if resumed(left, build) is Some {
        left->0.facts
    } else {
        *facts
    }
}

/// The words of the command line of an interrupted run: where it left one behind, and chunks that
/// are done.
pub fn saved_words(cmd_line: Option<&str>, kept: Option<&ResumeInf>) -> (r: Result<
    Vec<String>,
    Xerr,
>)
    ensures
        match r {
            Ok(w) => cmd_line is Some && has_done(kept) && texts(w@) == unquoted(cmd_line->0@),
            Err(e) => !(cmd_line is Some && has_done(kept)) && fault(e) == Fault::Message(
                "No tmp dir found"@,
            ),
        },
{
    match cmd_line {
        Some(line) => if has_chunks(kept) {
            return Ok(parse_quoted_args(line));
        },
        None => {},
    }
    Err(Xerr::Message("No tmp dir found".to_owned()))
}

fn words_left(left: &Left) -> (r: Result<Vec<String>, Xerr>)
    requires
        is_heard(left),
    ensures
        match r {
            Ok(w) => is_left(left) && texts(w@) == left_words(left) && w@.len() == left.au@.len(),
            Err(e) => !is_left(left) && fault(e) == Fault::Message("No tmp dir found"@),
        },
{
    let line = match &left.line {
        Some(s) => Some(s.as_str()),
        None => None,
    };
    let r = saved_words(line, left.kept.as_ref());
    assert(r matches Ok(w) ==> w@.len() == texts(w@).len());
    r
}

/// What an interrupted run was doing: its own command line with defaults and checks.
pub fn get_saved_args(left: &Left, build: Build) -> (r: Result<Args, Xerr>)
    requires
        is_heard(left),
        left_can_begin(left, build),
    ensures
        is_left(left) ==> reads_as(
            r,
            started(left_words(left), messages(left.au@), build, &left.facts),
        ),
        !is_left(left) ==> r is Err && fault(r->Err_0) == Fault::Message("No tmp dir found"@),
        r matches Ok(a) ==> is_sound(parsed(a, None), &left.facts),
{
    match words_left(left) {
        Ok(w) => own_args(&w, &left.au, build, &left.facts),
        Err(e) => Err(e),
    }
}

/// What a command line makes a run do: what an interrupted run was doing, where there is one and
/// its command line is accepted; else what it asks for itself, with defaults and checks.
pub open spec fn outcome(
    args: Seq<Seq<char>>,
    au: Seq<Option<Seq<char>>>,
    build: Build,
    left: Option<&Left>,
    facts: &Facts,
) -> Result<Parsed, Fault> {
    match asked(args, au, build) {
        Err(e) => Err(e),
        Ok(p) => match resumed(left, build) {
            Some(q) => Ok(q),
            None => checked(p, facts),
        },
    }
}

/// Whether every file that the outcome depends on can be named: those of the interrupted run, and
/// where it is not taken up those of the command line.
pub open spec fn names_all(
    args: Seq<Seq<char>>,
    au: Seq<Option<Seq<char>>>,
    build: Build,
    left: Option<&Left>,
) -> bool {
    asked(args, au, build) matches Ok(p) ==> {
        &&& left matches Some(l) ==> left_can_begin(l, build)
        &&& resumed(left, build) is None ==> can_start(p)
    }
}

/// What a command line makes a run do. `au[i]` is what the parser of audio words says against the
/// word `i`.
pub fn get_args(
    args: &Vec<String>,
    au: &Vec<Option<String>>,
    build: Build,
    left: Option<&Left>,
    facts: &Facts,
) -> (r: Result<Args, Xerr>)
    requires
        args@.len() == au@.len(),
        left matches Some(l) ==> is_heard(l),
        names_all(texts(args@), messages(au@), build, left),
    ensures
        reads_as(r, outcome(texts(args@), messages(au@), build, left, facts)),
        r matches Ok(a) ==> is_sound(parsed(a, None), &facts_used(left, build, facts)),
{
    match read_args(args, au, build) {
        Ok(_) => {},
        Err(e) => {
            return Err(e);
        },
    }
    if let Some(l) = left {
        if let Ok(saved) = get_saved_args(l, build) {
            return Ok(saved);
        }
    }
    own_args(args, au, build, facts)
}

/// Whether a command line is refused, or can be started.
fn begins(args: &Vec<String>, au: &Vec<Option<String>>, build: Build) -> (r: bool)
    requires
        args@.len() == au@.len(),
    ensures
        r == can_begin(texts(args@), messages(au@), build),
{
    match read_args(args, au, build) {
        Ok(a) => {
            let refused = !a.out.as_str().is_empty() && val_out(a.out.as_str(), a.encoder).is_err();
            refused || !(a.out.as_str().is_empty() || a.sc_file.as_str().is_empty())
                || file_stem(a.inp.as_str()).is_some()
        },
        Err(_) => true,
    }
}

/// What a command line makes a run do, as `get_args` says; nothing where other files would have to
/// be named after an input that has no name.
pub fn start_args(
    args: &Vec<String>,
    au: &Vec<Option<String>>,
    build: Build,
    left: Option<&Left>,
    facts: &Facts,
) -> (r: Option<Result<Args, Xerr>>)
    requires
        args@.len() == au@.len(),
        left matches Some(l) ==> is_heard(l),
    ensures
        r is None <==> !names_all(texts(args@), messages(au@), build, left),
        r matches Some(x) ==> {
            &&& reads_as(x, outcome(texts(args@), messages(au@), build, left, facts))
            &&& x matches Ok(a) ==> is_sound(parsed(a, None), &facts_used(left, build, facts))
        },
{
    match read_args(args, au, build) {
        Ok(_) => {},
        Err(e) => {
            return Some(Err(e));
        },
    }
    if let Some(l) = left {
        if let Ok(w) = words_left(l) {
            if !begins(&w, &l.au, build) {
                return None;
            }
            if let Ok(a) = own_args(&w, &l.au, build, &l.facts) {
                return Some(Ok(a));
            }
        }
    }
    if !begins(args, au, build) {
        return None;
    }
    Some(get_args(args, au, build, left, facts))
}

/// The name of the directory that a run works in: a dot and the first seven digits of the input's
/// hash.
pub open spec fn work_name(hash: u64) -> Seq<char> {
    "."@ + hexadecimal(hash as nat).take(7)
}

proof fn lemma_hexadecimal_len(n: nat, k: nat)
    requires
        k >= 1,
        k == 1 || n >= vstd::arithmetic::power::pow(16, (k - 1) as nat),
    ensures
        hexadecimal(n).len() >= k,
    decreases k,
{
    if k > 1 {
        vstd::arithmetic::power::lemma_pow1(16);
        vstd::arithmetic::power::lemma_pow_positive(16, (k - 2) as nat);
        reveal(vstd::arithmetic::power::pow);
        let b = vstd::arithmetic::power::pow(16, (k - 2) as nat);
        assert(vstd::arithmetic::power::pow(16, (k - 1) as nat) == 16 * b);
        assert(n / 16 >= b);
        lemma_hexadecimal_len(n / 16, (k - 1) as nat);
    }
}

/// The directory that a run works in, beside its input.
pub fn work_dir(inp: &str, hash: u64) -> (r: String)
    requires
        hash >= 0x100_0000,
    ensures
        hexadecimal(hash as nat).len() >= 7,
        r@ == renamed(inp@, work_name(hash)),
{
    let mut h = String::new();
    push_hexadecimal(&mut h, hash);
    proof {
        assert(vstd::arithmetic::power::pow(16, 6) == 0x100_0000) by {
            reveal_with_fuel(vstd::arithmetic::power::pow, 7);
        }
        lemma_hexadecimal_len(hash as nat, 7);
    }
    assert(h@ =~= hexadecimal(hash as nat));
    let v = to_chars(h.as_str());
    let t = text_of(&v, 0, 7);
    let mut name = ".".to_owned();
    name.append(t.as_str());
    assert(name@ =~= work_name(hash));
    with_file_name(inp, name.as_str())
}

/// The command line that a run leaves behind asks for the same as its own, when none of its words
/// is empty or holds a quote.
pub proof fn law_saved_line_asks_the_same(
    args: Seq<Seq<char>>,
    au: Seq<Option<Seq<char>>>,
    build: Build,
)
    requires
        forall|i: int|
            0 <= i < args.len() ==> (#[trigger] args[i]).len() > 0 && !holds(args[i], '"'),
    ensures
        asked(unquoted(line_of(args)), au, build) == asked(args, au, build),
{
    law_saved_args_read_back(args);
}

proof fn lemma_dot_behind(stem: Seq<char>, tail: Seq<char>)
    requires
        tail.len() > 0,
        stem.len() > 0,
        forall|k: int| 0 <= k < tail.len() ==> tail[k] != '.',
    ensures
        dot_of(stem.push('.') + tail) == Some(stem.len() as int),
    decreases tail.len(),
{
    let n = stem.push('.') + tail;
    assert(n.last() == tail.last());
    if tail.len() > 1 {
        lemma_dot_behind(stem, tail.drop_last());
        assert(n.drop_last() =~= stem.push('.') + tail.drop_last());
    } else {
        assert(n.drop_last() =~= stem.push('.'));
        assert(stem.push('.').last() == '.');
    }
}

/// The output that is named after the input can be written by every encoder.
pub proof fn law_default_output_is_accepted(inp: Seq<char>, encoder: Encoder)
    requires
        file_stem_of(inp) is Some,
    ensures
        out_fault(beside(inp, "_xav.mkv"@), encoder) is None,
{
    let stem = file_stem_of(inp)->0;
    reveal_strlit("_xav.mkv");
    reveal_strlit("mkv");
    let name = stem + "_xav.mkv"@;
    let full = file_name_of(inp)->0;
    lemma_name_has_no_slash(inp);
    match dot_of(full) {
        Some(d) => {
            lemma_dot_of(full);
        },
        None => {},
    }
    assert forall|k: int| 0 <= k < name.len() implies name[k] != '/' by {
        if k < stem.len() {
            assert(name[k] == full[k]);
        }
    }
    assert(name.len() >= 8);
    law_renamed_has_name(inp, name);
    let head = stem + seq!['_', 'x', 'a', 'v'];
    assert(name =~= head.push('.') + "mkv"@);
    lemma_dot_behind(head, "mkv"@);
    assert(name.skip((head.len() + 1) as int) =~= "mkv"@);
}


/// Every encoder writes `mkv` and SVT-AV1 alone writes `webm`; nothing else is written, and the
/// message against it names what was asked for.
pub proof fn law_outputs_that_are_written(out: Seq<char>, e: Encoder)
    ensures
        extension_of(out) == Some("mkv"@) ==> out_fault(out, e) is None,
        extension_of(out) == Some("webm"@) ==> (out_fault(out, e) is None <==> e is SvtAv1),
        out_fault(out, e) is None ==> extension_of(out) == Some("mkv"@) || extension_of(out) == Some(
            "webm"@,
        ),
        out_fault(out, e) matches Some(m) ==> exists|a: Seq<char>, b: Seq<char>| #[trigger]
            (a + variant_text(e) + b) == m,
        extension_of(out) == Some("webm"@) && !(e is SvtAv1) ==> out_fault(out, e) == Some(
            "webm output requires svt-av1, not "@ + variant_text(e),
        ),
        extension_of(out) matches Some(x) ==> x != "mkv"@ && x != "webm"@ ==> (out_fault(out, e) matches Some(
            m,
        ) && gives(m, "Invalid extension ."@, x, " for "@)),
{
    reveal_strlit("mkv");
    reveal_strlit("webm");
    let ext = extension_or_none(out);
    assert("mkv"@.len() == 3 && "webm"@.len() == 4);
    if let Some(m) = out_fault(out, e) {
        let (a, b) = if ext == "webm"@ {
            ("webm output requires svt-av1, not "@, Seq::<char>::empty())
        } else {
            ("Invalid extension ."@ + ext + " for "@, ". Use: mkv, webm"@)
        };
        assert(a + variant_text(e) + b =~= m);
        if ext != "webm"@ {
            let none = Seq::<char>::empty();
            assert(none + "Invalid extension ."@ + ext + " for "@ =~= a);
            lemma_gives_here(none, "Invalid extension ."@, ext, " for "@);
            lemma_gives_more(a, variant_text(e));
            lemma_gives_more(a + variant_text(e), b);
        } else {
            assert(a + variant_text(e) =~= m);
        }
    }
}

/// Defaults fill in only what was left out, and filling in again changes nothing: what is named
/// stays, the output and the scene file that are not named stand beside the input and start with its
/// stem, and a range of qualities is filled in only for a target quality.
pub proof fn law_defaults_keep_what_is_named(p: Parsed)
    requires
        can_name(p),
    ensures
        ({
            let q = with_defaults(p);
            &&& p.out.len() > 0 ==> q.out == p.out
            &&& p.sc_file.len() > 0 ==> q.sc_file == p.sc_file
            &&& p.qp_range is Some || p.tq is None ==> q.qp_range == p.qp_range
            &&& p.tq is Some && p.qp_range is None ==> q.qp_range == Some("8.0-48.0"@)
            &&& q == (Parsed { out: q.out, sc_file: q.sc_file, qp_range: q.qp_range, ..p })
            &&& p.out.len() == 0 ==> q.out == renamed(p.inp, file_stem_of(p.inp)->0 + "_xav.mkv"@)
            &&& p.sc_file.len() == 0 ==> q.sc_file == renamed(
                p.inp,
                file_stem_of(p.inp)->0 + "_scd.txt"@,
            )
            &&& p.out.len() == 0 && p.sc_file.len() == 0 ==> q.out != q.sc_file
            &&& with_defaults(q) == q
        }),
{
    let q = with_defaults(p);
    if p.sc_file.len() == 0 {
        lemma_beside_is_there(p.inp);
    }
    if p.out.len() == 0 {
        law_default_output_is_accepted(p.inp, p.encoder);
        lemma_output_is_there(q.out, p.encoder);
    }
    if p.out.len() == 0 && p.sc_file.len() == 0 {
        lemma_defaults_differ(p.inp);
    }
}

proof fn lemma_output_is_there(out: Seq<char>, e: Encoder)
    requires
        out_fault(out, e) is None,
    ensures
        out.len() > 0,
{
    law_outputs_that_are_written(out, e);
    if out.len() == 0 {
        assert(file_name_of(out) is None);
    }
}

proof fn lemma_defaults_differ(inp: Seq<char>)
    requires
        file_stem_of(inp) is Some,
    ensures
        beside(inp, "_xav.mkv"@) != beside(inp, "_scd.txt"@),
{
    law_default_output_is_accepted(inp, Encoder::X264);
    law_outputs_that_are_written(beside(inp, "_xav.mkv"@), Encoder::X264);
    lemma_scene_file_is_text(inp);
    reveal_strlit("txt");
    reveal_strlit("mkv");
    assert("txt"@[0] == 't' && "mkv"@[0] == 'm');
}

proof fn lemma_scene_file_is_text(inp: Seq<char>)
    requires
        file_stem_of(inp) is Some,
    ensures
        extension_of(beside(inp, "_scd.txt"@)) == Some("txt"@),
{
    let stem = file_stem_of(inp)->0;
    reveal_strlit("_scd.txt");
    reveal_strlit("txt");
    let name = stem + "_scd.txt"@;
    let full = file_name_of(inp)->0;
    lemma_name_has_no_slash(inp);
    if dot_of(full) is Some {
        lemma_dot_of(full);
    }
    assert forall|k: int| 0 <= k < name.len() implies name[k] != '/' by {
        if k < stem.len() {
            assert(name[k] == full[k]);
        }
    }
    assert(name.len() >= 8);
    law_renamed_has_name(inp, name);
    let head = stem + seq!['_', 's', 'c', 'd'];
    assert(name =~= head.push('.') + "txt"@);
    lemma_dot_behind(head, "txt"@);
    assert(name.skip((head.len() + 1) as int) =~= "txt"@);
}

/// A range is accepted exactly when it is two numbers, the first less than the second; what stands
/// against one is said of the option by name.
pub proof fn law_ranges_rise(s: Seq<char>, numbers: Seq<u32>, name: Seq<char>)
    requires
        forall|i: int| 0 <= i < numbers.len() ==> !is_nan(#[trigger] numbers[i]),
    ensures
        range_fault(s, numbers, name) is None <==> numbers.len() == 2 && is_lt(
            numbers[0],
            numbers[1],
        ),
        range_fault(s, numbers, name) matches Some(m) ==> name.is_prefix_of(m),
        range_fault(s, numbers, name) matches Some(m) ==> numbers.len() == 2 ==> s == m.skip(
            m.len() - s.len(),
        ),
{
    if numbers.len() == 2 {
        assert(!is_nan(numbers[0]) && !is_nan(numbers[1]));
        if let Some(m) = range_fault(s, numbers, name) {
            assert(s =~= m.skip(m.len() - s.len()));
        }
    }
}

/// What is asked for is accepted exactly when nothing stands against it: the output, where one is
/// named, can be written; a target quality is not asked of AVM, is a range that rises, as the range
/// of qualities does, and stands beside no quality among the parameters; SVT-AV1 takes its
/// parameters; a preset is one of VVenC's; and hardware does not decode a pipe.
pub proof fn law_what_is_accepted(p: Parsed, f: &Facts)
    ensures
        checked(p, f) is Ok <==> {
            &&& p.out.len() > 0 ==> extension_of(p.out) == Some("mkv"@) || (p.encoder is SvtAv1
                && extension_of(p.out) == Some("webm"@))
            &&& p.tq is Some ==> {
                &&& !(p.encoder is Avm)
                &&& f.tq_numbers@.len() == 2 && !is_le(f.tq_numbers@[1], f.tq_numbers@[0])
                &&& f.qp_numbers@.len() == 2 && !is_le(f.qp_numbers@[1], f.qp_numbers@[0])
                &&& !f.params_rc
                &&& p.alt_param is Some ==> !f.alt_rc
            }
            &&& p.encoder is SvtAv1 ==> f.params_fault is None && (p.alt_param is Some
                ==> f.alt_fault is None)
            &&& p.preset matches Some(name) ==> p.encoder is Vvenc && is_preset(name)
            &&& !(p.hwdec && f.piped)
        },
{
    reveal_strlit("mkv");
    reveal_strlit("webm");
    assert("mkv"@.len() == 3 && "webm"@.len() == 4);
    law_outputs_that_are_written(p.out, p.encoder);
}

/// What is accepted is what was asked for with what was left out filled in; only a preset adds to
/// the parameters, behind all of them.
pub proof fn law_accepted_is_what_was_asked(p: Parsed, f: &Facts)
    requires
        checked(p, f) is Ok,
    ensures
        ({
            let q = checked(p, f)->Ok_0;
            &&& q == (Parsed { params: q.params, ..with_defaults(p) })
            &&& p.preset is None ==> q.params == p.params
            &&& p.preset matches Some(name) ==> words_of(q.params) == words_of(p.params) + seq![
                "--preset"@,
            ] + words_of(name)
        }),
{
    if let Some(name) = p.preset {
        let q = checked(p, f)->Ok_0;
        reveal_strlit(" --preset ");
        reveal_strlit("--preset");
        let opt = "--preset"@;
        assert(q.params =~= p.params.push(' ') + (opt.push(' ') + name));
        law_words_of_both(p.params, opt.push(' ') + name);
        law_words_of_both(opt, name);
        assert(forall|k: int| 0 <= k < opt.len() ==> !is_space(#[trigger] opt[k]));
        assert(is_word(opt));
        law_words_hold_no_white_space(opt);
        assert(words_of(q.params) =~= words_of(p.params) + seq![opt] + words_of(name));
    }
}

/// A run that was interrupted and whose command line is accepted is taken up whatever else is asked
/// for, as long as something is; where there is none, the command line alone counts.
pub proof fn law_interrupted_run_goes_first(
    args: Seq<Seq<char>>,
    other: Seq<Seq<char>>,
    au: Seq<Option<Seq<char>>>,
    build: Build,
    left: &Left,
    facts: &Facts,
)
    requires
        asked(args, au, build) is Ok,
        asked(other, au, build) is Ok,
    ensures
        left.line is Some && left.kept is Some && (left.kept->0).chnks_done@.len() > 0 && started(
            unquoted(left.line->0@),
            messages(left.au@),
            build,
            &left.facts,
        ) is Ok ==> {
            &&& outcome(args, au, build, Some(left), facts) == outcome(
                other,
                au,
                build,
                Some(left),
                facts,
            )
            &&& outcome(args, au, build, Some(left), facts) == started(
                unquoted(left.line->0@),
                messages(left.au@),
                build,
                &left.facts,
            )
        },
        left.line is None || left.kept is None || (left.kept->0).chnks_done@.len() == 0 || started(
            unquoted(left.line->0@),
            messages(left.au@),
            build,
            &left.facts,
        ) is Err ==> outcome(args, au, build, Some(left), facts) == started(args, au, build, facts),
        outcome(args, au, build, None, facts) == started(args, au, build, facts),
{
}

/// A command line of a program's name alone, and one without an input, are refused.
pub proof fn law_an_input_is_needed(
    args: Seq<Seq<char>>,
    au: Seq<Option<Seq<char>>>,
    build: Build,
    left: Option<&Left>,
    facts: &Facts,
)
    ensures
        args.len() < 2 ==> outcome(args, au, build, left, facts) == Err::<Parsed, Fault>(
            Fault::Message("Usage: xav [options] <input> <output>"@),
        ),
        args.len() >= 2 && (words_read(args, au, build, 1, nothing_asked()) matches Ok(p) && p.inp.len()
            == 0) ==> outcome(args, au, build, left, facts) == Err::<Parsed, Fault>(
            Fault::Message("Missing input"@),
        ),
        args.len() >= 2 ==> (words_read(args, au, build, 1, nothing_asked()) matches Err(e) ==> outcome(
            args,
            au,
            build,
            left,
            facts,
        ) == Err::<Parsed, Fault>(e)),
        asked(args, au, build) matches Ok(p) ==> p.inp.len() > 0 && words_read(
            args,
            au,
            build,
            1,
            nothing_asked(),
        ) == Ok::<Parsed, Fault>(p),
{
}

/// The directory that a run works in is hidden, its name as long for every input, and different
/// wherever the hashes differ in their first seven digits.
pub proof fn law_work_dirs_are_hidden(a: u64, b: u64)
    requires
        a >= 0x100_0000,
        b >= 0x100_0000,
    ensures
        work_name(a).len() == 8,
        work_name(a)[0] == '.',
        work_name(a).skip(1) == hexadecimal(a as nat).take(7),
        work_name(a) == work_name(b) ==> hexadecimal(a as nat).take(7) == hexadecimal(
            b as nat,
        ).take(7),
{
    reveal_strlit(".");
    assert(vstd::arithmetic::power::pow(16, 6) == 0x100_0000) by {
        reveal_with_fuel(vstd::arithmetic::power::pow, 7);
    }
    lemma_hexadecimal_len(a as nat, 7);
    lemma_hexadecimal_len(b as nat, 7);
    assert(work_name(a).skip(1) =~= hexadecimal(a as nat).take(7));
    assert(work_name(b).skip(1) =~= hexadecimal(b as nat).take(7));
}


/// The words of an interrupted run are taken only where it left both a command line and a chunk that
/// is done; they are those that it was started with.
pub proof fn law_saved_words_are_those_of_the_run(
    line: Option<&str>,
    kept: Option<&ResumeInf>,
    r: Result<Vec<String>, Xerr>,
    args: Seq<Seq<char>>,
)
    requires
        call_ensures(saved_words, (line, kept), r),
        line matches Some(l) ==> l@ == line_of(args),
        forall|i: int|
            0 <= i < args.len() ==> (#[trigger] args[i]).len() > 0 && !holds(args[i], '"'),
    ensures
        r is Ok <==> line is Some && kept is Some && kept->0.chnks_done@.len() > 0,
        r matches Err(e) ==> fault(e) == Fault::Message("No tmp dir found"@),
        r matches Ok(w) ==> texts(w@) == args,
{
    law_saved_args_read_back(args);
}

/// The directory that a run works in stands beside the input, under a name that is made of its hash.
pub proof fn law_work_dir_stands_beside_the_input(inp: &str, hash: u64, r: String)
    requires
        hash >= 0x100_0000,
        file_name_of(inp@) is Some,
        call_ensures(work_dir, (inp, hash), r),
    ensures
        file_name_of(r@) == Some(work_name(hash)),
        parent_of(inp@).is_prefix_of(r@),
{
    law_work_dirs_are_hidden(hash, hash);
    law_hexadecimal_reads_back(hash as nat);
    let name = work_name(hash);
    assert forall|k: int| 0 <= k < name.len() implies name[k] != '/' by {
        if k > 0 {
            assert(name[k] == name.skip(1)[k - 1]);
            let c = hexadecimal(hash as nat)[k - 1];
            assert(is_digit(c) || 'a' <= c <= 'f');
        }
    }
    law_renamed_has_name(inp@, name);
}


/// Of several things that stand against a command line the first is told: the output before the
/// target quality, that before the parameters of SVT-AV1, those before the preset, and that before
/// hardware decoding of a pipe. Within a target quality the encoder comes first, then the target, then
/// the range of qualities, and then a quality among the parameters.
pub proof fn law_first_fault_is_told(p: Parsed, f: &Facts)
    ensures
        p.out.len() > 0 && out_fault(p.out, p.encoder) is Some ==> checked(p, f) == Err::<
            Parsed,
            Fault,
        >(Fault::Message(out_fault(p.out, p.encoder)->0)),
        p.out.len() == 0 || out_fault(p.out, p.encoder) is None ==> {
            let (tq, rc) = (
                "Target quality is not supported by avm"@,
                "-p and -P must not set CRF/QP in target-quality mode: CRF is chosen automatically"@,
            );
            let tq_bad = p.tq is Some && (f.tq_numbers@.len() != 2 || is_le(
                f.tq_numbers@[1],
                f.tq_numbers@[0],
            ));
            let qp_bad = p.tq is Some && (f.qp_numbers@.len() != 2 || is_le(
                f.qp_numbers@[1],
                f.qp_numbers@[0],
            ));
            &&& p.tq is Some && p.encoder is Avm ==> checked(p, f) == Err::<Parsed, Fault>(
                Fault::Message(tq),
            )
            &&& !(p.encoder is Avm) && tq_bad ==> (checked(p, f) matches Err(Fault::Message(m))
                && "-t/--tq"@.is_prefix_of(m))
            &&& !(p.encoder is Avm) && p.tq is Some && !tq_bad && qp_bad ==> (checked(p, f) matches Err(
                Fault::Message(m),
            ) && "-f/--qp"@.is_prefix_of(m))
            &&& !(p.encoder is Avm) && p.tq is Some && !tq_bad && !qp_bad && f.params_rc ==> checked(
                p,
                f,
            ) == Err::<Parsed, Fault>(Fault::Message(rc))
            &&& p.tq is None && p.encoder is SvtAv1 && f.params_fault is Some ==> checked(p, f) == Err::<
                Parsed,
                Fault,
            >(Fault::Message(f.params_fault->0@))
            &&& p.tq is None && p.preset is Some && !(p.encoder is Vvenc) && !(p.encoder is SvtAv1)
                ==> checked(p, f) == Err::<Parsed, Fault>(
                Fault::Message("--preset is only supported by the vvenc encoder"@),
            )
            &&& p.tq is None && p.preset is None && !(p.encoder is SvtAv1) && p.hwdec && f.piped
                ==> checked(p, f) == Err::<Parsed, Fault>(
                Fault::Message("Hardware accelerated decoding can not be used with a pipe"@),
            )
        },
{
}

/// An unknown preset is named in what is said against it, and so are those that there are.
pub proof fn law_unknown_preset_is_named(p: Parsed)
    requires
        p.encoder is Vvenc,
        p.preset is Some,
        !is_preset(p.preset->0),
    ensures
        preset_fault(p) matches Some(m) && gives(
            m,
            "Unknown vvenc preset: "@,
            p.preset->0,
            " (valid: "@,
        ) && gives(m, " (valid: "@, joined_by(presets(), ", "@), ")"@),
{
    let name = p.preset->0;
    let all = joined_by(presets(), ", "@);
    let e = Seq::<char>::empty();
    let x = "Unknown vvenc preset: "@ + name + " (valid: "@;
    assert(e + "Unknown vvenc preset: "@ + name + " (valid: "@ =~= x);
    lemma_gives_here(e, "Unknown vvenc preset: "@, name, " (valid: "@);
    lemma_gives_here("Unknown vvenc preset: "@ + name, " (valid: "@, all, ")"@);
    lemma_gives_more(x, all);
    lemma_gives_more(x + all, ")"@);
}


/// A command line is started as the laws on its outcome say, and not at all exactly where a file that
/// it needs cannot be named.
pub proof fn law_outcome_is_handed_out(
    args: &Vec<String>,
    au: &Vec<Option<String>>,
    build: Build,
    left: Option<&Left>,
    facts: &Facts,
    r: Option<Result<Args, Xerr>>,
)
    requires
        args@.len() == au@.len(),
        left matches Some(l) ==> is_heard(l),
        call_ensures(start_args, (args, au, build, left, facts), r),
    ensures
        r is None <==> !names_all(texts(args@), messages(au@), build, left),
        r matches Some(x) ==> (x is Ok <==> outcome(texts(args@), messages(au@), build, left, facts)
            is Ok),
        r matches Some(Ok(a)) ==> {
            let q = outcome(texts(args@), messages(au@), build, left, facts)->Ok_0;
            &&& parsed(a, q.buff) == q
            &&& a.worker == q.worker && a.encoder == q.encoder && a.inp@ == q.inp && a.out@ == q.out
            &&& q.buff is None ==> a.chnk_buff == a.worker
        },
        r matches Some(Err(e)) ==> outcome(texts(args@), messages(au@), build, left, facts) == Err::<
            Parsed,
            Fault,
        >(fault(e)),
{
}

} // verus!
