//! The command line of a run.
use vstd::prelude::*;

use crate::encoder::{encoder_named, lowercase, Build, Encoder};
use crate::num::{
    decimal, is_digit, law_decimal_reads_back, lemma_decimal_digits, parse_usize, usize_of,
};
use crate::text::{
    find_from, is_free_of, joined_by, law_first_separator_parts, law_pieces_come_apart,
    law_trimmed_cuts_white_space, law_trimming_twice_is_trimming_once, lemma_find_from, occurs_at,
    opt_text, parted, pieces, pieces_of, same, split_once, starts_with, texts, trim, trimmed,
};

verus! {

/// Why a run does not start.
pub enum Xerr {
    /// The options were asked for.
    Help,
    /// The guide was asked for.
    Guide,
    /// The text does not stand for a number.
    BadInt(String),
    /// Anything else, in words.
    Message(String),
}

/// Why a run does not start, as text.
pub enum Fault {
    Help,
    Guide,
    BadInt(Seq<char>),
    Message(Seq<char>),
}

/// The text of an error.
pub open spec fn fault(e: Xerr) -> Fault {
    match e {
        Xerr::Help => Fault::Help,
        Xerr::Guide => Fault::Guide,
        Xerr::BadInt(t) => Fault::BadInt(t@),
        Xerr::Message(t) => Fault::Message(t@),
    }
}

/// What a run was asked to do.
pub struct Args {
    pub encoder: Encoder,
    pub worker: usize,
    pub sc_file: String,
    pub params: String,
    pub preset: Option<String>,
    /// What is to become of the audio, as it was written.
    pub au: Option<String>,
    pub inp: String,
    pub out: String,
    pub chnk_buff: usize,
    pub ranges: Option<Vec<(usize, usize)>>,
    pub qp_range: Option<String>,
    pub metric_worker: usize,
    pub tq: Option<String>,
    pub metric_mode: String,
    pub cvvdp_conf: Option<String>,
    pub alt_param: Option<String>,
    pub sc_only: bool,
    pub hwdec: bool,
}

/// What a run was asked to do, as texts.
pub struct Parsed {
    pub encoder: Encoder,
    pub worker: usize,
    pub sc_file: Seq<char>,
    pub params: Seq<char>,
    pub preset: Option<Seq<char>>,
    pub au: Option<Seq<char>>,
    pub inp: Seq<char>,
    pub out: Seq<char>,
    pub ranges: Option<Seq<(usize, usize)>>,
    pub qp_range: Option<Seq<char>>,
    pub metric_worker: usize,
    pub tq: Option<Seq<char>>,
    pub metric_mode: Seq<char>,
    pub cvvdp_conf: Option<Seq<char>>,
    pub alt_param: Option<Seq<char>>,
    pub sc_only: bool,
    pub hwdec: bool,
    /// The chunks to buffer beyond one for each worker.
    pub buff: Option<usize>,
}

/// The ranges of a list.
pub open spec fn opt_ranges(r: Option<Vec<(usize, usize)>>) -> Option<Seq<(usize, usize)>> {
    match r {
        Some(v) => Some(v@),
        None => None,
    }
}

/// What is asked for, with the buffer as it was named.
pub open spec fn parsed(a: Args, buff: Option<usize>) -> Parsed {
    Parsed {
        encoder: a.encoder,
        worker: a.worker,
        sc_file: a.sc_file@,
        params: a.params@,
        preset: opt_text(a.preset),
        au: opt_text(a.au),
        inp: a.inp@,
        out: a.out@,
        ranges: opt_ranges(a.ranges),
        qp_range: opt_text(a.qp_range),
        metric_worker: a.metric_worker,
        tq: opt_text(a.tq),
        metric_mode: a.metric_mode@,
        cvvdp_conf: opt_text(a.cvvdp_conf),
        alt_param: opt_text(a.alt_param),
        sc_only: a.sc_only,
        hwdec: a.hwdec,
        buff,
    }
}

/// What is asked for before the first word.
pub open spec fn nothing_asked() -> Parsed {
    Parsed {
        encoder: Encoder::SvtAv1,
        worker: 1,
        sc_file: seq![],
        params: seq![],
        preset: None,
        au: None,
        inp: seq![],
        out: seq![],
        ranges: None,
        qp_range: None,
        metric_worker: 1,
        tq: None,
        metric_mode: "mean"@,
        cvvdp_conf: None,
        alt_param: None,
        sc_only: false,
        hwdec: false,
        buff: None,
    }
}

/// The words of a command line.
#[derive(Clone, Copy, Debug, PartialEq, Eq, Structural)]
pub enum Opt {
    Encoder,
    Worker,
    Sc,
    Param,
    Preset,
    Buff,
    Range,
    Audio,
    Tq,
    Mode,
    Qp,
    Vship,
    Display,
    AltParam,
    Hwdec,
    ScOnly,
    Help,
    Guide,
    /// Not an option: a path.
    Plain,
    /// An option that the build does not know.
    Unknown,
}

/// Whether the word is one of two.
pub open spec fn either(w: Seq<char>, a: Seq<char>, b: Seq<char>) -> bool {
    w == a || w == b
}

/// What a word is to a build.
pub open spec fn opt_of(w: Seq<char>, build: Build) -> Opt {
    if either(w, "-e"@, "--encoder"@) {
        Opt::Encoder
    } else if either(w, "-w"@, "--worker"@) {
        Opt::Worker
    } else if either(w, "-s"@, "--sc"@) {
        Opt::Sc
    } else if either(w, "-p"@, "--param"@) {
        Opt::Param
    } else if build.vvenc && w == "--preset"@ {
        Opt::Preset
    } else if either(w, "-b"@, "--buff"@) {
        Opt::Buff
    } else if either(w, "-r"@, "--range"@) {
        Opt::Range
    } else if either(w, "-a"@, "--audio"@) {
        Opt::Audio
    } else if build.vship && either(w, "-t"@, "--tq"@) {
        Opt::Tq
    } else if build.vship && either(w, "-m"@, "--mode"@) {
        Opt::Mode
    } else if build.vship && either(w, "-f"@, "--qp"@) {
        Opt::Qp
    } else if build.vship && either(w, "-v"@, "--vship"@) {
        Opt::Vship
    } else if build.vship && either(w, "-d"@, "--display"@) {
        Opt::Display
    } else if build.vship && either(w, "-P"@, "--alt-param"@) {
        Opt::AltParam
    } else if w == "--hwdec"@ {
        Opt::Hwdec
    } else if w == "--sc-only"@ {
        Opt::ScOnly
    } else if either(w, "-h"@, "--help"@) {
        Opt::Help
    } else if w == "--guide"@ {
        Opt::Guide
    } else if !"-"@.is_prefix_of(w) {
        Opt::Plain
    } else {
        Opt::Unknown
    }
}

fn one_of(w: &str, a: &str, b: &str) -> (r: bool)
    ensures
        r == either(w@, a@, b@),
{
    same(w, a) || same(w, b)
}

/// What a word is to a build.
pub fn classify(w: &str, build: Build) -> (r: Opt)
    ensures
        r == opt_of(w@, build),
{
    if one_of(w, "-e", "--encoder") {
        Opt::Encoder
    } else if one_of(w, "-w", "--worker") {
        Opt::Worker
    } else if one_of(w, "-s", "--sc") {
        Opt::Sc
    } else if one_of(w, "-p", "--param") {
        Opt::Param
    } else if build.vvenc && same(w, "--preset") {
        Opt::Preset
    } else if one_of(w, "-b", "--buff") {
        Opt::Buff
    } else if one_of(w, "-r", "--range") {
        Opt::Range
    } else if one_of(w, "-a", "--audio") {
        Opt::Audio
    } else if build.vship && one_of(w, "-t", "--tq") {
        Opt::Tq
    } else if build.vship && one_of(w, "-m", "--mode") {
        Opt::Mode
    } else if build.vship && one_of(w, "-f", "--qp") {
        Opt::Qp
    } else if build.vship && one_of(w, "-v", "--vship") {
        Opt::Vship
    } else if build.vship && one_of(w, "-d", "--display") {
        Opt::Display
    } else if build.vship && one_of(w, "-P", "--alt-param") {
        Opt::AltParam
    } else if same(w, "--hwdec") {
        Opt::Hwdec
    } else if same(w, "--sc-only") {
        Opt::ScOnly
    } else if one_of(w, "-h", "--help") {
        Opt::Help
    } else if same(w, "--guide") {
        Opt::Guide
    } else if !starts_with(w, "-") {
        Opt::Plain
    } else {
        Opt::Unknown
    }
}

/// One range: two numbers with a dash between them, the second of which may be left out.
pub open spec fn range_of(p: Seq<char>) -> Result<(usize, usize), Fault> {
    match parted(p, "-"@) {
        None => Err(Fault::Message("invalid range"@)),
        Some(ab) => match usize_of(trimmed(ab.0)) {
            None => Err(Fault::BadInt(trimmed(ab.0))),
            Some(a) => if trimmed(ab.1).len() == 0 {
                Ok((a, usize::MAX))
            } else {
                match usize_of(trimmed(ab.1)) {
                    Some(b) => Ok((a, b)),
                    None => Err(Fault::BadInt(trimmed(ab.1))),
                }
            },
        },
    }
}

/// All ranges, or the first fault.
pub open spec fn ranges_in(ps: Seq<Seq<char>>) -> Result<Seq<(usize, usize)>, Fault>
    decreases ps.len(),
{
    if ps.len() == 0 {
        Ok(seq![])
    } else {
        match range_of(ps[0]) {
            Err(e) => Err(e),
            Ok(r) => match ranges_in(ps.skip(1)) {
                Err(e) => Err(e),
                Ok(rest) => Ok(seq![r] + rest),
            },
        }
    }
}

/// Whether a range that is not the last has no end.
pub open spec fn open_before_last(r: Seq<(usize, usize)>) -> bool {
    exists|i: int| 0 <= i < r.len() - 1 && (#[trigger] r[i]).1 == usize::MAX
}

/// The ranges that a text stands for; only the last may have no end.
pub open spec fn ranges_of(s: Seq<char>) -> Result<Seq<(usize, usize)>, Fault> {
    match ranges_in(pieces_of(s, ',')) {
        Err(e) => Err(e),
        Ok(r) => if open_before_last(r) {
            Err(Fault::Message("only the last range may omit its end"@))
        } else {
            Ok(r)
        },
    }
}

fn parse_range(p: &str) -> (r: Result<(usize, usize), Xerr>)
    ensures
        match r {
            Ok(x) => range_of(p@) == Ok::<(usize, usize), Fault>(x),
            Err(e) => range_of(p@) == Err::<(usize, usize), Fault>(fault(e)),
        },
{
    match split_once(p, "-") {
        None => Err(Xerr::Message("invalid range".to_owned())),
        Some(ab) => {
            let a = trim(ab.0.as_str());
            let b = trim(ab.1.as_str());
            match parse_usize(a.as_str()) {
                None => Err(Xerr::BadInt(a)),
                Some(x) => if b.as_str().is_empty() {
                    Ok((x, usize::MAX))
                } else {
                    match parse_usize(b.as_str()) {
                        Some(y) => Ok((x, y)),
                        None => Err(Xerr::BadInt(b)),
                    }
                },
            }
        },
    }
}

/// Ranges in front of others, where those have no fault.
pub open spec fn ranges_before(
    r: Seq<(usize, usize)>,
    rest: Result<Seq<(usize, usize)>, Fault>,
) -> Result<Seq<(usize, usize)>, Fault> {
    match rest {
        Ok(s) => Ok(r + s),
        Err(e) => Err(e),
    }
}

/// Reads ranges such as `10-20,90-100`.
pub fn parse_ranges(s: &str) -> (r: Result<Vec<(usize, usize)>, Xerr>)
    ensures
        match r {
            Ok(v) => ranges_of(s@) == Ok::<Seq<(usize, usize)>, Fault>(v@),
            Err(e) => ranges_of(s@) == Err::<Seq<(usize, usize)>, Fault>(fault(e)),
        },
{
    let ps = pieces(s, ',');
    let ghost all = texts(ps@);
    let mut out: Vec<(usize, usize)> = Vec::new();
    let mut i: usize = 0;
    assert(all.skip(0) =~= all);
    proof {
        match ranges_in(all) {
            Ok(x) => {
                assert(out@ + x =~= x);
            },
            Err(e) => {},
        }
    }
    while i < ps.len()
        invariant
            i <= ps@.len(),
            all == texts(ps@),
            all == pieces_of(s@, ','),
            out@.len() == i,
            ranges_in(all) == ranges_before(out@, ranges_in(all.skip(i as int))),
        decreases ps@.len() - i,
    {
        let ghost rest = all.skip(i as int);
        assert(rest[0] == ps@[i as int]@);
        assert(rest.skip(1) =~= all.skip(i + 1));
        match parse_range(ps[i].as_str()) {
            Ok(x) => {
                let ghost before = out@;
                out.push(x);
                proof {
                    match ranges_in(all.skip(i + 1)) {
                        Ok(t) => {
                            assert(before + (seq![x] + t) =~= out@ + t);
                        },
                        Err(e) => {},
                    }
                }
            },
            Err(e) => {
                return Err(e);
            },
        }
        i = i + 1;
    }
    assert(all.skip(i as int) =~= seq![]);
    assert(out@ + Seq::<(usize, usize)>::empty() =~= out@);
    let n: usize = out.len();
    let last: usize = if n > 0 {
        n - 1
    } else {
        0
    };
    let mut k: usize = 0;
    while k < last
        invariant
            n == out@.len(),
            last == if n > 0 {
                n - 1
            } else {
                0
            },
            k <= last,
            ranges_in(pieces_of(s@, ',')) == Ok::<Seq<(usize, usize)>, Fault>(out@),
            forall|j: int| 0 <= j < k ==> (#[trigger] out@[j]).1 != usize::MAX,
        decreases last - k,
    {
        let e: usize = out[k].1;
        if e == usize::MAX {
            assert(out@[k as int].1 == usize::MAX);
            assert(open_before_last(out@));
            return Err(Xerr::Message("only the last range may omit its end".to_owned()));
        }
        k = k + 1;
    }
    Ok(out)
}

/// What is asked for once an option has its value; `au_fault` is what the audio words would be
/// told.
pub open spec fn with_value(
    p: Parsed,
    o: Opt,
    v: Seq<char>,
    au_fault: Option<Seq<char>>,
    build: Build,
) -> Result<Parsed, Fault> {
    match o {
        Opt::Encoder => match encoder_named(lowercase(v), build) {
            Some(e) => Ok(Parsed { encoder: e, ..p }),
            None => Err(Fault::Message("Unknown encoder: "@ + v)),
        },
        Opt::Worker => match usize_of(v) {
            Some(n) => Ok(Parsed { worker: n, ..p }),
            None => Err(Fault::BadInt(v)),
        },
        Opt::Sc => Ok(Parsed { sc_file: v, ..p }),
        Opt::Param => Ok(Parsed { params: v, ..p }),
        Opt::Preset => Ok(Parsed { preset: Some(v), ..p }),
        Opt::Buff => match usize_of(v) {
            Some(n) => Ok(Parsed { buff: Some(n), ..p }),
            None => Err(Fault::BadInt(v)),
        },
        Opt::Range => match ranges_of(v) {
            Ok(r) => Ok(Parsed { ranges: Some(r), ..p }),
            Err(e) => Err(e),
        },
        Opt::Audio => match au_fault {
            None => Ok(Parsed { au: Some(v), ..p }),
            Some(m) => Err(Fault::Message(m)),
        },
        Opt::Tq => Ok(Parsed { tq: Some(v), ..p }),
        Opt::Mode => Ok(Parsed { metric_mode: v, ..p }),
        Opt::Qp => Ok(Parsed { qp_range: Some(v), ..p }),
        Opt::Vship => match usize_of(v) {
            Some(n) => Ok(Parsed { metric_worker: n, ..p }),
            None => Err(Fault::BadInt(v)),
        },
        Opt::Display => Ok(Parsed { cvvdp_conf: Some(v), ..p }),
        Opt::AltParam => Ok(Parsed { alt_param: Some(v), ..p }),
        _ => Ok(p),
    }
}

/// The message, where there is one.
pub open spec fn opt_message(m: &Option<String>) -> Option<Seq<char>> {
    match m {
        Some(t) => Some(t@),
        None => None,
    }
}

/// The first text with the second behind it.
pub fn joined_text(a: &str, b: &str) -> (r: String)
    ensures
        r@ == a@ + b@,
{
    let mut r = a.to_owned();
    r.append(b);
    r
}

/// Gives an option its value.
fn set_value(
    args: &mut Args,
    buff: &mut Option<usize>,
    o: Opt,
    v: &str,
    au_fault: &Option<String>,
    build: Build,
) -> (r: Result<(), Xerr>)
    ensures
        match r {
            Ok(_) => with_value(
                parsed(*old(args), *old(buff)),
                o,
                v@,
                opt_message(au_fault),
                build,
            ) == Ok::<Parsed, Fault>(parsed(*final(args), *final(buff))),
            Err(e) => with_value(
                parsed(*old(args), *old(buff)),
                o,
                v@,
                opt_message(au_fault),
                build,
            ) == Err::<Parsed, Fault>(fault(e)),
        },
        final(args).chnk_buff == old(args).chnk_buff,
{
    match o {
        Opt::Encoder => match Encoder::from_str(v, build) {
            Some(e) => {
                args.encoder = e;
            },
            None => {
                return Err(Xerr::Message(joined_text("Unknown encoder: ", v)));
            },
        },
        Opt::Worker => match parse_usize(v) {
            Some(n) => {
                args.worker = n;
            },
            None => {
                return Err(Xerr::BadInt(v.to_owned()));
            },
        },
        Opt::Sc => {
            args.sc_file = v.to_owned();
        },
        Opt::Param => {
            args.params = v.to_owned();
        },
        Opt::Preset => {
            args.preset = Some(v.to_owned());
        },
        Opt::Buff => match parse_usize(v) {
            Some(n) => {
                *buff = Some(n);
            },
            None => {
                return Err(Xerr::BadInt(v.to_owned()));
            },
        },
        Opt::Range => match parse_ranges(v) {
            Ok(r) => {
                args.ranges = Some(r);
            },
            Err(e) => {
                return Err(e);
            },
        },
        Opt::Audio => match au_fault {
            None => {
                args.au = Some(v.to_owned());
            },
            Some(m) => {
                return Err(Xerr::Message(m.clone()));
            },
        },
        Opt::Tq => {
            args.tq = Some(v.to_owned());
        },
        Opt::Mode => {
            args.metric_mode = v.to_owned();
        },
        Opt::Qp => {
            args.qp_range = Some(v.to_owned());
        },
        Opt::Vship => match parse_usize(v) {
            Some(n) => {
                args.metric_worker = n;
            },
            None => {
                return Err(Xerr::BadInt(v.to_owned()));
            },
        },
        Opt::Display => {
            args.cvvdp_conf = Some(v.to_owned());
        },
        Opt::AltParam => {
            args.alt_param = Some(v.to_owned());
        },
        _ => {},
    }
    Ok(())
}

/// What is asked for once a path is named: the first is the input, the second the output.
pub open spec fn with_path(p: Parsed, w: Seq<char>) -> Parsed {
    if p.inp.len() == 0 {
        Parsed { inp: w, ..p }
    } else if p.out.len() == 0 {
        Parsed { out: w, ..p }
    } else {
        p
    }
}

/// Reads the words from the `i`-th on. `au[i]` is what the audio words would be told of the word
/// `i`.
pub open spec fn words_read(
    args: Seq<Seq<char>>,
    au: Seq<Option<Seq<char>>>,
    build: Build,
    i: int,
    p: Parsed,
) -> Result<Parsed, Fault>
    decreases args.len() - i,
{
    if i < 0 || i >= args.len() {
        Ok(p)
    } else {
        match opt_of(args[i], build) {
            Opt::Help => Err(Fault::Help),
            Opt::Guide => Err(Fault::Guide),
            Opt::Unknown => Err(Fault::Message("Unknown arg: "@ + args[i])),
            Opt::Plain => words_read(args, au, build, i + 1, with_path(p, args[i])),
            Opt::Hwdec => words_read(args, au, build, i + 1, Parsed { hwdec: true, ..p }),
            Opt::ScOnly => words_read(args, au, build, i + 1, Parsed { sc_only: true, ..p }),
            o => if i + 1 < args.len() {
                match with_value(p, o, args[i + 1], au[i + 1], build) {
                    Ok(q) => words_read(args, au, build, i + 2, q),
                    Err(e) => Err(e),
                }
            } else {
                Ok(p)
            },
        }
    }
}

/// The messages of a list.
pub open spec fn messages(v: Seq<Option<String>>) -> Seq<Option<Seq<char>>> {
    v.map_values(|m: Option<String>| opt_text(m))
}

/// The chunks to buffer: one for each worker, and what was named besides. A sum beyond the
/// machine word wraps around.
pub open spec fn buffered(p: Parsed) -> usize {
    let more = match p.buff {
        Some(n) => n,
        None => 0,
    };
    if p.worker + more <= usize::MAX {
        (p.worker + more) as usize
    } else {
        (p.worker + more - usize::MAX - 1) as usize
    }
}

/// Whether the result of reading the command line is the given one.
pub open spec fn reads_as(r: Result<Args, Xerr>, want: Result<Parsed, Fault>) -> bool {
    match r {
        Ok(a) => want matches Ok(p) && parsed(a, p.buff) == p && a.chnk_buff == buffered(p),
        Err(e) => want == Err::<Parsed, Fault>(fault(e)),
    }
}

/// Reads the command line, whose first word is the program. `au[i]` is what the parser of audio
/// words says against the word `i`.
pub fn parse_args_loop(args: &Vec<String>, au: &Vec<Option<String>>, build: Build) -> (r: Result<
    Args,
    Xerr,
>)
    requires
        args@.len() == au@.len(),
    ensures
        reads_as(r, words_read(texts(args@), messages(au@), build, 1, nothing_asked())),
{
    let mut a = Args {
        encoder: Encoder::default(),
        worker: 1,
        sc_file: String::new(),
        params: String::new(),
        preset: None,
        au: None,
        inp: String::new(),
        out: String::new(),
        chnk_buff: 0,
        ranges: None,
        qp_range: None,
        metric_worker: 1,
        tq: None,
        metric_mode: "mean".to_owned(),
        cvvdp_conf: None,
        alt_param: None,
        sc_only: false,
        hwdec: false,
    };
    let mut buff: Option<usize> = None;
    let ghost w = texts(args@);
    let ghost m = messages(au@);
    let ghost want = words_read(w, m, build, 1, nothing_asked());
    assert(a.sc_file@ =~= seq![] && a.params@ =~= seq![] && a.inp@ =~= seq![] && a.out@ =~= seq![]);
    let n: usize = args.len();
    let mut i: usize = 1;
    while i < n
        invariant
            n == args@.len(),
            args@.len() == au@.len(),
            1 <= i,
            i <= n || n < 1,
            w == texts(args@),
            m == messages(au@),
            want == words_read(w, m, build, 1, nothing_asked()),
            want == words_read(w, m, build, i as int, parsed(a, buff)),
        decreases n - i,
    {
        let word = args[i].as_str();
        assert(w[i as int] == word@);
        let o = classify(word, build);
        match o {
            Opt::Help => {
                return Err(Xerr::Help);
            },
            Opt::Guide => {
                return Err(Xerr::Guide);
            },
            Opt::Unknown => {
                return Err(Xerr::Message(joined_text("Unknown arg: ", word)));
            },
            Opt::Plain => {
                if a.inp.as_str().is_empty() {
                    a.inp = word.to_owned();
                } else if a.out.as_str().is_empty() {
                    a.out = word.to_owned();
                }
                i = i + 1;
            },
            Opt::Hwdec => {
                a.hwdec = true;
                i = i + 1;
            },
            Opt::ScOnly => {
                a.sc_only = true;
                i = i + 1;
            },
            _ => {
                if i + 1 < n {
                    assert(w[i + 1] == args@[i + 1]@);
                    assert(m[i + 1] == opt_message(&au@[i + 1]));
                    match set_value(&mut a, &mut buff, o, args[i + 1].as_str(), &au[i + 1], build) {
                        Ok(_) => {},
                        Err(e) => {
                            return Err(e);
                        },
                    }
                    i = i + 2;
                } else {
                    assert(want == Ok::<Parsed, Fault>(parsed(a, buff)));
                    i = i + 1;
                }
            },
        }
    }
    let more: usize = match buff {
        Some(b) => b,
        None => 0,
    };
    a.chnk_buff = a.worker.wrapping_add(more);
    Ok(a)
}

/// Whether an option takes the next word as its value.
pub open spec fn takes_value(o: Opt) -> bool {
    !(o is Help || o is Guide || o is Unknown || o is Plain || o is Hwdec || o is ScOnly)
}

/// Whether a reader that stands before the word `j` comes to stand before the word `i`: it is not
/// the value of an option.
pub open spec fn comes_to(args: Seq<Seq<char>>, build: Build, j: int, i: int) -> bool
    decreases i + 1 - j,
{
    if j >= i {
        j == i
    } else if takes_value(opt_of(args[j], build)) {
        comes_to(args, build, j + 2, i)
    } else {
        comes_to(args, build, j + 1, i)
    }
}

/// A list in which the two items from `i` on and the two behind them have changed places.
pub open spec fn pairs_swapped<A>(s: Seq<A>, i: int) -> Seq<A> {
    s.update(i, s[i + 2]).update(i + 1, s[i + 3]).update(i + 2, s[i]).update(i + 3, s[i + 1])
}

/// What is said against the value of an option.
pub open spec fn value_fault(
    o: Opt,
    v: Seq<char>,
    au_fault: Option<Seq<char>>,
    build: Build,
) -> Option<Fault> {
    match with_value(nothing_asked(), o, v, au_fault, build) {
        Ok(_) => None,
        Err(e) => Some(e),
    }
}

/// What is said against a value does not depend on what was asked before.
proof fn lemma_value_fault(
    p: Parsed,
    o: Opt,
    v: Seq<char>,
    au_fault: Option<Seq<char>>,
    build: Build,
)
    ensures
        match with_value(p, o, v, au_fault, build) {
            Ok(_) => value_fault(o, v, au_fault, build) is None,
            Err(e) => value_fault(o, v, au_fault, build) == Some(e),
        },
{
}

/// What is asked for, but for what an option sets, which is taken from elsewhere.
spec fn with_option(p: Parsed, o: Opt, q: Parsed) -> Parsed {
    match o {
        Opt::Encoder => Parsed { encoder: q.encoder, ..p },
        Opt::Worker => Parsed { worker: q.worker, ..p },
        Opt::Sc => Parsed { sc_file: q.sc_file, ..p },
        Opt::Param => Parsed { params: q.params, ..p },
        Opt::Preset => Parsed { preset: q.preset, ..p },
        Opt::Buff => Parsed { buff: q.buff, ..p },
        Opt::Range => Parsed { ranges: q.ranges, ..p },
        Opt::Audio => Parsed { au: q.au, ..p },
        Opt::Tq => Parsed { tq: q.tq, ..p },
        Opt::Mode => Parsed { metric_mode: q.metric_mode, ..p },
        Opt::Qp => Parsed { qp_range: q.qp_range, ..p },
        Opt::Vship => Parsed { metric_worker: q.metric_worker, ..p },
        Opt::Display => Parsed { cvvdp_conf: q.cvvdp_conf, ..p },
        Opt::AltParam => Parsed { alt_param: q.alt_param, ..p },
        _ => p,
    }
}

/// An option sets one thing, to what its value says.
proof fn lemma_option_sets_one(
    p: Parsed,
    o: Opt,
    v: Seq<char>,
    au_fault: Option<Seq<char>>,
    build: Build,
)
    requires
        value_fault(o, v, au_fault, build) is None,
    ensures
        with_value(p, o, v, au_fault, build) == Ok::<Parsed, Fault>(
            with_option(p, o, with_value(nothing_asked(), o, v, au_fault, build)->Ok_0),
        ),
{
}

/// Two different options set different things.
proof fn lemma_options_apart(p: Parsed, o1: Opt, q1: Parsed, o2: Opt, q2: Parsed)
    requires
        o1 != o2,
    ensures
        with_option(with_option(p, o1, q1), o2, q2) == with_option(
            with_option(p, o2, q2),
            o1,
            q1,
        ),
{
}

proof fn lemma_same_words_read_same(
    a: Seq<Seq<char>>,
    b: Seq<Seq<char>>,
    au: Seq<Option<Seq<char>>>,
    bu: Seq<Option<Seq<char>>>,
    build: Build,
    i: int,
    p: Parsed,
)
    requires
        0 <= i,
        a.len() == b.len(),
        forall|k: int| i <= k < a.len() ==> #[trigger] a[k] == b[k],
        forall|k: int| i <= k < a.len() ==> #[trigger] au[k] == bu[k],
    ensures
        words_read(a, au, build, i, p) == words_read(b, bu, build, i, p),
    decreases a.len() - i,
{
    if i < a.len() {
        assert(a[i] == b[i]);
        match opt_of(a[i], build) {
            Opt::Help => {},
            Opt::Guide => {},
            Opt::Unknown => {},
            Opt::Plain => {
                lemma_same_words_read_same(a, b, au, bu, build, i + 1, with_path(p, a[i]));
            },
            Opt::Hwdec => {
                lemma_same_words_read_same(a, b, au, bu, build, i + 1, Parsed { hwdec: true, ..p });
            },
            Opt::ScOnly => {
                lemma_same_words_read_same(
                    a,
                    b,
                    au,
                    bu,
                    build,
                    i + 1,
                    Parsed { sc_only: true, ..p },
                );
            },
            o => {
                if i + 1 < a.len() {
                    assert(a[i + 1] == b[i + 1] && au[i + 1] == bu[i + 1]);
                    match with_value(p, o, a[i + 1], au[i + 1], build) {
                        Ok(q) => {
                            lemma_same_words_read_same(a, b, au, bu, build, i + 2, q);
                        },
                        Err(_) => {},
                    }
                }
            },
        }
    }
}

/// Whether two readings end alike, but for which of two faults is met first.
pub open spec fn end_alike(
    r: Result<Parsed, Fault>,
    s: Result<Parsed, Fault>,
    f1: Option<Fault>,
    f2: Option<Fault>,
) -> bool {
    r == s || (f1 is Some && f2 is Some && r == Err::<Parsed, Fault>(f1->0) && s == Err::<
        Parsed,
        Fault,
    >(f2->0))
}

proof fn lemma_swapped_here(
    args: Seq<Seq<char>>,
    au: Seq<Option<Seq<char>>>,
    build: Build,
    i: int,
    p: Parsed,
)
    requires
        0 <= i,
        i + 3 < args.len(),
        au.len() == args.len(),
        takes_value(opt_of(args[i], build)),
        takes_value(opt_of(args[i + 2], build)),
        opt_of(args[i], build) != opt_of(args[i + 2], build),
    ensures
        end_alike(
            words_read(args, au, build, i, p),
            words_read(pairs_swapped(args, i), pairs_swapped(au, i), build, i, p),
            value_fault(opt_of(args[i], build), args[i + 1], au[i + 1], build),
            value_fault(opt_of(args[i + 2], build), args[i + 3], au[i + 3], build),
        ),
{
    let (b, bu) = (pairs_swapped(args, i), pairs_swapped(au, i));
    let (o1, v1, f1) = (opt_of(args[i], build), args[i + 1], au[i + 1]);
    let (o2, v2, f2) = (opt_of(args[i + 2], build), args[i + 3], au[i + 3]);
    assert(b[i] == args[i + 2] && b[i + 1] == v2 && b[i + 2] == args[i] && b[i + 3] == v1);
    assert(bu[i + 1] == f2 && bu[i + 3] == f1);
    lemma_value_fault(p, o1, v1, f1, build);
    lemma_value_fault(p, o2, v2, f2, build);
    let x = with_value(p, o1, v1, f1, build);
    let y = with_value(p, o2, v2, f2, build);
    if x is Ok {
        assert(words_read(args, au, build, i, p) == words_read(args, au, build, i + 2, x->Ok_0));
        lemma_value_fault(x->Ok_0, o2, v2, f2, build);
    }
    if y is Ok {
        assert(words_read(b, bu, build, i, p) == words_read(b, bu, build, i + 2, y->Ok_0));
        lemma_value_fault(y->Ok_0, o1, v1, f1, build);
    }
    if x is Ok && y is Ok {
        lemma_option_sets_one(p, o1, v1, f1, build);
        lemma_option_sets_one(p, o2, v2, f2, build);
        lemma_option_sets_one(x->Ok_0, o2, v2, f2, build);
        lemma_option_sets_one(y->Ok_0, o1, v1, f1, build);
        let q1 = with_value(nothing_asked(), o1, v1, f1, build)->Ok_0;
        let q2 = with_value(nothing_asked(), o2, v2, f2, build)->Ok_0;
        lemma_options_apart(p, o1, q1, o2, q2);
        let q = with_value(x->Ok_0, o2, v2, f2, build)->Ok_0;
        assert(words_read(args, au, build, i + 2, x->Ok_0) == words_read(args, au, build, i + 4, q));
        assert(words_read(b, bu, build, i + 2, y->Ok_0) == words_read(b, bu, build, i + 4, q));
        lemma_same_words_read_same(args, b, au, bu, build, i + 4, q);
    }
}

proof fn lemma_swapped_later(
    args: Seq<Seq<char>>,
    au: Seq<Option<Seq<char>>>,
    build: Build,
    j: int,
    i: int,
    p: Parsed,
)
    requires
        0 <= j,
        i + 3 < args.len(),
        au.len() == args.len(),
        comes_to(args, build, j, i),
        takes_value(opt_of(args[i], build)),
        takes_value(opt_of(args[i + 2], build)),
        opt_of(args[i], build) != opt_of(args[i + 2], build),
    ensures
        end_alike(
            words_read(args, au, build, j, p),
            words_read(pairs_swapped(args, i), pairs_swapped(au, i), build, j, p),
            value_fault(opt_of(args[i], build), args[i + 1], au[i + 1], build),
            value_fault(opt_of(args[i + 2], build), args[i + 3], au[i + 3], build),
        ),
    decreases i - j,
{
    let (b, bu) = (pairs_swapped(args, i), pairs_swapped(au, i));
    if j == i {
        lemma_swapped_here(args, au, build, i, p);
    } else {
        assert(j < i);
        assert(b[j] == args[j]);
        match opt_of(args[j], build) {
            Opt::Help => {},
            Opt::Guide => {},
            Opt::Unknown => {},
            Opt::Plain => {
                lemma_swapped_later(args, au, build, j + 1, i, with_path(p, args[j]));
            },
            Opt::Hwdec => {
                lemma_swapped_later(args, au, build, j + 1, i, Parsed { hwdec: true, ..p });
            },
            Opt::ScOnly => {
                lemma_swapped_later(args, au, build, j + 1, i, Parsed { sc_only: true, ..p });
            },
            o => {
                assert(comes_to(args, build, j + 2, i));
                assert(j + 1 < i);
                assert(b[j + 1] == args[j + 1] && bu[j + 1] == au[j + 1]);
                match with_value(p, o, args[j + 1], au[j + 1], build) {
                    Ok(q) => {
                        lemma_swapped_later(args, au, build, j + 2, i, q);
                    },
                    Err(_) => {},
                }
            },
        }
    }
}

/// Two different options that stand next to each other, each with its value, can change places
/// without changing what is read. Where something is said against both values, it is said against
/// the one that comes first.
pub proof fn law_options_change_places(
    args: Seq<Seq<char>>,
    au: Seq<Option<Seq<char>>>,
    build: Build,
    i: int,
)
    requires
        1 <= i,
        i + 3 < args.len(),
        au.len() == args.len(),
        comes_to(args, build, 1, i),
        takes_value(opt_of(args[i], build)),
        takes_value(opt_of(args[i + 2], build)),
        opt_of(args[i], build) != opt_of(args[i + 2], build),
    ensures
        end_alike(
            words_read(args, au, build, 1, nothing_asked()),
            words_read(pairs_swapped(args, i), pairs_swapped(au, i), build, 1, nothing_asked()),
            value_fault(opt_of(args[i], build), args[i + 1], au[i + 1], build),
            value_fault(opt_of(args[i + 2], build), args[i + 3], au[i + 3], build),
        ),
{
    lemma_swapped_later(args, au, build, 1, i, nothing_asked());
}

proof fn lemma_ranges_len(ps: Seq<Seq<char>>)
    ensures
        ranges_in(ps) matches Ok(r) ==> r.len() == ps.len(),
    decreases ps.len(),
{
    if ps.len() > 0 {
        lemma_ranges_len(ps.skip(1));
    }
}

/// A text that stands for ranges stands for at least one, and none but the last is without an end.
pub proof fn law_ranges_are_not_empty(s: Seq<char>)
    ensures
        ranges_of(s) matches Ok(r) ==> r.len() > 0 && !open_before_last(r),
{
    lemma_ranges_len(pieces_of(s, ','));
}

/// How the names of options are spelled, as far as it tells them apart.
proof fn lemma_spelling()
    ensures
        "-e"@.len() == 2 && "-e"@[0] == '-' && "-e"@[1] == 'e',
        "--encoder"@.len() == 9 && "--encoder"@[0] == '-' && "--encoder"@[1] == '-' && "--encoder"@[2] == 'e',
        "-w"@.len() == 2 && "-w"@[0] == '-' && "-w"@[1] == 'w',
        "--worker"@.len() == 8 && "--worker"@[0] == '-' && "--worker"@[1] == '-' && "--worker"@[2] == 'w',
        "-s"@.len() == 2 && "-s"@[0] == '-' && "-s"@[1] == 's',
        "--sc"@.len() == 4 && "--sc"@[0] == '-' && "--sc"@[1] == '-' && "--sc"@[2] == 's',
        "-p"@.len() == 2 && "-p"@[0] == '-' && "-p"@[1] == 'p',
        "--param"@.len() == 7 && "--param"@[0] == '-' && "--param"@[1] == '-' && "--param"@[2] == 'p',
        "-b"@.len() == 2 && "-b"@[0] == '-' && "-b"@[1] == 'b',
        "--buff"@.len() == 6 && "--buff"@[0] == '-' && "--buff"@[1] == '-' && "--buff"@[2] == 'b',
        "-r"@.len() == 2 && "-r"@[0] == '-' && "-r"@[1] == 'r',
        "--range"@.len() == 7 && "--range"@[0] == '-' && "--range"@[1] == '-' && "--range"@[2] == 'r',
        "-a"@.len() == 2 && "-a"@[0] == '-' && "-a"@[1] == 'a',
        "--audio"@.len() == 7 && "--audio"@[0] == '-' && "--audio"@[1] == '-' && "--audio"@[2] == 'a',
        "-t"@.len() == 2 && "-t"@[0] == '-' && "-t"@[1] == 't',
        "--tq"@.len() == 4 && "--tq"@[0] == '-' && "--tq"@[1] == '-' && "--tq"@[2] == 't',
        "-m"@.len() == 2 && "-m"@[0] == '-' && "-m"@[1] == 'm',
        "--mode"@.len() == 6 && "--mode"@[0] == '-' && "--mode"@[1] == '-' && "--mode"@[2] == 'm',
        "-f"@.len() == 2 && "-f"@[0] == '-' && "-f"@[1] == 'f',
        "--qp"@.len() == 4 && "--qp"@[0] == '-' && "--qp"@[1] == '-' && "--qp"@[2] == 'q',
        "-v"@.len() == 2 && "-v"@[0] == '-' && "-v"@[1] == 'v',
        "--vship"@.len() == 7 && "--vship"@[0] == '-' && "--vship"@[1] == '-' && "--vship"@[2] == 'v',
        "-d"@.len() == 2 && "-d"@[0] == '-' && "-d"@[1] == 'd',
        "--display"@.len() == 9 && "--display"@[0] == '-' && "--display"@[1] == '-' && "--display"@[2] == 'd',
        "-P"@.len() == 2 && "-P"@[0] == '-' && "-P"@[1] == 'P',
        "--alt-param"@.len() == 11 && "--alt-param"@[0] == '-' && "--alt-param"@[1] == '-' && "--alt-param"@[2] == 'a',
        "--preset"@.len() == 8 && "--preset"@[0] == '-' && "--preset"@[1] == '-' && "--preset"@[2] == 'p',
        "--hwdec"@.len() == 7 && "--hwdec"@[0] == '-' && "--hwdec"@[1] == '-' && "--hwdec"@[2] == 'h',
        "--sc-only"@.len() == 9 && "--sc-only"@[0] == '-' && "--sc-only"@[1] == '-' && "--sc-only"@[2] == 's',
        "-h"@.len() == 2 && "-h"@[0] == '-' && "-h"@[1] == 'h',
        "--help"@.len() == 6 && "--help"@[0] == '-' && "--help"@[1] == '-' && "--help"@[2] == 'h',
        "--guide"@.len() == 7 && "--guide"@[0] == '-' && "--guide"@[1] == '-' && "--guide"@[2] == 'g',
        "-"@.len() == 1 && "-"@[0] == '-',
{
    reveal_strlit("-e");
    reveal_strlit("--encoder");
    reveal_strlit("-w");
    reveal_strlit("--worker");
    reveal_strlit("-s");
    reveal_strlit("--sc");
    reveal_strlit("-p");
    reveal_strlit("--param");
    reveal_strlit("-b");
    reveal_strlit("--buff");
    reveal_strlit("-r");
    reveal_strlit("--range");
    reveal_strlit("-a");
    reveal_strlit("--audio");
    reveal_strlit("-t");
    reveal_strlit("--tq");
    reveal_strlit("-m");
    reveal_strlit("--mode");
    reveal_strlit("-f");
    reveal_strlit("--qp");
    reveal_strlit("-v");
    reveal_strlit("--vship");
    reveal_strlit("-d");
    reveal_strlit("--display");
    reveal_strlit("-P");
    reveal_strlit("--alt-param");
    reveal_strlit("--preset");
    reveal_strlit("--hwdec");
    reveal_strlit("--sc-only");
    reveal_strlit("-h");
    reveal_strlit("--help");
    reveal_strlit("--guide");
    reveal_strlit("-");
}

/// What is read of a command line that names one option and its value.
pub open spec fn one_option(
    prog: Seq<char>,
    name: Seq<char>,
    v: Seq<char>,
    au_fault: Option<Seq<char>>,
    build: Build,
) -> Result<Parsed, Fault> {
    words_read(seq![prog, name, v], seq![None, None, au_fault], build, 1, nothing_asked())
}

proof fn lemma_names_of_options(build: Build)
    ensures
        opt_of("-e"@, build) == Opt::Encoder,
        opt_of("--encoder"@, build) == Opt::Encoder,
        opt_of("-w"@, build) == Opt::Worker,
        opt_of("--worker"@, build) == Opt::Worker,
        opt_of("-s"@, build) == Opt::Sc,
        opt_of("--sc"@, build) == Opt::Sc,
        opt_of("-p"@, build) == Opt::Param,
        opt_of("--param"@, build) == Opt::Param,
        opt_of("-b"@, build) == Opt::Buff,
        opt_of("--buff"@, build) == Opt::Buff,
        opt_of("-r"@, build) == Opt::Range,
        opt_of("--range"@, build) == Opt::Range,
        opt_of("-a"@, build) == Opt::Audio,
        opt_of("--audio"@, build) == Opt::Audio,
        build.vship ==> opt_of("-t"@, build) == Opt::Tq,
        build.vship ==> opt_of("--tq"@, build) == Opt::Tq,
        build.vship ==> opt_of("-m"@, build) == Opt::Mode,
        build.vship ==> opt_of("--mode"@, build) == Opt::Mode,
        build.vship ==> opt_of("-f"@, build) == Opt::Qp,
        build.vship ==> opt_of("--qp"@, build) == Opt::Qp,
        build.vship ==> opt_of("-v"@, build) == Opt::Vship,
        build.vship ==> opt_of("--vship"@, build) == Opt::Vship,
        build.vship ==> opt_of("-d"@, build) == Opt::Display,
        build.vship ==> opt_of("--display"@, build) == Opt::Display,
        build.vship ==> opt_of("-P"@, build) == Opt::AltParam,
        build.vship ==> opt_of("--alt-param"@, build) == Opt::AltParam,
        build.vvenc ==> opt_of("--preset"@, build) == Opt::Preset,
        opt_of("--hwdec"@, build) == Opt::Hwdec,
        opt_of("--sc-only"@, build) == Opt::ScOnly,
        opt_of("-h"@, build) == Opt::Help,
        opt_of("--help"@, build) == Opt::Help,
        opt_of("--guide"@, build) == Opt::Guide,
        !build.vvenc ==> opt_of("--preset"@, build) == Opt::Unknown,
{
    lemma_spelling();
}

proof fn lemma_one_option(
    prog: Seq<char>,
    name: Seq<char>,
    v: Seq<char>,
    au_fault: Option<Seq<char>>,
    build: Build,
)
    requires
        takes_value(opt_of(name, build)),
    ensures
        one_option(prog, name, v, au_fault, build) == with_value(
            nothing_asked(),
            opt_of(name, build),
            v,
            au_fault,
            build,
        ),
{
    let w = seq![prog, name, v];
    let au = seq![None::<Seq<char>>, None, au_fault];
    assert(w[1] == name && w[2] == v && au[2] == au_fault);
    if let Ok(q) = with_value(nothing_asked(), opt_of(name, build), v, au_fault, build) {
        assert(words_read(w, au, build, 3, q) == Ok::<Parsed, Fault>(q));
    }
}

/// The short and the long name of an option are the same option, and each sets what the help says
/// and nothing else: an encoder by its name, workers and buffered chunks by number, files and
/// parameters as they are written.
pub proof fn law_names_of_options(
    prog: Seq<char>,
    v: Seq<char>,
    au_fault: Option<Seq<char>>,
    build: Build,
)
    ensures
        one_option(prog, "-e"@, v, au_fault, build) == match encoder_named(lowercase(v), build) {
            Some(e) => Ok::<Parsed, Fault>(Parsed { encoder: e, ..nothing_asked() }),
            None => Err(Fault::Message("Unknown encoder: "@ + v)),
        },
        one_option(prog, "--encoder"@, v, au_fault, build) == match encoder_named(lowercase(v), build) {
            Some(e) => Ok::<Parsed, Fault>(Parsed { encoder: e, ..nothing_asked() }),
            None => Err(Fault::Message("Unknown encoder: "@ + v)),
        },
        one_option(prog, "-w"@, v, au_fault, build) == match usize_of(v) {
            Some(n) => Ok::<Parsed, Fault>(Parsed { worker: n, ..nothing_asked() }),
            None => Err(Fault::BadInt(v)),
        },
        one_option(prog, "--worker"@, v, au_fault, build) == match usize_of(v) {
            Some(n) => Ok::<Parsed, Fault>(Parsed { worker: n, ..nothing_asked() }),
            None => Err(Fault::BadInt(v)),
        },
        one_option(prog, "-s"@, v, au_fault, build) == Ok::<Parsed, Fault>(Parsed { sc_file: v, ..nothing_asked() }),
        one_option(prog, "--sc"@, v, au_fault, build) == Ok::<Parsed, Fault>(Parsed { sc_file: v, ..nothing_asked() }),
        one_option(prog, "-p"@, v, au_fault, build) == Ok::<Parsed, Fault>(Parsed { params: v, ..nothing_asked() }),
        one_option(prog, "--param"@, v, au_fault, build) == Ok::<Parsed, Fault>(Parsed { params: v, ..nothing_asked() }),
        one_option(prog, "-b"@, v, au_fault, build) == match usize_of(v) {
            Some(n) => Ok::<Parsed, Fault>(Parsed { buff: Some(n), ..nothing_asked() }),
            None => Err(Fault::BadInt(v)),
        },
        one_option(prog, "--buff"@, v, au_fault, build) == match usize_of(v) {
            Some(n) => Ok::<Parsed, Fault>(Parsed { buff: Some(n), ..nothing_asked() }),
            None => Err(Fault::BadInt(v)),
        },
        one_option(prog, "-r"@, v, au_fault, build) == match ranges_of(v) {
            Ok(r) => Ok::<Parsed, Fault>(Parsed { ranges: Some(r), ..nothing_asked() }),
            Err(e) => Err(e),
        },
        one_option(prog, "--range"@, v, au_fault, build) == match ranges_of(v) {
            Ok(r) => Ok::<Parsed, Fault>(Parsed { ranges: Some(r), ..nothing_asked() }),
            Err(e) => Err(e),
        },
        one_option(prog, "-a"@, v, au_fault, build) == match au_fault {
            None => Ok::<Parsed, Fault>(Parsed { au: Some(v), ..nothing_asked() }),
            Some(m) => Err(Fault::Message(m)),
        },
        one_option(prog, "--audio"@, v, au_fault, build) == match au_fault {
            None => Ok::<Parsed, Fault>(Parsed { au: Some(v), ..nothing_asked() }),
            Some(m) => Err(Fault::Message(m)),
        },
        build.vship ==> one_option(prog, "-t"@, v, au_fault, build) == Ok::<Parsed, Fault>(Parsed { tq: Some(v), ..nothing_asked() }),
        build.vship ==> one_option(prog, "--tq"@, v, au_fault, build) == Ok::<Parsed, Fault>(Parsed { tq: Some(v), ..nothing_asked() }),
        build.vship ==> one_option(prog, "-m"@, v, au_fault, build) == Ok::<Parsed, Fault>(Parsed { metric_mode: v, ..nothing_asked() }),
        build.vship ==> one_option(prog, "--mode"@, v, au_fault, build) == Ok::<Parsed, Fault>(Parsed { metric_mode: v, ..nothing_asked() }),
        build.vship ==> one_option(prog, "-f"@, v, au_fault, build) == Ok::<Parsed, Fault>(Parsed { qp_range: Some(v), ..nothing_asked() }),
        build.vship ==> one_option(prog, "--qp"@, v, au_fault, build) == Ok::<Parsed, Fault>(Parsed { qp_range: Some(v), ..nothing_asked() }),
        build.vship ==> one_option(prog, "-v"@, v, au_fault, build) == match usize_of(v) {
            Some(n) => Ok::<Parsed, Fault>(Parsed { metric_worker: n, ..nothing_asked() }),
            None => Err(Fault::BadInt(v)),
        },
        build.vship ==> one_option(prog, "--vship"@, v, au_fault, build) == match usize_of(v) {
            Some(n) => Ok::<Parsed, Fault>(Parsed { metric_worker: n, ..nothing_asked() }),
            None => Err(Fault::BadInt(v)),
        },
        build.vship ==> one_option(prog, "-d"@, v, au_fault, build) == Ok::<Parsed, Fault>(Parsed { cvvdp_conf: Some(v), ..nothing_asked() }),
        build.vship ==> one_option(prog, "--display"@, v, au_fault, build) == Ok::<Parsed, Fault>(Parsed { cvvdp_conf: Some(v), ..nothing_asked() }),
        build.vship ==> one_option(prog, "-P"@, v, au_fault, build) == Ok::<Parsed, Fault>(Parsed { alt_param: Some(v), ..nothing_asked() }),
        build.vship ==> one_option(prog, "--alt-param"@, v, au_fault, build) == Ok::<Parsed, Fault>(Parsed { alt_param: Some(v), ..nothing_asked() }),
        build.vvenc ==> one_option(prog, "--preset"@, v, au_fault, build) == Ok::<Parsed, Fault>(Parsed { preset: Some(v), ..nothing_asked() }),
{
    lemma_names_of_options(build);
    lemma_one_option(prog, "-e"@, v, au_fault, build);
    lemma_one_option(prog, "--encoder"@, v, au_fault, build);
    lemma_one_option(prog, "-w"@, v, au_fault, build);
    lemma_one_option(prog, "--worker"@, v, au_fault, build);
    lemma_one_option(prog, "-s"@, v, au_fault, build);
    lemma_one_option(prog, "--sc"@, v, au_fault, build);
    lemma_one_option(prog, "-p"@, v, au_fault, build);
    lemma_one_option(prog, "--param"@, v, au_fault, build);
    lemma_one_option(prog, "-b"@, v, au_fault, build);
    lemma_one_option(prog, "--buff"@, v, au_fault, build);
    lemma_one_option(prog, "-r"@, v, au_fault, build);
    lemma_one_option(prog, "--range"@, v, au_fault, build);
    lemma_one_option(prog, "-a"@, v, au_fault, build);
    lemma_one_option(prog, "--audio"@, v, au_fault, build);
    if build.vship { lemma_one_option(prog, "-t"@, v, au_fault, build); }
    if build.vship { lemma_one_option(prog, "--tq"@, v, au_fault, build); }
    if build.vship { lemma_one_option(prog, "-m"@, v, au_fault, build); }
    if build.vship { lemma_one_option(prog, "--mode"@, v, au_fault, build); }
    if build.vship { lemma_one_option(prog, "-f"@, v, au_fault, build); }
    if build.vship { lemma_one_option(prog, "--qp"@, v, au_fault, build); }
    if build.vship { lemma_one_option(prog, "-v"@, v, au_fault, build); }
    if build.vship { lemma_one_option(prog, "--vship"@, v, au_fault, build); }
    if build.vship { lemma_one_option(prog, "-d"@, v, au_fault, build); }
    if build.vship { lemma_one_option(prog, "--display"@, v, au_fault, build); }
    if build.vship { lemma_one_option(prog, "-P"@, v, au_fault, build); }
    if build.vship { lemma_one_option(prog, "--alt-param"@, v, au_fault, build); }
    if build.vvenc { lemma_one_option(prog, "--preset"@, v, au_fault, build); }
}

/// What is read of a command line that names paths and flags alone: the first path is the input, the
/// second the output, any further one is passed over, and flags stand anywhere.
pub proof fn law_paths_and_flags(
    prog: Seq<char>,
    a: Seq<char>,
    b: Seq<char>,
    c: Seq<char>,
    build: Build,
)
    requires
        is_path(a),
        is_path(b),
        is_path(c),
    ensures
        ({
            let none = seq![None::<Seq<char>>, None, None, None, None, None];
            let start = nothing_asked();
            &&& words_read(seq![prog, a], none, build, 1, start) == Ok::<Parsed, Fault>(
                Parsed { inp: a, ..start },
            )
            &&& words_read(seq![prog, a, b, c], none, build, 1, start) == Ok::<Parsed, Fault>(
                Parsed { inp: a, out: b, ..start },
            )
            &&& words_read(seq![prog, "--hwdec"@, a, "--sc-only"@, b], none, build, 1, start) == Ok::<
                Parsed,
                Fault,
            >(Parsed { inp: a, out: b, hwdec: true, sc_only: true, ..start })
            &&& words_read(seq![prog, a, "-h"@], none, build, 1, start) == Err::<Parsed, Fault>(
                Fault::Help,
            )
            &&& words_read(seq![prog, a, "--help"@], none, build, 1, start) == Err::<Parsed, Fault>(
                Fault::Help,
            )
            &&& words_read(seq![prog, a, "--guide"@], none, build, 1, start) == Err::<Parsed, Fault>(
                Fault::Guide,
            )
        }),
{
    lemma_names_of_options(build);
    lemma_paths_are_plain(a, build);
    lemma_paths_are_plain(b, build);
    lemma_paths_are_plain(c, build);
    let none = seq![None::<Seq<char>>, None, None, None, None, None];
    let start = nothing_asked();
    let p1 = Parsed { inp: a, ..start };
    let p2 = Parsed { inp: a, out: b, ..start };
    let w = seq![prog, a];
    assert(w[1] == a);
    assert(words_read(w, none, build, 2, p1) == Ok::<Parsed, Fault>(p1));
    let w = seq![prog, a, b, c];
    assert(w[1] == a && w[2] == b && w[3] == c);
    assert(words_read(w, none, build, 4, p2) == Ok::<Parsed, Fault>(p2));
    assert(words_read(w, none, build, 3, p2) == Ok::<Parsed, Fault>(p2));
    assert(words_read(w, none, build, 2, p1) == Ok::<Parsed, Fault>(p2));
    let w = seq![prog, "--hwdec"@, a, "--sc-only"@, b];
    assert(w[1] == "--hwdec"@ && w[2] == a && w[3] == "--sc-only"@ && w[4] == b);
    let h1 = Parsed { hwdec: true, ..start };
    let h2 = Parsed { inp: a, ..h1 };
    let h3 = Parsed { sc_only: true, ..h2 };
    let h4 = Parsed { out: b, ..h3 };
    assert(words_read(w, none, build, 5, h4) == Ok::<Parsed, Fault>(h4));
    assert(words_read(w, none, build, 4, h3) == Ok::<Parsed, Fault>(h4));
    assert(words_read(w, none, build, 3, h2) == Ok::<Parsed, Fault>(h4));
    assert(words_read(w, none, build, 2, h1) == Ok::<Parsed, Fault>(h4));
    let w = seq![prog, a, "-h"@];
    assert(w[1] == a && w[2] == "-h"@);
    assert(words_read(w, none, build, 2, p1) == Err::<Parsed, Fault>(Fault::Help));
    let w = seq![prog, a, "--help"@];
    assert(w[1] == a && w[2] == "--help"@);
    assert(words_read(w, none, build, 2, p1) == Err::<Parsed, Fault>(Fault::Help));
    let w = seq![prog, a, "--guide"@];
    assert(w[1] == a && w[2] == "--guide"@);
    assert(words_read(w, none, build, 2, p1) == Err::<Parsed, Fault>(Fault::Guide));
}

/// Whether a word can be a path: it is not empty and does not start with a dash.
pub open spec fn is_path(w: Seq<char>) -> bool {
    w.len() > 0 && w[0] != '-'
}

proof fn lemma_paths_are_plain(w: Seq<char>, build: Build)
    requires
        is_path(w),
    ensures
        opt_of(w, build) == Opt::Plain,
{
    lemma_spelling();
}

/// A word that starts with a dash and is none of the names is refused, and named in what is said.
pub proof fn law_unknown_options_are_refused(
    prog: Seq<char>,
    w: Seq<char>,
    au: Seq<Option<Seq<char>>>,
    build: Build,
)
    requires
        opt_of(w, build) == Opt::Unknown,
    ensures
        words_read(seq![prog, w], au, build, 1, nothing_asked()) == Err::<Parsed, Fault>(
            Fault::Message("Unknown arg: "@ + w),
        ),
        w.len() > 0 && w[0] == '-',
{
    lemma_spelling();
    assert(seq![prog, w][1] == w);
    assert("-"@.is_prefix_of(w));
    assert(w.take(1)[0] == w[0]);
}

/// Chunks are buffered for each worker, and as many more as are asked for.
pub proof fn law_buffer_adds_to_workers(p: Parsed)
    ensures
        p.buff is None ==> buffered(p) == p.worker,
        p.buff matches Some(n) ==> p.worker + n <= usize::MAX ==> buffered(p) == p.worker + n,
{
}

/// A range as it is written: two numbers with a dash between them, the second left out where there
/// is no end.
pub open spec fn range_text(r: (usize, usize)) -> Seq<char> {
    decimal(r.0 as nat) + "-"@ + if r.1 == usize::MAX {
        seq![]
    } else {
        decimal(r.1 as nat)
    }
}

proof fn lemma_digits_are_plain(n: nat)
    ensures
        decimal(n).len() > 0,
        trimmed(decimal(n)) == decimal(n),
        is_free_of(decimal(n), '-'),
        is_free_of(decimal(n), ','),
{
    lemma_decimal_digits(n);
    let d = decimal(n);
    assert(is_digit(d[0]) && is_digit(d[d.len() - 1]));
    law_trimmed_cuts_white_space(d);
    assert forall|k: int| 0 <= k < d.len() implies d[k] != '-' && d[k] != ',' by {
        assert(is_digit(d[k]));
    }
}

proof fn lemma_range_reads_back(r: (usize, usize))
    ensures
        range_of(range_text(r)) == Ok::<(usize, usize), Fault>(r),
        is_free_of(range_text(r), ','),
{
    lemma_spelling();
    let (a, b) = (decimal(r.0 as nat), decimal(r.1 as nat));
    lemma_digits_are_plain(r.0 as nat);
    lemma_digits_are_plain(r.1 as nat);
    law_decimal_reads_back(r.0);
    law_decimal_reads_back(r.1);
    let end = if r.1 == usize::MAX {
        seq![]
    } else {
        b
    };
    let s = range_text(r);
    let n = a.len() as int;
    lemma_find_from(s, "-"@, 0);
    assert(s[n] == '-');
    assert(s.subrange(n, n + 1) =~= "-"@);
    assert(occurs_at(s, "-"@, n));
    let i = find_from(s, "-"@, 0)->0;
    if i < n {
        assert(s.subrange(i, i + 1)[0] == a[i]);
        assert(a[i] != '-');
    }
    assert(i == n);
    assert(s.take(n) =~= a);
    assert(s.skip(n + 1) =~= end);
    law_trimmed_cuts_white_space(end);
    assert forall|k: int| 0 <= k < s.len() implies s[k] != ',' by {
        if k < n {
            assert(s[k] == a[k]);
        } else if k > n {
            assert(s[k] == end[k - n - 1]);
        }
    }
}

proof fn lemma_ranges_read_back(rs: Seq<(usize, usize)>)
    ensures
        ranges_in(rs.map_values(|r: (usize, usize)| range_text(r))) == Ok::<
            Seq<(usize, usize)>,
            Fault,
        >(rs),
    decreases rs.len(),
{
    let parts = rs.map_values(|r: (usize, usize)| range_text(r));
    if rs.len() == 0 {
        assert(rs =~= seq![]);
    } else {
        let rest = rs.skip(1);
        lemma_range_reads_back(rs[0]);
        lemma_ranges_read_back(rest);
        assert(parts.skip(1) =~= rest.map_values(|r: (usize, usize)| range_text(r)));
        assert(seq![rs[0]] + rest =~= rs);
    }
}

/// Ranges that are written one behind another with commas between them, as the help shows, are read
/// as themselves, when none but the last is without an end.
pub proof fn law_ranges_read_back(rs: Seq<(usize, usize)>)
    requires
        rs.len() > 0,
        forall|i: int| 0 <= i < rs.len() - 1 ==> (#[trigger] rs[i]).1 != usize::MAX,
    ensures
        ranges_of(joined_by(rs.map_values(|r: (usize, usize)| range_text(r)), seq![','])) == Ok::<
            Seq<(usize, usize)>,
            Fault,
        >(rs),
{
    let parts = rs.map_values(|r: (usize, usize)| range_text(r));
    assert forall|i: int| 0 <= i < parts.len() implies is_free_of(#[trigger] parts[i], ',') by {
        lemma_range_reads_back(rs[i]);
    }
    law_pieces_come_apart(parts, ',');
    lemma_ranges_read_back(rs);
}


/// A command line that names an input alone asks for SVT-AV1 with one worker and one for metrics, the
/// mean of the scores, and nothing else; an option at its end that has no value is passed over.
pub proof fn law_input_alone_is_enough(prog: Seq<char>, a: Seq<char>, build: Build)
    requires
        is_path(a),
    ensures
        ({
            let none = seq![None::<Seq<char>>, None, None];
            let plain = Parsed {
                encoder: Encoder::SvtAv1,
                worker: 1,
                sc_file: seq![],
                params: seq![],
                preset: None,
                au: None,
                inp: a,
                out: seq![],
                ranges: None,
                qp_range: None,
                metric_worker: 1,
                tq: None,
                metric_mode: "mean"@,
                cvvdp_conf: None,
                alt_param: None,
                sc_only: false,
                hwdec: false,
                buff: None,
            };
            &&& words_read(seq![prog, a], none, build, 1, nothing_asked()) == Ok::<Parsed, Fault>(plain)
            &&& words_read(seq![prog, a, "-w"@], none, build, 1, nothing_asked()) == Ok::<Parsed, Fault>(
                plain,
            )
            &&& buffered(plain) == 1
        }),
{
    lemma_names_of_options(build);
    lemma_paths_are_plain(a, build);
    let none = seq![None::<Seq<char>>, None, None];
    let p = Parsed { inp: a, ..nothing_asked() };
    let w = seq![prog, a];
    assert(w[1] == a);
    assert(words_read(w, none, build, 2, p) == Ok::<Parsed, Fault>(p));
    let w = seq![prog, a, "-w"@];
    assert(w[1] == a && w[2] == "-w"@);
    assert(words_read(w, none, build, 2, p) == Ok::<Parsed, Fault>(p));
}

/// White space around the numbers of a range does not count.
pub proof fn law_ranges_ignore_white_space(l: Seq<char>, r: Seq<char>)
    requires
        is_free_of(l, '-'),
    ensures
        range_of(l.push('-') + r) == range_of(trimmed(l).push('-') + trimmed(r)),
{
    reveal_strlit("-");
    assert("-"@ =~= seq!['-']);
    law_first_separator_parts(l, '-', r);
    law_trimming_twice_is_trimming_once(l, '-');
    law_trimming_twice_is_trimming_once(r, '-');
    law_first_separator_parts(trimmed(l), '-', trimmed(r));
}

/// A range without a dash is refused, and one whose first number is none, or whose second is neither
/// a number nor left out, is refused with the text that is none.
pub proof fn law_faults_of_ranges(l: Seq<char>, r: Seq<char>)
    requires
        is_free_of(l, '-'),
    ensures
        range_of(l) == Err::<(usize, usize), Fault>(Fault::Message("invalid range"@)),
        usize_of(trimmed(l)) is None ==> range_of(l.push('-') + r) == Err::<(usize, usize), Fault>(
            Fault::BadInt(trimmed(l)),
        ),
        usize_of(trimmed(l)) is Some && trimmed(r).len() > 0 && usize_of(trimmed(r)) is None ==> range_of(
            l.push('-') + r,
        ) == Err::<(usize, usize), Fault>(Fault::BadInt(trimmed(r))),
{
    reveal_strlit("-");
    assert("-"@ =~= seq!['-']);
    law_first_separator_parts(l, '-', r);
    law_first_separator_parts(l, '-', l);
}

} // verus!
