//! The texts that a run prints: the options, the guide, and the summary.
use vstd::prelude::*;
use vstd::utf8::encode_utf8;

use crate::encoder::Build;
use crate::num::{
    all_digits, decimal, decimal_text, digits_value, lemma_zero_padded, pad_left, pad_right,
    push_decimal, push_padded_right, push_right_aligned, push_run, push_zero_padded, run_of,
    zero_padded,
};
use crate::progs::Palette;
use crate::text::{
    find_chars, find_from, gives, is_free_of, lemma_find_from, lemma_gives_behind, lemma_gives_here,
    lemma_gives_more, occurs_at, text_of, to_chars,
};

verus! {

/// The terminal sequence of the colour that a letter names.
pub open spec fn color_of(pal: &Palette, c: char) -> Option<Seq<char>> {
    if c == 'B' {
        Some(pal.b@)
    } else if c == 'C' {
        Some(pal.c@)
    } else if c == 'G' {
        Some(pal.g@)
    } else if c == 'N' {
        Some(pal.n@)
    } else if c == 'P' {
        Some(pal.p@)
    } else if c == 'R' {
        Some(pal.r@)
    } else if c == 'W' {
        Some(pal.w@)
    } else if c == 'Y' {
        Some(pal.y@)
    } else {
        None
    }
}

/// A text with each letter in curly brackets that names a colour replaced by its sequence.
pub open spec fn painted(s: Seq<char>, pal: &Palette) -> Seq<char>
    decreases s.len(),
{
    if s.len() == 0 {
        seq![]
    } else if s.len() >= 3 && s[0] == '{' && s[2] == '}' && color_of(pal, s[1]) is Some {
        color_of(pal, s[1])->0 + painted(s.skip(3), pal)
    } else {
        seq![s[0]] + painted(s.skip(1), pal)
    }
}

fn color(pal: &Palette, c: char) -> (r: Option<&str>)
    ensures
        match r {
            Some(t) => color_of(pal, c) == Some(t@),
            None => color_of(pal, c) is None,
        },
{
    match c {
        'B' => Some(pal.b.as_str()),
        'C' => Some(pal.c.as_str()),
        'G' => Some(pal.g.as_str()),
        'N' => Some(pal.n.as_str()),
        'P' => Some(pal.p.as_str()),
        'R' => Some(pal.r.as_str()),
        'W' => Some(pal.w.as_str()),
        'Y' => Some(pal.y.as_str()),
        _ => None,
    }
}

/// Appends a text with its colours.
pub fn paint(out: &mut String, t: &str, pal: &Palette)
    ensures
        final(out)@ == old(out)@ + painted(t@, pal),
{
    let v = to_chars(t);
    let n: usize = v.len();
    let mut i: usize = 0;
    assert(v@.skip(0) =~= v@);
    while i < n
        invariant
            v@ == t@,
            n == v@.len(),
            i <= n,
            out@ + painted(v@.skip(i as int), pal) == old(out)@ + painted(t@, pal),
        decreases n - i,
    {
        let ghost rest = v@.skip(i as int);
        let ghost before = out@;
        assert(rest[0] == v@[i as int]);
        let mut tinted: bool = false;
        if n - i >= 3 && v[i] == '{' && v[i + 2] == '}' {
            assert(rest[1] == v@[i + 1] && rest[2] == v@[i + 2]);
            if let Some(c) = color(pal, v[i + 1]) {
                out.append(c);
                tinted = true;
            }
        }
        if tinted {
            assert(rest.skip(3) =~= v@.skip(i + 3));
            assert(before + painted(rest, pal) =~= out@ + painted(v@.skip(i + 3), pal));
            i = i + 3;
        } else {
            out.push(v[i]);
            if n - i >= 3 {
                assert(rest[1] == v@[i + 1] && rest[2] == v@[i + 2]);
            }
            assert(rest.skip(1) =~= v@.skip(i + 1));
            assert(before + painted(rest, pal) =~= out@ + painted(v@.skip(i + 1), pal));
            i = i + 1;
        }
    }
    assert(v@.skip(i as int) =~= seq![]);
    assert(out@ =~= out@ + painted(v@.skip(i as int), pal));
}

/// A line with its colours.
pub open spec fn line_of(t: Seq<char>, pal: &Palette) -> Seq<char> {
    painted(t, pal) + "\n"@
}

fn push_line(out: &mut String, t: &str, pal: &Palette)
    ensures
        final(out)@ == old(out)@ + line_of(t@, pal),
{
    paint(out, t, pal);
    out.append("\n");
    assert(out@ =~= old(out)@ + line_of(t@, pal));
}

/// A version and its date.
pub struct Ver {
    pub version: String,
    pub date: String,
}

/// The versions that a build is made of.
pub struct HelpInfo {
    pub xav: Ver,
    pub svt: Ver,
    pub dav1d: Ver,
    pub avm: Ver,
    pub vvenc: Ver,
    pub vship: Ver,
    pub vulkan: Ver,
    /// The version of CUDA, where the metrics run on it.
    pub cuda: Option<String>,
    pub gpu: String,
}

/// The larger of two numbers.
pub open spec fn wider(a: nat, b: nat) -> nat {
    if a > b {
        a
    } else {
        b
    }
}

/// The larger of two numbers.
pub fn wmax(a: usize, b: usize) -> (r: usize)
    ensures
        r == wider(a as nat, b as nat),
{
    if a > b {
        a
    } else {
        b
    }
}

/// The bytes of a version.
pub open spec fn width_of(v: &Ver) -> nat {
    encode_utf8(v.version@).len()
}

/// The width of the longest version that is listed.
pub open spec fn version_width(build: Build, info: &HelpInfo) -> nat {
    let w = wider(wider(width_of(&info.xav), width_of(&info.svt)), width_of(&info.dav1d));
    let w = if build.avm {
        wider(w, width_of(&info.avm))
    } else {
        w
    };
    let w = if build.vvenc {
        wider(w, width_of(&info.vvenc))
    } else {
        w
    };
    let w = if build.vship {
        wider(w, width_of(&info.vship))
    } else {
        w
    };
    if build.vship && info.cuda is None {
        wider(w, width_of(&info.vulkan))
    } else {
        w
    }
}

fn ver_width(v: &Ver) -> (r: usize)
    ensures
        r == width_of(v),
{
    v.version.as_str().as_bytes().len()
}

fn longest_version(build: Build, info: &HelpInfo) -> (r: usize)
    ensures
        r == version_width(build, info),
{
    let mut w: usize = wmax(
        wmax(ver_width(&info.xav), ver_width(&info.svt)),
        ver_width(&info.dav1d),
    );
    if build.avm {
        w = wmax(w, ver_width(&info.avm));
    }
    if build.vvenc {
        w = wmax(w, ver_width(&info.vvenc));
    }
    if build.vship {
        w = wmax(w, ver_width(&info.vship));
        if info.cuda.is_none() {
            w = wmax(w, ver_width(&info.vulkan));
        }
    }
    w
}

/// A line that names a version and its date.
pub open spec fn version_line(label: Seq<char>, v: &Ver, width: nat, pal: &Palette) -> Seq<char> {
    painted(label, pal) + pad_right(v.version@, width) + painted("  {B}"@, pal) + v.date@ + painted(
        "{N}"@,
        pal,
    ) + "\n"@
}

fn push_version(out: &mut String, label: &str, v: &Ver, width: usize, pal: &Palette)
    ensures
        final(out)@ == old(out)@ + version_line(label@, v, width as nat, pal),
{
    paint(out, label, pal);
    push_padded_right(out, v.version.as_str(), width);
    paint(out, "  {B}", pal);
    out.append(v.date.as_str());
    paint(out, "{N}", pal);
    out.append("\n");
    assert(out@ =~= old(out)@ + version_line(label@, v, width as nat, pal));
}

/// A line that names a version alone.
pub open spec fn plain_line(label: Seq<char>, version: Seq<char>, pal: &Palette) -> Seq<char> {
    painted(label, pal) + version + painted("{N}"@, pal) + "\n"@
}

fn push_plain(out: &mut String, label: &str, version: &str, pal: &Palette)
    ensures
        final(out)@ == old(out)@ + plain_line(label@, version@, pal),
{
    paint(out, label, pal);
    out.append(version);
    paint(out, "{N}", pal);
    out.append("\n");
    assert(out@ =~= old(out)@ + plain_line(label@, version@, pal));
}

/// The lines of the options.
pub open spec fn option_lines(build: Build, pal: &Palette) -> Seq<char> {
    line_of("{P}Format: {Y}xav {C}[options] {G}<INPUT> {B}[<OUTPUT>]{W}"@, pal) + "\n"@ + (if build.avm {
        line_of("{C}-e {P}┃ {C}--encoder    {R}<{G}svt-av1{P}┃{G}avm{P}┃{G}vvenc{P}┃{G}x265{P}┃{G}x264{R}>"@, pal)
    } else {
        line_of("{C}-e {P}┃ {C}--encoder    {R}<{G}svt-av1{P}┃{G}vvenc{P}┃{G}x265{P}┃{G}x264{R}>"@, pal)
    })
        + line_of("{C}-w {P}┃ {C}--worker     {W}Parallelism"@, pal)
        + line_of("{C}-b {P}┃ {C}--buff       {W}Chunks to buffer"@, pal)
        + line_of("{C}-p {P}┃ {C}--param      {W}Encoder params"@, pal)
        + (if build.vvenc {
        line_of("   {P}┃ {C}--preset     {W}VVENC preset: {G}faster{B}┃{G}fast{B}┃{G}medium{B}┃{G}slow{B}┃{G}slower{B}┃{G}medium_lowDecEnergy"@, pal)
    } else {
        seq![]
    })
        + line_of("{C}-s {P}┃ {C}--sc         {W}SCD file"@, pal)
        + line_of("   {P}┃ {C}--sc-only    {W}Exit after SCD"@, pal)
        + line_of("   {P}┃ {C}--hwdec      {W}GPU decode"@, pal)
        + line_of("{C}-r {P}┃ {C}--range      {W}Trim/splice: {G}\"10-20,90-100\""@, pal)
        + line_of("{C}-a {P}┃ {C}--audio      {W}Opus Enc: {Y}-a {G}\"{R}<{G}auto{P}┃{G}norm{P}┃{G}bitrate{R}> {R}<{G}all{P}┃{G}stream_ids{R}>{G}\""@, pal)
        + tq_lines(build, pal) + "\n"@
        + line_of("   {P}┃ {C}--guide      {W}Use fullscreen & Nerd Fonts"@, pal) + "\n"@
}

/// The lines of the options for a target quality.
pub open spec fn tq_lines(build: Build, pal: &Palette) -> Seq<char> {
    if build.vship {
        line_of("{C}-t {P}┃ {C}--tq         {W}TQ Range: {R}<8{B}={W}Butter, {R}8-10{B}={W}CVVDP, {R}>10{B}={W}SSIMU2"@, pal)
            + line_of("{C}-m {P}┃ {C}--mode       {W}TQ stat: {G}mean {W}or pN%"@, pal)
            + line_of("{C}-f {P}┃ {C}--qp         {W}CRF range: {G}crf-crf{W}"@, pal)
            + line_of("{C}-v {P}┃ {C}--vship      {W}Metric parallelism"@, pal)
            + line_of("{C}-d {P}┃ {C}--display    {W}CVVDP display file"@, pal)
            + line_of("{C}-P {P}┃ {C}--alt-param  {W}Alt params for probes ({R}NOT RECOMMENDED{W}; expert-only)"@, pal)
    } else {
        seq![]
    }
}

fn push_tq(s: &mut String, build: Build, pal: &Palette)
    ensures
        final(s)@ == old(s)@ + tq_lines(build, pal),
{
    if build.vship {
        push_line(s, "{C}-t {P}┃ {C}--tq         {W}TQ Range: {R}<8{B}={W}Butter, {R}8-10{B}={W}CVVDP, {R}>10{B}={W}SSIMU2", pal);
        push_line(s, "{C}-m {P}┃ {C}--mode       {W}TQ stat: {G}mean {W}or pN%", pal);
        push_line(s, "{C}-f {P}┃ {C}--qp         {W}CRF range: {G}crf-crf{W}", pal);
        push_line(s, "{C}-v {P}┃ {C}--vship      {W}Metric parallelism", pal);
        push_line(s, "{C}-d {P}┃ {C}--display    {W}CVVDP display file", pal);
        push_line(s, "{C}-P {P}┃ {C}--alt-param  {W}Alt params for probes ({R}NOT RECOMMENDED{W}; expert-only)", pal);
    }
    assert(s@ =~= old(s)@ + tq_lines(build, pal));
}

/// Appends a line where it belongs.
fn push_line_if(out: &mut String, yes: bool, t: &str, pal: &Palette)
    ensures
        final(out)@ == old(out)@ + (if yes {
            line_of(t@, pal)
        } else {
            seq![]
        }),
{
    if yes {
        push_line(out, t, pal);
    } else {
        assert(out@ =~= out@ + seq![]);
    }
}

fn options_text(build: Build, pal: &Palette) -> (r: String)
    ensures
        r@ == option_lines(build, pal),
{
    let mut s = String::new();
    push_line(&mut s, "{P}Format: {Y}xav {C}[options] {G}<INPUT> {B}[<OUTPUT>]{W}", pal);
    assert(s@ =~= line_of("{P}Format: {Y}xav {C}[options] {G}<INPUT> {B}[<OUTPUT>]{W}"@, pal));
    s.append("\n");
    push_line(
        &mut s,
        if build.avm {
            "{C}-e {P}┃ {C}--encoder    {R}<{G}svt-av1{P}┃{G}avm{P}┃{G}vvenc{P}┃{G}x265{P}┃{G}x264{R}>"
        } else {
            "{C}-e {P}┃ {C}--encoder    {R}<{G}svt-av1{P}┃{G}vvenc{P}┃{G}x265{P}┃{G}x264{R}>"
        },
        pal,
    );
    push_line(&mut s, "{C}-w {P}┃ {C}--worker     {W}Parallelism", pal);
    push_line(&mut s, "{C}-b {P}┃ {C}--buff       {W}Chunks to buffer", pal);
    push_line(&mut s, "{C}-p {P}┃ {C}--param      {W}Encoder params", pal);
    push_line_if(&mut s, build.vvenc, "   {P}┃ {C}--preset     {W}VVENC preset: {G}faster{B}┃{G}fast{B}┃{G}medium{B}┃{G}slow{B}┃{G}slower{B}┃{G}medium_lowDecEnergy", pal);
    push_line(&mut s, "{C}-s {P}┃ {C}--sc         {W}SCD file", pal);
    push_line(&mut s, "   {P}┃ {C}--sc-only    {W}Exit after SCD", pal);
    push_line(&mut s, "   {P}┃ {C}--hwdec      {W}GPU decode", pal);
    push_line(&mut s, "{C}-r {P}┃ {C}--range      {W}Trim/splice: {G}\"10-20,90-100\"", pal);
    push_line(&mut s, "{C}-a {P}┃ {C}--audio      {W}Opus Enc: {Y}-a {G}\"{R}<{G}auto{P}┃{G}norm{P}┃{G}bitrate{R}> {R}<{G}all{P}┃{G}stream_ids{R}>{G}\"", pal);
    push_tq(&mut s, build, pal);
    s.append("\n");
    push_line(&mut s, "   {P}┃ {C}--guide      {W}Use fullscreen & Nerd Fonts", pal);
    s.append("\n");
    s
}

/// The lines of the versions.
pub open spec fn version_lines(build: Build, info: &HelpInfo, pal: &Palette) -> Seq<char> {
    let w = version_width(build, info);
    version_line("{C}XAV:         {G}"@, &info.xav, w, pal) + version_line("{C}SVT-AV1:     {G}"@, &info.svt, w, pal) + version_line("{C}DAV1D:       {G}"@, &info.dav1d, w, pal)
        + (if build.avm {
        version_line("{C}AVM:         {G}"@, &info.avm, w, pal)
    } else {
        seq![]
    }) + (if build.vvenc {
        version_line("{C}VVENC:       {G}"@, &info.vvenc, w, pal)
    } else {
        seq![]
    }) + (if build.vship {
        metric_lines(info, w, pal)
    } else {
        seq![]
    })
}

/// The lines of the versions that metrics need.
pub open spec fn metric_lines(info: &HelpInfo, w: nat, pal: &Palette) -> Seq<char> {
    version_line("{C}VSHIP:       {G}"@, &info.vship, w, pal) + (match info.cuda {
        Some(c) => plain_line("{C}CUDA:        {G}"@, c@, pal),
        None => version_line("{C}VULKAN:      {G}"@, &info.vulkan, w, pal),
    }) + plain_line("{C}GPU Drivers: {G}"@, info.gpu@, pal)
}

fn push_version_if(
    out: &mut String,
    yes: bool,
    label: &str,
    v: &Ver,
    width: usize,
    pal: &Palette,
)
    ensures
        final(out)@ == old(out)@ + (if yes {
            version_line(label@, v, width as nat, pal)
        } else {
            seq![]
        }),
{
    if yes {
        push_version(out, label, v, width, pal);
    } else {
        assert(out@ =~= out@ + seq![]);
    }
}

fn metric_text(info: &HelpInfo, w: usize, pal: &Palette) -> (r: String)
    ensures
        r@ == metric_lines(info, w as nat, pal),
{
    let mut s = String::new();
    push_version(&mut s, "{C}VSHIP:       {G}", &info.vship, w, pal);
    assert(s@ =~= version_line("{C}VSHIP:       {G}"@, &info.vship, w as nat, pal));
    match &info.cuda {
        Some(c) => {
            push_plain(&mut s, "{C}CUDA:        {G}", c.as_str(), pal);
        },
        None => {
            push_version(&mut s, "{C}VULKAN:      {G}", &info.vulkan, w, pal);
        },
    }
    push_plain(&mut s, "{C}GPU Drivers: {G}", info.gpu.as_str(), pal);
    s
}

fn versions_text(build: Build, info: &HelpInfo, pal: &Palette) -> (r: String)
    ensures
        r@ == version_lines(build, info, pal),
{
    let w: usize = longest_version(build, info);
    let mut s = String::new();
    push_version(&mut s, "{C}XAV:         {G}", &info.xav, w, pal);
    assert(s@ =~= version_line("{C}XAV:         {G}"@, &info.xav, w as nat, pal));
    push_version(&mut s, "{C}SVT-AV1:     {G}", &info.svt, w, pal);
    push_version(&mut s, "{C}DAV1D:       {G}", &info.dav1d, w, pal);
    push_version_if(&mut s, build.avm, "{C}AVM:         {G}", &info.avm, w, pal);
    push_version_if(&mut s, build.vvenc, "{C}VVENC:       {G}", &info.vvenc, w, pal);
    if build.vship {
        let m = metric_text(info, w, pal);
        s.append(m.as_str());
    } else {
        assert(s@ =~= s@ + seq![]);
    }
    s
}

/// What is printed when the options are asked for.
pub fn print_help(build: Build, info: &HelpInfo, pal: &Palette) -> (r: String)
    ensures
        r@ == option_lines(build, pal) + version_lines(build, info, pal),
{
    let mut s = options_text(build, pal);
    let v = versions_text(build, info, pal);
    s.append(v.as_str());
    s
}

/// A text with every occurrence of another replaced, from the left.
pub open spec fn replaced(s: Seq<char>, p: Seq<char>, by: Seq<char>) -> Seq<char>
    decreases s.len(),
{
    match find_from(s, p, 0) {
        Some(i) => if 0 <= i && p.len() > 0 && i + p.len() <= s.len() {
            s.take(i) + by + replaced(s.skip(i + p.len()), p, by)
        } else {
            s
        },
        None => s,
    }
}

proof fn lemma_find_shift(s: Seq<char>, p: Seq<char>, from: int, k: int)
    requires
        0 <= from,
        0 <= k,
        from + k <= s.len(),
    ensures
        find_from(s.skip(from), p, k) == match find_from(s, p, from + k) {
            Some(i) => Some(i - from),
            None => None,
        },
    decreases s.len() - from - k,
{
    let t = s.skip(from);
    if from + k + p.len() <= s.len() {
        assert(t.subrange(k, k + p.len()) =~= s.subrange(from + k, from + k + p.len()));
        if s.subrange(from + k, from + k + p.len()) != p && from + k < s.len() {
            lemma_find_shift(s, p, from, k + 1);
        }
        if s.subrange(from + k, from + k + p.len()) != p && from + k == s.len() {
            assert(p.len() == 0);
            assert(s.subrange(from + k, from + k + p.len()) =~= p);
        }
    }
}

/// A text with every occurrence of another, which is not empty, replaced.
pub fn replace(s: &str, p: &str, by: &str) -> (r: String)
    requires
        p@.len() > 0,
    ensures
        r@ == replaced(s@, p@, by@),
{
    let v = to_chars(s);
    let q = to_chars(p);
    let n: usize = v.len();
    let mut r = String::new();
    let mut from: usize = 0;
    assert(v@.skip(0) =~= v@);
    assert(r@ + replaced(v@.skip(0), p@, by@) =~= replaced(s@, p@, by@));
    loop
        invariant
            v@ == s@,
            q@ == p@,
            p@.len() > 0,
            n == v@.len(),
            from <= n,
            r@ + replaced(v@.skip(from as int), p@, by@) == replaced(s@, p@, by@),
        decreases n - from,
    {
        proof {
            lemma_find_shift(v@, p@, from as int, 0);
            lemma_find_from(v@, p@, from as int);
        }
        match find_chars(&v, &q, from) {
            Some(i) => {
                let ghost before = r@;
                let ghost rest = v@.skip(from as int);
                let head = text_of(&v, from, i);
                assert(head@ =~= rest.take(i - from));
                r.append(head.as_str());
                r.append(by);
                let next: usize = i + q.len();
                assert(rest.skip(i - from + p@.len()) =~= v@.skip(next as int));
                assert(before + replaced(rest, p@, by@) =~= r@ + replaced(
                    v@.skip(next as int),
                    p@,
                    by@,
                ));
                from = next;
            },
            None => {
                let tail = text_of(&v, from, n);
                assert(tail@ =~= v@.skip(from as int));
                r.append(tail.as_str());
                return r;
            },
        }
    }
}

/// The guide with its colours.
pub open spec fn guide_of(t: Seq<char>, pal: &Palette) -> Seq<char> {
    let t = replaced(t, "{G}"@, pal.g@);
    let t = replaced(t, "{R}"@, pal.r@);
    let t = replaced(t, "{B}"@, pal.b@);
    let t = replaced(t, "{P}"@, pal.p@);
    let t = replaced(t, "{Y}"@, pal.y@);
    let t = replaced(t, "{C}"@, pal.c@);
    replaced(t, "{W}"@, pal.w@)
}

/// What is printed when the guide is asked for.
pub fn print_guide(guide: &str, pal: &Palette) -> (r: String)
    ensures
        r@ == guide_of(guide@, pal),
{
    proof {
        reveal_strlit("{G}");
        reveal_strlit("{R}");
        reveal_strlit("{B}");
        reveal_strlit("{P}");
        reveal_strlit("{Y}");
        reveal_strlit("{C}");
        reveal_strlit("{W}");
    }
    let t = replace(guide, "{G}", pal.g.as_str());
    let t = replace(t.as_str(), "{R}", pal.r.as_str());
    let t = replace(t.as_str(), "{B}", pal.b.as_str());
    let t = replace(t.as_str(), "{P}", pal.p.as_str());
    let t = replace(t.as_str(), "{Y}", pal.y.as_str());
    let t = replace(t.as_str(), "{C}", pal.c.as_str());
    replace(t.as_str(), "{W}", pal.w.as_str())
}

/// What a summary is about.
pub struct SumFacts {
    pub inp_name: String,
    pub out_name: String,
    pub inp_sz: SizeText,
    pub out_sz: SizeText,
    /// The bitrates in kilobits per second, without places.
    pub inp_br: String,
    pub out_br: String,
    /// The output is smaller than the input.
    pub shrunk: bool,
    /// By how much, in percent with two places.
    pub change: String,
    pub width: u32,
    pub height: u32,
    /// Rows that are cut above and below, and columns left and right.
    pub crop: (u32, u32),
    /// The frames per second of the video, with three places.
    pub fps_rate: String,
    pub dur_secs: u64,
    pub enc_secs: u64,
    /// The frames per second of the run, with two places, moved right to six characters.
    pub enc_spd: String,
}

/// A number of bytes, and what it is in larger units with two places.
pub struct SizeText {
    pub bytes: u64,
    pub mb: String,
    pub gb: String,
}

/// A number of bytes in the unit that fits it.
pub open spec fn size_of_text(s: &SizeText) -> Seq<char> {
    if s.bytes >= 1_000_000_000 {
        s.gb@ + " GB"@
    } else if s.bytes >= 1_000_000 {
        s.mb@ + " MB"@
    } else {
        decimal((s.bytes / 1_000) as nat) + " KB"@
    }
}

/// A number of bytes in the unit that fits it.
pub fn fmt_sz(s: &SizeText) -> (r: String)
    ensures
        r@ == size_of_text(s),
{
    let mut r = String::new();
    if s.bytes >= 1_000_000_000 {
        r.append(s.gb.as_str());
        r.append(" GB");
    } else if s.bytes >= 1_000_000 {
        r.append(s.mb.as_str());
        r.append(" MB");
    } else {
        push_decimal(&mut r, s.bytes / 1_000);
        r.append(" KB");
    }
    assert(r@ =~= size_of_text(s));
    r
}

/// The sizes and bitrates of a summary.
pub open spec fn change_text(f: &SumFacts, pal: &Palette) -> Seq<char> {
    size_of_text(&f.inp_sz) + painted(" {C}("@, pal) + f.inp_br@ + painted(" kb/s) {G} {G}"@, pal)
        + size_of_text(&f.out_sz) + painted(" {C}("@, pal) + f.out_br@ + " kb/s) "@ + (if f.shrunk {
        pal.g@ + "\u{f06c0}"@
    } else {
        pal.r@ + "\u{f06c3}"@
    }) + " "@ + f.change@ + "%"@
}

fn change(f: &SumFacts, pal: &Palette) -> (r: String)
    ensures
        r@ == change_text(f, pal),
{
    let mut r = fmt_sz(&f.inp_sz);
    paint(&mut r, " {C}(", pal);
    r.append(f.inp_br.as_str());
    paint(&mut r, " kb/s) {G} {G}", pal);
    let out_sz = fmt_sz(&f.out_sz);
    r.append(out_sz.as_str());
    paint(&mut r, " {C}(", pal);
    r.append(f.out_br.as_str());
    r.append(" kb/s) ");
    if f.shrunk {
        r.append(pal.g.as_str());
        r.append("\u{f06c0}");
    } else {
        r.append(pal.r.as_str());
        r.append("\u{f06c3}");
    }
    r.append(" ");
    r.append(f.change.as_str());
    r.append("%");
    assert(r@ =~= change_text(f, pal));
    r
}

/// A text cut or filled up with blanks to a number of characters.
pub open spec fn fitted(s: Seq<char>, n: nat) -> Seq<char> {
    pad_right(
        if s.len() > n {
            s.take(n as int)
        } else {
            s
        },
        n,
    )
}

fn push_fitted(out: &mut String, s: &str, n: usize)
    ensures
        final(out)@ == old(out)@ + fitted(s@, n as nat),
{
    let v = to_chars(s);
    if v.len() > n {
        let t = text_of(&v, 0, n);
        assert(t@ =~= s@.take(n as int));
        push_padded_right(out, t.as_str(), n);
    } else {
        push_padded_right(out, s, n);
    }
}

/// Hours, minutes and seconds, with colours between them.
pub open spec fn clock_text(secs: u64, pal: &Palette) -> Seq<char> {
    zero_padded((secs / 3600) as nat, 2) + painted("{C}:{W}"@, pal) + zero_padded(
        ((secs % 3600) / 60) as nat,
        2,
    ) + painted("{C}:{W}"@, pal) + zero_padded((secs % 60) as nat, 2)
}

fn push_clock(s: &mut String, secs: u64, pal: &Palette)
    ensures
        final(s)@ == old(s)@ + clock_text(secs, pal),
{
    push_zero_padded(s, secs / 3600, 2);
    paint(s, "{C}:{W}", pal);
    push_zero_padded(s, (secs % 3600) / 60, 2);
    paint(s, "{C}:{W}", pal);
    push_zero_padded(s, secs % 60, 2);
    assert(s@ =~= old(s)@ + clock_text(secs, pal));
}

/// The hours, minutes and seconds of a time are the time.
pub proof fn law_clock_adds_up(secs: u64)
    ensures
        (secs / 3600) * 3600 + ((secs % 3600) / 60) * 60 + secs % 60 == secs,
        (secs % 3600) / 60 < 60,
        secs % 60 < 60,
{
}

/// The summary of a run.
pub open spec fn sum_text(f: &SumFacts, pal: &Palette) -> Seq<char> {
    let final_w = (f.width - f.crop.1 * 2) as nat;
    let final_h = (f.height - f.crop.0 * 2) as nat;
    painted("\n{P}┏━━━━━━━━━━━┳━━━━━━━━━━━━━━━━━━━━━━━━━━━━━━━━━━━━━━━━━━━━━━━━━━━━━━━━━━━━━━━━━┓\n{P}┃ {G}  {Y}DONE   {P}┃ {R}"@, pal) + fitted(f.inp_name@, 30) + painted(" {G} {G}"@, pal) + fitted(f.out_name@, 30)
        + painted(" {P}┃\n{P}┣━━━━━━━━━━━╋━━━━━━━━━━━━━━━━━━━━━━━━━━━━━━━━━━━━━━━━━━━━━━━━━━━━━━━━━━━━━━━━━┫\n{P}┃ {Y}Size      {P}┃ {R}"@, pal) + pad_right(change_text(f, pal), 98) + painted(" {P}┃\n{P}┣━━━━━━━━━━━╋━━━━━━━━━━━┳━━━━━━━━━━━━┳━━━━━━━━━━━━━━━━━━━━━━━━━━━━━━━━━━━━━━━━┫\n{P}┃ {Y}Video     {P}┃ {W}"@, pal) + pad_left(
        decimal(final_w),
        ' ',
        4,
    ) + "x"@ + pad_right(decimal(final_h), 4) + painted(" {P}┃ {B}"@, pal) + f.fps_rate@ + painted(" fps {P}┃ {W}"@, pal)
        + clock_text(f.dur_secs, pal) + run_of(' ', 30) + painted(" {P}┃\n{P}┣━━━━━━━━━━━╋━━━━━━━━━━━┻━━━━━━━━━━━━┻━━━━━━━━━━━━━━━━━━━━━━━━━━━━━━━━━━━━━━━━┫\n{P}┃ {Y}Time      {P}┃ {W}"@, pal) + clock_text(
        f.enc_secs,
        pal,
    ) + painted(" {B}@ "@, pal) + f.enc_spd@ + " fps"@ + run_of(' ', 42) + painted(" {P}┃\n{P}┗━━━━━━━━━━━┻━━━━━━━━━━━━━━━━━━━━━━━━━━━━━━━━━━━━━━━━━━━━━━━━━━━━━━━━━━━━━━━━━┛{N}"@, pal) + "\n"@
}

/// What is printed when a run is done.
pub fn print_sum(f: &SumFacts, pal: &Palette) -> (r: String)
    requires
        f.crop.1 * 2 <= f.width,
        f.crop.0 * 2 <= f.height,
    ensures
        r@ == sum_text(f, pal),
{
    let mut s = String::new();
    paint(&mut s, "\n{P}┏━━━━━━━━━━━┳━━━━━━━━━━━━━━━━━━━━━━━━━━━━━━━━━━━━━━━━━━━━━━━━━━━━━━━━━━━━━━━━━┓\n{P}┃ {G}  {Y}DONE   {P}┃ {R}", pal);
    push_fitted(&mut s, f.inp_name.as_str(), 30);
    paint(&mut s, " {G} {G}", pal);
    push_fitted(&mut s, f.out_name.as_str(), 30);
    paint(&mut s, " {P}┃\n{P}┣━━━━━━━━━━━╋━━━━━━━━━━━━━━━━━━━━━━━━━━━━━━━━━━━━━━━━━━━━━━━━━━━━━━━━━━━━━━━━━┫\n{P}┃ {Y}Size      {P}┃ {R}", pal);
    let c = change(f, pal);
    push_padded_right(&mut s, c.as_str(), 98);
    paint(&mut s, " {P}┃\n{P}┣━━━━━━━━━━━╋━━━━━━━━━━━┳━━━━━━━━━━━━┳━━━━━━━━━━━━━━━━━━━━━━━━━━━━━━━━━━━━━━━━┫\n{P}┃ {Y}Video     {P}┃ {W}", pal);
    push_right_aligned(&mut s, (f.width - f.crop.1 * 2) as u64, 4);
    s.append("x");
    let h = decimal_text((f.height - f.crop.0 * 2) as u64);
    push_padded_right(&mut s, h.as_str(), 4);
    paint(&mut s, " {P}┃ {B}", pal);
    s.append(f.fps_rate.as_str());
    paint(&mut s, " fps {P}┃ {W}", pal);
    push_clock(&mut s, f.dur_secs, pal);
    push_run(&mut s, ' ', 30);
    paint(&mut s, " {P}┃\n{P}┣━━━━━━━━━━━╋━━━━━━━━━━━┻━━━━━━━━━━━━┻━━━━━━━━━━━━━━━━━━━━━━━━━━━━━━━━━━━━━━━━┫\n{P}┃ {Y}Time      {P}┃ {W}", pal);
    push_clock(&mut s, f.enc_secs, pal);
    paint(&mut s, " {B}@ ", pal);
    s.append(f.enc_spd.as_str());
    s.append(" fps");
    push_run(&mut s, ' ', 42);
    paint(&mut s, " {P}┃\n{P}┗━━━━━━━━━━━┻━━━━━━━━━━━━━━━━━━━━━━━━━━━━━━━━━━━━━━━━━━━━━━━━━━━━━━━━━━━━━━━━━┛{N}", pal);
    s.append("\n");
    assert(s@ =~= sum_text(f, pal));
    s
}


/// Each of eight letters in curly brackets stands for the colour that it names, and any other
/// character for itself.
pub proof fn law_letters_name_colors(pal: &Palette, s: Seq<char>, c: char)
    ensures
        painted(seq!['{', 'B', '}'] + s, pal) == pal.b@ + painted(s, pal),
        painted(seq!['{', 'C', '}'] + s, pal) == pal.c@ + painted(s, pal),
        painted(seq!['{', 'G', '}'] + s, pal) == pal.g@ + painted(s, pal),
        painted(seq!['{', 'N', '}'] + s, pal) == pal.n@ + painted(s, pal),
        painted(seq!['{', 'P', '}'] + s, pal) == pal.p@ + painted(s, pal),
        painted(seq!['{', 'R', '}'] + s, pal) == pal.r@ + painted(s, pal),
        painted(seq!['{', 'W', '}'] + s, pal) == pal.w@ + painted(s, pal),
        painted(seq!['{', 'Y', '}'] + s, pal) == pal.y@ + painted(s, pal),
        c != '{' ==> painted(seq![c] + s, pal) == seq![c] + painted(s, pal),
{
    assert((seq!['{', 'B', '}'] + s).skip(3) =~= s);
    assert((seq!['{', 'C', '}'] + s).skip(3) =~= s);
    assert((seq!['{', 'G', '}'] + s).skip(3) =~= s);
    assert((seq!['{', 'N', '}'] + s).skip(3) =~= s);
    assert((seq!['{', 'P', '}'] + s).skip(3) =~= s);
    assert((seq!['{', 'R', '}'] + s).skip(3) =~= s);
    assert((seq!['{', 'W', '}'] + s).skip(3) =~= s);
    assert((seq!['{', 'Y', '}'] + s).skip(3) =~= s);
    assert((seq![c] + s).skip(1) =~= s);
}

/// A text without curly brackets is painted as it is.
pub proof fn law_plain_text_stays(s: Seq<char>, pal: &Palette)
    requires
        is_free_of(s, '{'),
    ensures
        painted(s, pal) == s,
    decreases s.len(),
{
    if s.len() > 0 {
        let rest = s.skip(1);
        assert(is_free_of(rest, '{'));
        law_plain_text_stays(rest, pal);
        assert(s[0] != '{');
        assert(seq![s[0]] + rest =~= s);
    }
}

/// A number of bytes is shown in the largest unit of which there is at least one, in kilobytes where
/// there is no megabyte.
pub proof fn law_sizes_have_their_units(s: &SizeText, r: String)
    requires
        call_ensures(fmt_sz, (s,), r),
    ensures
        s.bytes < 1_000_000 ==> r@ == decimal((s.bytes / 1_000) as nat) + " KB"@,
        1_000_000 <= s.bytes < 1_000_000_000 ==> r@ == s.mb@ + " MB"@,
        s.bytes >= 1_000_000_000 ==> r@ == s.gb@ + " GB"@,
{
}

/// Whether three texts are two digits or more each, the last two below sixty, and stand for a time.
pub open spec fn is_clock(h: Seq<char>, m: Seq<char>, s: Seq<char>, secs: u64) -> bool {
    &&& all_digits(h) && all_digits(m) && all_digits(s)
    &&& h.len() >= 2 && m.len() == 2 && s.len() == 2
    &&& digits_value(m) < 60 && digits_value(s) < 60
    &&& digits_value(h) * 3600 + digits_value(m) * 60 + digits_value(s) == secs
}

/// A time is shown as hours, minutes and seconds that make it up, with colours between them.
pub proof fn law_clock_shows_the_time(secs: u64, pal: &Palette)
    ensures
        exists|h: Seq<char>, m: Seq<char>, s: Seq<char>| #[trigger]
            is_clock(h, m, s, secs) && clock_text(secs, pal) == h + painted("{C}:{W}"@, pal) + m
                + painted("{C}:{W}"@, pal) + s,
{
    let h = zero_padded((secs / 3600) as nat, 2);
    let m = zero_padded(((secs % 3600) / 60) as nat, 2);
    let s = zero_padded((secs % 60) as nat, 2);
    lemma_zero_padded((secs / 3600) as nat, 2);
    lemma_zero_padded(((secs % 3600) / 60) as nat, 2);
    lemma_zero_padded((secs % 60) as nat, 2);
    law_clock_adds_up(secs);
    reveal_with_fuel(decimal, 3);
    assert(is_clock(h, m, s, secs));
}

/// A text that is fitted has its width: cut behind, or filled up with blanks behind.
pub proof fn law_fitted_has_its_width(s: Seq<char>, n: nat)
    ensures
        fitted(s, n).len() == n,
        s.len() >= n ==> fitted(s, n) == s.take(n as int),
        s.len() < n ==> fitted(s, n).take(s.len() as int) == s && forall|k: int|
            s.len() <= k < n ==> fitted(s, n)[k] == ' ',
{
    if s.len() < n {
        assert(fitted(s, n).take(s.len() as int) =~= s);
    } else {
        assert(s.take(s.len() as int) =~= s);
    }
}

/// The sizes in a summary: the input's and its bitrate first, then the output's and its bitrate, and
/// by how much the size changed.
#[verifier::rlimit(60)]
pub proof fn law_summary_compares_the_sizes(f: &SumFacts, pal: &Palette)
    ensures
        ({
            let t = change_text(f, pal);
            &&& gives(t, painted(" {C}("@, pal), f.inp_br@, painted(" kb/s) {G} {G}"@, pal))
            &&& gives(t, painted(" kb/s) {G} {G}"@, pal), size_of_text(&f.out_sz), painted(" {C}("@, pal))
            &&& gives(t, painted(" {C}("@, pal), f.out_br@, " kb/s) "@)
            &&& gives(t, " "@, f.change@, "%"@)
        }),
        gives(change_text(f, pal), seq![], size_of_text(&f.inp_sz), painted(" {C}("@, pal)),
        f.shrunk ==> gives(change_text(f, pal), " kb/s) "@, pal.g@, "\u{f06c0}"@),
        !f.shrunk ==> gives(change_text(f, pal), " kb/s) "@, pal.r@, "\u{f06c3}"@),
{
    let p0 = size_of_text(&f.inp_sz);
    let p1 = painted(" {C}("@, pal);
    let p2 = f.inp_br@;
    let p3 = painted(" kb/s) {G} {G}"@, pal);
    let p4 = size_of_text(&f.out_sz);
    let p5 = painted(" {C}("@, pal);
    let p6 = f.out_br@;
    let p7 = " kb/s) "@;
    let p8 = (if f.shrunk {
        pal.g@ + "\u{f06c0}"@
    } else {
        pal.r@ + "\u{f06c3}"@
    });
    let p9 = " "@;
    let p10 = f.change@;
    let p11 = "%"@;
    let x0 = p0;
    let x1 = x0 + p1;
    let x2 = x1 + p2;
    let x3 = x2 + p3;
    let x4 = x3 + p4;
    let x5 = x4 + p5;
    let x6 = x5 + p6;
    let x7 = x6 + p7;
    let x8 = x7 + p8;
    let x9 = x8 + p9;
    let x10 = x9 + p10;
    let x11 = x10 + p11;
    assert(x11 =~= change_text(f, pal));
    lemma_gives_here(x0, p1, p2, p3);
    lemma_gives_here(x2, p3, p4, p5);
    lemma_gives_here(x4, p5, p6, p7);
    lemma_gives_here(x8, p9, p10, p11);
    lemma_gives_more(x3, p4);
    lemma_gives_more(x4, p5);
    lemma_gives_more(x5, p6);
    lemma_gives_more(x6, p7);
    lemma_gives_more(x7, p8);
    lemma_gives_more(x8, p9);
    lemma_gives_more(x9, p10);
    lemma_gives_more(x10, p11);
    let e = Seq::<char>::empty();
    assert(e + e + p0 + p1 =~= x1);
    lemma_gives_here(e, e, p0, p1);
    lemma_gives_more(x1, p2);
    lemma_gives_more(x2, p3);
    let (hue, sign) = if f.shrunk {
        (pal.g@, "\u{f06c0}"@)
    } else {
        (pal.r@, "\u{f06c3}"@)
    };
    assert(x6 + p7 + hue + sign =~= x8);
    lemma_gives_here(x6, p7, hue, sign);
}

/// The summary shows the names, the sizes, the size of the frames without what is cut, their rate, the
/// length of the video, and how long the run took and how fast it was, each in its own place.
#[verifier::rlimit(100)]
pub proof fn law_summary_shows_its_parts(f: &SumFacts, pal: &Palette)
    ensures
        ({
            let t = sum_text(f, pal);
            &&& gives(t, painted("\n{P}┏━━━━━━━━━━━┳━━━━━━━━━━━━━━━━━━━━━━━━━━━━━━━━━━━━━━━━━━━━━━━━━━━━━━━━━━━━━━━━━┓\n{P}┃ {G}  {Y}DONE   {P}┃ {R}"@, pal), fitted(f.inp_name@, 30), painted(" {G} {G}"@, pal))
            &&& gives(t, painted(" {G} {G}"@, pal), fitted(f.out_name@, 30), painted(" {P}┃\n{P}┣━━━━━━━━━━━╋━━━━━━━━━━━━━━━━━━━━━━━━━━━━━━━━━━━━━━━━━━━━━━━━━━━━━━━━━━━━━━━━━┫\n{P}┃ {Y}Size      {P}┃ {R}"@, pal))
            &&& gives(t, painted(" {P}┃\n{P}┣━━━━━━━━━━━╋━━━━━━━━━━━━━━━━━━━━━━━━━━━━━━━━━━━━━━━━━━━━━━━━━━━━━━━━━━━━━━━━━┫\n{P}┃ {Y}Size      {P}┃ {R}"@, pal), pad_right(change_text(f, pal), 98), painted(" {P}┃\n{P}┣━━━━━━━━━━━╋━━━━━━━━━━━┳━━━━━━━━━━━━┳━━━━━━━━━━━━━━━━━━━━━━━━━━━━━━━━━━━━━━━━┫\n{P}┃ {Y}Video     {P}┃ {W}"@, pal))
            &&& gives(t, painted(" {P}┃\n{P}┣━━━━━━━━━━━╋━━━━━━━━━━━┳━━━━━━━━━━━━┳━━━━━━━━━━━━━━━━━━━━━━━━━━━━━━━━━━━━━━━━┫\n{P}┃ {Y}Video     {P}┃ {W}"@, pal), pad_left(decimal((f.width - f.crop.1 * 2) as nat), ' ', 4), "x"@)
            &&& gives(t, "x"@, pad_right(decimal((f.height - f.crop.0 * 2) as nat), 4), painted(" {P}┃ {B}"@, pal))
            &&& gives(t, painted(" {P}┃ {B}"@, pal), f.fps_rate@, painted(" fps {P}┃ {W}"@, pal))
            &&& gives(t, painted(" fps {P}┃ {W}"@, pal), clock_text(f.dur_secs, pal), run_of(' ', 30))
            &&& gives(t, painted(" {P}┃\n{P}┣━━━━━━━━━━━╋━━━━━━━━━━━┻━━━━━━━━━━━━┻━━━━━━━━━━━━━━━━━━━━━━━━━━━━━━━━━━━━━━━━┫\n{P}┃ {Y}Time      {P}┃ {W}"@, pal), clock_text(f.enc_secs, pal), painted(" {B}@ "@, pal))
            &&& gives(t, painted(" {B}@ "@, pal), f.enc_spd@, " fps"@)
        }),
{
    let p0 = painted("\n{P}┏━━━━━━━━━━━┳━━━━━━━━━━━━━━━━━━━━━━━━━━━━━━━━━━━━━━━━━━━━━━━━━━━━━━━━━━━━━━━━━┓\n{P}┃ {G}  {Y}DONE   {P}┃ {R}"@, pal);
    let p1 = fitted(f.inp_name@, 30);
    let p2 = painted(" {G} {G}"@, pal);
    let p3 = fitted(f.out_name@, 30);
    let p4 = painted(" {P}┃\n{P}┣━━━━━━━━━━━╋━━━━━━━━━━━━━━━━━━━━━━━━━━━━━━━━━━━━━━━━━━━━━━━━━━━━━━━━━━━━━━━━━┫\n{P}┃ {Y}Size      {P}┃ {R}"@, pal);
    let p5 = pad_right(change_text(f, pal), 98);
    let p6 = painted(" {P}┃\n{P}┣━━━━━━━━━━━╋━━━━━━━━━━━┳━━━━━━━━━━━━┳━━━━━━━━━━━━━━━━━━━━━━━━━━━━━━━━━━━━━━━━┫\n{P}┃ {Y}Video     {P}┃ {W}"@, pal);
    let p7 = pad_left(decimal((f.width - f.crop.1 * 2) as nat), ' ', 4);
    let p8 = "x"@;
    let p9 = pad_right(decimal((f.height - f.crop.0 * 2) as nat), 4);
    let p10 = painted(" {P}┃ {B}"@, pal);
    let p11 = f.fps_rate@;
    let p12 = painted(" fps {P}┃ {W}"@, pal);
    let p13 = clock_text(f.dur_secs, pal);
    let p14 = run_of(' ', 30);
    let p15 = painted(" {P}┃\n{P}┣━━━━━━━━━━━╋━━━━━━━━━━━┻━━━━━━━━━━━━┻━━━━━━━━━━━━━━━━━━━━━━━━━━━━━━━━━━━━━━━━┫\n{P}┃ {Y}Time      {P}┃ {W}"@, pal);
    let p16 = clock_text(f.enc_secs, pal);
    let p17 = painted(" {B}@ "@, pal);
    let p18 = f.enc_spd@;
    let p19 = " fps"@;
    let p20 = run_of(' ', 42);
    let p21 = painted(" {P}┃\n{P}┗━━━━━━━━━━━┻━━━━━━━━━━━━━━━━━━━━━━━━━━━━━━━━━━━━━━━━━━━━━━━━━━━━━━━━━━━━━━━━━┛{N}"@, pal);
    let p22 = "\n"@;
    let x0 = p0;
    let x1 = x0 + p1;
    let x2 = x1 + p2;
    let x3 = x2 + p3;
    let x4 = x3 + p4;
    let x5 = x4 + p5;
    let x6 = x5 + p6;
    let x7 = x6 + p7;
    let x8 = x7 + p8;
    let x9 = x8 + p9;
    let x10 = x9 + p10;
    let x11 = x10 + p11;
    let x12 = x11 + p12;
    let x13 = x12 + p13;
    let x14 = x13 + p14;
    let x15 = x14 + p15;
    let x16 = x15 + p16;
    let x17 = x16 + p17;
    let x18 = x17 + p18;
    let x19 = x18 + p19;
    let x20 = x19 + p20;
    let x21 = x20 + p21;
    let x22 = x21 + p22;
    assert(x22 =~= sum_text(f, pal));
    assert(Seq::<char>::empty() + p0 =~= p0);
    lemma_gives_here(Seq::<char>::empty(), p0, p1, p2);
    lemma_gives_here(x1, p2, p3, p4);
    lemma_gives_here(x3, p4, p5, p6);
    lemma_gives_here(x5, p6, p7, p8);
    lemma_gives_here(x7, p8, p9, p10);
    lemma_gives_here(x9, p10, p11, p12);
    lemma_gives_here(x11, p12, p13, p14);
    lemma_gives_here(x14, p15, p16, p17);
    lemma_gives_here(x16, p17, p18, p19);
    lemma_gives_more(x2, p3);
    lemma_gives_more(x3, p4);
    lemma_gives_more(x4, p5);
    lemma_gives_more(x5, p6);
    lemma_gives_more(x6, p7);
    lemma_gives_more(x7, p8);
    lemma_gives_more(x8, p9);
    lemma_gives_more(x9, p10);
    lemma_gives_more(x10, p11);
    lemma_gives_more(x11, p12);
    lemma_gives_more(x12, p13);
    lemma_gives_more(x13, p14);
    lemma_gives_more(x14, p15);
    lemma_gives_more(x15, p16);
    lemma_gives_more(x16, p17);
    lemma_gives_more(x17, p18);
    lemma_gives_more(x18, p19);
    lemma_gives_more(x19, p20);
    lemma_gives_more(x20, p21);
    lemma_gives_more(x21, p22);
}

/// A line that names a version gives the version behind its label, filled up to the width, and then
/// the date.
pub proof fn law_version_line_gives_its_parts(label: Seq<char>, v: &Ver, width: nat, pal: &Palette)
    ensures
        gives(
            version_line(label, v, width, pal),
            painted(label, pal),
            pad_right(v.version@, width),
            painted("  {B}"@, pal),
        ),
        gives(
            version_line(label, v, width, pal),
            painted("  {B}"@, pal),
            v.date@,
            painted("{N}"@, pal),
        ),
{
    let l = painted(label, pal);
    let ver = pad_right(v.version@, width);
    let (b, n) = (painted("  {B}"@, pal), painted("{N}"@, pal));
    let e = Seq::<char>::empty();
    assert(e + l + ver + b =~= l + ver + b);
    lemma_gives_here(e, l, ver, b);
    lemma_gives_here(l + ver, b, v.date@, n);
    lemma_gives_more(l + ver + b, v.date@);
    lemma_gives_more(l + ver + b + v.date@, n);
    lemma_gives_more(l + ver + b + v.date@ + n, "\n"@);
}

/// Every library that is linked in is listed with its own version under its own name, the versions
/// of the program itself, of SVT-AV1 and of dav1d always.
pub proof fn law_versions_stand_by_their_names(build: Build, info: &HelpInfo, pal: &Palette)
    ensures
        ({
            let t = version_lines(build, info, pal);
            let w = version_width(build, info);
            let b = painted("  {B}"@, pal);
            &&& gives(t, painted("{C}XAV:         {G}"@, pal), pad_right(info.xav.version@, w), b)
            &&& gives(t, painted("{C}SVT-AV1:     {G}"@, pal), pad_right(info.svt.version@, w), b)
            &&& gives(t, painted("{C}DAV1D:       {G}"@, pal), pad_right(info.dav1d.version@, w), b)
            &&& build.avm ==> gives(
                t,
                painted("{C}AVM:         {G}"@, pal),
                pad_right(info.avm.version@, w),
                b,
            )
            &&& build.vvenc ==> gives(
                t,
                painted("{C}VVENC:       {G}"@, pal),
                pad_right(info.vvenc.version@, w),
                b,
            )
            &&& build.vship ==> gives(
                t,
                painted("{C}VSHIP:       {G}"@, pal),
                pad_right(info.vship.version@, w),
                b,
            )
            &&& build.vship && info.cuda is None ==> gives(
                t,
                painted("{C}VULKAN:      {G}"@, pal),
                pad_right(info.vulkan.version@, w),
                b,
            )
            &&& build.vship ==> (info.cuda matches Some(c) ==> gives(
                t,
                painted("{C}CUDA:        {G}"@, pal),
                c@,
                painted("{N}"@, pal),
            ))
            &&& build.vship ==> gives(
                t,
                painted("{C}GPU Drivers: {G}"@, pal),
                info.gpu@,
                painted("{N}"@, pal),
            )
        }),
{
    let w = version_width(build, info);
    let none = Seq::<char>::empty();
    let a = version_line("{C}XAV:         {G}"@, &info.xav, w, pal);
    let b = version_line("{C}SVT-AV1:     {G}"@, &info.svt, w, pal);
    let c = version_line("{C}DAV1D:       {G}"@, &info.dav1d, w, pal);
    let d = if build.avm {
        version_line("{C}AVM:         {G}"@, &info.avm, w, pal)
    } else {
        none
    };
    let e = if build.vvenc {
        version_line("{C}VVENC:       {G}"@, &info.vvenc, w, pal)
    } else {
        none
    };
    let m = if build.vship {
        metric_lines(info, w, pal)
    } else {
        none
    };
    let x1 = a + b;
    let x2 = x1 + c;
    let x3 = x2 + d;
    let x4 = x3 + e;
    assert(x4 + m == version_lines(build, info, pal));
    law_version_line_gives_its_parts("{C}XAV:         {G}"@, &info.xav, w, pal);
    law_version_line_gives_its_parts("{C}SVT-AV1:     {G}"@, &info.svt, w, pal);
    law_version_line_gives_its_parts("{C}DAV1D:       {G}"@, &info.dav1d, w, pal);
    law_version_line_gives_its_parts("{C}AVM:         {G}"@, &info.avm, w, pal);
    law_version_line_gives_its_parts("{C}VVENC:       {G}"@, &info.vvenc, w, pal);
    lemma_metrics_stand_by_their_names(info, w, pal);
    lemma_gives_more(a, b);
    lemma_gives_behind(a, b);
    lemma_gives_more(x1, c);
    lemma_gives_behind(x1, c);
    lemma_gives_more(x2, d);
    lemma_gives_behind(x2, d);
    lemma_gives_more(x3, e);
    lemma_gives_behind(x3, e);
    lemma_gives_more(x4, m);
    lemma_gives_behind(x4, m);
}

proof fn lemma_plain_line_gives(label: Seq<char>, version: Seq<char>, pal: &Palette)
    ensures
        gives(plain_line(label, version, pal), painted(label, pal), version, painted("{N}"@, pal)),
{
    let l = painted(label, pal);
    let n = painted("{N}"@, pal);
    let e = Seq::<char>::empty();
    assert(e + l + version + n =~= l + version + n);
    lemma_gives_here(e, l, version, n);
    lemma_gives_more(l + version + n, "\n"@);
}

proof fn lemma_metrics_stand_by_their_names(info: &HelpInfo, w: nat, pal: &Palette)
    ensures
        ({
            let t = metric_lines(info, w, pal);
            let b = painted("  {B}"@, pal);
            &&& gives(t, painted("{C}VSHIP:       {G}"@, pal), pad_right(info.vship.version@, w), b)
            &&& info.cuda is None ==> gives(
                t,
                painted("{C}VULKAN:      {G}"@, pal),
                pad_right(info.vulkan.version@, w),
                b,
            )
            &&& info.cuda matches Some(c) ==> gives(
                t,
                painted("{C}CUDA:        {G}"@, pal),
                c@,
                painted("{N}"@, pal),
            )
            &&& gives(t, painted("{C}GPU Drivers: {G}"@, pal), info.gpu@, painted("{N}"@, pal))
        }),
{
    let x = version_line("{C}VSHIP:       {G}"@, &info.vship, w, pal);
    let y = match info.cuda {
        Some(c) => plain_line("{C}CUDA:        {G}"@, c@, pal),
        None => version_line("{C}VULKAN:      {G}"@, &info.vulkan, w, pal),
    };
    let z = plain_line("{C}GPU Drivers: {G}"@, info.gpu@, pal);
    law_version_line_gives_its_parts("{C}VSHIP:       {G}"@, &info.vship, w, pal);
    law_version_line_gives_its_parts("{C}VULKAN:      {G}"@, &info.vulkan, w, pal);
    if let Some(c) = info.cuda {
        lemma_plain_line_gives("{C}CUDA:        {G}"@, c@, pal);
    }
    lemma_plain_line_gives("{C}GPU Drivers: {G}"@, info.gpu@, pal);
    lemma_gives_more(x, y);
    lemma_gives_behind(x, y);
    lemma_gives_more(x + y, z);
    lemma_gives_behind(x + y, z);
}

/// No version that is listed is wider than the column, and one of them is as wide.
pub proof fn law_column_fits_the_versions(build: Build, info: &HelpInfo)
    ensures
        ({
            let w = version_width(build, info);
            &&& width_of(&info.xav) <= w && width_of(&info.svt) <= w && width_of(&info.dav1d) <= w
            &&& build.avm ==> width_of(&info.avm) <= w
            &&& build.vvenc ==> width_of(&info.vvenc) <= w
            &&& build.vship ==> width_of(&info.vship) <= w
            &&& build.vship && info.cuda is None ==> width_of(&info.vulkan) <= w
            &&& {
                ||| w == width_of(&info.xav)
                ||| w == width_of(&info.svt)
                ||| w == width_of(&info.dav1d)
                ||| build.avm && w == width_of(&info.avm)
                ||| build.vvenc && w == width_of(&info.vvenc)
                ||| build.vship && w == width_of(&info.vship)
                ||| build.vship && info.cuda is None && w == width_of(&info.vulkan)
            }
        }),
{
}

/// A text in which another does not occur is not changed; else what stands before the first
/// occurrence stays, the occurrence is replaced, and what stands behind it is treated alike.
pub proof fn law_occurrences_are_replaced(a: Seq<char>, c: char, b: Seq<char>, by: Seq<char>)
    requires
        is_free_of(a, '{'),
    ensures
        replaced(a, seq!['{', c, '}'], by) == a,
        replaced(a + seq!['{', c, '}'] + b, seq!['{', c, '}'], by) == a + by + replaced(
            b,
            seq!['{', c, '}'],
            by,
        ),
{
    let p = seq!['{', c, '}'];
    let s = a + p + b;
    lemma_find_from(a, p, 0);
    if let Some(i) = find_from(a, p, 0) {
        assert(a.subrange(i, i + p.len())[0] == a[i]);
        assert(p[0] == '{');
    }
    lemma_find_from(s, p, 0);
    assert(s.subrange(a.len() as int, a.len() as int + 3) =~= p);
    assert(occurs_at(s, p, a.len() as int));
    if let Some(i) = find_from(s, p, 0) {
        if i < a.len() {
            assert(s.subrange(i, i + p.len())[0] == a[i]);
            assert(p[0] == '{');
        }
        assert(s.take(i) =~= a);
        assert(s.skip(i + p.len()) =~= b);
    }
}


/// The help lists the options of a build in order: how the program is called, the encoders that the
/// build knows, what each option is for, a preset only where VVenC is linked in, and those of a
/// target quality only where its metrics are.
#[verifier::rlimit(100)]
pub proof fn law_help_lists_the_options(build: Build, pal: &Palette)
    ensures
        ({
            let t = option_lines(build, pal);
            &&& gives(t, line_of("{P}Format: {Y}xav {C}[options] {G}<INPUT> {B}[<OUTPUT>]{W}"@, pal), "\n"@, (if build.avm {
        line_of("{C}-e {P}┃ {C}--encoder    {R}<{G}svt-av1{P}┃{G}avm{P}┃{G}vvenc{P}┃{G}x265{P}┃{G}x264{R}>"@, pal)
    } else {
        line_of("{C}-e {P}┃ {C}--encoder    {R}<{G}svt-av1{P}┃{G}vvenc{P}┃{G}x265{P}┃{G}x264{R}>"@, pal)
    }))
            &&& gives(t, (if build.avm {
        line_of("{C}-e {P}┃ {C}--encoder    {R}<{G}svt-av1{P}┃{G}avm{P}┃{G}vvenc{P}┃{G}x265{P}┃{G}x264{R}>"@, pal)
    } else {
        line_of("{C}-e {P}┃ {C}--encoder    {R}<{G}svt-av1{P}┃{G}vvenc{P}┃{G}x265{P}┃{G}x264{R}>"@, pal)
    }), line_of("{C}-w {P}┃ {C}--worker     {W}Parallelism"@, pal), line_of("{C}-b {P}┃ {C}--buff       {W}Chunks to buffer"@, pal))
            &&& gives(t, line_of("{C}-b {P}┃ {C}--buff       {W}Chunks to buffer"@, pal), line_of("{C}-p {P}┃ {C}--param      {W}Encoder params"@, pal), (if build.vvenc {
        line_of("   {P}┃ {C}--preset     {W}VVENC preset: {G}faster{B}┃{G}fast{B}┃{G}medium{B}┃{G}slow{B}┃{G}slower{B}┃{G}medium_lowDecEnergy"@, pal)
    } else {
        seq![]
    }))
            &&& gives(t, (if build.vvenc {
        line_of("   {P}┃ {C}--preset     {W}VVENC preset: {G}faster{B}┃{G}fast{B}┃{G}medium{B}┃{G}slow{B}┃{G}slower{B}┃{G}medium_lowDecEnergy"@, pal)
    } else {
        seq![]
    }), line_of("{C}-s {P}┃ {C}--sc         {W}SCD file"@, pal), line_of("   {P}┃ {C}--sc-only    {W}Exit after SCD"@, pal))
            &&& gives(t, line_of("   {P}┃ {C}--sc-only    {W}Exit after SCD"@, pal), line_of("   {P}┃ {C}--hwdec      {W}GPU decode"@, pal), line_of("{C}-r {P}┃ {C}--range      {W}Trim/splice: {G}\"10-20,90-100\""@, pal))
            &&& gives(t, line_of("{C}-r {P}┃ {C}--range      {W}Trim/splice: {G}\"10-20,90-100\""@, pal), line_of("{C}-a {P}┃ {C}--audio      {W}Opus Enc: {Y}-a {G}\"{R}<{G}auto{P}┃{G}norm{P}┃{G}bitrate{R}> {R}<{G}all{P}┃{G}stream_ids{R}>{G}\""@, pal), tq_lines(build, pal))
            &&& gives(t, tq_lines(build, pal), "\n"@, line_of("   {P}┃ {C}--guide      {W}Use fullscreen & Nerd Fonts"@, pal))
        }),
{
    let p0 = line_of("{P}Format: {Y}xav {C}[options] {G}<INPUT> {B}[<OUTPUT>]{W}"@, pal);
    let p1 = "\n"@;
    let p2 = (if build.avm {
        line_of("{C}-e {P}┃ {C}--encoder    {R}<{G}svt-av1{P}┃{G}avm{P}┃{G}vvenc{P}┃{G}x265{P}┃{G}x264{R}>"@, pal)
    } else {
        line_of("{C}-e {P}┃ {C}--encoder    {R}<{G}svt-av1{P}┃{G}vvenc{P}┃{G}x265{P}┃{G}x264{R}>"@, pal)
    });
    let p3 = line_of("{C}-w {P}┃ {C}--worker     {W}Parallelism"@, pal);
    let p4 = line_of("{C}-b {P}┃ {C}--buff       {W}Chunks to buffer"@, pal);
    let p5 = line_of("{C}-p {P}┃ {C}--param      {W}Encoder params"@, pal);
    let p6 = (if build.vvenc {
        line_of("   {P}┃ {C}--preset     {W}VVENC preset: {G}faster{B}┃{G}fast{B}┃{G}medium{B}┃{G}slow{B}┃{G}slower{B}┃{G}medium_lowDecEnergy"@, pal)
    } else {
        seq![]
    });
    let p7 = line_of("{C}-s {P}┃ {C}--sc         {W}SCD file"@, pal);
    let p8 = line_of("   {P}┃ {C}--sc-only    {W}Exit after SCD"@, pal);
    let p9 = line_of("   {P}┃ {C}--hwdec      {W}GPU decode"@, pal);
    let p10 = line_of("{C}-r {P}┃ {C}--range      {W}Trim/splice: {G}\"10-20,90-100\""@, pal);
    let p11 = line_of("{C}-a {P}┃ {C}--audio      {W}Opus Enc: {Y}-a {G}\"{R}<{G}auto{P}┃{G}norm{P}┃{G}bitrate{R}> {R}<{G}all{P}┃{G}stream_ids{R}>{G}\""@, pal);
    let p12 = tq_lines(build, pal);
    let p13 = "\n"@;
    let p14 = line_of("   {P}┃ {C}--guide      {W}Use fullscreen & Nerd Fonts"@, pal);
    let p15 = "\n"@;
    let x0 = p0;
    let x1 = x0 + p1;
    let x2 = x1 + p2;
    let x3 = x2 + p3;
    let x4 = x3 + p4;
    let x5 = x4 + p5;
    let x6 = x5 + p6;
    let x7 = x6 + p7;
    let x8 = x7 + p8;
    let x9 = x8 + p9;
    let x10 = x9 + p10;
    let x11 = x10 + p11;
    let x12 = x11 + p12;
    let x13 = x12 + p13;
    let x14 = x13 + p14;
    let x15 = x14 + p15;
    assert(x15 =~= option_lines(build, pal));
    assert(Seq::<char>::empty() + p0 =~= p0);
    lemma_gives_here(Seq::<char>::empty(), p0, p1, p2);
    lemma_gives_here(x1, p2, p3, p4);
    lemma_gives_here(x3, p4, p5, p6);
    lemma_gives_here(x5, p6, p7, p8);
    lemma_gives_here(x7, p8, p9, p10);
    lemma_gives_here(x9, p10, p11, p12);
    lemma_gives_here(x11, p12, p13, p14);
    lemma_gives_more(x2, p3);
    lemma_gives_more(x3, p4);
    lemma_gives_more(x4, p5);
    lemma_gives_more(x5, p6);
    lemma_gives_more(x6, p7);
    lemma_gives_more(x7, p8);
    lemma_gives_more(x8, p9);
    lemma_gives_more(x9, p10);
    lemma_gives_more(x10, p11);
    lemma_gives_more(x11, p12);
    lemma_gives_more(x12, p13);
    lemma_gives_more(x13, p14);
    lemma_gives_more(x14, p15);
}

/// In the guide each of seven letters in curly brackets stands for the colour that it names.
pub proof fn law_guide_letters_name_colors(a: Seq<char>, c: char, b: Seq<char>, pal: &Palette)
    requires
        is_free_of(a, '{') && is_free_of(b, '{'),
        is_free_of(pal.b@, '{') && is_free_of(pal.c@, '{') && is_free_of(pal.g@, '{') && is_free_of(
            pal.p@,
            '{',
        ) && is_free_of(pal.r@, '{') && is_free_of(pal.w@, '{') && is_free_of(pal.y@, '{'),
        color_of(pal, c) is Some,
        c != 'N',
    ensures
        guide_of(a + seq!['{', c, '}'] + b, pal) == a + color_of(pal, c)->0 + b,
        guide_of(a, pal) == a,
{
    reveal_strlit("{G}");
    reveal_strlit("{R}");
    reveal_strlit("{B}");
    reveal_strlit("{P}");
    reveal_strlit("{Y}");
    reveal_strlit("{C}");
    reveal_strlit("{W}");
    assert("{G}"@ =~= seq!['{', 'G', '}']);
    assert("{R}"@ =~= seq!['{', 'R', '}']);
    assert("{B}"@ =~= seq!['{', 'B', '}']);
    assert("{P}"@ =~= seq!['{', 'P', '}']);
    assert("{Y}"@ =~= seq!['{', 'Y', '}']);
    assert("{C}"@ =~= seq!['{', 'C', '}']);
    assert("{W}"@ =~= seq!['{', 'W', '}']);
    lemma_one_letter(a, c, b, 'G', pal.g@);
    lemma_one_letter(a, c, b, 'R', pal.r@);
    lemma_one_letter(a, c, b, 'B', pal.b@);
    lemma_one_letter(a, c, b, 'P', pal.p@);
    lemma_one_letter(a, c, b, 'Y', pal.y@);
    lemma_one_letter(a, c, b, 'C', pal.c@);
    lemma_one_letter(a, c, b, 'W', pal.w@);
    let d = a + color_of(pal, c)->0 + b;
    assert(is_free_of(d, '{'));
    lemma_no_letter(d, 'G', pal.g@);
    lemma_no_letter(d, 'R', pal.r@);
    lemma_no_letter(d, 'B', pal.b@);
    lemma_no_letter(d, 'P', pal.p@);
    lemma_no_letter(d, 'Y', pal.y@);
    lemma_no_letter(d, 'C', pal.c@);
    lemma_no_letter(d, 'W', pal.w@);
    lemma_no_letter(a, 'G', pal.g@);
    lemma_no_letter(a, 'R', pal.r@);
    lemma_no_letter(a, 'B', pal.b@);
    lemma_no_letter(a, 'P', pal.p@);
    lemma_no_letter(a, 'Y', pal.y@);
    lemma_no_letter(a, 'C', pal.c@);
    lemma_no_letter(a, 'W', pal.w@);
}

proof fn lemma_no_letter(s: Seq<char>, c: char, by: Seq<char>)
    requires
        is_free_of(s, '{'),
    ensures
        replaced(s, seq!['{', c, '}'], by) == s,
{
    law_occurrences_are_replaced(s, c, seq![], by);
}

proof fn lemma_one_letter(a: Seq<char>, c: char, b: Seq<char>, d: char, by: Seq<char>)
    requires
        is_free_of(a, '{'),
        is_free_of(b, '{'),
        c != '{',
    ensures
        c == d ==> replaced(a + seq!['{', c, '}'] + b, seq!['{', d, '}'], by) == a + by + b,
        c != d ==> replaced(a + seq!['{', c, '}'] + b, seq!['{', d, '}'], by) == a + seq!['{', c, '}']
            + b,
{
    let s = a + seq!['{', c, '}'] + b;
    let p = seq!['{', d, '}'];
    if c == d {
        law_occurrences_are_replaced(a, c, b, by);
        lemma_no_letter(b, c, by);
    } else {
        lemma_find_from(s, p, 0);
        if let Some(i) = find_from(s, p, 0) {
            let t = s.subrange(i, i + p.len());
            assert(t[0] == '{' && t[1] == d);
            assert(s[i] == '{' && s[i + 1] == d);
            if i < a.len() {
                assert(s[i] == a[i]);
            } else if i == a.len() + 1 {
                assert(s[i] == c);
            } else if i == a.len() {
                assert(s[i + 1] == c);
            } else if i > a.len() + 2 {
                assert(s[i] == b[i - a.len() - 3]);
            }
        }
    }
}


/// What is printed as help is the options and then the versions; what is printed as a guide, and as a
/// summary, is what the laws on them speak of.
pub proof fn law_texts_are_printed(
    build: Build,
    info: &HelpInfo,
    pal: &Palette,
    help: String,
    t: &str,
    guide: String,
    f: &SumFacts,
    sum: String,
)
    requires
        f.crop.1 * 2 <= f.width,
        f.crop.0 * 2 <= f.height,
        call_ensures(print_help, (build, info, pal), help),
        call_ensures(print_guide, (t, pal), guide),
        call_ensures(print_sum, (f, pal), sum),
    ensures
        help@ == option_lines(build, pal) + version_lines(build, info, pal),
        guide@ == guide_of(t@, pal),
        sum@ == sum_text(f, pal),
{
}

} // verus!
