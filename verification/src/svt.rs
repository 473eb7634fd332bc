//! The settings of the SVT-AV1 library.
use vstd::prelude::*;

use crate::text::{
    after_prefix, law_prefix_comes_off, law_words_of_both, strip_prefix, texts, words, words_of,
};
use crate::video::{Point16, VidInf};

verus! {

/// A setting's name and value.
pub struct Param {
    pub name: String,
    pub value: String,
}

/// The text of a setting.
pub open spec fn param_text(p: Param) -> (Seq<char>, Seq<char>) {
    (p.name@, p.value@)
}

/// The texts of settings.
pub open spec fn param_texts(v: Seq<Param>) -> Seq<(Seq<char>, Seq<char>)> {
    v.map_values(|p: Param| param_text(p))
}

/// The settings in a list of words: a word that starts with `--` takes the next word as its value;
/// any other word is passed over.
pub open spec fn svt_params_of(w: Seq<Seq<char>>) -> Seq<(Seq<char>, Seq<char>)>
    decreases w.len(),
{
    if w.len() == 0 {
        seq![]
    } else {
        match after_prefix(w[0], "--"@) {
            Some(name) => if w.len() >= 2 {
                seq![(name, w[1])] + svt_params_of(w.skip(2))
            } else {
                seq![]
            },
            None => svt_params_of(w.skip(1)),
        }
    }
}

/// Appends the settings in a text.
fn push_svt_params(list: &mut Vec<Param>, params: &str)
    ensures
        param_texts(final(list)@) == param_texts(old(list)@) + svt_params_of(words_of(params@)),
{
    let w = words(params);
    let ghost all = texts(w@);
    let n: usize = w.len();
    let mut i: usize = 0;
    assert(all.skip(0) =~= all);
    while i < n
        invariant
            n == w@.len(),
            i <= n,
            all == texts(w@),
            param_texts(list@) + svt_params_of(all.skip(i as int)) == param_texts(old(list)@)
                + svt_params_of(all),
        decreases n - i,
    {
        let ghost rest = all.skip(i as int);
        let ghost before = param_texts(list@);
        assert(rest[0] == w@[i as int]@);
        match strip_prefix(w[i].as_str(), "--") {
            Some(name) => {
                if i + 1 < n {
                    assert(rest[1] == w@[i + 1]@);
                    assert(rest.skip(2) =~= all.skip(i + 2));
                    list.push(Param { name, value: w[i + 1].clone() });
                    assert(param_texts(list@) =~= before.push((name@, w@[i + 1]@)));
                    assert(param_texts(list@) + svt_params_of(all.skip(i + 2)) =~= before
                        + svt_params_of(rest));
                    i = i + 2;
                } else {
                    assert(svt_params_of(rest) =~= seq![]);
                    assert(all.skip(i + 1) =~= seq![]);
                    i = i + 1;
                }
            },
            None => {
                assert(rest.skip(1) =~= all.skip(i + 1));
                i = i + 1;
            },
        }
    }
    assert(all.skip(i as int) =~= seq![]);
    assert(param_texts(list@) =~= param_texts(list@) + svt_params_of(all.skip(i as int)));
}

/// The settings in a text, in order.
pub fn parse_svt_params(params: &str) -> (r: Vec<Param>)
    ensures
        param_texts(r@) == svt_params_of(words_of(params@)),
{
    let mut r: Vec<Param> = Vec::new();
    push_svt_params(&mut r, params);
    assert(param_texts(r@) =~= svt_params_of(words_of(params@)));
    r
}

/// The settings of each template: the run's own for the first, and for each zone the run's own
/// followed by those of the zone.
pub open spec fn template_params(params: Seq<char>, zones: Seq<Seq<char>>) -> Seq<
    Seq<(Seq<char>, Seq<char>)>,
> {
    Seq::new(
        zones.len() + 1,
        |i: int|
            if i == 0 {
                svt_params_of(words_of(params))
            } else {
                svt_params_of(words_of(params)) + svt_params_of(words_of(zones[i - 1]))
            },
    )
}

/// The settings of each template: the run's own for the first, and for each zone the run's own
/// followed by those of the zone.
pub fn build_svt_templates(params: &str, zones: &Vec<String>) -> (r: Vec<Vec<Param>>)
    ensures
        r@.len() == zones@.len() + 1,
        forall|i: int|
            0 <= i < r@.len() ==> param_texts((#[trigger] r@[i])@) == template_params(
                params@,
                texts(zones@),
            )[i],
{
    let ghost want = template_params(params@, texts(zones@));
    let mut r: Vec<Vec<Param>> = Vec::new();
    r.push(parse_svt_params(params));
    let mut i: usize = 0;
    while i < zones.len()
        invariant
            i <= zones@.len(),
            r@.len() == i + 1,
            want == template_params(params@, texts(zones@)),
            forall|k: int| 0 <= k < r@.len() ==> param_texts((#[trigger] r@[k])@) == want[k],
        decreases zones@.len() - i,
    {
        let mut t = parse_svt_params(params);
        push_svt_params(&mut t, zones[i].as_str());
        assert(texts(zones@)[i as int] == zones@[i as int]@);
        r.push(t);
        i = i + 1;
    }
    r
}

/// Whether every option among the words has its value.
pub open spec fn all_valued(w: Seq<Seq<char>>) -> bool
    decreases w.len(),
{
    if w.len() == 0 {
        true
    } else {
        match after_prefix(w[0], "--"@) {
            Some(_) => w.len() >= 2 && all_valued(w.skip(2)),
            None => all_valued(w.skip(1)),
        }
    }
}

proof fn lemma_params_of_both(a: Seq<Seq<char>>, b: Seq<Seq<char>>)
    ensures
        all_valued(a) ==> svt_params_of(a + b) == svt_params_of(a) + svt_params_of(b),
        !all_valued(a) ==> a.len() > 0 && svt_params_of(a + b) == svt_params_of(a) + svt_params_of(
            seq![a.last()] + b,
        ),
    decreases a.len(),
{
    let both = a + b;
    if a.len() == 0 {
        assert(both =~= b);
        assert(svt_params_of(a) + svt_params_of(b) =~= svt_params_of(b));
    } else {
        assert(both[0] == a[0]);
        match after_prefix(a[0], "--"@) {
            Some(name) => if a.len() >= 2 {
                let rest = a.skip(2);
                assert(both.skip(2) =~= rest + b);
                assert(both[1] == a[1]);
                lemma_params_of_both(rest, b);
                let first = seq![(name, a[1])];
                if all_valued(a) {
                    assert(svt_params_of(both) =~= svt_params_of(a) + svt_params_of(b));
                } else {
                    assert(rest.last() == a.last());
                    assert(svt_params_of(both) =~= svt_params_of(a) + svt_params_of(
                        seq![a.last()] + b,
                    ));
                }
            } else {
                assert(both =~= seq![a.last()] + b);
                assert(svt_params_of(a) =~= seq![]);
                assert(svt_params_of(both) =~= svt_params_of(a) + svt_params_of(both));
            },
            None => {
                let rest = a.skip(1);
                assert(both.skip(1) =~= rest + b);
                lemma_params_of_both(rest, b);
                if !all_valued(a) {
                    assert(rest.last() == a.last());
                }
            },
        }
    }
}

/// The settings of a zone's template are those in one text, the run's own parameters with the
/// zone's behind them, when every option of the run has its value. An option at the end of the
/// run's own parameters that has none is left out of the template; in one text it would take the
/// first word of the zone.
pub proof fn law_zone_template_is_one_text(params: Seq<char>, zones: Seq<Seq<char>>, i: int)
    requires
        0 <= i < zones.len(),
    ensures
        ({
            let (own, zone) = (words_of(params), words_of(zones[i]));
            let at_once = svt_params_of(words_of(params.push(' ') + zones[i]));
            if all_valued(own) {
                at_once == template_params(params, zones)[i + 1]
            } else {
                &&& own.len() > 0
                &&& at_once == svt_params_of(own) + svt_params_of(seq![own.last()] + zone)
            }
        }),
{
    law_words_of_both(params, zones[i]);
    lemma_params_of_both(words_of(params), words_of(zones[i]));
}

/// Two bytes, the high one first.
pub open spec fn be16(v: u16) -> Seq<u8> {
    seq![(v / 256) as u8, (v % 256) as u8]
}

/// Four bytes, the high one first.
pub open spec fn be32(v: u32) -> Seq<u8> {
    seq![
        (v / 16777216) as u8,
        (v / 65536 % 256) as u8,
        (v / 256 % 256) as u8,
        (v % 256) as u8,
    ]
}

/// Two bytes, the high one first.
pub fn be16_bytes(v: u16) -> (r: [u8; 2])
    ensures
        r@ == be16(v),
{
    let r = [(v / 256) as u8, (v % 256) as u8];
    assert(r@ =~= be16(v));
    r
}

/// Four bytes, the high one first.
pub fn be32_bytes(v: u32) -> (r: [u8; 4])
    ensures
        r@ == be32(v),
{
    let r = [
        (v / 16777216) as u8,
        (v / 65536 % 256) as u8,
        (v / 256 % 256) as u8,
        (v % 256) as u8,
    ];
    assert(r@ =~= be32(v));
    r
}

/// A chromaticity, each number with its high byte first.
pub struct ChromaPoints {
    pub x: [u8; 2],
    pub y: [u8; 2],
}

/// A colour volume, each number with its high byte first.
pub struct MasteringDisplayInfo {
    pub r: ChromaPoints,
    pub g: ChromaPoints,
    pub b: ChromaPoints,
    pub white_point: ChromaPoints,
    pub max_luma: [u8; 4],
    pub min_luma: [u8; 4],
}

/// The light levels, each number with its high byte first.
pub struct ContentLightLevel {
    pub max_cll: [u8; 2],
    pub max_fall: [u8; 2],
}

/// The settings of the library that a run sets itself.
pub struct SvtConf {
    pub intra_period_length: i32,
    pub source_width: u32,
    pub source_height: u32,
    pub scene_change_detection: u32,
    pub screen_content_mode: u32,
    pub encoder_bit_depth: u32,
    pub encoder_color_format: i32,
    pub profile: i32,
    pub rate_control_mode: u8,
    pub frame_rate_numerator: u32,
    pub frame_rate_denominator: u32,
    pub color_primaries: i32,
    pub transfer_characteristics: i32,
    pub matrix_coefficients: i32,
    pub color_range: i32,
    pub chroma_sample_position: i32,
    pub mastering_display: MasteringDisplayInfo,
    pub content_light_level: ContentLightLevel,
    pub qp: u32,
    pub aq_mode: u8,
    pub extended_crf_qindex_offset: u8,
}

/// A chromaticity as bytes.
pub open spec fn is_point(c: ChromaPoints, p: Point16) -> bool {
    c.x@ == be16(p.x) && c.y@ == be16(p.y)
}

fn points(p: Point16) -> (c: ChromaPoints)
    ensures
        is_point(c, p),
{
    ChromaPoints { x: be16_bytes(p.x), y: be16_bytes(p.y) }
}

/// What stands in the settings once the run has set what it sets for every chunk.
pub open spec fn is_based(was: SvtConf, conf: SvtConf, inf: &VidInf, w: u32, h: u32) -> bool {
    &&& conf.intra_period_length == -1
    &&& conf.source_width == w
    &&& conf.source_height == h
    &&& conf.scene_change_detection == 0
    &&& conf.screen_content_mode == 0
    &&& conf.encoder_bit_depth == 10
    &&& conf.encoder_color_format == 1
    &&& conf.profile == 0
    &&& conf.rate_control_mode == 0
    &&& conf.frame_rate_numerator == inf.fps_num
    &&& conf.frame_rate_denominator == inf.fps_den
    &&& conf.color_primaries == inf.color_primaries
    &&& conf.transfer_characteristics == inf.transfer_characteristics
    &&& conf.matrix_coefficients == inf.matrix_coefficients
    &&& conf.color_range == inf.color_range
    &&& conf.chroma_sample_position == inf.chroma_sample_position
    &&& match inf.av1_mastering {
        Some(m) => {
            &&& is_point(conf.mastering_display.r, m.r)
            &&& is_point(conf.mastering_display.g, m.g)
            &&& is_point(conf.mastering_display.b, m.b)
            &&& is_point(conf.mastering_display.white_point, m.wp)
            &&& conf.mastering_display.max_luma@ == be32(m.max_luma)
            &&& conf.mastering_display.min_luma@ == be32(m.min_luma)
        },
        None => conf.mastering_display == was.mastering_display,
    }
    &&& match inf.content_light_level {
        Some((c, f)) => conf.content_light_level.max_cll@ == be16(c)
            && conf.content_light_level.max_fall@ == be16(f),
        None => conf.content_light_level == was.content_light_level,
    }
    &&& conf.qp == was.qp
    &&& conf.aq_mode == was.aq_mode
    &&& conf.extended_crf_qindex_offset == was.extended_crf_qindex_offset
}

/// Sets what a run sets for every chunk, and gives the further settings that the library is to
/// read, in order.
pub fn set_svt_base(conf: &mut SvtConf, inf: &VidInf, params: &str, width: u32, height: u32) -> (r:
    Vec<Param>)
    ensures
        is_based(*old(conf), *final(conf), inf, width, height),
        param_texts(r@) == svt_params_of(words_of(params@)),
{
    conf.intra_period_length = -1;
    conf.source_width = width;
    conf.source_height = height;
    conf.scene_change_detection = 0;
    conf.screen_content_mode = 0;
    conf.encoder_bit_depth = 10;
    conf.encoder_color_format = 1;
    conf.profile = 0;
    conf.rate_control_mode = 0;
    conf.frame_rate_numerator = inf.fps_num;
    conf.frame_rate_denominator = inf.fps_den;
    conf.color_primaries = inf.color_primaries as i32;
    conf.transfer_characteristics = inf.transfer_characteristics as i32;
    conf.matrix_coefficients = inf.matrix_coefficients as i32;
    conf.color_range = inf.color_range as i32;
    conf.chroma_sample_position = inf.chroma_sample_position as i32;
    if let Some(m) = inf.av1_mastering {
        conf.mastering_display =
        MasteringDisplayInfo {
            r: points(m.r),
            g: points(m.g),
            b: points(m.b),
            white_point: points(m.wp),
            max_luma: be32_bytes(m.max_luma),
            min_luma: be32_bytes(m.min_luma),
        };
    }
    if let Some((c, f)) = inf.content_light_level {
        conf.content_light_level =
        ContentLightLevel { max_cll: be16_bytes(c), max_fall: be16_bytes(f) };
    }
    parse_svt_params(params)
}

/// The numbers that the library's headers fix.
#[derive(Clone, Copy, Debug, PartialEq, Eq, Structural)]
pub struct SvtLimits {
    /// The highest quantizer.
    pub max_qp: u32,
    /// The rate control mode with a constant quality.
    pub crf_mode: u8,
}

/// The whole steps of a quality in hundredths, at most the highest quantizer.
pub open spec fn crf_qp(hundredths: nat, limits: SvtLimits) -> nat {
    if hundredths / 100 < limits.max_qp {
        hundredths / 100
    } else {
        limits.max_qp as nat
    }
}

/// A quality in hundredths as quarter steps.
pub open spec fn crf_quarters(hundredths: nat) -> nat {
    if hundredths / 25 < u32::MAX {
        hundredths / 25
    } else {
        u32::MAX as nat
    }
}

/// The settings with a quality that is given in hundredths.
pub open spec fn with_quality(conf: SvtConf, hundredths: u64, limits: SvtLimits) -> SvtConf {
    SvtConf {
        qp: crf_qp(hundredths as nat, limits) as u32,
        rate_control_mode: limits.crf_mode,
        aq_mode: 2,
        extended_crf_qindex_offset: ((crf_quarters(hundredths as nat) - 4 * crf_qp(
            hundredths as nat,
            limits,
        )) % 256) as u8,
        ..conf
    }
}

/// Sets a quality that is given in hundredths: the whole steps, and the quarter steps above them
/// in a byte of their own.
pub fn set_svt_crf(conf: &mut SvtConf, hundredths: u64, limits: SvtLimits)
    requires
        limits.max_qp <= u32::MAX / 4,
    ensures
        *final(conf) == with_quality(*old(conf), hundredths, limits),
{
    let whole: u64 = hundredths / 100;
    let quarters: u64 = hundredths / 25;
    let ext: u32 = if quarters < u32::MAX as u64 {
        quarters as u32
    } else {
        u32::MAX
    };
    let qp: u32 = if whole < limits.max_qp as u64 {
        whole as u32
    } else {
        limits.max_qp
    };
    assert(4 * (hundredths / 100) <= hundredths / 25);
    conf.qp = qp;
    conf.rate_control_mode = limits.crf_mode;
    conf.aq_mode = 2;
    let above: u32 = ext - qp * 4;
    conf.extended_crf_qindex_offset = (above % 256) as u8;
}

/// As far as a byte reaches above the highest quantizer, the settings hold a quality to the quarter
/// step below it; up to the highest quantizer, less than a whole step stands in the byte.
pub proof fn law_svt_crf_keeps_quarters(hundredths: nat, limits: SvtLimits)
    requires
        hundredths / 25 <= u32::MAX,
        hundredths / 25 <= 4 * limits.max_qp + 255,
    ensures
        0 <= crf_quarters(hundredths) - 4 * crf_qp(hundredths, limits) <= 255,
        4 * crf_qp(hundredths, limits) + (crf_quarters(hundredths) - 4 * crf_qp(hundredths, limits))
            % 256 == hundredths / 25,
        hundredths / 100 <= limits.max_qp ==> crf_quarters(hundredths) - 4 * crf_qp(
            hundredths,
            limits,
        ) < 4,
{
}

/// A zone's template starts with the run's own settings, so that a zone overrides only what it
/// names.
pub proof fn law_zone_templates_extend_base(params: Seq<char>, zones: Seq<Seq<char>>, i: int)
    requires
        0 <= i <= zones.len(),
    ensures
        template_params(params, zones)[0].is_prefix_of(template_params(params, zones)[i]),
{
}

/// The number that bytes stand for, the high one first.
pub open spec fn big_endian(s: Seq<u8>) -> nat
    decreases s.len(),
{
    if s.len() == 0 {
        0
    } else {
        big_endian(s.drop_last()) * 256 + s.last() as nat
    }
}

/// A number that is put into bytes can be read from them.
pub proof fn law_bytes_hold_the_number(a: u16, b: u32)
    ensures
        be16(a).len() == 2,
        be32(b).len() == 4,
        big_endian(be16(a)) == a,
        big_endian(be32(b)) == b,
{
    reveal_with_fuel(big_endian, 5);
    let s = be16(a);
    assert(s.drop_last() =~= seq![s[0]]);
    assert(seq![s[0]].drop_last() =~= seq![]);
    let t = be32(b);
    let t3 = t.drop_last();
    let t2 = t3.drop_last();
    let t1 = t2.drop_last();
    assert(t3 =~= seq![t[0], t[1], t[2]]);
    assert(t2 =~= seq![t[0], t[1]]);
    assert(t1 =~= seq![t[0]]);
    assert(t1.drop_last() =~= seq![]);
    assert(b == (b / 16777216) * 16777216 + (b / 65536 % 256) * 65536 + (b / 256 % 256) * 256 + b
        % 256);
}

/// The colours, the display and the light levels that SVT-AV1 is told are the video's own, each
/// number in its own place.
pub proof fn law_svt_is_told_the_colors(was: SvtConf, conf: SvtConf, inf: &VidInf, w: u32, h: u32)
    requires
        is_based(was, conf, inf, w, h),
    ensures
        conf.color_primaries == inf.color_primaries,
        conf.transfer_characteristics == inf.transfer_characteristics,
        conf.matrix_coefficients == inf.matrix_coefficients,
        conf.color_range == inf.color_range,
        conf.chroma_sample_position == inf.chroma_sample_position,
        inf.av1_mastering matches Some(m) ==> {
            let d = conf.mastering_display;
            &&& big_endian(d.r.x@) == m.r.x && big_endian(d.r.y@) == m.r.y
            &&& big_endian(d.g.x@) == m.g.x && big_endian(d.g.y@) == m.g.y
            &&& big_endian(d.b.x@) == m.b.x && big_endian(d.b.y@) == m.b.y
            &&& big_endian(d.white_point.x@) == m.wp.x && big_endian(d.white_point.y@) == m.wp.y
            &&& big_endian(d.max_luma@) == m.max_luma && big_endian(d.min_luma@) == m.min_luma
        },
        inf.content_light_level matches Some((c, f)) ==> big_endian(
            conf.content_light_level.max_cll@,
        ) == c && big_endian(conf.content_light_level.max_fall@) == f,
{
    if let Some(m) = inf.av1_mastering {
        law_bytes_hold_the_number(m.r.x, m.max_luma);
        law_bytes_hold_the_number(m.r.y, m.min_luma);
        law_bytes_hold_the_number(m.g.x, 0);
        law_bytes_hold_the_number(m.g.y, 0);
        law_bytes_hold_the_number(m.b.x, 0);
        law_bytes_hold_the_number(m.b.y, 0);
        law_bytes_hold_the_number(m.wp.x, 0);
        law_bytes_hold_the_number(m.wp.y, 0);
    }
    if let Some((c, f)) = inf.content_light_level {
        law_bytes_hold_the_number(c, 0);
        law_bytes_hold_the_number(f, 0);
    }
}

/// SVT-AV1 is told the size and the rate of the frames, ten bits with chroma at half size, and to
/// leave where scenes start to the run.
pub proof fn law_svt_is_told_the_frames(was: SvtConf, conf: SvtConf, inf: &VidInf, w: u32, h: u32)
    requires
        is_based(was, conf, inf, w, h),
    ensures
        (conf.source_width, conf.source_height) == (w, h),
        (conf.frame_rate_numerator, conf.frame_rate_denominator) == (inf.fps_num, inf.fps_den),
        conf.encoder_bit_depth == 10 && conf.encoder_color_format == 1 && conf.profile == 0,
        conf.intra_period_length == -1 && conf.scene_change_detection == 0,
        conf.screen_content_mode == 0 && conf.rate_control_mode == 0,
{
}


/// Settings that are written as options are read back, each with its own value and in order, whatever
/// follows them; a word that is no option is passed over, and so is an option at the end that has no
/// value.
pub proof fn law_svt_settings_read_back(
    name: Seq<char>,
    value: Seq<char>,
    word: Seq<char>,
    rest: Seq<Seq<char>>,
)
    requires
        !"--"@.is_prefix_of(word),
    ensures
        svt_params_of(seq!["--"@ + name, value] + rest) == seq![(name, value)] + svt_params_of(rest),
        svt_params_of(seq![word] + rest) == svt_params_of(rest),
        svt_params_of(seq!["--"@ + name]) == Seq::<(Seq<char>, Seq<char>)>::empty(),
        svt_params_of(seq![]) == Seq::<(Seq<char>, Seq<char>)>::empty(),
{
    law_prefix_comes_off("--"@, name);
    law_prefix_comes_off("--"@, word);
    let w = seq!["--"@ + name, value] + rest;
    assert(w.skip(2) =~= rest);
    assert(w[0] == "--"@ + name && w[1] == value);
    let v = seq![word] + rest;
    assert(v.skip(1) =~= rest);
    assert(v[0] == word);
}

/// The first template has the run's own settings, and each other one those and then its zone's.
pub proof fn law_svt_templates_follow_zones(params: Seq<char>, zones: Seq<Seq<char>>, i: int)
    requires
        0 <= i < zones.len(),
    ensures
        template_params(params, zones).len() == zones.len() + 1,
        template_params(params, zones)[0] == svt_params_of(words_of(params)),
        template_params(params, zones)[i + 1].len() == template_params(params, zones)[0].len()
            + svt_params_of(words_of(zones[i])).len(),
        template_params(params, zones)[i + 1].skip(
            template_params(params, zones)[0].len() as int,
        ) == svt_params_of(words_of(zones[i])),
{
    let own = svt_params_of(words_of(params));
    let zone = svt_params_of(words_of(zones[i]));
    assert(template_params(params, zones)[i + 1] == own + zone);
    assert((own + zone).skip(own.len() as int) =~= zone);
}

/// A quality is set without touching what the run set for every chunk but the rate control: the
/// steps and quarter steps make up the quality, and the library is told to keep to it.
pub proof fn law_svt_quality_is_set(conf: SvtConf, hundredths: u64, limits: SvtLimits)
    requires
        hundredths / 25 <= 4 * limits.max_qp + 255,
        hundredths / 25 <= u32::MAX,
        limits.max_qp <= u32::MAX / 4,
    ensures
        ({
            let set = with_quality(conf, hundredths, limits);
            &&& 4 * set.qp + set.extended_crf_qindex_offset == hundredths / 25
            &&& set.qp <= limits.max_qp
            &&& hundredths / 100 <= limits.max_qp ==> set.qp == hundredths / 100
                && set.extended_crf_qindex_offset < 4
            &&& set.rate_control_mode == limits.crf_mode
            &&& set.aq_mode == 2
            &&& set == (SvtConf {
                qp: set.qp,
                extended_crf_qindex_offset: set.extended_crf_qindex_offset,
                rate_control_mode: set.rate_control_mode,
                aq_mode: set.aq_mode,
                ..conf
            })
        }),
{
    law_svt_crf_keeps_quarters(hundredths as nat, limits);
}


/// What SVT-AV1 is set to for every chunk, and the settings that are handed to it, are those of the
/// video and of the run's own parameters.
pub proof fn law_svt_is_set_up_for_the_video(
    conf: &mut SvtConf,
    inf: &VidInf,
    params: &str,
    w: u32,
    h: u32,
    r: Vec<Param>,
)
    requires
        call_ensures(set_svt_base, (conf, inf, params, w, h), r),
    ensures
        is_based(*old(conf), *final(conf), inf, w, h),
        final(conf).color_primaries == inf.color_primaries,
        final(conf).transfer_characteristics == inf.transfer_characteristics,
        final(conf).matrix_coefficients == inf.matrix_coefficients,
        (final(conf).source_width, final(conf).source_height) == (w, h),
        (final(conf).frame_rate_numerator, final(conf).frame_rate_denominator) == (
            inf.fps_num,
            inf.fps_den,
        ),
        param_texts(r@) == svt_params_of(words_of(params@)),
{
}

/// A quality that is set leaves the rest as it is, and every template is made from its own settings.
pub proof fn law_svt_chunks_differ_in_quality(
    conf: &mut SvtConf,
    hundredths: u64,
    limits: SvtLimits,
    params: &str,
    zones: &Vec<String>,
    r: Vec<Vec<Param>>,
    i: int,
)
    requires
        limits.max_qp <= u32::MAX / 4,
        call_ensures(set_svt_crf, (conf, hundredths, limits), ()),
        call_ensures(build_svt_templates, (params, zones), r),
        0 <= i < zones@.len(),
    ensures
        *final(conf) == with_quality(*old(conf), hundredths, limits),
        r@.len() == zones@.len() + 1,
        param_texts(r@[0]@) == svt_params_of(words_of(params@)),
        param_texts(r@[i + 1]@) == svt_params_of(words_of(params@)) + svt_params_of(
            words_of(zones@[i]@),
        ),
{
    assert(texts(zones@)[i] == zones@[i]@);
    assert(param_texts(r@[0]@) == template_params(params@, texts(zones@))[0]);
    assert(param_texts(r@[i + 1]@) == template_params(params@, texts(zones@))[i + 1]);
}

} // verus!
