//! The names that encoders give to colour descriptions.
use vstd::prelude::*;

use crate::num::{decimal, is_digit, lemma_decimal_digits, push_decimal};
use crate::text::{is_free_of, lemma_first_piece, pieces_of};
use crate::video::{law_pairs_are_found, mastering_texts, pair_of, Mastering, MasteringTexts, VidInf};

verus! {

/// The name of a set of colour primaries.
pub open spec fn primaries_text(v: i8) -> Seq<char> {
    match v {
        1 => "bt709"@,
        4 => "bt470m"@,
        5 => "bt470bg"@,
        6 => "smpte170m"@,
        7 => "smpte240m"@,
        8 => "film"@,
        9 => "bt2020"@,
        10 => "smpte428"@,
        11 => "smpte431"@,
        12 => "smpte432"@,
        _ => "unknown"@,
    }
}

/// The name of a set of colour primaries.
pub fn h26x_color_prims_str(v: i8) -> (r: &'static str)
    ensures
        r@ == primaries_text(v),
{
    match v {
        1 => "bt709",
        4 => "bt470m",
        5 => "bt470bg",
        6 => "smpte170m",
        7 => "smpte240m",
        8 => "film",
        9 => "bt2020",
        10 => "smpte428",
        11 => "smpte431",
        12 => "smpte432",
        _ => "unknown",
    }
}

/// The name of a transfer characteristic.
pub open spec fn transfer_text(v: i8) -> Seq<char> {
    match v {
        1 => "bt709"@,
        4 => "bt470m"@,
        5 => "bt470bg"@,
        6 => "smpte170m"@,
        7 => "smpte240m"@,
        8 => "linear"@,
        9 => "log100"@,
        10 => "log316"@,
        11 => "iec61966-2-4"@,
        12 => "bt1361e"@,
        13 => "iec61966-2-1"@,
        14 => "bt2020-10"@,
        15 => "bt2020-12"@,
        16 => "smpte2084"@,
        17 => "smpte428"@,
        18 => "arib-std-b67"@,
        _ => "unknown"@,
    }
}

/// The name of a transfer characteristic.
pub fn h26x_trans_char_str(v: i8) -> (r: &'static str)
    ensures
        r@ == transfer_text(v),
{
    match v {
        1 => "bt709",
        4 => "bt470m",
        5 => "bt470bg",
        6 => "smpte170m",
        7 => "smpte240m",
        8 => "linear",
        9 => "log100",
        10 => "log316",
        11 => "iec61966-2-4",
        12 => "bt1361e",
        13 => "iec61966-2-1",
        14 => "bt2020-10",
        15 => "bt2020-12",
        16 => "smpte2084",
        17 => "smpte428",
        18 => "arib-std-b67",
        _ => "unknown",
    }
}

/// The name of a set of matrix coefficients.
pub open spec fn matrix_text(v: i8) -> Seq<char> {
    match v {
        0 => "gbr"@,
        1 => "bt709"@,
        4 => "fcc"@,
        5 => "bt470bg"@,
        6 => "smpte170m"@,
        7 => "smpte240m"@,
        8 => "ycgco"@,
        9 => "bt2020nc"@,
        10 => "bt2020c"@,
        11 => "smpte2085"@,
        12 => "chroma-derived-nc"@,
        13 => "chroma-derived-c"@,
        14 => "ictcp"@,
        _ => "unknown"@,
    }
}

/// The name of a set of matrix coefficients.
pub fn h26x_matrix_coef_str(v: i8) -> (r: &'static str)
    ensures
        r@ == matrix_text(v),
{
    match v {
        0 => "gbr",
        1 => "bt709",
        4 => "fcc",
        5 => "bt470bg",
        6 => "smpte170m",
        7 => "smpte240m",
        8 => "ycgco",
        9 => "bt2020nc",
        10 => "bt2020c",
        11 => "smpte2085",
        12 => "chroma-derived-nc",
        13 => "chroma-derived-c",
        14 => "ictcp",
        _ => "unknown",
    }
}

/// The signal preset of x265 that stands for a whole colour description.
pub open spec fn signal_preset(inf: &VidInf) -> Option<Seq<char>> {
    let (p, t, m, r) = (
        inf.color_primaries,
        inf.transfer_characteristics,
        inf.matrix_coefficients,
        inf.color_range,
    );
    if p == 9 && t == 16 && m == 9 && r == 0 {
        Some("BT2100_PQ_YCC"@)
    } else if p == 9 && t == 16 && m == 14 && r == 0 {
        Some("BT2100_PQ_ICTCP"@)
    } else if p == 9 && t == 16 && m == 0 && r == 0 {
        Some("BT2100_PQ_RGB"@)
    } else if p == 9 && t == 18 && m == 9 && r == 0 {
        Some("BT2100_HLG_YCC"@)
    } else if p == 9 && t == 18 && m == 0 && r == 0 {
        Some("BT2100_HLG_RGB"@)
    } else if p == 9 && t == 14 && m == 9 && r == 0 {
        Some("BT2020_YCC_NCL"@)
    } else if p == 1 && t == 1 && m == 1 && r == 0 {
        Some("BT709_YCC"@)
    } else if p == 1 && t == 1 && m == 0 && r == 0 {
        Some("BT709_RGB"@)
    } else if p == 1 && t == 1 && m == 0 && r == 1 {
        Some("FR709_RGB"@)
    } else if p == 6 && t == 6 && m == 6 && r == 0 {
        Some("BT601_525"@)
    } else if p == 5 && t == 6 && m == 5 && r == 0 {
        Some("BT601_626"@)
    } else {
        None
    }
}

/// The text of an optional literal.
pub open spec fn opt_str(s: Option<&str>) -> Option<Seq<char>> {
    match s {
        Some(t) => Some(t@),
        None => None,
    }
}

/// The signal preset of x265 that stands for a whole colour description.
pub fn x265_signal_preset(inf: &VidInf) -> (r: Option<&'static str>)
    ensures
        opt_str(r) == signal_preset(inf),
{
    match (
        inf.color_primaries,
        inf.transfer_characteristics,
        inf.matrix_coefficients,
        inf.color_range,
    ) {
        (9, 16, 9, 0) => Some("BT2100_PQ_YCC"),
        (9, 16, 14, 0) => Some("BT2100_PQ_ICTCP"),
        (9, 16, 0, 0) => Some("BT2100_PQ_RGB"),
        (9, 18, 9, 0) => Some("BT2100_HLG_YCC"),
        (9, 18, 0, 0) => Some("BT2100_HLG_RGB"),
        (9, 14, 9, 0) => Some("BT2020_YCC_NCL"),
        (1, 1, 1, 0) => Some("BT709_YCC"),
        (1, 1, 0, 0) => Some("BT709_RGB"),
        (1, 1, 0, 1) => Some("FR709_RGB"),
        (6, 6, 6, 0) => Some("BT601_525"),
        (5, 6, 5, 0) => Some("BT601_626"),
        _ => None,
    }
}

/// The colour volume of a P3 display with the white point D65.
pub open spec fn is_p3(m: Mastering) -> bool {
    &&& m.gx == 13250 && m.gy == 34500
    &&& m.bx == 7500 && m.by == 3000
    &&& m.rx == 34000 && m.ry == 16000
    &&& m.wx == 15635 && m.wy == 16450
}

/// The name of x265 for a colour volume.
pub open spec fn color_volume(m: Mastering) -> Option<Seq<char>> {
    if is_p3(m) && m.lmax == 10_000_000 && m.lmin == 5 {
        Some("P3D65x1000n0005"@)
    } else if is_p3(m) && m.lmax == 40_000_000 && m.lmin == 50 {
        Some("P3D65x4000n005"@)
    } else if m.gx == 8500 && m.gy == 39850 && m.bx == 6550 && m.by == 2300 && m.rx == 34000
        && m.ry == 146_000 && m.wx == 15635 && m.wy == 16450 && m.lmax == 10_000_000 && m.lmin
        == 1 {
        Some("BT2100x108n0005"@)
    } else {
        None
    }
}

/// The name of x265 for a colour volume.
pub fn x265_color_volume(m: &Mastering) -> (r: Option<&'static str>)
    ensures
        opt_str(r) == color_volume(*m),
{
    let g = (m.gx, m.gy);
    let b = (m.bx, m.by);
    let r = (m.rx, m.ry);
    let wp = (m.wx, m.wy);
    match (g, b, r, wp, m.lmax, m.lmin) {
        ((13250, 34500), (7500, 3000), (34000, 16000), (15635, 16450), 10_000_000, 5) => Some(
            "P3D65x1000n0005",
        ),
        ((13250, 34500), (7500, 3000), (34000, 16000), (15635, 16450), 40_000_000, 50) => Some(
            "P3D65x4000n005",
        ),
        ((8500, 39850), (6550, 2300), (34000, 146_000), (15635, 16450), 10_000_000, 1) => Some(
            "BT2100x108n0005",
        ),
        _ => None,
    }
}

/// A pair of numbers with a comma between them.
pub open spec fn comma_pair(a: u32, b: u32) -> Seq<char> {
    decimal(a as nat) + ","@ + decimal(b as nat)
}

/// A colour volume as an option's value.
pub open spec fn mastering_value(m: Mastering, x264_format: bool) -> Seq<char> {
    if x264_format {
        "G("@ + comma_pair(m.gx, m.gy) + ")B("@ + comma_pair(m.bx, m.by) + ")R("@ + comma_pair(
            m.rx,
            m.ry,
        ) + ")WP("@ + comma_pair(m.wx, m.wy) + ")L("@ + comma_pair(m.lmax, m.lmin) + ")"@
    } else {
        comma_pair(m.gx, m.gy) + ","@ + comma_pair(m.bx, m.by) + ","@ + comma_pair(m.rx, m.ry)
            + ","@ + comma_pair(m.wx, m.wy) + ","@ + comma_pair(m.lmax, m.lmin)
    }
}

fn push_pair(s: &mut String, a: u32, b: u32)
    ensures
        final(s)@ == old(s)@ + comma_pair(a, b),
{
    push_decimal(s, a as u64);
    s.append(",");
    push_decimal(s, b as u64);
    assert(s@ =~= old(s)@ + comma_pair(a, b));
}

/// A colour volume as an option's value, in the form of x264 or in that of the others.
pub fn h26x_mastering(m: &Mastering, x264_format: bool) -> (r: String)
    ensures
        r@ == mastering_value(*m, x264_format),
{
    let mut s = String::new();
    if x264_format {
        s.append("G(");
        push_pair(&mut s, m.gx, m.gy);
        s.append(")B(");
        push_pair(&mut s, m.bx, m.by);
        s.append(")R(");
        push_pair(&mut s, m.rx, m.ry);
        s.append(")WP(");
        push_pair(&mut s, m.wx, m.wy);
        s.append(")L(");
        push_pair(&mut s, m.lmax, m.lmin);
        s.append(")");
    } else {
        push_pair(&mut s, m.gx, m.gy);
        s.append(",");
        push_pair(&mut s, m.bx, m.by);
        s.append(",");
        push_pair(&mut s, m.rx, m.ry);
        s.append(",");
        push_pair(&mut s, m.wx, m.wy);
        s.append(",");
        push_pair(&mut s, m.lmax, m.lmin);
    }
    assert(s@ =~= mastering_value(*m, x264_format));
    s
}

/// The number that a name of primaries stands for in ITU-T H.273; 2 where it names none.
pub open spec fn primaries_code(s: Seq<char>) -> int {
    if s == "bt709"@ {
        1
    } else if s == "bt470m"@ {
        4
    } else if s == "bt470bg"@ {
        5
    } else if s == "smpte170m"@ {
        6
    } else if s == "smpte240m"@ {
        7
    } else if s == "film"@ {
        8
    } else if s == "bt2020"@ {
        9
    } else if s == "smpte428"@ {
        10
    } else if s == "smpte431"@ {
        11
    } else if s == "smpte432"@ {
        12
    } else {
        2
    }
}

/// The number that a name of a transfer characteristic stands for in ITU-T H.273; 2 where it names
/// none.
pub open spec fn transfer_code(s: Seq<char>) -> int {
    if s == "linear"@ {
        8
    } else if s == "log100"@ {
        9
    } else if s == "log316"@ {
        10
    } else if s == "iec61966-2-4"@ {
        11
    } else if s == "bt1361e"@ {
        12
    } else if s == "iec61966-2-1"@ {
        13
    } else if s == "bt2020-10"@ {
        14
    } else if s == "bt2020-12"@ {
        15
    } else if s == "smpte2084"@ {
        16
    } else if s == "smpte428"@ {
        17
    } else if s == "arib-std-b67"@ {
        18
    } else if primaries_code(s) <= 7 {
        primaries_code(s)
    } else {
        2
    }
}

/// The number that a name of matrix coefficients stands for in ITU-T H.273; 2 where it names none.
pub open spec fn matrix_code(s: Seq<char>) -> int {
    if s == "gbr"@ {
        0
    } else if s == "fcc"@ {
        4
    } else if s == "ycgco"@ {
        8
    } else if s == "bt2020nc"@ {
        9
    } else if s == "bt2020c"@ {
        10
    } else if s == "smpte2085"@ {
        11
    } else if s == "chroma-derived-nc"@ {
        12
    } else if s == "chroma-derived-c"@ {
        13
    } else if s == "ictcp"@ {
        14
    } else if primaries_code(s) <= 7 {
        primaries_code(s)
    } else {
        2
    }
}

/// How the names are spelled, as far as it tells them apart.
proof fn lemma_spelling()
    ensures
        "bt709"@.len() == 5 && "bt709"@[0] == 'b' && "bt709"@[2] == '7',
        "bt470m"@.len() == 6 && "bt470m"@[0] == 'b' && "bt470m"@[2] == '4' && "bt470m"@[5] == 'm',
        "bt470bg"@.len() == 7 && "bt470bg"@[0] == 'b' && "bt470bg"@[2] == '4' && "bt470bg"@[5] == 'b' && "bt470bg"@[6] == 'g',
        "smpte170m"@.len() == 9 && "smpte170m"@[0] == 's' && "smpte170m"@[2] == 'p' && "smpte170m"@[5] == '1' && "smpte170m"@[6] == '7' && "smpte170m"@[7] == '0' && "smpte170m"@[8] == 'm',
        "smpte240m"@.len() == 9 && "smpte240m"@[0] == 's' && "smpte240m"@[2] == 'p' && "smpte240m"@[5] == '2' && "smpte240m"@[6] == '4' && "smpte240m"@[7] == '0' && "smpte240m"@[8] == 'm',
        "film"@.len() == 4 && "film"@[0] == 'f' && "film"@[2] == 'l',
        "bt2020"@.len() == 6 && "bt2020"@[0] == 'b' && "bt2020"@[2] == '2' && "bt2020"@[5] == '0',
        "smpte428"@.len() == 8 && "smpte428"@[0] == 's' && "smpte428"@[2] == 'p' && "smpte428"@[5] == '4' && "smpte428"@[6] == '2' && "smpte428"@[7] == '8',
        "smpte431"@.len() == 8 && "smpte431"@[0] == 's' && "smpte431"@[2] == 'p' && "smpte431"@[5] == '4' && "smpte431"@[6] == '3' && "smpte431"@[7] == '1',
        "smpte432"@.len() == 8 && "smpte432"@[0] == 's' && "smpte432"@[2] == 'p' && "smpte432"@[5] == '4' && "smpte432"@[6] == '3' && "smpte432"@[7] == '2',
        "unknown"@.len() == 7 && "unknown"@[0] == 'u' && "unknown"@[2] == 'k' && "unknown"@[5] == 'w' && "unknown"@[6] == 'n',
        "linear"@.len() == 6 && "linear"@[0] == 'l' && "linear"@[2] == 'n' && "linear"@[5] == 'r',
        "log100"@.len() == 6 && "log100"@[0] == 'l' && "log100"@[2] == 'g' && "log100"@[5] == '0',
        "log316"@.len() == 6 && "log316"@[0] == 'l' && "log316"@[2] == 'g' && "log316"@[5] == '6',
        "iec61966-2-4"@.len() == 12 && "iec61966-2-4"@[0] == 'i' && "iec61966-2-4"@[2] == 'c' && "iec61966-2-4"@[5] == '9' && "iec61966-2-4"@[6] == '6' && "iec61966-2-4"@[7] == '6' && "iec61966-2-4"@[8] == '-' && "iec61966-2-4"@[11] == '4',
        "bt1361e"@.len() == 7 && "bt1361e"@[0] == 'b' && "bt1361e"@[2] == '1' && "bt1361e"@[5] == '1' && "bt1361e"@[6] == 'e',
        "iec61966-2-1"@.len() == 12 && "iec61966-2-1"@[0] == 'i' && "iec61966-2-1"@[2] == 'c' && "iec61966-2-1"@[5] == '9' && "iec61966-2-1"@[6] == '6' && "iec61966-2-1"@[7] == '6' && "iec61966-2-1"@[8] == '-' && "iec61966-2-1"@[11] == '1',
        "bt2020-10"@.len() == 9 && "bt2020-10"@[0] == 'b' && "bt2020-10"@[2] == '2' && "bt2020-10"@[5] == '0' && "bt2020-10"@[6] == '-' && "bt2020-10"@[7] == '1' && "bt2020-10"@[8] == '0',
        "bt2020-12"@.len() == 9 && "bt2020-12"@[0] == 'b' && "bt2020-12"@[2] == '2' && "bt2020-12"@[5] == '0' && "bt2020-12"@[6] == '-' && "bt2020-12"@[7] == '1' && "bt2020-12"@[8] == '2',
        "smpte2084"@.len() == 9 && "smpte2084"@[0] == 's' && "smpte2084"@[2] == 'p' && "smpte2084"@[5] == '2' && "smpte2084"@[6] == '0' && "smpte2084"@[7] == '8' && "smpte2084"@[8] == '4',
        "arib-std-b67"@.len() == 12 && "arib-std-b67"@[0] == 'a' && "arib-std-b67"@[2] == 'i' && "arib-std-b67"@[5] == 's' && "arib-std-b67"@[6] == 't' && "arib-std-b67"@[7] == 'd' && "arib-std-b67"@[8] == '-' && "arib-std-b67"@[11] == '7',
        "gbr"@.len() == 3 && "gbr"@[0] == 'g' && "gbr"@[2] == 'r',
        "fcc"@.len() == 3 && "fcc"@[0] == 'f' && "fcc"@[2] == 'c',
        "ycgco"@.len() == 5 && "ycgco"@[0] == 'y' && "ycgco"@[2] == 'g',
        "bt2020nc"@.len() == 8 && "bt2020nc"@[0] == 'b' && "bt2020nc"@[2] == '2' && "bt2020nc"@[5] == '0' && "bt2020nc"@[6] == 'n' && "bt2020nc"@[7] == 'c',
        "bt2020c"@.len() == 7 && "bt2020c"@[0] == 'b' && "bt2020c"@[2] == '2' && "bt2020c"@[5] == '0' && "bt2020c"@[6] == 'c',
        "smpte2085"@.len() == 9 && "smpte2085"@[0] == 's' && "smpte2085"@[2] == 'p' && "smpte2085"@[5] == '2' && "smpte2085"@[6] == '0' && "smpte2085"@[7] == '8' && "smpte2085"@[8] == '5',
        "chroma-derived-nc"@.len() == 17 && "chroma-derived-nc"@[0] == 'c' && "chroma-derived-nc"@[2] == 'r' && "chroma-derived-nc"@[5] == 'a' && "chroma-derived-nc"@[6] == '-' && "chroma-derived-nc"@[7] == 'd' && "chroma-derived-nc"@[8] == 'e' && "chroma-derived-nc"@[11] == 'v',
        "chroma-derived-c"@.len() == 16 && "chroma-derived-c"@[0] == 'c' && "chroma-derived-c"@[2] == 'r' && "chroma-derived-c"@[5] == 'a' && "chroma-derived-c"@[6] == '-' && "chroma-derived-c"@[7] == 'd' && "chroma-derived-c"@[8] == 'e' && "chroma-derived-c"@[11] == 'v',
        "ictcp"@.len() == 5 && "ictcp"@[0] == 'i' && "ictcp"@[2] == 't',
{
    reveal_strlit("bt709");
    reveal_strlit("bt470m");
    reveal_strlit("bt470bg");
    reveal_strlit("smpte170m");
    reveal_strlit("smpte240m");
    reveal_strlit("film");
    reveal_strlit("bt2020");
    reveal_strlit("smpte428");
    reveal_strlit("smpte431");
    reveal_strlit("smpte432");
    reveal_strlit("unknown");
    reveal_strlit("linear");
    reveal_strlit("log100");
    reveal_strlit("log316");
    reveal_strlit("iec61966-2-4");
    reveal_strlit("bt1361e");
    reveal_strlit("iec61966-2-1");
    reveal_strlit("bt2020-10");
    reveal_strlit("bt2020-12");
    reveal_strlit("smpte2084");
    reveal_strlit("arib-std-b67");
    reveal_strlit("gbr");
    reveal_strlit("fcc");
    reveal_strlit("ycgco");
    reveal_strlit("bt2020nc");
    reveal_strlit("bt2020c");
    reveal_strlit("smpte2085");
    reveal_strlit("chroma-derived-nc");
    reveal_strlit("chroma-derived-c");
    reveal_strlit("ictcp");
}

/// The name that an encoder is given for a colour description stands for the description's number; a
/// number without a name is given as unknown.
pub proof fn law_color_names_stand_for_numbers(v: i8)
    ensures
        1 == v || 4 <= v <= 12 ==> primaries_code(primaries_text(v)) == v,
        1 == v || 4 <= v <= 18 ==> transfer_code(transfer_text(v)) == v,
        0 <= v <= 1 || 4 <= v <= 14 ==> matrix_code(matrix_text(v)) == v,
        !(1 == v || 4 <= v <= 12) ==> primaries_text(v) == "unknown"@,
        !(1 == v || 4 <= v <= 18) ==> transfer_text(v) == "unknown"@,
        !(0 <= v <= 1 || 4 <= v <= 14) ==> matrix_text(v) == "unknown"@,
{
    lemma_spelling();
}

/// A standard that defines primaries, a transfer and a matrix has one number and one name for all.
pub proof fn law_standards_share_their_names(v: i8)
    requires
        v == 1 || 5 <= v <= 7,
    ensures
        primaries_text(v) == transfer_text(v),
        transfer_text(v) == matrix_text(v),
{
}

/// The ten numbers of a colour volume in decimal, in the order in which encoders take them: green,
/// blue, red, white, the highest and the lowest light.
pub open spec fn volume_texts(m: Mastering) -> Seq<Seq<char>> {
    seq![
        decimal(m.gx as nat),
        decimal(m.gy as nat),
        decimal(m.bx as nat),
        decimal(m.by as nat),
        decimal(m.rx as nat),
        decimal(m.ry as nat),
        decimal(m.wx as nat),
        decimal(m.wy as nat),
        decimal(m.lmax as nat),
        decimal(m.lmin as nat),
    ]
}

proof fn lemma_numbers_are_plain(n: nat, c: char)
    requires
        !is_digit(c),
    ensures
        is_free_of(decimal(n), c),
{
    lemma_decimal_digits(n);
    let d = decimal(n);
    assert forall|k: int| 0 <= k < d.len() implies d[k] != c by {
        assert(is_digit(d[k]));
    }
}

proof fn lemma_pair_is_free(a: u32, b: u32, c: char)
    requires
        !is_digit(c),
        c != ',',
    ensures
        is_free_of(comma_pair(a, b), c),
{
    reveal_strlit(",");
    lemma_numbers_are_plain(a as nat, c);
    lemma_numbers_are_plain(b as nat, c);
    let s = comma_pair(a, b);
    let (x, y) = (decimal(a as nat), decimal(b as nat));
    assert forall|k: int| 0 <= k < s.len() implies s[k] != c by {
        if k < x.len() {
            assert(s[k] == x[k]);
        } else if k > x.len() {
            assert(s[k] == y[k - x.len() - 1]);
        }
    }
}

proof fn lemma_pair_comes_apart(a: u32, b: u32, rest: Seq<char>)
    ensures
        pieces_of(comma_pair(a, b) + ","@ + rest, ',') == seq![decimal(a as nat), decimal(b as nat)]
            + pieces_of(rest, ','),
        pieces_of(comma_pair(a, b), ',') == seq![decimal(a as nat), decimal(b as nat)],
{
    reveal_strlit(",");
    let (x, y) = (decimal(a as nat), decimal(b as nat));
    lemma_numbers_are_plain(a as nat, ',');
    lemma_numbers_are_plain(b as nat, ',');
    let tail = y.push(',') + rest;
    assert(comma_pair(a, b) + ","@ + rest =~= x.push(',') + tail);
    lemma_first_piece(x, tail, ',');
    lemma_first_piece(y, rest, ',');
    assert(seq![x] + (seq![y] + pieces_of(rest, ',')) =~= seq![x, y] + pieces_of(rest, ','));
    assert(comma_pair(a, b) =~= x.push(',') + y);
    lemma_first_piece(x, y, ',');
    assert(seq![x] + seq![y] =~= seq![x, y]);
}

proof fn lemma_regroup(a: Seq<char>, b: Seq<char>, c: Seq<char>, s: Seq<char>)
    ensures
        a + s + b + s + c == a + s + (b + s + c),
{
    assert(a + s + b + s + c =~= a + s + (b + s + c));
}

/// A colour volume as all encoders but x264 take it comes apart at its commas into its ten numbers.
pub proof fn law_volume_comes_apart(m: Mastering)
    ensures
        pieces_of(mastering_value(m, false), ',') == volume_texts(m),
{
    let s = ","@;
    let (p1, p2, p3) = (comma_pair(m.gx, m.gy), comma_pair(m.bx, m.by), comma_pair(m.rx, m.ry));
    let (p4, p5) = (comma_pair(m.wx, m.wy), comma_pair(m.lmax, m.lmin));
    let r4 = p4 + s + p5;
    let r3 = p3 + s + r4;
    let r2 = p2 + s + r3;
    lemma_regroup(p1 + s + p2 + s + p3, p4, p5, s);
    lemma_regroup(p1 + s + p2, p3, r4, s);
    lemma_regroup(p1, p2, r3, s);
    assert(mastering_value(m, false) == p1 + s + r2);
    lemma_pair_comes_apart(m.gx, m.gy, r2);
    lemma_pair_comes_apart(m.bx, m.by, r3);
    lemma_pair_comes_apart(m.rx, m.ry, r4);
    lemma_pair_comes_apart(m.wx, m.wy, p5);
    lemma_pair_comes_apart(m.lmax, m.lmin, seq![]);
    assert(pieces_of(mastering_value(m, false), ',') =~= volume_texts(m));
}

/// A text that starts with another starts with what that one starts with.
proof fn lemma_starts_earlier(s: Seq<char>, a: Seq<char>, b: Seq<char>, x: Seq<char>)
    requires
        s == a + b + x,
    ensures
        s == a + (b + x),
{
    assert(a + b + x =~= a + (b + x));
}

proof fn lemma_free_of_more(a: Seq<char>, lit: Seq<char>, x: u32, y: u32, c: char)
    requires
        is_free_of(a, c),
        is_free_of(lit, c),
        !is_digit(c),
        c != ',',
    ensures
        is_free_of(a + lit + comma_pair(x, y), c),
{
    lemma_pair_is_free(x, y, c);
    let p = comma_pair(x, y);
    let s = a + lit + p;
    assert forall|k: int| 0 <= k < s.len() implies s[k] != c by {
        if k < a.len() {
            assert(s[k] == a[k]);
        } else if k < a.len() + lit.len() {
            assert(s[k] == lit[k - a.len()]);
        } else {
            assert(s[k] == p[k - a.len() - lit.len()]);
        }
    }
}

/// The pair behind a marker is found in a text that starts with what stands before the marker, a
/// bracket, the marker and the pair, and goes on with a bracket.
proof fn lemma_marked_pair(
    head: Seq<char>,
    marker: Seq<char>,
    a: u32,
    b: u32,
    x: Seq<char>,
    s: Seq<char>,
)
    requires
        marker.len() > 0,
        marker[0] != ')',
        is_free_of(head, marker[0]),
        s == head + (seq![')'] + marker) + comma_pair(a, b) + x || (head.len() == 0 && s == marker
            + comma_pair(a, b) + x),
        x.len() > 0,
        x[0] == ')',
    ensures
        pair_of(s, marker) == Some((decimal(a as nat), decimal(b as nat))),
{
    reveal_strlit(",");
    let (y, z) = (decimal(a as nat), decimal(b as nat));
    lemma_numbers_are_plain(a as nat, ',');
    lemma_numbers_are_plain(b as nat, ',');
    lemma_numbers_are_plain(a as nat, ')');
    lemma_numbers_are_plain(b as nat, ')');
    let pre = if s == head + (seq![')'] + marker) + comma_pair(a, b) + x {
        head + seq![')']
    } else {
        head
    };
    let post = x.skip(1);
    assert forall|k: int| 0 <= k < pre.len() implies pre[k] != marker[0] by {
        if k < head.len() {
            assert(pre[k] == head[k]);
        }
    }
    law_pairs_are_found(pre, marker, y, z, post);
    assert(x =~= seq![')'] + post);
    assert(s =~= pre + marker + y + seq![','] + z + seq![')'] + post);
}

/// A colour volume as x264 takes it is read back as the volume's own pairs, each behind its marker.
#[verifier::rlimit(60)]
pub proof fn law_marked_volume_reads_back(m: Mastering)
    ensures
        ({
            let s = mastering_value(m, true);
            let v = volume_texts(m);
            &&& pair_of(s, "G("@) == Some((v[0], v[1]))
            &&& pair_of(s, "B("@) == Some((v[2], v[3]))
            &&& pair_of(s, "R("@) == Some((v[4], v[5]))
            &&& pair_of(s, "WP("@) == Some((v[6], v[7]))
            &&& pair_of(s, "L("@) == Some((v[8], v[9]))
        }),
{
    lemma_marker_spelling();
    let s = mastering_value(m, true);
    let (pg, pb, pr) = (comma_pair(m.gx, m.gy), comma_pair(m.bx, m.by), comma_pair(m.rx, m.ry));
    let (pw, pl) = (comma_pair(m.wx, m.wy), comma_pair(m.lmax, m.lmin));
    let g = "G("@ + pg;
    let b = g + ")B("@ + pb;
    let r = b + ")R("@ + pr;
    let w = r + ")WP("@ + pw;
    let x5 = ")"@;
    let x4 = ")L("@ + (pl + x5);
    let x3 = ")WP("@ + (pw + x4);
    let x2 = ")R("@ + (pr + x3);
    let x1 = ")B("@ + (pb + x2);
    lemma_starts_earlier(s, w + ")L("@, pl, x5);
    lemma_starts_earlier(s, w, ")L("@, pl + x5);
    lemma_starts_earlier(s, r + ")WP("@, pw, x4);
    lemma_starts_earlier(s, r, ")WP("@, pw + x4);
    lemma_starts_earlier(s, b + ")R("@, pr, x3);
    lemma_starts_earlier(s, b, ")R("@, pr + x3);
    lemma_starts_earlier(s, g + ")B("@, pb, x2);
    lemma_starts_earlier(s, g, ")B("@, pb + x2);
    let none = Seq::<char>::empty();
    assert(pair_of(s, "G("@) == Some((decimal(m.gx as nat), decimal(m.gy as nat)))) by {
        lemma_marked_pair(none, "G("@, m.gx, m.gy, x1, s);
    }
    assert(is_free_of(g, 'B') && is_free_of(g, 'R') && is_free_of(g, 'W') && is_free_of(g, 'L')) by {
        assert(none + "G("@ + pg =~= g);
        lemma_free_of_more(none, "G("@, m.gx, m.gy, 'B');
        lemma_free_of_more(none, "G("@, m.gx, m.gy, 'R');
        lemma_free_of_more(none, "G("@, m.gx, m.gy, 'W');
        lemma_free_of_more(none, "G("@, m.gx, m.gy, 'L');
    }
    assert(pair_of(s, "B("@) == Some((decimal(m.bx as nat), decimal(m.by as nat)))) by {
        lemma_marked_pair(g, "B("@, m.bx, m.by, x2, s);
    }
    lemma_free_of_more(g, ")B("@, m.bx, m.by, 'R');
    lemma_free_of_more(g, ")B("@, m.bx, m.by, 'W');
    lemma_free_of_more(g, ")B("@, m.bx, m.by, 'L');
    assert(pair_of(s, "R("@) == Some((decimal(m.rx as nat), decimal(m.ry as nat)))) by {
        lemma_marked_pair(b, "R("@, m.rx, m.ry, x3, s);
    }
    lemma_free_of_more(b, ")R("@, m.rx, m.ry, 'W');
    lemma_free_of_more(b, ")R("@, m.rx, m.ry, 'L');
    assert(pair_of(s, "WP("@) == Some((decimal(m.wx as nat), decimal(m.wy as nat)))) by {
        lemma_marked_pair(r, "WP("@, m.wx, m.wy, x4, s);
    }
    lemma_free_of_more(r, ")WP("@, m.wx, m.wy, 'L');
    assert(pair_of(s, "L("@) == Some((decimal(m.lmax as nat), decimal(m.lmin as nat)))) by {
        lemma_marked_pair(w, "L("@, m.lmax, m.lmin, x5, s);
    }
}

proof fn lemma_marker_spelling()
    ensures
        "G("@.len() == 2 && "G("@[0] == 'G',
        "B("@.len() == 2 && "B("@[0] == 'B',
        "R("@.len() == 2 && "R("@[0] == 'R',
        "L("@.len() == 2 && "L("@[0] == 'L',
        "WP("@.len() == 3 && "WP("@[0] == 'W',
        ")"@ == seq![')'],
        ")B("@ == seq![')'] + "B("@,
        ")R("@ == seq![')'] + "R("@,
        ")WP("@ == seq![')'] + "WP("@,
        ")L("@ == seq![')'] + "L("@,
        is_free_of("G("@, 'B') && is_free_of("G("@, 'R') && is_free_of("G("@, 'W') && is_free_of(
            "G("@,
            'L',
        ),
        is_free_of(")B("@, 'R') && is_free_of(")B("@, 'W') && is_free_of(")B("@, 'L'),
        is_free_of(")R("@, 'W') && is_free_of(")R("@, 'L'),
        is_free_of(")WP("@, 'L'),
{
    reveal_strlit("G(");
    reveal_strlit(")B(");
    reveal_strlit(")R(");
    reveal_strlit(")WP(");
    reveal_strlit(")L(");
    reveal_strlit(")");
    reveal_strlit("B(");
    reveal_strlit("R(");
    reveal_strlit("WP(");
    reveal_strlit("L(");
    assert(")"@ =~= seq![')']);
    assert(")B("@ =~= seq![')'] + "B("@);
    assert(")R("@ =~= seq![')'] + "R("@);
    assert(")WP("@ =~= seq![')'] + "WP("@);
    assert(")L("@ =~= seq![')'] + "L("@);
}

/// A signal preset stands for one colour description.
pub proof fn law_presets_stand_for_one_description(a: &VidInf, b: &VidInf)
    requires
        signal_preset(a) is Some,
        signal_preset(a) == signal_preset(b),
    ensures
        a.color_primaries == b.color_primaries,
        a.transfer_characteristics == b.transfer_characteristics,
        a.matrix_coefficients == b.matrix_coefficients,
        a.color_range == b.color_range,
{
    lemma_preset_spelling();
}

/// The name of a signal preset says what it stands for: whether the range is full, that samples are
/// red, green and blue or in the form ICtCp, the standard of the primaries, and the transfer of
/// pictures with a high range.
pub proof fn law_preset_names_say_what_they_stand_for(inf: &VidInf)
    requires
        signal_preset(inf) is Some,
    ensures
        ({
            let p = signal_preset(inf)->0;
            let transfer = transfer_text(inf.transfer_characteristics);
            &&& p.len() >= 9
            &&& p[0] == 'F' <==> inf.color_range == 1
            &&& p[0] == 'B' <==> inf.color_range == 0
            &&& p.last() == 'B' <==> matrix_text(inf.matrix_coefficients) == "gbr"@
            &&& p.last() == 'P' <==> matrix_text(inf.matrix_coefficients) == "ictcp"@
            &&& p[2] == '2' <==> primaries_text(inf.color_primaries) == "bt2020"@
            &&& p[2] == '7' <==> primaries_text(inf.color_primaries) == "bt709"@
            &&& p[2] == '6' && p[6] == '5' <==> primaries_text(inf.color_primaries) == "smpte170m"@
            &&& p[7] == 'P' <==> transfer == "smpte2084"@
            &&& p[7] == 'H' <==> transfer == "arib-std-b67"@
        }),
{
    lemma_preset_spelling();
    lemma_spelling();
}

/// How the names of signal presets are spelled, as far as it tells them apart.
proof fn lemma_preset_spelling()
    ensures
        "BT2100_PQ_YCC"@.len() == 13 && "BT2100_PQ_YCC"@[0] == 'B' && "BT2100_PQ_YCC"@[2] == '2' && "BT2100_PQ_YCC"@[6] == '_' && "BT2100_PQ_YCC"@[7] == 'P' && "BT2100_PQ_YCC"@[12] == 'C',
        "BT2100_PQ_ICTCP"@.len() == 15 && "BT2100_PQ_ICTCP"@[0] == 'B' && "BT2100_PQ_ICTCP"@[2] == '2' && "BT2100_PQ_ICTCP"@[6] == '_' && "BT2100_PQ_ICTCP"@[7] == 'P' && "BT2100_PQ_ICTCP"@[14] == 'P',
        "BT2100_PQ_RGB"@.len() == 13 && "BT2100_PQ_RGB"@[0] == 'B' && "BT2100_PQ_RGB"@[2] == '2' && "BT2100_PQ_RGB"@[6] == '_' && "BT2100_PQ_RGB"@[7] == 'P' && "BT2100_PQ_RGB"@[12] == 'B',
        "BT2100_HLG_YCC"@.len() == 14 && "BT2100_HLG_YCC"@[0] == 'B' && "BT2100_HLG_YCC"@[2] == '2' && "BT2100_HLG_YCC"@[6] == '_' && "BT2100_HLG_YCC"@[7] == 'H' && "BT2100_HLG_YCC"@[13] == 'C',
        "BT2100_HLG_RGB"@.len() == 14 && "BT2100_HLG_RGB"@[0] == 'B' && "BT2100_HLG_RGB"@[2] == '2' && "BT2100_HLG_RGB"@[6] == '_' && "BT2100_HLG_RGB"@[7] == 'H' && "BT2100_HLG_RGB"@[13] == 'B',
        "BT2020_YCC_NCL"@.len() == 14 && "BT2020_YCC_NCL"@[0] == 'B' && "BT2020_YCC_NCL"@[2] == '2' && "BT2020_YCC_NCL"@[6] == '_' && "BT2020_YCC_NCL"@[7] == 'Y' && "BT2020_YCC_NCL"@[13] == 'L',
        "BT709_YCC"@.len() == 9 && "BT709_YCC"@[0] == 'B' && "BT709_YCC"@[2] == '7' && "BT709_YCC"@[6] == 'Y' && "BT709_YCC"@[7] == 'C' && "BT709_YCC"@[8] == 'C',
        "BT709_RGB"@.len() == 9 && "BT709_RGB"@[0] == 'B' && "BT709_RGB"@[2] == '7' && "BT709_RGB"@[6] == 'R' && "BT709_RGB"@[7] == 'G' && "BT709_RGB"@[8] == 'B',
        "FR709_RGB"@.len() == 9 && "FR709_RGB"@[0] == 'F' && "FR709_RGB"@[2] == '7' && "FR709_RGB"@[6] == 'R' && "FR709_RGB"@[7] == 'G' && "FR709_RGB"@[8] == 'B',
        "BT601_525"@.len() == 9 && "BT601_525"@[0] == 'B' && "BT601_525"@[2] == '6' && "BT601_525"@[6] == '5' && "BT601_525"@[7] == '2' && "BT601_525"@[8] == '5',
        "BT601_626"@.len() == 9 && "BT601_626"@[0] == 'B' && "BT601_626"@[2] == '6' && "BT601_626"@[6] == '6' && "BT601_626"@[7] == '2' && "BT601_626"@[8] == '6',
{
    reveal_strlit("BT2100_PQ_YCC");
    reveal_strlit("BT2100_PQ_ICTCP");
    reveal_strlit("BT2100_PQ_RGB");
    reveal_strlit("BT2100_HLG_YCC");
    reveal_strlit("BT2100_HLG_RGB");
    reveal_strlit("BT2020_YCC_NCL");
    reveal_strlit("BT709_YCC");
    reveal_strlit("BT709_RGB");
    reveal_strlit("FR709_RGB");
    reveal_strlit("BT601_525");
    reveal_strlit("BT601_626");
}


/// A colour volume as x264 takes it is taken apart into its own numbers again.
pub proof fn law_volume_is_taken_apart(m: Mastering, md: &str, r: Option<MasteringTexts>)
    requires
        md@ == mastering_value(m, true),
        call_ensures(mastering_texts, (md,), r),
    ensures
        r matches Some(t) && {
            &&& (t.g.0@, t.g.1@) == (decimal(m.gx as nat), decimal(m.gy as nat))
            &&& (t.b.0@, t.b.1@) == (decimal(m.bx as nat), decimal(m.by as nat))
            &&& (t.r.0@, t.r.1@) == (decimal(m.rx as nat), decimal(m.ry as nat))
            &&& (t.wp.0@, t.wp.1@) == (decimal(m.wx as nat), decimal(m.wy as nat))
            &&& (t.l.0@, t.l.1@) == (decimal(m.lmax as nat), decimal(m.lmin as nat))
        },
{
    law_marked_volume_reads_back(m);
}

} // verus!
