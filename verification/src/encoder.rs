//! The encoders, and what is known of each.
use vstd::prelude::*;
use vstd::utf8::{decode_utf8, is_ascii_chars, valid_utf8};

use crate::text::{
    ascii_lowered, lines, lines_of, parted, same, split_once, texts, trim, trimmed, words, words_of,
};

verus! {

broadcast use vstd::utf8::is_ascii_chars_encode_utf8;

/// The video encoders that a run can use.
#[derive(Clone, Copy, Debug, PartialEq, Eq, Structural)]
pub enum Encoder {
    SvtAv1,
    Avm,
    Vvenc,
    X265,
    X264,
}

impl Default for Encoder {
    fn default() -> (e: Self)
        ensures
            e == Encoder::SvtAv1,
    {
        Encoder::SvtAv1
    }
}

/// What a program was built with.
#[derive(Clone, Copy, Debug, PartialEq, Eq, Structural)]
pub struct Build {
    /// The AVM library is linked in.
    pub avm: bool,
    /// The VVenC library is linked in; otherwise VVenC runs as a program.
    pub vvenc: bool,
    /// Target-quality mode and its metrics are linked in.
    pub vship: bool,
    /// The program is compiled for processors with AVX-512.
    pub avx512: bool,
}

/// The versions of the libraries that are linked in.
pub struct Versions {
    pub svt: String,
    pub avm: String,
    pub vvenc: String,
}

/// What a program printed before it ended.
pub struct ProgramOutput {
    pub stdout: Vec<u8>,
    pub stderr: Vec<u8>,
}

/// A program that is asked for its version with `--version`.
pub struct VersionQuery {
    pub prog: String,
    pub name: String,
    pub marker: Option<String>,
}

/// The text in lower case, by the rules of Unicode.
pub uninterp spec fn lowercase(s: Seq<char>) -> Seq<char>;

/// `str::to_lowercase`. The result depends on the text alone; of ASCII text it is the text with
/// its ASCII letters in lower case.
#[verifier::external_body]
fn to_lowercase(s: &str) -> (r: String)
    ensures
        r@ == lowercase(s@),
        is_ascii_chars(s@) ==> r@ == ascii_lowered(s@),
{
    s.to_lowercase()
}

/// The text that bytes stand for, with replacement characters where they are not UTF-8.
pub uninterp spec fn lossy_text(bytes: Seq<u8>) -> Seq<char>;

/// `String::from_utf8_lossy`. The result depends on the bytes alone; valid UTF-8 is decoded as
/// it is.
#[verifier::external_body]
fn from_utf8_lossy(bytes: &[u8]) -> (r: String)
    ensures
        r@ == lossy_text(bytes@),
        valid_utf8(bytes@) ==> r@ == decode_utf8(bytes@),
{
    String::from_utf8_lossy(bytes).into_owned()
}

/// The encoder that a lower-case name stands for in a build; one without AVM does not know it.
pub open spec fn encoder_named(name: Seq<char>, build: Build) -> Option<Encoder> {
    if name == "svt-av1"@ {
        Some(Encoder::SvtAv1)
    } else if build.avm && name == "avm"@ {
        Some(Encoder::Avm)
    } else if name == "vvenc"@ {
        Some(Encoder::Vvenc)
    } else if name == "x265"@ {
        Some(Encoder::X265)
    } else if name == "x264"@ {
        Some(Encoder::X264)
    } else {
        None
    }
}

/// The bytes of an ASCII text.
pub open spec fn ascii_bytes(s: Seq<char>) -> Seq<u8> {
    s.map_values(|c: char| c as u8)
}

/// The file extension of a raw stream.
pub open spec fn extension_text(e: Encoder) -> Seq<char> {
    match e {
        Encoder::SvtAv1 | Encoder::Avm => "obu"@,
        Encoder::Vvenc => "266"@,
        Encoder::X265 => "265"@,
        Encoder::X264 => "264"@,
    }
}

/// The Matroska codec identifier.
pub open spec fn codec_id_text(e: Encoder) -> Seq<char> {
    match e {
        Encoder::SvtAv1 => "V_AV1"@,
        Encoder::Avm => "V_AV2"@,
        Encoder::Vvenc => "V_MPEGI/ISO/VVC"@,
        Encoder::X265 => "V_MPEGH/ISO/HEVC"@,
        Encoder::X264 => "V_MPEG4/ISO/AVC"@,
    }
}

/// The name of the coding format.
pub open spec fn codec_name_text(e: Encoder) -> Seq<char> {
    match e {
        Encoder::SvtAv1 => "Alliance for Open Media AV1 Video codec"@,
        Encoder::Avm => "Alliance for Open Media AV2 Video codec"@,
        Encoder::Vvenc => "VVC/H.266"@,
        Encoder::X265 => "HEVC/H.265"@,
        Encoder::X264 => "AVC/H.264"@,
    }
}

/// The name of the variant.
pub open spec fn variant_text(e: Encoder) -> Seq<char> {
    match e {
        Encoder::SvtAv1 => "SvtAv1"@,
        Encoder::Avm => "Avm"@,
        Encoder::Vvenc => "Vvenc"@,
        Encoder::X265 => "X265"@,
        Encoder::X264 => "X264"@,
    }
}

/// The first line that is not blank, trimmed, or `name`.
pub open spec fn first_line(ls: Seq<Seq<char>>, name: Seq<char>) -> Seq<char>
    decreases ls.len(),
{
    if ls.len() == 0 {
        name
    } else if trimmed(ls[0]).len() > 0 {
        trimmed(ls[0])
    } else {
        first_line(ls.drop_first(), name)
    }
}

/// What follows the marker on the first line that holds it.
pub open spec fn after_marker(ls: Seq<Seq<char>>, marker: Seq<char>) -> Option<Seq<char>>
    decreases ls.len(),
{
    if ls.len() == 0 {
        None
    } else {
        match parted(ls[0], marker) {
            Some(p) => Some(p.1),
            None => after_marker(ls.drop_first(), marker),
        }
    }
}

/// The version that a program's output names.
pub open spec fn version_in_text(t: Seq<char>, name: Seq<char>, marker: Option<Seq<char>>) -> Seq<
    char,
> {
    match marker {
        None => first_line(lines_of(t), name),
        Some(m) => match after_marker(lines_of(t), m) {
            Some(rest) => if words_of(rest).len() > 0 {
                name + " "@ + words_of(rest)[0]
            } else {
                name
            },
            None => name,
        },
    }
}

/// The version that `t`, what a program printed, names: the first word behind the marker on the
/// first line that holds it, or without a marker the first line that is not blank.
pub fn version_in(t: &str, name: &str, marker: Option<&str>) -> (r: String)
    ensures
        r@ == version_in_text(
            t@,
            name@,
            match marker {
                Some(m) => Some(m@),
                None => None,
            },
        ),
{
    let ls = lines(t);
    let ghost all = texts(ls@);
    let mut i: usize = 0;
    assert(all.skip(0) =~= all);
    match marker {
        None => {
            while i < ls.len()
                invariant
                    i <= ls@.len(),
                    all == texts(ls@),
                    all == lines_of(t@),
                    marker is None,
                    first_line(all, name@) == first_line(all.skip(i as int), name@),
                decreases ls@.len() - i,
            {
                let l = trim(ls[i].as_str());
                assert(all.skip(i as int)[0] == ls@[i as int]@);
                assert(all.skip(i as int).drop_first() =~= all.skip(i + 1));
                if !l.as_str().is_empty() {
                    return l;
                }
                i = i + 1;
            }
            name.to_owned()
        },
        Some(m) => {
            while i < ls.len()
                invariant
                    i <= ls@.len(),
                    all == texts(ls@),
                    all == lines_of(t@),
                    marker == Some(m),
                    after_marker(all, m@) == after_marker(all.skip(i as int), m@),
                decreases ls@.len() - i,
            {
                assert(all.skip(i as int)[0] == ls@[i as int]@);
                assert(all.skip(i as int).drop_first() =~= all.skip(i + 1));
                if let Some(p) = split_once(ls[i].as_str(), m) {
                    let w = words(p.1.as_str());
                    if w.len() > 0 {
                        let mut r = name.to_owned();
                        r.append(" ");
                        r.append(w[0].as_str());
                        assert(words_of(p.1@)[0] == w@[0]@);
                        return r;
                    }
                    return name.to_owned();
                }
                i = i + 1;
            }
            name.to_owned()
        },
    }
}

/// What a program printed names as its version.
pub open spec fn reported(
    out: Option<&ProgramOutput>,
    name: Seq<char>,
    marker: Option<Seq<char>>,
) -> Seq<char> {
    match out {
        Some(o) => version_in_text(lossy_text(o.stdout@) + lossy_text(o.stderr@), name, marker),
        None => name,
    }
}

/// The version that a program names, given what it printed; `name` alone when it did not run.
/// Where both streams are UTF-8, what was printed is what they encode, one behind the other.
pub fn run_version(out: Option<&ProgramOutput>, name: &str, marker: Option<&str>) -> (r: String)
    ensures
        out matches Some(o) ==> valid_utf8(o.stdout@) && valid_utf8(o.stderr@) ==> r@
            == version_in_text(
            decode_utf8(o.stdout@) + decode_utf8(o.stderr@),
            name@,
            match marker {
                Some(m) => Some(m@),
                None => None,
            },
        ),
        r@ == reported(
            out,
            name@,
            match marker {
                Some(m) => Some(m@),
                None => None,
            },
        ),
{
    match out {
        Some(o) => {
            let mut t = from_utf8_lossy(o.stdout.as_slice());
            let e = from_utf8_lossy(o.stderr.as_slice());
            t.append(e.as_str());
            version_in(t.as_str(), name, marker)
        },
        None => name.to_owned(),
    }
}

impl Encoder {
    /// The encoder that a lower-case name stands for in a build.
    pub fn from_lowercase(name: &str, build: Build) -> (r: Option<Self>)
        ensures
            r == encoder_named(name@, build),
    {
        if same(name, "svt-av1") {
            Some(Encoder::SvtAv1)
        } else if build.avm && same(name, "avm") {
            Some(Encoder::Avm)
        } else if same(name, "vvenc") {
            Some(Encoder::Vvenc)
        } else if same(name, "x265") {
            Some(Encoder::X265)
        } else if same(name, "x264") {
            Some(Encoder::X264)
        } else {
            None
        }
    }

    /// The encoder that a name stands for in a build, whatever its case.
    pub fn from_str(s: &str, build: Build) -> (r: Option<Self>)
        ensures
            r == encoder_named(lowercase(s@), build),
            is_ascii_chars(s@) ==> r == encoder_named(ascii_lowered(s@), build),
    {
        let l = to_lowercase(s);
        Self::from_lowercase(l.as_str(), build)
    }

    /// The file extension of its raw stream.
    pub fn extension(self) -> (r: &'static str)
        ensures
            r@ == extension_text(self),
    {
        match self {
            Encoder::SvtAv1 | Encoder::Avm => "obu",
            Encoder::Vvenc => "266",
            Encoder::X265 => "265",
            Encoder::X264 => "264",
        }
    }

    /// Its Matroska codec identifier.
    pub fn codec_id(self) -> (r: &'static [u8])
        ensures
            r@ == ascii_bytes(codec_id_text(self)),
    {
        proof {
            reveal_strlit("V_AV1");
            reveal_strlit("V_AV2");
            reveal_strlit("V_MPEGI/ISO/VVC");
            reveal_strlit("V_MPEGH/ISO/HEVC");
            reveal_strlit("V_MPEG4/ISO/AVC");
        }
        let r = match self {
            Encoder::SvtAv1 => "V_AV1".as_bytes(),
            Encoder::Avm => "V_AV2".as_bytes(),
            Encoder::Vvenc => "V_MPEGI/ISO/VVC".as_bytes(),
            Encoder::X265 => "V_MPEGH/ISO/HEVC".as_bytes(),
            Encoder::X264 => "V_MPEG4/ISO/AVC".as_bytes(),
        };
        assert(is_ascii_chars(codec_id_text(self)));
        assert(r@ =~= ascii_bytes(codec_id_text(self)));
        r
    }

    /// The name of its coding format.
    pub fn codec_name(self) -> (r: &'static [u8])
        ensures
            r@ == ascii_bytes(codec_name_text(self)),
    {
        proof {
            reveal_strlit("Alliance for Open Media AV1 Video codec");
            reveal_strlit("Alliance for Open Media AV2 Video codec");
            reveal_strlit("VVC/H.266");
            reveal_strlit("HEVC/H.265");
            reveal_strlit("AVC/H.264");
        }
        let r = match self {
            Encoder::SvtAv1 => "Alliance for Open Media AV1 Video codec".as_bytes(),
            Encoder::Avm => "Alliance for Open Media AV2 Video codec".as_bytes(),
            Encoder::Vvenc => "VVC/H.266".as_bytes(),
            Encoder::X265 => "HEVC/H.265".as_bytes(),
            Encoder::X264 => "AVC/H.264".as_bytes(),
        };
        assert(is_ascii_chars(codec_name_text(self)));
        assert(r@ =~= ascii_bytes(codec_name_text(self)));
        r
    }

    /// The name of the variant.
    pub fn variant_name(self) -> (r: &'static str)
        ensures
            r@ == variant_text(self),
    {
        match self {
            Encoder::SvtAv1 => "SvtAv1",
            Encoder::Avm => "Avm",
            Encoder::Vvenc => "Vvenc",
            Encoder::X265 => "X265",
            Encoder::X264 => "X264",
        }
    }

    /// Whether it takes whole quantizer values only.
    pub fn integer_qp(self) -> (r: bool)
        ensures
            r == (self is Avm || self is Vvenc),
    {
        match self {
            Encoder::Avm | Encoder::Vvenc => true,
            _ => false,
        }
    }

    /// The program that is asked for the version, where no linked library answers.
    pub fn version_query(self, build: Build) -> (r: Option<VersionQuery>)
        ensures
            r is Some <==> (self is X264 || self is X265 || (self is Vvenc && !build.vvenc)),
            r matches Some(q) ==> {
                &&& q.prog@ == match self {
                    Encoder::X264 => "x264"@,
                    Encoder::X265 => "x265"@,
                    _ => "vvencFFapp"@,
                }
                &&& q.name@ == match self {
                    Encoder::X264 => "x264"@,
                    Encoder::X265 => "x265"@,
                    _ => "vvenc"@,
                }
                &&& q.marker is None <==> self is X264
                &&& q.marker matches Some(m) ==> m@ == "version "@
            },
    {
        match self {
            Encoder::X264 => Some(
                VersionQuery { prog: "x264".to_owned(), name: "x264".to_owned(), marker: None },
            ),
            Encoder::X265 => Some(
                VersionQuery {
                    prog: "x265".to_owned(),
                    name: "x265".to_owned(),
                    marker: Some("version ".to_owned()),
                },
            ),
            Encoder::Vvenc => if build.vvenc {
                None
            } else {
                Some(
                    VersionQuery {
                        prog: "vvencFFapp".to_owned(),
                        name: "vvenc".to_owned(),
                        marker: Some("version ".to_owned()),
                    },
                )
            },
            _ => None,
        }
    }

    /// Its name and version, given what the program of `version_query` printed.
    pub fn version(
        self,
        build: Build,
        versions: &Versions,
        out: Option<&ProgramOutput>,
    ) -> (r: String)
        requires
            self is Avm ==> build.avm,
        ensures
            r@ == version_text(self, build, versions, out),
    {
        match self {
            Encoder::SvtAv1 => labelled("SVT-AV1 v", versions.svt.as_str()),
            Encoder::Avm => labelled("AVM v", versions.avm.as_str()),
            Encoder::X264 => run_version(out, "x264", None),
            Encoder::X265 => run_version(out, "x265", Some("version ")),
            Encoder::Vvenc => if build.vvenc {
                labelled("vvenc v", versions.vvenc.as_str())
            } else {
                run_version(out, "vvenc", Some("version "))
            },
        }
    }
}

/// The name and version of an encoder.
pub open spec fn version_text(
    e: Encoder,
    build: Build,
    versions: &Versions,
    out: Option<&ProgramOutput>,
) -> Seq<char> {
    match e {
        Encoder::SvtAv1 => "SVT-AV1 v"@ + versions.svt@,
        Encoder::Avm => "AVM v"@ + versions.avm@,
        Encoder::X264 => reported(out, "x264"@, None),
        Encoder::X265 => reported(out, "x265"@, Some("version "@)),
        Encoder::Vvenc => if build.vvenc {
            "vvenc v"@ + versions.vvenc@
        } else {
            reported(out, "vvenc"@, Some("version "@))
        },
    }
}

fn labelled(label: &str, t: &str) -> (r: String)
    ensures
        r@ == label@ + t@,
{
    let mut r = label.to_owned();
    r.append(t);
    r
}

impl Build {
    /// Whether the encoder runs inside the process.
    pub fn is_lib_enc(self, encoder: Encoder) -> (r: bool)
        ensures
            r == in_process(self, encoder),
    {
        match encoder {
            Encoder::SvtAv1 | Encoder::Avm => true,
            Encoder::Vvenc => self.vvenc,
            _ => false,
        }
    }
}

/// Whether the encoder runs inside the process.
pub open spec fn in_process(build: Build, e: Encoder) -> bool {
    e is SvtAv1 || e is Avm || (e is Vvenc && build.vvenc)
}

/// Different encoders have different Matroska identifiers.
pub proof fn law_codec_ids_differ(a: Encoder, b: Encoder)
    requires
        codec_id_text(a) == codec_id_text(b),
    ensures
        a == b,
{
    reveal_strlit("V_AV1");
    reveal_strlit("V_AV2");
    reveal_strlit("V_MPEGI/ISO/VVC");
    reveal_strlit("V_MPEGH/ISO/HEVC");
    reveal_strlit("V_MPEG4/ISO/AVC");
    assert("V_AV1"@[4] == '1' && "V_AV2"@[4] == '2');
    assert("V_MPEGI/ISO/VVC"@[6] == 'I');
    assert("V_MPEG4/ISO/AVC"@[6] == '4');
}

/// Every encoder has a file extension of three ASCII characters.
pub proof fn law_extension_is_short(e: Encoder)
    ensures
        extension_text(e).len() == 3,
        is_ascii_chars(extension_text(e)),
{
    reveal_strlit("obu");
    reveal_strlit("266");
    reveal_strlit("265");
    reveal_strlit("264");
}


proof fn lemma_variants_lowered()
    ensures
        ascii_lowered("Avm"@) == "avm"@,
        ascii_lowered("Vvenc"@) == "vvenc"@,
        ascii_lowered("X265"@) == "x265"@,
        ascii_lowered("X264"@) == "x264"@,
        ascii_lowered("SvtAv1"@) == "svt-av1"@.remove(3),
        "svt-av1"@.len() == 7 && "svt-av1"@[0] == 's' && "svt-av1"@[3] == '-',
        "avm"@.len() == 3 && "avm"@[0] == 'a',
        "vvenc"@.len() == 5 && "vvenc"@[0] == 'v',
        "x265"@.len() == 4 && "x265"@[3] == '5',
        "x264"@.len() == 4 && "x264"@[3] == '4',
{
    reveal_strlit("Avm");
    reveal_strlit("Vvenc");
    reveal_strlit("X265");
    reveal_strlit("X264");
    reveal_strlit("SvtAv1");
    reveal_strlit("avm");
    reveal_strlit("vvenc");
    reveal_strlit("x265");
    reveal_strlit("x264");
    reveal_strlit("svt-av1");
    assert(ascii_lowered("Avm"@) =~= "avm"@);
    assert(ascii_lowered("Vvenc"@) =~= "vvenc"@);
    assert(ascii_lowered("X265"@) =~= "x265"@);
    assert(ascii_lowered("X264"@) =~= "x264"@);
    assert(ascii_lowered("SvtAv1"@) =~= "svt-av1"@.remove(3));
}

/// Every encoder that a build knows is found under its own name, in lower case and for SVT-AV1 with
/// a hyphen, and under no other; AVM is known only where it is linked in.
pub proof fn law_encoders_are_found_by_name(name: Seq<char>, e: Encoder, build: Build)
    ensures
        encoder_named(name, build) == Some(e) <==> {
            &&& e is Avm ==> build.avm
            &&& if e is SvtAv1 {
                name.len() == 7 && name[3] == '-' && name.remove(3) == ascii_lowered(
                    variant_text(e),
                )
            } else {
                name == ascii_lowered(variant_text(e))
            }
        },
{
    lemma_variants_lowered();
    if e is SvtAv1 && name.len() == 7 && name[3] == '-' && name.remove(3) == ascii_lowered(
        variant_text(e),
    ) {
        let n = "svt-av1"@;
        assert forall|k: int| 0 <= k < 7 implies name[k] == n[k] by {
            if k < 3 {
                assert(name.remove(3)[k] == n.remove(3)[k]);
            } else if k > 3 {
                assert(name.remove(3)[k - 1] == n.remove(3)[k - 1]);
            }
        }
        assert(name =~= n);
    }
}

/// A program is asked for its version exactly where the encoder does not run inside the process, and
/// under a name by which the encoder is found; all but x264 mark the version.
pub proof fn law_programs_are_asked_for_their_version(
    e: Encoder,
    build: Build,
    r: Option<VersionQuery>,
)
    requires
        call_ensures(Encoder::version_query, (e, build), r),
        e is Avm ==> build.avm,
    ensures
        r is None <==> in_process(build, e),
        r matches Some(q) ==> {
            &&& encoder_named(q.name@, build) == Some(e)
            &&& q.marker is None <==> e is X264
            &&& q.marker matches Some(m) ==> m@ == "version "@
            &&& q.name@ == q.prog@.take(q.name@.len() as int)
        },
{
    lemma_variants_lowered();
    reveal_strlit("vvencFFapp");
    reveal_strlit("vvenc");
    assert("vvencFFapp"@.take(5) =~= "vvenc"@);
    assert("x265"@.take(4) =~= "x265"@);
    assert("x264"@.take(4) =~= "x264"@);
}

/// The version of an encoder that runs inside the process ends with that of its own library; that of
/// a program that could not be asked is the name under which it was asked.
pub proof fn law_version_is_that_of_the_encoder(
    e: Encoder,
    build: Build,
    versions: &Versions,
    out: Option<&ProgramOutput>,
    q: Option<VersionQuery>,
    r: String,
)
    requires
        e is Avm ==> build.avm,
        call_ensures(Encoder::version_query, (e, build), q),
        call_ensures(Encoder::version, (e, build, versions, out), r),
    ensures
        q is None ==> {
            let v = match e {
                Encoder::SvtAv1 => versions.svt@,
                Encoder::Avm => versions.avm@,
                _ => versions.vvenc@,
            };
            v == r@.skip(r@.len() - v.len())
        },
        e is SvtAv1 ==> r@ == "SVT-AV1 v"@ + versions.svt@,
        e is Avm ==> r@ == "AVM v"@ + versions.avm@,
        e is Vvenc && build.vvenc ==> r@ == "vvenc v"@ + versions.vvenc@,
        q matches Some(query) ==> {
            &&& out is None ==> r@ == query.name@
            &&& out matches Some(o) ==> r@ == version_in_text(
                lossy_text(o.stdout@) + lossy_text(o.stderr@),
                query.name@,
                match query.marker {
                    Some(m) => Some(m@),
                    None => None,
                },
            )
        },
{
    let v = match e {
        Encoder::SvtAv1 => versions.svt@,
        Encoder::Avm => versions.avm@,
        _ => versions.vvenc@,
    };
    if q is None {
        assert(v =~= r@.skip(r@.len() - v.len()));
    }
}

/// With a marker the version is the first word behind it, on the first line that holds it.
pub proof fn law_version_stands_behind_its_marker(
    t: Seq<char>,
    name: Seq<char>,
    marker: Seq<char>,
    i: int,
)
    requires
        0 <= i < lines_of(t).len(),
        parted(lines_of(t)[i], marker) is Some,
        forall|k: int| 0 <= k < i ==> parted(#[trigger] lines_of(t)[k], marker) is None,
    ensures
        ({
            let found = words_of((parted(lines_of(t)[i], marker)->0).1);
            version_in_text(t, name, Some(marker)) == if found.len() > 0 {
                name + " "@ + found[0]
            } else {
                name
            }
        }),
{
    lemma_after_marker(lines_of(t), marker, i);
}

proof fn lemma_after_marker(ls: Seq<Seq<char>>, marker: Seq<char>, i: int)
    requires
        0 <= i < ls.len(),
        parted(ls[i], marker) is Some,
        forall|k: int| 0 <= k < i ==> parted(#[trigger] ls[k], marker) is None,
    ensures
        after_marker(ls, marker) == Some((parted(ls[i], marker)->0).1),
    decreases i,
{
    if i > 0 {
        assert(parted(ls[0], marker) is None);
        let rest = ls.drop_first();
        assert forall|k: int| 0 <= k < i - 1 implies parted(#[trigger] rest[k], marker) is None by {
            assert(rest[k] == ls[k + 1]);
        }
        lemma_after_marker(rest, marker, i - 1);
    }
}

/// Without a marker the version is the first line that is not blank, without the space around it.
pub proof fn law_version_is_the_first_line(t: Seq<char>, name: Seq<char>, i: int)
    requires
        0 <= i < lines_of(t).len(),
        trimmed(lines_of(t)[i]).len() > 0,
        forall|k: int| 0 <= k < i ==> trimmed(#[trigger] lines_of(t)[k]).len() == 0,
    ensures
        version_in_text(t, name, None) == trimmed(lines_of(t)[i]),
{
    lemma_first_line(lines_of(t), name, i);
}

proof fn lemma_first_line(ls: Seq<Seq<char>>, name: Seq<char>, i: int)
    requires
        0 <= i < ls.len(),
        trimmed(ls[i]).len() > 0,
        forall|k: int| 0 <= k < i ==> trimmed(#[trigger] ls[k]).len() == 0,
    ensures
        first_line(ls, name) == trimmed(ls[i]),
    decreases i,
{
    if i > 0 {
        assert(trimmed(ls[0]).len() == 0);
        let rest = ls.drop_first();
        assert forall|k: int| 0 <= k < i - 1 implies trimmed(#[trigger] rest[k]).len() == 0 by {
            assert(rest[k] == ls[k + 1]);
        }
        lemma_first_line(rest, name, i - 1);
    }
}

/// What is known of an encoder's format hangs together: the extension of its streams ends the name
/// of its format, and its Matroska identifier ends with the name's short form.
pub proof fn law_format_names_agree(e: Encoder)
    ensures
        ({
            let (name, ext, id) = (codec_name_text(e), extension_text(e), codec_id_text(e));
            if e is SvtAv1 || e is Avm {
                &&& ext == "obu"@
                &&& name.subrange(24, 27) == id.skip(2)
                &&& name[26] == if e is SvtAv1 {
                    '1'
                } else {
                    '2'
                }
            } else {
                let short = name.take(name.len() - 6);
                &&& name.skip(name.len() - 3) == ext
                &&& name[name.len() - 6] == '/'
                &&& id.skip(id.len() - short.len()) == short
                &&& e is X264 || e is X265 ==> variant_text(e).skip(1) == ext
                &&& e is Vvenc ==> short == "VVC"@
            }
        }),
{
    reveal_strlit("obu");
    reveal_strlit("266");
    reveal_strlit("265");
    reveal_strlit("264");
    reveal_strlit("V_AV1");
    reveal_strlit("V_AV2");
    reveal_strlit("V_MPEGI/ISO/VVC");
    reveal_strlit("V_MPEGH/ISO/HEVC");
    reveal_strlit("V_MPEG4/ISO/AVC");
    reveal_strlit("Alliance for Open Media AV1 Video codec");
    reveal_strlit("Alliance for Open Media AV2 Video codec");
    reveal_strlit("VVC/H.266");
    reveal_strlit("HEVC/H.265");
    reveal_strlit("AVC/H.264");
    reveal_strlit("VVC");
    reveal_strlit("X264");
    reveal_strlit("X265");
    let (name, ext, id) = (codec_name_text(e), extension_text(e), codec_id_text(e));
    if e is SvtAv1 || e is Avm {
        assert(name.subrange(24, 27) =~= id.skip(2));
    } else {
        let short = name.take(name.len() - 6);
        assert(name.skip(name.len() - 3) =~= ext);
        assert(id.skip(id.len() - short.len()) =~= short);
        if e is Vvenc {
            assert(short =~= "VVC"@);
        } else {
            assert(variant_text(e).skip(1) =~= ext);
        }
    }
}

/// The encoders of AV1, HEVC and AVC take fractions of a quantizer, those of AV2 and VVC do not.
pub proof fn law_whole_quantizers_are_of_the_newer_formats(e: Encoder, r: bool)
    requires
        call_ensures(Encoder::integer_qp, (e,), r),
    ensures
        r <==> codec_id_text(e) == "V_AV2"@ || codec_id_text(e) == "V_MPEGI/ISO/VVC"@,
{
    if codec_id_text(e) == codec_id_text(Encoder::Avm) {
        law_codec_ids_differ(e, Encoder::Avm);
    }
    if codec_id_text(e) == codec_id_text(Encoder::Vvenc) {
        law_codec_ids_differ(e, Encoder::Vvenc);
    }
}


/// The names of a format as bytes are those of the encoder, character by character, and so is the
/// extension of its streams.
pub proof fn law_format_names_are_handed_out(
    e: Encoder,
    ext: &'static str,
    id: &'static [u8],
    name: &'static [u8],
    i: int,
)
    requires
        call_ensures(Encoder::extension, (e,), ext),
        call_ensures(Encoder::codec_id, (e,), id),
        call_ensures(Encoder::codec_name, (e,), name),
    ensures
        ext@ == extension_text(e),
        id@.len() == codec_id_text(e).len(),
        name@.len() == codec_name_text(e).len(),
        0 <= i < id@.len() ==> id@[i] == codec_id_text(e)[i] as u8,
        0 <= i < name@.len() ==> name@[i] == codec_name_text(e)[i] as u8,
{
}

} // verus!
