//! The progress of encoders that run as programs, and the lines that show it.
use vstd::prelude::*;
use vstd::utf8::{decode_utf8, encode_utf8, valid_utf8};

use crate::num::{
    all_digits, decimal, digits_value, is_digit, law_decimal_reads_back, lemma_decimal_digits,
    lemma_zero_padded, pad_left, parse_usize, push_right_aligned, push_zero_padded, usize_of,
    zero_padded,
};
use crate::text::{
    contains, find_from, from_utf8, gives, is_free_of, is_space, is_word, law_trimmed_cuts_white_space,
    law_words_hold_no_white_space, law_words_of_both, lemma_first_piece, lemma_gives_here,
    lemma_gives_more, pieces, pieces_of, starts_with, texts, trim, trimmed, words, words_of,
};

verus! {

/// The cells of a progress bar.
pub const BAR_WIDTH: usize = 20;

/// The milliseconds between two updates of a line.
pub const INTERVAL_MS: u64 = 512;

/// The bytes that are kept of what a program prints.
pub const READ_CAP: usize = 8192;

/// The bytes that a line can hold.
pub const LINE_CAP: usize = 512;

/// Nothing is shown.
pub const TAG_EMPTY: u32 = 0;

/// An encoder inside the process is shown.
pub const TAG_LIB: u32 = 1;

/// A metric is shown.
pub const TAG_MET: u32 = 2;

/// A line of text is shown.
pub const TAG_TXT: u32 = 3;

/// The terminal sequences of the colours.
pub struct Palette {
    pub b: String,
    pub c: String,
    pub g: String,
    pub n: String,
    pub p: String,
    pub r: String,
    pub w: String,
    pub y: String,
}

/// At most the first `cap` bytes.
pub open spec fn capped(s: Seq<u8>, cap: int) -> Seq<u8> {
    if s.len() <= cap {
        s
    } else {
        s.take(cap)
    }
}

/// A line of bytes, which holds no more than its capacity.
pub struct Line {
    pub buf: Vec<u8>,
}

impl Line {
    /// The bytes fit.
    pub open spec fn wf(self) -> bool {
        self.buf@.len() <= LINE_CAP
    }

    /// An empty line.
    pub fn new() -> (r: Line)
        ensures
            r.wf(),
            r.buf@ == Seq::<u8>::empty(),
    {
        Line { buf: Vec::new() }
    }

    /// Appends the bytes of a text as far as they fit.
    pub fn write_str(&mut self, s: &str)
        requires
            old(self).wf(),
        ensures
            final(self).wf(),
            final(self).buf@ == capped(old(self).buf@ + encode_utf8(s@), LINE_CAP as int),
    {
        let b = s.as_bytes();
        let room: usize = LINE_CAP - self.buf.len();
        let n: usize = if b.len() < room {
            b.len()
        } else {
            room
        };
        let mut i: usize = 0;
        assert(b@.take(0) =~= seq![]);
        assert(self.buf@ =~= old(self).buf@ + b@.take(0));
        while i < n
            invariant
                i <= n <= b@.len(),
                self.buf@ == old(self).buf@ + b@.take(i as int),
            decreases n - i,
        {
            self.buf.push(b[i]);
            i = i + 1;
            assert(b@.take(i as int) =~= b@.take(i - 1).push(b@[i - 1]));
            assert(self.buf@ =~= old(self).buf@ + b@.take(i as int));
        }
        assert(self.buf@ =~= capped(old(self).buf@ + b@, LINE_CAP as int));
    }
}

/// Writing one text after another leaves the same line as writing them together.
pub proof fn law_line_writes_add_up(a: Seq<u8>, b: Seq<u8>, c: Seq<u8>, cap: int)
    requires
        cap >= 0,
    ensures
        capped(capped(a + b, cap) + c, cap) == capped(a + (b + c), cap),
{
    assert(capped(capped(a + b, cap) + c, cap) =~= capped(a + (b + c), cap));
}

/// A quality and the score of the probe before, each as it is shown.
pub struct CrfScore {
    pub crf: String,
    pub score: Option<String>,
}

/// The label of a chunk.
pub open spec fn tag_text(pal: &Palette, idx: u16, cs: Option<&CrfScore>) -> Seq<char> {
    let c = pal.c@;
    match cs {
        Some(s) => c + "["@ + zero_padded(idx as nat, 4) + " / F "@ + s.crf@ + " / "@ + (match s.score {
            Some(t) => t@,
            None => "     "@,
        }) + c + "]"@,
        None => c + "["@ + zero_padded(idx as nat, 4) + c + "]"@,
    }
}

/// Appends the label of a chunk.
pub fn write_tag(s: &mut String, pal: &Palette, idx: u16, cs: Option<&CrfScore>)
    ensures
        final(s)@ == old(s)@ + tag_text(pal, idx, cs),
{
    s.append(pal.c.as_str());
    s.append("[");
    push_zero_padded(s, idx as u64, 4);
    if let Some(q) = cs {
        s.append(" / F ");
        s.append(q.crf.as_str());
        s.append(" / ");
        match &q.score {
            Some(t) => {
                s.append(t.as_str());
            },
            None => {
                s.append("     ");
            },
        }
    }
    s.append(pal.c.as_str());
    s.append("]");
    assert(s@ =~= old(s)@ + tag_text(pal, idx, cs));
}

/// A text written `n` times.
pub open spec fn repeated(t: Seq<char>, n: nat) -> Seq<char>
    decreases n,
{
    if n == 0 {
        seq![]
    } else {
        repeated(t, (n - 1) as nat) + t
    }
}

/// A progress bar: filled cells, then empty ones up to its width.
pub open spec fn bar_text(filled: nat, hash: Seq<char>, dash: Seq<char>) -> Seq<char> {
    repeated(hash, filled) + repeated(
        dash,
        if filled <= BAR_WIDTH {
            (BAR_WIDTH - filled) as nat
        } else {
            0
        },
    )
}

fn push_repeated(s: &mut String, t: &str, n: usize)
    ensures
        final(s)@ == old(s)@ + repeated(t@, n as nat),
{
    let mut i: usize = 0;
    assert(s@ =~= old(s)@ + repeated(t@, 0));
    while i < n
        invariant
            i <= n,
            s@ == old(s)@ + repeated(t@, i as nat),
        decreases n - i,
    {
        s.append(t);
        i = i + 1;
        assert(s@ =~= old(s)@ + repeated(t@, i as nat));
    }
}

/// Appends a progress bar.
pub fn write_bar(s: &mut String, filled: usize, hash: &str, dash: &str)
    ensures
        final(s)@ == old(s)@ + bar_text(filled as nat, hash@, dash@),
{
    push_repeated(s, hash, filled);
    if filled <= BAR_WIDTH {
        push_repeated(s, dash, BAR_WIDTH - filled);
    }
    assert(s@ =~= old(s)@ + bar_text(filled as nat, hash@, dash@));
}

/// The bytes up to the first delimiter, where there is one.
pub open spec fn first_delim(s: Seq<u8>, delim: u8) -> int
    decreases s.len(),
{
    if s.len() == 0 || s[0] == delim {
        0
    } else {
        1 + first_delim(s.drop_first(), delim)
    }
}

proof fn lemma_first_delim(s: Seq<u8>, delim: u8)
    ensures
        0 <= first_delim(s, delim) <= s.len(),
        forall|k: int| 0 <= k < first_delim(s, delim) ==> s[k] != delim,
        first_delim(s, delim) < s.len() ==> s[first_delim(s, delim)] == delim,
    decreases s.len(),
{
    if s.len() > 0 && s[0] != delim {
        lemma_first_delim(s.drop_first(), delim);
        assert forall|k: int| 0 <= k < first_delim(s, delim) implies s[k] != delim by {
            if k > 0 {
                assert(s[k] == s.drop_first()[k - 1]);
            }
        }
    }
}

/// Takes what a program prints apart at delimiters.
pub struct LineReader {
    pub acc: Vec<u8>,
    pub start: usize,
    pub delim: u8,
}

impl LineReader {
    /// What was read fits, and what was handed out was read.
    pub open spec fn wf(self) -> bool {
        self.start <= self.acc@.len() <= READ_CAP
    }

    /// What was read and not handed out.
    pub open spec fn pending(self) -> Seq<u8> {
        self.acc@.skip(self.start as int)
    }

    /// A reader that has read nothing.
    pub fn new(delim: u8) -> (r: LineReader)
        ensures
            r.wf(),
            r.start == 0,
            r.pending() == Seq::<u8>::empty(),
            r.delim == delim,
    {
        let r = LineReader { acc: Vec::new(), start: 0, delim };
        assert(r.pending() =~= Seq::<u8>::empty());
        r
    }

    /// How many bytes can be read.
    pub fn room(&self) -> (n: usize)
        requires
            self.wf(),
        ensures
            n == READ_CAP - self.acc@.len(),
    {
        READ_CAP - self.acc.len()
    }

    /// Takes what a read gave; says whether it gave anything.
    pub fn fill(&mut self, read: &[u8]) -> (more: bool)
        requires
            old(self).wf(),
            read@.len() <= READ_CAP - old(self).acc@.len(),
        ensures
            final(self).wf(),
            more == (read@.len() > 0),
            final(self).start == old(self).start,
            final(self).delim == old(self).delim,
            final(self).pending() == old(self).pending() + read@,
    {
        if read.len() == 0 {
            assert(self.pending() =~= self.pending() + read@);
            return false;
        }
        self.acc.extend_from_slice(read);
        assert(self.acc@ =~= old(self).acc@ + read@);
        assert(self.pending() =~= old(self).pending() + read@);
        true
    }

    /// The next record, without its delimiter. When none is complete, what is left moves to the
    /// front, and is dropped where it fills the whole reader.
    pub fn next_buffered(&mut self) -> (r: Option<Vec<u8>>)
        requires
            old(self).wf(),
        ensures
            final(self).wf(),
            final(self).delim == old(self).delim,
            match r {
                Some(rec) => {
                    let k = first_delim(old(self).pending(), old(self).delim);
                    &&& k < old(self).pending().len()
                    &&& rec@ == old(self).pending().take(k)
                    &&& final(self).pending() == old(self).pending().skip(k + 1)
                },
                None => {
                    &&& first_delim(old(self).pending(), old(self).delim) == old(
                        self,
                    ).pending().len()
                    &&& final(self).start == 0
                    &&& final(self).pending() == if old(self).pending().len() == READ_CAP {
                        seq![]
                    } else {
                        old(self).pending()
                    }
                    &&& final(self).acc@.len() < READ_CAP
                },
            },
    {
        let n: usize = self.acc.len();
        let mut i: usize = self.start;
        let mut rec: Vec<u8> = Vec::new();
        let ghost p = self.pending();
        proof {
            lemma_first_delim(p, self.delim);
        }
        while i < n
            invariant
                *self == *old(self),
                self.wf(),
                n == self.acc@.len(),
                self.start <= i <= n,
                p == self.pending(),
                forall|k: int| 0 <= k < i - self.start ==> p[k] != self.delim,
                rec@ == p.take(i - self.start),
                0 <= first_delim(p, self.delim) <= p.len(),
                forall|k: int| 0 <= k < first_delim(p, self.delim) ==> p[k] != self.delim,
                first_delim(p, self.delim) < p.len() ==> p[first_delim(p, self.delim)]
                    == self.delim,
            decreases n - i,
        {
            let b = self.acc[i];
            assert(b == p[i - self.start]);
            if b == self.delim {
                let ghost k = i - self.start;
                assert(first_delim(p, self.delim) == k);
                self.start = i + 1;
                assert(self.pending() =~= p.skip(k + 1));
                return Some(rec);
            }
            rec.push(b);
            i = i + 1;
            assert(rec@ =~= p.take(i - self.start));
        }
        assert(rec@ =~= p);
        assert(first_delim(p, self.delim) == p.len());
        if rec.len() == READ_CAP {
            rec = Vec::new();
        }
        self.acc = rec;
        self.start = 0;
        assert(self.pending() =~= self.acc@);
        None
    }

    /// All records that are complete, in order.
    pub fn drain(&mut self) -> (r: Vec<Vec<u8>>)
        requires
            old(self).wf(),
        ensures
            final(self).wf(),
            final(self).delim == old(self).delim,
            final(self).start == 0,
            final(self).acc@.len() < READ_CAP,
            contents(r@) == records_of(old(self).pending(), old(self).delim),
            final(self).pending() == if rest_of(old(self).pending(), old(self).delim).len()
                == READ_CAP {
                seq![]
            } else {
                rest_of(old(self).pending(), old(self).delim)
            },
    {
        let mut out: Vec<Vec<u8>> = Vec::new();
        let ghost d = self.delim;
        let ghost all = records_of(self.pending(), d);
        let ghost rest = rest_of(self.pending(), d);
        assert(contents(out@) =~= seq![]);
        assert(contents(out@) + all =~= all);
        loop
            invariant
                self.wf(),
                self.delim == d,
                all == contents(out@) + records_of(self.pending(), d),
                rest == rest_of(self.pending(), d),
                all == records_of(old(self).pending(), old(self).delim),
                rest == rest_of(old(self).pending(), old(self).delim),
                d == old(self).delim,
            decreases self.pending().len(),
        {
            let ghost p = self.pending();
            let ghost before = contents(out@);
            proof {
                lemma_first_delim(p, d);
            }
            match self.next_buffered() {
                Some(rec) => {
                    let ghost k = first_delim(p, d);
                    out.push(rec);
                    assert(contents(out@) =~= before.push(p.take(k)));
                    assert(before + records_of(p, d) =~= contents(out@) + records_of(
                        self.pending(),
                        d,
                    ));
                },
                None => {
                    assert(records_of(p, d) =~= seq![]);
                    assert(all =~= contents(out@));
                    return out;
                },
            }
        }
    }
}

/// The bytes of each record.
pub open spec fn contents(v: Seq<Vec<u8>>) -> Seq<Seq<u8>> {
    v.map_values(|r: Vec<u8>| r@)
}

/// The records that delimiters end.
pub open spec fn records_of(s: Seq<u8>, delim: u8) -> Seq<Seq<u8>>
    decreases s.len(),
{
    let k = first_delim(s, delim);
    if 0 <= k < s.len() {
        seq![s.take(k)] + records_of(s.skip(k + 1), delim)
    } else {
        seq![]
    }
}

/// What stands behind the last delimiter.
pub open spec fn rest_of(s: Seq<u8>, delim: u8) -> Seq<u8>
    decreases s.len(),
{
    let k = first_delim(s, delim);
    if 0 <= k < s.len() {
        rest_of(s.skip(k + 1), delim)
    } else {
        s
    }
}

/// What a program prints is taken apart into the same records whether it is read in one piece or
/// in two.
pub proof fn law_records_do_not_depend_on_reads(a: Seq<u8>, b: Seq<u8>, delim: u8)
    ensures
        records_of(a + b, delim) == records_of(a, delim) + records_of(rest_of(a, delim) + b, delim),
        rest_of(a + b, delim) == rest_of(rest_of(a, delim) + b, delim),
    decreases a.len(),
{
    lemma_first_delim(a, delim);
    lemma_first_delim(a + b, delim);
    let k = first_delim(a, delim);
    let j = first_delim(a + b, delim);
    if k < a.len() {
        assert((a + b)[k] == delim);
        if j < k {
            assert((a + b)[j] == a[j]);
        }
        if j > k {
            assert((a + b)[k] != delim);
        }
        assert(j == k);
        assert((a + b).take(k) =~= a.take(k));
        assert((a + b).skip(k + 1) =~= a.skip(k + 1) + b);
        law_records_do_not_depend_on_reads(a.skip(k + 1), b, delim);
        assert(records_of(a + b, delim) =~= records_of(a, delim) + records_of(
            rest_of(a, delim) + b,
            delim,
        ));
    } else {
        assert(records_of(a, delim) =~= seq![]);
        assert(records_of(a + b, delim) =~= records_of(a, delim) + records_of(a + b, delim));
    }
}

/// What is shown for one worker.
pub struct Watch {
    pub worker_id: usize,
    pub chnk_idx: u16,
    pub frames: usize,
    pub track_frames: bool,
    pub crf_score: Option<CrfScore>,
}

/// The quality and score of a watch.
pub open spec fn score_of(w: &Watch) -> Option<&CrfScore> {
    match &w.crf_score {
        Some(c) => Some(c),
        None => None,
    }
}

/// An update: the line to show, and how many frames it adds to those of the run.
pub struct Update {
    pub line: Line,
    pub processed: usize,
}

/// The larger of two numbers.
pub open spec fn larger(a: nat, b: nat) -> nat {
    if a >= b {
        a
    } else {
        b
    }
}

/// The smaller of two numbers.
pub open spec fn smaller(a: nat, b: nat) -> nat {
    if a <= b {
        a
    } else {
        b
    }
}

/// Whether enough time has passed since the last update.
pub fn due(elapsed_ms: u64) -> (r: bool)
    ensures
        r == (elapsed_ms >= INTERVAL_MS),
{
    elapsed_ms >= INTERVAL_MS
}

/// The text of a record, trimmed, where it is UTF-8.
pub open spec fn record_text(rec: Seq<u8>) -> Option<Seq<char>> {
    if valid_utf8(rec) {
        Some(trimmed(decode_utf8(rec)))
    } else {
        None
    }
}

/// What is known of a VVenC program from what it printed.
pub struct VvencWatch {
    pub poc_cnt: usize,
    pub last_poc: usize,
}

/// Whether a text speaks of an error.
pub open spec fn speaks_of_error(t: Seq<char>) -> bool {
    find_from(t, "error"@, 0) is Some || find_from(t, "Error"@, 0) is Some
}

/// Whether a record tells of a picture.
pub open spec fn tells_of_picture(rec: Seq<u8>) -> bool {
    record_text(rec) matches Some(t) && "POC"@.is_prefix_of(t)
}

/// How many records tell of a picture.
pub open spec fn pictures_in(recs: Seq<Seq<u8>>) -> nat
    decreases recs.len(),
{
    if recs.len() == 0 {
        0
    } else {
        pictures_in(recs.drop_last()) + if tells_of_picture(recs.last()) {
            1nat
        } else {
            0nat
        }
    }
}

/// The texts of the records that speak of an error.
pub open spec fn errors_in(recs: Seq<Seq<u8>>) -> Seq<Seq<char>>
    decreases recs.len(),
{
    if recs.len() == 0 {
        seq![]
    } else {
        match record_text(recs.last()) {
            Some(t) => if speaks_of_error(t) {
                errors_in(recs.drop_last()).push(t)
            } else {
                errors_in(recs.drop_last())
            },
            None => errors_in(recs.drop_last()),
        }
    }
}

proof fn lemma_records_len(s: Seq<u8>, delim: u8)
    ensures
        records_of(s, delim).len() <= s.len(),
    decreases s.len(),
{
    lemma_first_delim(s, delim);
    let k = first_delim(s, delim);
    if k < s.len() {
        lemma_records_len(s.skip(k + 1), delim);
    }
}

proof fn lemma_pictures_len(recs: Seq<Seq<u8>>)
    ensures
        pictures_in(recs) <= recs.len(),
    decreases recs.len(),
{
    if recs.len() > 0 {
        lemma_pictures_len(recs.drop_last());
    }
}

/// The cells of a bar that are filled when `done` of `all` frames are done.
pub open spec fn cells_of(done: nat, all: nat) -> nat {
    smaller(BAR_WIDTH as nat * done / larger(all, 1), BAR_WIDTH as nat)
}

/// The share of frames that are done, in percent.
pub open spec fn percent_of(done: nat, all: nat) -> nat {
    done * 100 / larger(all, 1)
}

/// What an update leaves as the frames of the last one, and how many frames it adds to those of the
/// run.
pub open spec fn step_of(last: usize, now: usize, counted: bool) -> (usize, int) {
    if !counted {
        (last, 0)
    } else if now > last {
        (now, now - last)
    } else {
        (now, 0)
    }
}

/// The line that shows VVenC.
pub open spec fn vvenc_line(pal: &Palette, w: &Watch, poc: nat, fps: Seq<char>) -> Seq<char> {
    let tot = larger(w.frames as nat, poc);
    let filled = cells_of(poc, tot);
    let perc = smaller(percent_of(poc, tot), 100);
    tag_text(pal, w.chnk_idx, score_of(w)) + " "@ + pal.p@ + "["@ + bar_text(
        filled,
        "\x1b[1;94m#"@,
        "\x1b[1;93m-"@,
    ) + pal.p@ + "] "@ + pal.w@ + pad_left(decimal(perc), ' ', 3) + "%"@ + pal.c@ + ", "@ + pal.y@
        + fps + pal.c@ + ", "@ + pal.g@ + pad_left(decimal(poc), ' ', 3) + pal.c@ + "/"@ + pal.r@
        + pad_left(decimal(tot), ' ', 3)
}

impl VvencWatch {
    /// The counts are small enough for percentages.
    pub open spec fn wf(self) -> bool {
        self.poc_cnt * 100 <= usize::MAX && self.last_poc <= self.poc_cnt
    }

    /// Nothing was printed.
    pub fn new() -> (r: VvencWatch)
        ensures
            r.wf(),
            r.poc_cnt == 0,
            r.last_poc == 0,
    {
        VvencWatch { poc_cnt: 0, last_poc: 0 }
    }

    /// Takes a record: counts it where it tells of a picture, and gives its text where it speaks
    /// of an error.
    pub fn record(&mut self, rec: &[u8]) -> (r: Option<String>)
        requires
            old(self).wf(),
            (old(self).poc_cnt + 1) * 100 <= usize::MAX,
        ensures
            final(self).wf(),
            final(self).last_poc == old(self).last_poc,
            final(self).poc_cnt == old(self).poc_cnt + if tells_of_picture(rec@) {
                1int
            } else {
                0int
            },
            match r {
                Some(e) => record_text(rec@) == Some(e@) && speaks_of_error(e@),
                None => record_text(rec@) matches Some(t) ==> !speaks_of_error(t),
            },
    {
        let raw = match from_utf8(rec) {
            Some(s) => s,
            None => {
                return None;
            },
        };
        let text = trim(raw.as_str());
        if starts_with(text.as_str(), "POC") {
            self.poc_cnt = self.poc_cnt + 1;
        }
        if contains(text.as_str(), "error") || contains(text.as_str(), "Error") {
            Some(text)
        } else {
            None
        }
    }

    /// Takes what a read gave: counts the pictures in the records that are complete, and gives the
    /// texts that are to be printed; nothing where the program has ended. The start of a record
    /// stays in the reader, but for one that fills it.
    pub fn feed(&mut self, lr: &mut LineReader, read: &[u8]) -> (r: Option<Vec<String>>)
        requires
            old(self).wf(),
            old(lr).wf(),
            read@.len() <= READ_CAP - old(lr).acc@.len(),
            (old(self).poc_cnt + READ_CAP) * 100 <= usize::MAX,
        ensures
            final(self).wf(),
            final(lr).wf(),
            final(lr).delim == old(lr).delim,
            final(self).last_poc == old(self).last_poc,
            r is None <==> read@.len() == 0,
            match r {
                None => {
                    &&& final(self).poc_cnt == old(self).poc_cnt
                    &&& final(lr).start == old(lr).start
                    &&& final(lr).pending() == old(lr).pending()
                },
                Some(printed) => {
                    let all = old(lr).pending() + read@;
                    let recs = records_of(all, old(lr).delim);
                    let rest = rest_of(all, old(lr).delim);
                    &&& final(self).poc_cnt == old(self).poc_cnt + pictures_in(recs)
                    &&& texts(printed@) == errors_in(recs)
                    &&& final(lr).start == 0
                    &&& final(lr).pending() == if rest.len() == READ_CAP {
                        seq![]
                    } else {
                        rest
                    }
                },
            },
    {
        if !lr.fill(read) {
            assert(lr.pending() =~= old(lr).pending());
            return None;
        }
        let ghost recs = records_of(lr.pending(), lr.delim);
        proof {
            lemma_records_len(lr.pending(), lr.delim);
        }
        let v = lr.drain();
        let n: usize = v.len();
        assert(contents(v@).len() == n);
        let mut printed: Vec<String> = Vec::new();
        let mut i: usize = 0;
        assert(recs.take(0) =~= seq![]);
        assert(texts(printed@) =~= seq![]);
        while i < n
            invariant
                n == v@.len(),
                i <= n,
                n <= READ_CAP,
                recs == contents(v@),
                (old(self).poc_cnt + READ_CAP) * 100 <= usize::MAX,
                self.wf(),
                self.last_poc == old(self).last_poc,
                self.poc_cnt == old(self).poc_cnt + pictures_in(recs.take(i as int)),
                texts(printed@) == errors_in(recs.take(i as int)),
            decreases n - i,
        {
            assert(recs.take(i + 1).drop_last() =~= recs.take(i as int));
            assert(recs.take(i + 1).last() == v@[i as int]@);
            proof {
                lemma_pictures_len(recs.take(i as int));
            }
            if let Some(t) = self.record(v[i].as_slice()) {
                let ghost before = texts(printed@);
                let ghost t0 = t@;
                printed.push(t);
                assert(texts(printed@) =~= before.push(t0));
            }
            i = i + 1;
        }
        assert(recs.take(i as int) =~= recs);
        Some(printed)
    }

    /// The line to show, given the frames per second as they are shown, and the frames since the
    /// last one where they are counted.
    pub fn update(&mut self, pal: &Palette, w: &Watch, fps: &str) -> (u: Update)
        requires
            old(self).wf(),
        ensures
            final(self).wf(),
            final(self).poc_cnt == old(self).poc_cnt,
            (final(self).last_poc, u.processed as int) == step_of(
                old(self).last_poc,
                old(self).poc_cnt,
                w.track_frames,
            ),
            u.line.buf@ == capped(
                encode_utf8(vvenc_line(pal, w, old(self).poc_cnt as nat, fps@)),
                LINE_CAP as int,
            ),
    {
        let poc: usize = self.poc_cnt;
        let tot: usize = if w.frames >= poc {
            w.frames
        } else {
            poc
        };
        let base: usize = if tot >= 1 {
            tot
        } else {
            1
        };
        let cells: usize = BAR_WIDTH * poc / base;
        let filled: usize = if cells <= BAR_WIDTH {
            cells
        } else {
            BAR_WIDTH
        };
        let hundredths: usize = poc * 100 / base;
        let perc: usize = if hundredths <= 100 {
            hundredths
        } else {
            100
        };
        let mut s = String::new();
        write_tag(
            &mut s,
            pal,
            w.chnk_idx,
            match &w.crf_score {
                Some(c) => Some(c),
                None => None,
            },
        );
        s.append(" ");
        s.append(pal.p.as_str());
        s.append("[");
        write_bar(&mut s, filled, "\x1b[1;94m#", "\x1b[1;93m-");
        s.append(pal.p.as_str());
        s.append("] ");
        s.append(pal.w.as_str());
        push_right_aligned(&mut s, perc as u64, 3);
        s.append("%");
        s.append(pal.c.as_str());
        s.append(", ");
        s.append(pal.y.as_str());
        s.append(fps);
        s.append(pal.c.as_str());
        s.append(", ");
        s.append(pal.g.as_str());
        push_right_aligned(&mut s, poc as u64, 3);
        s.append(pal.c.as_str());
        s.append("/");
        s.append(pal.r.as_str());
        push_right_aligned(&mut s, tot as u64, 3);
        assert(s@ =~= vvenc_line(pal, w, poc as nat, fps@));
        let mut line = Line::new();
        line.write_str(s.as_str());
        assert(Seq::<u8>::empty() + encode_utf8(s@) =~= encode_utf8(s@));
        let mut processed: usize = 0;
        if w.track_frames {
            processed = self.poc_cnt - self.last_poc;
            self.last_poc = self.poc_cnt;
        }
        Update { line, processed }
    }
}

/// What follows a record of x264 or x265.
pub enum X265Event {
    /// Nothing.
    Pass,
    /// Its text is printed.
    Print(String),
    /// The time of the last update is now, and its text may hold the counts.
    Update(String),
}

/// What follows a record of x264 or x265.
pub open spec fn x265_event(e: X265Event, rec: Seq<u8>, due: bool) -> bool {
    match record_text(rec) {
        None => e is Pass,
        Some(t) => if t.len() == 0 {
            e is Pass
        } else if !"["@.is_prefix_of(t) {
            if "encoded"@.is_prefix_of(t) {
                e is Pass
            } else {
                e matches X265Event::Print(s) && s@ == t
            }
        } else if !due {
            e is Pass
        } else {
            e matches X265Event::Update(s) && s@ == t
        },
    }
}

/// What follows a record of x264 or x265; `due` is whether enough time has passed.
pub fn x265_record(rec: &[u8], due: bool) -> (e: X265Event)
    ensures
        x265_event(e, rec@, due),
{
    let raw = match from_utf8(rec) {
        Some(s) => s,
        None => {
            return X265Event::Pass;
        },
    };
    let text = trim(raw.as_str());
    if text.as_str().is_empty() {
        return X265Event::Pass;
    }
    if !starts_with(text.as_str(), "[") {
        if !starts_with(text.as_str(), "encoded") {
            return X265Event::Print(text);
        }
        return X265Event::Pass;
    }
    if !due {
        return X265Event::Pass;
    }
    X265Event::Update(text)
}

/// The counts in a record: the frames so far, and the texts of the frames and of the kilobits per
/// second.
pub struct X265Counts {
    pub cur: usize,
    pub fps: String,
    pub kbps: String,
}

/// The first word of a text.
pub open spec fn first_word(t: Seq<char>) -> Option<Seq<char>> {
    if words_of(t).len() > 0 {
        Some(words_of(t)[0])
    } else {
        None
    }
}

/// The counts in a record such as `[12.5%] 30/240 frames, 25.10 fps, 900.00 kb/s`.
pub open spec fn counts_of(s: Seq<char>) -> Option<(usize, Seq<char>, Seq<char>)> {
    let behind = pieces_of(s, ']');
    if behind.len() < 2 {
        None
    } else {
        let parts = pieces_of(behind[1], ',');
        match usize_of(trimmed(pieces_of(trimmed(parts[0]), '/')[0])) {
            None => None,
            Some(cur) => if parts.len() < 3 {
                None
            } else {
                match (first_word(parts[1]), first_word(parts[2])) {
                    (Some(f), Some(k)) => Some((cur, f, k)),
                    _ => None,
                }
            },
        }
    }
}

/// Reads the counts in a record; whether the two texts are numbers is not looked at.
pub fn parse_x265(s: &str) -> (r: Option<X265Counts>)
    ensures
        match r {
            Some(c) => counts_of(s@) == Some((c.cur, c.fps@, c.kbps@)),
            None => counts_of(s@) is None,
        },
{
    let behind = pieces(s, ']');
    if behind.len() < 2 {
        assert(texts(behind@).len() < 2);
        return None;
    }
    assert(texts(behind@)[1] == behind@[1]@);
    let parts = pieces(behind[1].as_str(), ',');
    assert(texts(parts@)[0] == parts@[0]@);
    let head = trim(parts[0].as_str());
    let count = pieces(head.as_str(), '/');
    assert(texts(count@)[0] == count@[0]@);
    let n = trim(count[0].as_str());
    let cur: usize = match parse_usize(n.as_str()) {
        Some(c) => c,
        None => {
            return None;
        },
    };
    if parts.len() < 3 {
        assert(texts(parts@).len() < 3);
        return None;
    }
    assert(texts(parts@)[1] == parts@[1]@);
    assert(texts(parts@)[2] == parts@[2]@);
    let f = words(parts[1].as_str());
    let k = words(parts[2].as_str());
    if f.len() == 0 || k.len() == 0 {
        assert(texts(f@).len() == f@.len() && texts(k@).len() == k@.len());
        return None;
    }
    assert(texts(f@)[0] == f@[0]@);
    assert(texts(k@)[0] == k@[0]@);
    Some(X265Counts { cur, fps: f[0].clone(), kbps: k[0].clone() })
}

/// The line that shows x264 or x265.
pub open spec fn x265_line(
    pal: &Palette,
    w: &Watch,
    cur: nat,
    fps: Seq<char>,
    kbps: Seq<char>,
) -> Seq<char> {
    let filled = cells_of(cur, w.frames as nat);
    tag_text(pal, w.chnk_idx, score_of(w)) + " "@ + pal.p@ + "["@ + bar_text(
        filled,
        "\x1b[1;94m#"@,
        "\x1b[1;93m-"@,
    ) + pal.p@ + "] "@ + pal.w@ + pad_left(decimal(percent_of(cur, w.frames as nat)), ' ', 3) + "% "@ + pal.y@
        + pad_left(decimal(cur), ' ', 3) + "/"@ + pad_left(decimal(w.frames as nat), ' ', 3) + " "@
        + pal.g@ + fps + " "@ + pal.w@ + "| "@ + pal.p@ + kbps + " kb/s"@
}

/// What is known of an x264 or x265 program: the frames at the last update.
pub struct X265Watch {
    pub last_frames: usize,
}

impl X265Watch {
    /// Nothing was printed.
    pub fn new() -> (r: X265Watch)
        ensures
            r.last_frames == 0,
    {
        X265Watch { last_frames: 0 }
    }

    /// The line to show, given the two numbers as they are shown, and the frames since the last
    /// one where they are counted.
    pub fn update(&mut self, pal: &Palette, w: &Watch, cur: usize, fps: &str, kbps: &str) -> (u:
        Update)
        requires
            cur * 100 <= usize::MAX,
        ensures
            (final(self).last_frames, u.processed as int) == step_of(
                old(self).last_frames,
                cur,
                w.track_frames,
            ),
            u.line.buf@ == capped(
                encode_utf8(x265_line(pal, w, cur as nat, fps@, kbps@)),
                LINE_CAP as int,
            ),
    {
        let base: usize = if w.frames >= 1 {
            w.frames
        } else {
            1
        };
        let cells: usize = BAR_WIDTH * cur / base;
        let filled: usize = if cells <= BAR_WIDTH {
            cells
        } else {
            BAR_WIDTH
        };
        let perc: usize = cur * 100 / base;
        let mut s = String::new();
        write_tag(
            &mut s,
            pal,
            w.chnk_idx,
            match &w.crf_score {
                Some(c) => Some(c),
                None => None,
            },
        );
        s.append(" ");
        s.append(pal.p.as_str());
        s.append("[");
        write_bar(&mut s, filled, "\x1b[1;94m#", "\x1b[1;93m-");
        s.append(pal.p.as_str());
        s.append("] ");
        s.append(pal.w.as_str());
        push_right_aligned(&mut s, perc as u64, 3);
        s.append("% ");
        s.append(pal.y.as_str());
        push_right_aligned(&mut s, cur as u64, 3);
        s.append("/");
        push_right_aligned(&mut s, w.frames as u64, 3);
        s.append(" ");
        s.append(pal.g.as_str());
        s.append(fps);
        s.append(" ");
        s.append(pal.w.as_str());
        s.append("| ");
        s.append(pal.p.as_str());
        s.append(kbps);
        s.append(" kb/s");
        assert(s@ =~= x265_line(pal, w, cur as nat, fps@, kbps@));
        let mut line = Line::new();
        line.write_str(s.as_str());
        assert(Seq::<u8>::empty() + encode_utf8(s@) =~= encode_utf8(s@));
        let mut processed: usize = 0;
        if w.track_frames {
            if cur > self.last_frames {
                processed = cur - self.last_frames;
            }
            self.last_frames = cur;
        }
        Update { line, processed }
    }
}

/// What one worker shows while an encoder or a metric runs inside the process.
#[derive(Clone, Copy, Debug, PartialEq, Eq, Structural)]
pub struct Slot {
    pub tag: u32,
    /// 1 when the frames count for the run.
    pub cnt: u32,
    pub enced: usize,
    pub flu: usize,
    pub tot: usize,
    pub idx: usize,
    /// Which numbers are shown: 1 for the quality, 2 more for the score.
    pub fl: usize,
    /// The bit patterns of the quality and the score.
    pub c: u32,
    pub s: u32,
}

impl Slot {
    /// A slot that shows nothing.
    pub fn new() -> (r: Slot)
        ensures
            r == (Slot { tag: TAG_EMPTY, cnt: 0, enced: 0, flu: 0, tot: 0, idx: 0, fl: 0, c: 0, s: 0 }),
    {
        Slot { tag: TAG_EMPTY, cnt: 0, enced: 0, flu: 0, tot: 0, idx: 0, fl: 0, c: 0, s: 0 }
    }

    /// A slot that starts to show a chunk. The quality and the score are bit patterns.
    pub fn mk(
        chnk_idx: u16,
        tot: usize,
        track_frames: bool,
        crf_score: Option<(u32, Option<u32>)>,
        tag: u32,
    ) -> (r: Slot)
        ensures
            r.tag == tag,
            r.cnt == if track_frames {
                1int
            } else {
                0int
            },
            r.enced == 0,
            r.flu == 0,
            r.tot == tot,
            r.idx == chnk_idx,
            (r.c, r.s, r.fl) == match crf_score {
                Some((c, Some(s))) => (c, s, 3usize),
                Some((c, None)) => (c, 0u32, 1usize),
                None => (0u32, 0u32, 0usize),
            },
    {
        let (c, s, fl): (u32, u32, usize) = match crf_score {
            Some((c, Some(s))) => (c, s, 3),
            Some((c, None)) => (c, 0, 1),
            None => (0, 0, 0),
        };
        Slot {
            tag,
            cnt: if track_frames {
                1
            } else {
                0
            },
            enced: 0,
            flu: 0,
            tot,
            idx: chnk_idx as usize,
            fl,
            c,
            s,
        }
    }
}

/// The lines of all workers.
pub struct Board {
    pub tags: Vec<u32>,
    pub lines: Vec<Line>,
}

/// A board shows a line for a worker, and everything else as before.
pub open spec fn puts(was: Board, now: Board, id: usize, line: Line) -> bool {
    if id < was.tags@.len() {
        &&& now.tags@ == was.tags@.update(id as int, TAG_TXT)
        &&& now.lines@ == was.lines@.update(id as int, line)
    } else {
        now == was
    }
}

/// A board shows nothing for a worker, and everything else as before.
pub open spec fn clears(was: Board, now: Board, id: usize) -> bool {
    &&& now.lines@ == was.lines@
    &&& now.tags@ == if id < was.tags@.len() {
        was.tags@.update(id as int, TAG_EMPTY)
    } else {
        was.tags@
    }
}

impl Board {
    /// Every worker has a tag and a line.
    pub open spec fn wf(self) -> bool {
        self.tags@.len() == self.lines@.len()
    }

    /// Shows a line for a worker; a worker that is not on the board shows nothing.
    pub fn put(&mut self, id: usize, line: Line)
        requires
            old(self).wf(),
        ensures
            final(self).wf(),
            puts(*old(self), *final(self), id, line),
    {
        if id < self.tags.len() {
            self.lines.set(id, line);
            self.tags.set(id, TAG_TXT);
        }
    }

    /// Shows nothing for a worker.
    pub fn clear(&mut self, id: usize)
        requires
            old(self).wf(),
        ensures
            final(self).wf(),
            clears(*old(self), *final(self), id),
    {
        if id < self.tags.len() {
            self.tags.set(id, TAG_EMPTY);
        }
    }
}

/// A pass and a track in one number.
pub fn pack_au(pass: u8, tid: u8) -> (r: usize)
    ensures
        r == pass + 256 * tid,
{
    let a: u32 = pass as u32;
    let b: u32 = tid as u32;
    assert(a | (b << 8) == a + 256 * b) by (bit_vector)
        requires
            a < 256,
            b < 256,
    ;
    (a | (b << 8)) as usize
}

proof fn lemma_repeated_len(t: Seq<char>, n: nat)
    ensures
        repeated(t, n).len() == n * t.len(),
    decreases n,
{
    if n == 0 {
        assert(0 * t.len() == 0) by (nonlinear_arith);
    } else {
        lemma_repeated_len(t, (n - 1) as nat);
        assert(n * t.len() == (n - 1) * t.len() + t.len()) by (nonlinear_arith)
            requires
                n >= 1,
        ;
    }
}

/// However much of it is filled, a bar whose cells are equally long has the same length.
pub proof fn law_bar_has_fixed_length(filled: nat, hash: Seq<char>, dash: Seq<char>)
    requires
        filled <= BAR_WIDTH,
        hash.len() == dash.len(),
    ensures
        bar_text(filled, hash, dash).len() == BAR_WIDTH * hash.len(),
{
    lemma_repeated_len(hash, filled);
    lemma_repeated_len(dash, (BAR_WIDTH - filled) as nat);
    let n = hash.len();
    let w = BAR_WIDTH as int;
    assert(filled * n + (w - filled) * n == w * n) by (nonlinear_arith);
}

/// The frames that updates add to those of the run, when they show these counts one after another.
pub open spec fn added(last: nat, counts: Seq<nat>) -> nat
    decreases counts.len(),
{
    if counts.len() == 0 {
        0
    } else {
        (if counts[0] > last {
            (counts[0] - last) as nat
        } else {
            0
        }) + added(counts[0], counts.drop_first())
    }
}

/// As long as counts do not fall, every frame is added once.
pub proof fn law_frames_are_added_once(last: nat, counts: Seq<nat>)
    requires
        counts.len() > 0,
        last <= counts[0],
        forall|i: int, j: int| 0 <= i <= j < counts.len() ==> counts[i] <= counts[j],
    ensures
        added(last, counts) == counts.last() - last,
    decreases counts.len(),
{
    let rest = counts.drop_first();
    if rest.len() > 0 {
        assert(rest[0] == counts[1]);
        assert forall|i: int, j: int| 0 <= i <= j < rest.len() implies rest[i] <= rest[j] by {
            assert(rest[i] == counts[i + 1]);
            assert(rest[j] == counts[j + 1]);
        }
        law_frames_are_added_once(counts[0], rest);
        assert(rest.last() == counts.last());
    } else {
        assert(added(counts[0], rest) == 0);
    }
}


proof fn lemma_percent_at_most_all(done: nat, all: nat)
    requires
        done <= all,
    ensures
        smaller(percent_of(done, all), 100) == percent_of(done, all),
{
    if all > 0 {
        law_percent_follows_progress(done, done, all);
    }
}

/// A bar never fills beyond its width; it is empty when nothing is done and full when all is, fills
/// as more is done, and in between each cell stands for an equal share.
pub proof fn law_bar_fills_with_progress(done: nat, more: nat, all: nat)
    requires
        all > 0,
        done <= more,
    ensures
        cells_of(done, all) <= 20,
        cells_of(0, all) == 0,
        done >= all ==> cells_of(done, all) == 20,
        cells_of(done, all) <= cells_of(more, all),
        done <= all ==> cells_of(done, all) * all <= 20 * done < (cells_of(done, all) + 1) * all,
{
    let (a, b, n) = (20 * done, 20 * more, all as int);
    vstd::arithmetic::div_mod::lemma_fundamental_div_mod(a as int, n);
    vstd::arithmetic::div_mod::lemma_fundamental_div_mod(0, n);
    vstd::arithmetic::div_mod::lemma_div_is_ordered(a as int, b as int, n);
    let q = a as int / n;
    assert(0int / n == 0) by (nonlinear_arith)
        requires
            n > 0,
    ;
    assert(done >= all ==> q >= 20) by (nonlinear_arith)
        requires
            20 * done == n * q + (20 * done) as int % n,
            0 <= (20 * done) as int % n < n,
            n == all,
            n > 0,
    ;
    assert(done <= all ==> q <= 20) by (nonlinear_arith)
        requires
            20 * done == n * q + (20 * done) as int % n,
            0 <= (20 * done) as int % n < n,
            n == all,
            n > 0,
    ;
    assert(q * n <= a < (q + 1) * n) by (nonlinear_arith)
        requires
            a == n * q + a as int % n,
            0 <= a as int % n < n,
    ;
}

/// A share is nothing when nothing is done, a hundred when all is, at most a hundred when no more
/// than all is, and grows as more is done.
pub proof fn law_percent_follows_progress(done: nat, more: nat, all: nat)
    requires
        all > 0,
        done <= more,
    ensures
        percent_of(0, all) == 0,
        percent_of(all, all) == 100,
        done <= all ==> percent_of(done, all) <= 100,
        percent_of(done, all) <= percent_of(more, all),
        percent_of(done, all) * all <= 100 * done < (percent_of(done, all) + 1) * all,
{
    let (a, b, n) = (done * 100, more * 100, all as int);
    vstd::arithmetic::div_mod::lemma_fundamental_div_mod(a as int, n);
    vstd::arithmetic::div_mod::lemma_fundamental_div_mod((all * 100) as int, n);
    vstd::arithmetic::div_mod::lemma_div_is_ordered(a as int, b as int, n);
    vstd::arithmetic::div_mod::lemma_div_multiples_vanish(100, n);
    assert(all * 100 == n * 100);
    let q = a as int / n;
    assert(0int / n == 0) by (nonlinear_arith)
        requires
            n > 0,
    ;
    assert(done <= all ==> q <= 100) by (nonlinear_arith)
        requires
            done * 100 == n * q + (done * 100) as int % n,
            0 <= (done * 100) as int % n < n,
            n == all,
            n > 0,
    ;
    assert(q * n <= a < (q + 1) * n) by (nonlinear_arith)
        requires
            a == n * q + a as int % n,
            0 <= a as int % n < n,
    ;
}

/// The line that shows VVenC gives the label of the chunk, the bar, the share in percent, the speed,
/// and the pictures so far of all; where more came than were announced, all are those that came.
#[verifier::rlimit(60)]
pub proof fn law_vvenc_line_shows_its_parts(pal: &Palette, w: &Watch, poc: nat, fps: Seq<char>)
    ensures
        ({
            let t = vvenc_line(pal, w, poc, fps);
            &&& gives(t, "["@, bar_text(cells_of(poc, larger(w.frames as nat, poc)), "\x1b[1;94m#"@, "\x1b[1;93m-"@), pal.p@)
            &&& gives(t, pal.w@, pad_left(decimal(percent_of(poc, larger(w.frames as nat, poc))), ' ', 3), "%"@)
            &&& gives(t, pal.y@, fps, pal.c@)
            &&& gives(t, pal.g@, pad_left(decimal(poc), ' ', 3), pal.c@)
        }),
        gives(vvenc_line(pal, w, poc, fps), seq![], tag_text(pal, w.chnk_idx, score_of(w)), " "@),
        gives(
            vvenc_line(pal, w, poc, fps),
            pal.r@,
            pad_left(decimal(larger(w.frames as nat, poc)), ' ', 3),
            seq![],
        ),
{
    lemma_percent_at_most_all(poc, larger(w.frames as nat, poc));
    let p0 = tag_text(pal, w.chnk_idx, score_of(w));
    let p1 = " "@;
    let p2 = pal.p@;
    let p3 = "["@;
    let p4 = bar_text(cells_of(poc, larger(w.frames as nat, poc)), "\x1b[1;94m#"@, "\x1b[1;93m-"@);
    let p5 = pal.p@;
    let p6 = "] "@;
    let p7 = pal.w@;
    let p8 = pad_left(decimal(percent_of(poc, larger(w.frames as nat, poc))), ' ', 3);
    let p9 = "%"@;
    let p10 = pal.c@;
    let p11 = ", "@;
    let p12 = pal.y@;
    let p13 = fps;
    let p14 = pal.c@;
    let p15 = ", "@;
    let p16 = pal.g@;
    let p17 = pad_left(decimal(poc), ' ', 3);
    let p18 = pal.c@;
    let p19 = "/"@;
    let p20 = pal.r@;
    let p21 = pad_left(decimal(larger(w.frames as nat, poc)), ' ', 3);
    let x0 = p0;
    let x1 = x0 + p1;
    let x2 = x1 + p2;
    let x3 = x2 + p3;
    let x4 = x3 + p4;
    let x5 = x4 + p5;
    let x6 = x5 + p6;
    let x7 = x6 + p7;
    let x8 = x7 + p8;
    let x9 = x8 + p9;
    let x10 = x9 + p10;
    let x11 = x10 + p11;
    let x12 = x11 + p12;
    let x13 = x12 + p13;
    let x14 = x13 + p14;
    let x15 = x14 + p15;
    let x16 = x15 + p16;
    let x17 = x16 + p17;
    let x18 = x17 + p18;
    let x19 = x18 + p19;
    let x20 = x19 + p20;
    let x21 = x20 + p21;
    assert(x21 =~= vvenc_line(pal, w, poc, fps));
    assert(Seq::<char>::empty() + Seq::<char>::empty() + p0 + p1 =~= x1);
    lemma_gives_here(Seq::<char>::empty(), Seq::<char>::empty(), p0, p1);
    lemma_gives_more(x1, p2);
    lemma_gives_more(x2, p3);
    lemma_gives_more(x3, p4);
    lemma_gives_more(x4, p5);
    lemma_gives_here(x2, p3, p4, p5);
    lemma_gives_here(x6, p7, p8, p9);
    lemma_gives_here(x11, p12, p13, p14);
    lemma_gives_here(x15, p16, p17, p18);
    lemma_gives_more(x5, p6);
    lemma_gives_more(x6, p7);
    lemma_gives_more(x7, p8);
    lemma_gives_more(x8, p9);
    lemma_gives_more(x9, p10);
    lemma_gives_more(x10, p11);
    lemma_gives_more(x11, p12);
    lemma_gives_more(x12, p13);
    lemma_gives_more(x13, p14);
    lemma_gives_more(x14, p15);
    lemma_gives_more(x15, p16);
    lemma_gives_more(x16, p17);
    lemma_gives_more(x17, p18);
    lemma_gives_more(x18, p19);
    lemma_gives_more(x19, p20);
    lemma_gives_more(x20, p21);
    let e = Seq::<char>::empty();
    lemma_gives_here(x19, p20, p21, e);
    assert(x19 + p20 + p21 + e =~= x21);
}

/// The line that shows x264 or x265 gives the label of the chunk, the bar, the share in percent, the
/// frames so far of all, the speed and the bitrate.
#[verifier::rlimit(60)]
pub proof fn law_x265_line_shows_its_parts(pal: &Palette, w: &Watch, cur: nat, fps: Seq<char>, kbps: Seq<char>)
    ensures
        ({
            let t = x265_line(pal, w, cur, fps, kbps);
            &&& gives(t, "["@, bar_text(cells_of(cur, w.frames as nat), "\x1b[1;94m#"@, "\x1b[1;93m-"@), pal.p@)
            &&& gives(t, pal.w@, pad_left(decimal(percent_of(cur, w.frames as nat)), ' ', 3), "% "@)
            &&& gives(t, pal.y@, pad_left(decimal(cur), ' ', 3), "/"@)
            &&& gives(t, "/"@, pad_left(decimal(w.frames as nat), ' ', 3), " "@)
            &&& gives(t, pal.g@, fps, " "@)
            &&& gives(t, pal.p@, kbps, " kb/s"@)
        }),
        tag_text(pal, w.chnk_idx, score_of(w)).is_prefix_of(x265_line(pal, w, cur, fps, kbps)),
{
    let p0 = tag_text(pal, w.chnk_idx, score_of(w));
    let p1 = " "@;
    let p2 = pal.p@;
    let p3 = "["@;
    let p4 = bar_text(cells_of(cur, w.frames as nat), "\x1b[1;94m#"@, "\x1b[1;93m-"@);
    let p5 = pal.p@;
    let p6 = "] "@;
    let p7 = pal.w@;
    let p8 = pad_left(decimal(percent_of(cur, w.frames as nat)), ' ', 3);
    let p9 = "% "@;
    let p10 = pal.y@;
    let p11 = pad_left(decimal(cur), ' ', 3);
    let p12 = "/"@;
    let p13 = pad_left(decimal(w.frames as nat), ' ', 3);
    let p14 = " "@;
    let p15 = pal.g@;
    let p16 = fps;
    let p17 = " "@;
    let p18 = pal.w@;
    let p19 = "| "@;
    let p20 = pal.p@;
    let p21 = kbps;
    let p22 = " kb/s"@;
    let x0 = p0;
    let x1 = x0 + p1;
    let x2 = x1 + p2;
    let x3 = x2 + p3;
    let x4 = x3 + p4;
    let x5 = x4 + p5;
    let x6 = x5 + p6;
    let x7 = x6 + p7;
    let x8 = x7 + p8;
    let x9 = x8 + p9;
    let x10 = x9 + p10;
    let x11 = x10 + p11;
    let x12 = x11 + p12;
    let x13 = x12 + p13;
    let x14 = x13 + p14;
    let x15 = x14 + p15;
    let x16 = x15 + p16;
    let x17 = x16 + p17;
    let x18 = x17 + p18;
    let x19 = x18 + p19;
    let x20 = x19 + p20;
    let x21 = x20 + p21;
    let x22 = x21 + p22;
    assert(x22 =~= x265_line(pal, w, cur, fps, kbps));
    lemma_gives_here(x2, p3, p4, p5);
    lemma_gives_here(x6, p7, p8, p9);
    lemma_gives_here(x9, p10, p11, p12);
    lemma_gives_here(x11, p12, p13, p14);
    lemma_gives_here(x14, p15, p16, p17);
    lemma_gives_here(x19, p20, p21, p22);
    lemma_gives_more(x5, p6);
    lemma_gives_more(x6, p7);
    lemma_gives_more(x7, p8);
    lemma_gives_more(x8, p9);
    lemma_gives_more(x9, p10);
    lemma_gives_more(x10, p11);
    lemma_gives_more(x11, p12);
    lemma_gives_more(x12, p13);
    lemma_gives_more(x13, p14);
    lemma_gives_more(x14, p15);
    lemma_gives_more(x15, p16);
    lemma_gives_more(x16, p17);
    lemma_gives_more(x17, p18);
    lemma_gives_more(x18, p19);
    lemma_gives_more(x19, p20);
    lemma_gives_more(x20, p21);
    lemma_gives_more(x21, p22);
}

/// The label of a chunk gives its number in four digits or more, and where there is a quality, the
/// quality and the score of the probe before.
pub proof fn law_label_names_the_chunk(pal: &Palette, idx: u16, cs: Option<&CrfScore>)
    ensures
        ({
            let n = zero_padded(idx as nat, 4);
            let t = tag_text(pal, idx, cs);
            &&& all_digits(n) && digits_value(n) == idx && n.len() >= 4
            &&& cs is None ==> gives(t, "["@, n, pal.c@)
            &&& cs matches Some(s) ==> {
                &&& gives(t, "["@, n, " / F "@)
                &&& gives(t, " / F "@, s.crf@, " / "@)
                &&& s.score matches Some(x) ==> gives(t, " / "@, x@, pal.c@)
            }
        }),
{
    lemma_zero_padded(idx as nat, 4);
    let n = zero_padded(idx as nat, 4);
    let c = pal.c@;
    match cs {
        None => {
            lemma_gives_here(c, "["@, n, c);
            lemma_gives_more(c + "["@ + n + c, "]"@);
        },
        Some(s) => {
            let v = match s.score {
                Some(t) => t@,
                None => "     "@,
            };
            let x1 = c + "["@ + n + " / F "@;
            let x2 = x1 + s.crf@ + " / "@;
            let x3 = x2 + v + c;
            lemma_gives_here(c, "["@, n, " / F "@);
            lemma_gives_here(c + "["@ + n, " / F "@, s.crf@, " / "@);
            lemma_gives_here(x1 + s.crf@, " / "@, v, c);
            lemma_gives_more(x1, s.crf@);
            lemma_gives_more(x1 + s.crf@, " / "@);
            lemma_gives_more(x2, v);
            lemma_gives_more(x2 + v, c);
            lemma_gives_more(x3, "]"@);
        },
    }
}

/// The records with a delimiter behind each, one after another.
pub open spec fn rejoined(recs: Seq<Seq<u8>>, delim: u8) -> Seq<u8>
    decreases recs.len(),
{
    if recs.len() == 0 {
        seq![]
    } else {
        recs[0].push(delim) + rejoined(recs.drop_first(), delim)
    }
}

/// Nothing that a program prints is lost: the records with their delimiters, and then what is left,
/// are what it printed; and neither a record nor what is left holds a delimiter.
pub proof fn law_records_make_up_the_output(s: Seq<u8>, delim: u8)
    ensures
        rejoined(records_of(s, delim), delim) + rest_of(s, delim) == s,
        forall|k: int| 0 <= k < rest_of(s, delim).len() ==> rest_of(s, delim)[k] != delim,
        forall|i: int, k: int|
            0 <= i < records_of(s, delim).len() && 0 <= k < records_of(s, delim)[i].len()
                ==> #[trigger] records_of(s, delim)[i][k] != delim,
    decreases s.len(),
{
    lemma_first_delim(s, delim);
    let k = first_delim(s, delim);
    if k < s.len() {
        let tail = s.skip(k + 1);
        law_records_make_up_the_output(tail, delim);
        let recs = records_of(s, delim);
        assert(recs[0] == s.take(k));
        assert(recs.drop_first() =~= records_of(tail, delim));
        assert(rejoined(recs, delim) =~= s.take(k).push(delim) + rejoined(
            records_of(tail, delim),
            delim,
        ));
        assert(rejoined(recs, delim) + rest_of(s, delim) =~= s.take(k).push(delim) + tail);
        assert(s.take(k).push(delim) + tail =~= s);
        assert forall|i: int, j: int|
            0 <= i < recs.len() && 0 <= j < recs[i].len() implies #[trigger] recs[i][j] != delim by {
            if i > 0 {
                assert(recs[i] == records_of(tail, delim)[i - 1]);
            }
        }
    } else {
        assert(rejoined(seq![], delim) + s =~= s);
    }
}

/// The pictures and the errors of two runs of records are those of each, in order; a record is one
/// picture when its text starts with `POC`, and one error when its text holds the word, and its
/// text is what is printed.
pub proof fn law_records_are_told_one_by_one(a: Seq<Seq<u8>>, b: Seq<Seq<u8>>, rec: Seq<u8>)
    ensures
        pictures_in(a + b) == pictures_in(a) + pictures_in(b),
        errors_in(a + b) == errors_in(a) + errors_in(b),
        pictures_in(seq![rec]) == if valid_utf8(rec) && "POC"@.is_prefix_of(
            trimmed(decode_utf8(rec)),
        ) {
            1nat
        } else {
            0
        },
        errors_in(seq![rec]) == if valid_utf8(rec) && (find_from(
            trimmed(decode_utf8(rec)),
            "error"@,
            0,
        ) is Some || find_from(trimmed(decode_utf8(rec)), "Error"@, 0) is Some) {
            seq![trimmed(decode_utf8(rec))]
        } else {
            seq![]
        },
    decreases b.len(),
{
    let one = seq![rec];
    assert(one.drop_last() =~= seq![]);
    assert(pictures_in(one.drop_last()) == 0);
    assert(errors_in(one.drop_last()) =~= seq![]);
    assert(errors_in(one) =~= if valid_utf8(rec) && (find_from(
        trimmed(decode_utf8(rec)),
        "error"@,
        0,
    ) is Some || find_from(trimmed(decode_utf8(rec)), "Error"@, 0) is Some) {
        seq![trimmed(decode_utf8(rec))]
    } else {
        seq![]
    });
    if b.len() == 0 {
        assert(a + b =~= a);
        assert(errors_in(a) + errors_in(b) =~= errors_in(a));
    } else {
        let init = b.drop_last();
        assert((a + b).drop_last() =~= a + init);
        assert((a + b).last() == b.last());
        law_records_are_told_one_by_one(a, init, rec);
        assert(errors_in(a + b) =~= errors_in(a) + errors_in(b));
    }
}

/// Of a record of x264 or x265, progress is shown only when it is due, a summary never, and any other
/// text is printed as it is, due or not.
pub proof fn law_x265_records_are_sorted(rec: &[u8], early: X265Event, late: X265Event)
    requires
        call_ensures(x265_record, (rec, false), early),
        call_ensures(x265_record, (rec, true), late),
    ensures
        !valid_utf8(rec@) ==> early is Pass && late is Pass,
        !(early is Update),
        valid_utf8(rec@) ==> {
            let t = trimmed(decode_utf8(rec@));
            &&& t.len() == 0 ==> early is Pass && late is Pass
            &&& t.len() > 0 && t[0] == '[' ==> early is Pass && (late matches X265Event::Update(s)
                && s@ == t)
            &&& t.len() > 0 && t[0] != '[' && "encoded"@.is_prefix_of(t) ==> early is Pass
                && late is Pass
            &&& t.len() > 0 && t[0] != '[' && !"encoded"@.is_prefix_of(t) ==> {
                &&& early matches X265Event::Print(s) && s@ == t
                &&& late matches X265Event::Print(s) && s@ == t
            }
        },
{
    reveal_strlit("[");
    if valid_utf8(rec@) {
        let t = trimmed(decode_utf8(rec@));
        if t.len() > 0 && t[0] == '[' {
            assert("["@ =~= t.subrange(0, 1));
            assert("["@.is_prefix_of(t));
        } else if "["@.is_prefix_of(t) {
            assert(t.subrange(0, 1)[0] == '[');
        }
    }
}

/// The counts of a record are read back: the frames so far, the speed and the bitrate.
pub proof fn law_x265_counts_read_back(
    pre: Seq<char>,
    cur: usize,
    tot: usize,
    fps: Seq<char>,
    kbps: Seq<char>,
)
    requires
        is_free_of(pre, ']'),
        is_word(fps) && is_free_of(fps, ',') && is_free_of(fps, ']'),
        is_word(kbps) && is_free_of(kbps, ',') && is_free_of(kbps, ']'),
    ensures
        counts_of(
            pre.push(']') + (seq![' '] + decimal(cur as nat).push('/') + decimal(tot as nat)
                + " frames"@).push(',') + (fps.push(' ') + "fps"@).push(',') + (kbps.push(' ')
                + "kb/s"@),
        ) == Some((cur, fps, kbps)),
{
    reveal_strlit(" frames");
    reveal_strlit("fps");
    reveal_strlit("kb/s");
    let (c, d) = (decimal(cur as nat), decimal(tot as nat));
    lemma_decimal_digits(cur as nat);
    lemma_decimal_digits(tot as nat);
    let a = seq![' '] + c.push('/') + d + " frames"@;
    let f = fps.push(' ') + "fps"@;
    let k = kbps.push(' ') + "kb/s"@;
    let tail = a.push(',') + (f.push(',') + k);
    let s = pre.push(']') + a.push(',') + f.push(',') + k;
    assert(s =~= pre.push(']') + tail);
    assert(is_free_of(a, ',') && is_free_of(a, ']')) by {
        assert forall|i: int| 0 <= i < a.len() implies a[i] != ',' && a[i] != ']' by {
            if 1 <= i <= c.len() {
                assert(is_digit(c[i - 1]));
            } else if c.len() + 2 <= i < c.len() + 2 + d.len() {
                assert(is_digit(d[i - c.len() - 2]));
            }
        }
    }
    assert(is_free_of(f, ',') && is_free_of(k, ','));
    assert(is_free_of(tail, ']')) by {
        let y = f.push(',') + k;
        assert forall|i: int| 0 <= i < tail.len() implies tail[i] != ']' by {
            if i < a.len() {
                assert(tail[i] == a[i]);
            } else if i > a.len() {
                assert(tail[i] == y[i - a.len() - 1]);
            }
        }
    }
    lemma_first_piece(pre, tail, ']');
    lemma_first_piece(tail, seq![], ']');
    assert(pieces_of(s, ']') =~= seq![pre, tail]);
    lemma_first_piece(a, f.push(',') + k, ',');
    lemma_first_piece(f, k, ',');
    lemma_first_piece(k, seq![], ',');
    assert(pieces_of(tail, ',') =~= seq![a, f, k]);
    lemma_count_reads_back(cur, d);
    law_words_of_both(fps, "fps"@);
    law_words_hold_no_white_space(fps);
    law_words_of_both(kbps, "kb/s"@);
    law_words_hold_no_white_space(kbps);
    assert(words_of(f)[0] == fps);
    assert(words_of(k)[0] == kbps);
}

/// The first number of a count is read back.
proof fn lemma_count_reads_back(cur: usize, d: Seq<char>)
    requires
        all_digits(d),
    ensures
        usize_of(
            trimmed(
                pieces_of(
                    trimmed(seq![' '] + decimal(cur as nat).push('/') + d + " frames"@),
                    '/',
                )[0],
            ),
        ) == Some(cur),
{
    reveal_strlit(" frames");
    let c = decimal(cur as nat);
    lemma_decimal_digits(cur as nat);
    let rest = d + " frames"@;
    let t = c.push('/') + rest;
    let a = seq![' '] + c.push('/') + d + " frames"@;
    assert(a.drop_first() =~= t);
    assert(is_space(' '));
    assert(is_digit(c[0]));
    assert(t[0] == c[0]);
    assert(!is_space(t[0]));
    assert(t.last() == 's');
    law_trimmed_cuts_white_space(t);
    reveal_with_fuel(crate::text::trimmed_start, 2);
    assert(crate::text::trimmed_start(a) == t);
    assert(crate::text::trimmed_start(t) == t);
    assert(trimmed(a) == trimmed(t));
    assert(is_free_of(c, '/')) by {
        assert forall|i: int| 0 <= i < c.len() implies c[i] != '/' by {
            assert(is_digit(c[i]));
        }
    }
    lemma_first_piece(c, rest, '/');
    assert(pieces_of(t, '/')[0] == c);
    assert(is_digit(c[c.len() - 1]));
    law_trimmed_cuts_white_space(c);
    law_decimal_reads_back(cur);
}

/// A slot that starts to show a chunk shows the chunk and nothing done of it; its flags say which of
/// the quality and the score are there, and those are theirs.
pub proof fn law_slot_starts_with_its_chunk(
    idx: u16,
    tot: usize,
    counted: bool,
    cs: Option<(u32, Option<u32>)>,
    tag: u32,
    r: Slot,
)
    requires
        call_ensures(Slot::mk, (idx, tot, counted, cs, tag), r),
    ensures
        (r.tag, r.idx, r.tot) == (tag, idx as usize, tot),
        r.enced == 0 && r.flu == 0,
        r.cnt == 1 <==> counted,
        r.cnt == 0 <==> !counted,
        r.fl % 2 == 1 <==> cs is Some,
        r.fl / 2 == 1 <==> (cs matches Some((_, s)) && s is Some),
        r.fl < 4,
        cs matches Some((c, _)) ==> r.c == c,
        cs matches Some((_, Some(s))) ==> r.s == s,
{
}

/// A pass and a track that are packed are read back.
pub proof fn law_pass_and_track_read_back(pass: u8, tid: u8, r: usize)
    requires
        call_ensures(pack_au, (pass, tid), r),
    ensures
        r % 256 == pass,
        r / 256 == tid,
{
}

/// An update counts what came since the last one: nothing where frames are not counted, and over two
/// updates as much as over one at the end.
pub proof fn law_updates_count_each_frame_once(last: usize, mid: usize, now: usize)
    requires
        last <= mid <= now,
    ensures
        step_of(last, now, false) == (last, 0int),
        step_of(last, now, true).0 == now,
        step_of(last, mid, true).1 + step_of(step_of(last, mid, true).0, now, true).1 == step_of(
            last,
            now,
            true,
        ).1,
        step_of(last, now, true).1 == now - last,
        step_of(now, last, true).1 == 0,
{
}

/// A line that is shown stands at its worker, every other worker shows what it did; once it is
/// cleared the worker shows nothing.
pub proof fn law_board_shows_each_worker(
    was: Board,
    shown: Board,
    cleared: Board,
    id: usize,
    line: Line,
    k: int,
)
    requires
        was.wf(),
        puts(was, shown, id, line),
        clears(shown, cleared, id),
        id < was.tags@.len(),
        0 <= k < was.tags@.len(),
    ensures
        shown.wf() && cleared.wf(),
        k == id ==> shown.lines@[k] == line && shown.tags@[k] == 3 && cleared.tags@[k] == 0,
        k != id ==> shown.lines@[k] == was.lines@[k] && shown.tags@[k] == was.tags@[k]
            && cleared.tags@[k] == was.tags@[k],
{
}

/// A line that is too long keeps its start, as much as fits; any other is whole. An update is due
/// after about half a second, and stays due.
pub proof fn law_lines_keep_their_start(s: Seq<u8>, cap: int, ms: u64, later: u64, a: bool, b: bool)
    requires
        cap >= 0,
        call_ensures(due, (ms,), a),
        call_ensures(due, (later,), b),
        ms <= later,
    ensures
        capped(s, cap).is_prefix_of(s),
        capped(s, cap).len() == if s.len() <= cap {
            s.len() as int
        } else {
            cap
        },
        a ==> b,
        a <==> ms >= 512,
{
}


/// The records that a reader hands out, with their delimiters, and what stays in it are what was
/// read; only the start of a record that fills the whole reader is dropped.
pub proof fn law_reader_loses_nothing(lr: &mut LineReader, r: Vec<Vec<u8>>)
    requires
        lr.wf(),
        call_ensures(LineReader::drain, (lr,), r),
    ensures
        rejoined(contents(r@), old(lr).delim) + final(lr).pending() == old(lr).pending() || rest_of(
            old(lr).pending(),
            old(lr).delim,
        ).len() == READ_CAP,
        final(lr).wf() && final(lr).delim == old(lr).delim,
        final(lr).acc@.len() < READ_CAP,
{
    law_records_make_up_the_output(old(lr).pending(), old(lr).delim);
}

/// A reader gives the room that it has left, keeps what it is given behind what it has, and says
/// whether it was given anything; a fresh one has nothing and all its room.
pub proof fn law_reader_keeps_what_it_is_given(
    lr: &mut LineReader,
    read: &[u8],
    more: bool,
    room: usize,
    delim: u8,
    fresh: LineReader,
)
    requires
        lr.wf(),
        read@.len() <= READ_CAP - lr.acc@.len(),
        call_ensures(LineReader::fill, (lr, read), more),
        call_ensures(LineReader::room, (&*lr,), room),
        call_ensures(LineReader::new, (delim,), fresh),
    ensures
        more <==> read@.len() > 0,
        final(lr).pending() == old(lr).pending() + read@,
        room + old(lr).acc@.len() == 8192,
        fresh.pending().len() == 0 && fresh.delim == delim && fresh.wf(),
{
}

/// What a VVenC program prints is counted as it comes: the pictures in complete records, of which
/// those that speak of an error are printed; nothing follows only where nothing was read.
pub proof fn law_pictures_are_counted_as_they_come(
    w: &mut VvencWatch,
    lr: &mut LineReader,
    read: &[u8],
    r: Option<Vec<String>>,
)
    requires
        w.wf() && lr.wf(),
        read@.len() <= READ_CAP - lr.acc@.len(),
        (w.poc_cnt + READ_CAP) * 100 <= usize::MAX,
        call_ensures(VvencWatch::feed, (w, lr, read), r),
    ensures
        r is None <==> read@.len() == 0,
        r is None ==> final(w).poc_cnt == old(w).poc_cnt && final(lr).pending() == old(lr).pending(),
        r matches Some(printed) ==> {
            let recs = records_of(old(lr).pending() + read@, old(lr).delim);
            &&& final(w).poc_cnt - old(w).poc_cnt == pictures_in(recs)
            &&& texts(printed@) == errors_in(recs)
        },
        final(w).last_poc == old(w).last_poc,
{
}


/// An update shows the line of its program, cut to what a line can hold, and counts the frames since
/// the last one where they are counted.
pub proof fn law_updates_show_their_program(
    v: &mut VvencWatch,
    x: &mut X265Watch,
    pal: &Palette,
    w: &Watch,
    cur: usize,
    fps: &str,
    kbps: &str,
    shown: Update,
    other: Update,
)
    requires
        v.wf(),
        call_ensures(VvencWatch::update, (v, pal, w, fps), shown),
        call_ensures(X265Watch::update, (x, pal, w, cur, fps, kbps), other),
    ensures
        shown.line.buf@.is_prefix_of(encode_utf8(vvenc_line(pal, w, old(v).poc_cnt as nat, fps@))),
        other.line.buf@.is_prefix_of(encode_utf8(x265_line(pal, w, cur as nat, fps@, kbps@))),
        shown.line.buf@.len() <= 512 && other.line.buf@.len() <= 512,
        encode_utf8(vvenc_line(pal, w, old(v).poc_cnt as nat, fps@)).len() <= 512 ==> shown.line.buf@
            == encode_utf8(vvenc_line(pal, w, old(v).poc_cnt as nat, fps@)),
        encode_utf8(x265_line(pal, w, cur as nat, fps@, kbps@)).len() <= 512 ==> other.line.buf@
            == encode_utf8(x265_line(pal, w, cur as nat, fps@, kbps@)),
        final(v).poc_cnt == old(v).poc_cnt,
        w.track_frames ==> shown.processed == old(v).poc_cnt - old(v).last_poc && final(v).last_poc
            == old(v).poc_cnt,
        !w.track_frames ==> shown.processed == 0 && other.processed == 0,
        w.track_frames && cur >= old(x).last_frames ==> other.processed == cur - old(x).last_frames,
        w.track_frames ==> final(x).last_frames == cur,
{
}

/// The counts of a record are handed out as they were read, and a board shows and clears a worker's
/// line.
pub proof fn law_counts_and_lines_are_handed_out(
    s: &str,
    r: Option<X265Counts>,
    b: &mut Board,
    c: &mut Board,
    id: usize,
    line: Line,
)
    requires
        b.wf() && c.wf(),
        call_ensures(parse_x265, (s,), r),
        call_ensures(Board::put, (b, id, line), ()),
        call_ensures(Board::clear, (c, id), ()),
    ensures
        r is None <==> counts_of(s@) is None,
        r matches Some(x) ==> counts_of(s@) == Some((x.cur, x.fps@, x.kbps@)),
        puts(*old(b), *final(b), id, line),
        clears(*old(c), *final(c), id),
{
}


/// What is shown starts with nothing: an empty line, no frames counted, and a slot without a chunk.
pub proof fn law_watches_start_with_nothing(l: Line, v: VvencWatch, x: X265Watch, s: Slot)
    requires
        call_ensures(Line::new, (), l),
        call_ensures(VvencWatch::new, (), v),
        call_ensures(X265Watch::new, (), x),
        call_ensures(Slot::new, (), s),
    ensures
        l.buf@.len() == 0 && l.wf(),
        v.poc_cnt == 0 && v.last_poc == 0 && v.wf(),
        x.last_frames == 0,
        s.tag == 0 && s.cnt == 0 && s.fl == 0,
        s.enced == 0 && s.flu == 0 && s.tot == 0 && s.idx == 0 && s.c == 0 && s.s == 0,
{
}

} // verus!
