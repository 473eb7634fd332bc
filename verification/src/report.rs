//! The log of a target-quality run.
use vstd::prelude::*;

use crate::bits::{rank, rank_of};
use crate::num::{decimal, lemma_decimal_digits, push_decimal};
use crate::order::{
    count_keys, counts, is_order, law_order_is_there, law_tally_counts_all, law_what_is_there_occurs,
    order_of, precedes, stable_order, tally, total_count,
};
use crate::paths::{
    extension_of, file_stem_of, join, joined, law_joined_has_name, law_re_extended_has_extension,
    parent_of, re_extended, with_extension,
};
use crate::quote::FileWrite;
use crate::text::{
    gives, is_free_of, join_by, joined_by, lemma_first_piece, lemma_gives_here, lemma_gives_more,
    pieces_of, push_owned, texts,
};

verus! {

/// A probe as the log keeps it: the quality with two places, the score with four.
pub struct ProbeEntry {
    pub crf: String,
    pub score: String,
    pub sz: u64,
}

/// A chunk as the log keeps it.
pub struct ProbeLog {
    pub chnk_idx: u16,
    pub probes: Vec<ProbeEntry>,
    pub final_crf: String,
    pub final_score: String,
    pub final_sz: u64,
    pub round: usize,
    pub frames: usize,
}

/// A probe in the log.
pub open spec fn entry_text(p: ProbeEntry) -> Seq<char> {
    "["@ + p.crf@ + ","@ + p.score@ + ","@ + decimal(p.sz as nat) + "]"@
}

/// A chunk in the log: one line.
pub open spec fn chunk_line(l: &ProbeLog) -> Seq<char> {
    "{\"id\":"@ + decimal(l.chnk_idx as nat) + ",\"r\":"@ + decimal(l.round as nat) + ",\"f\":"@
        + decimal(l.frames as nat) + ",\"p\":["@ + joined_by(
        l.probes@.map_values(|p: ProbeEntry| entry_text(p)),
        ","@,
    ) + "],\"fc\":"@ + l.final_crf@ + ",\"fs\":"@ + l.final_score@ + ",\"fz\":"@ + decimal(
        l.final_sz as nat,
    ) + "}\n"@
}

fn entry(p: &ProbeEntry) -> (s: String)
    ensures
        s@ == entry_text(*p),
{
    let mut s = "[".to_owned();
    s.append(p.crf.as_str());
    s.append(",");
    s.append(p.score.as_str());
    s.append(",");
    push_decimal(&mut s, p.sz);
    s.append("]");
    s
}

/// The line that a chunk adds to `chunks.json` in the work directory.
pub fn write_chnk_log(chnk_log: &ProbeLog, work_dir: &str) -> (w: FileWrite)
    ensures
        w.path@ == joined(work_dir@, "chunks.json"@),
        w.text@ == chunk_line(chnk_log),
{
    let mut rows: Vec<String> = Vec::new();
    let ghost want = chnk_log.probes@.map_values(|p: ProbeEntry| entry_text(p));
    let mut i: usize = 0;
    assert(texts(rows@) =~= want.take(0));
    while i < chnk_log.probes.len()
        invariant
            i <= chnk_log.probes@.len(),
            want == chnk_log.probes@.map_values(|p: ProbeEntry| entry_text(p)),
            texts(rows@) == want.take(i as int),
        decreases chnk_log.probes@.len() - i,
    {
        push_owned(&mut rows, entry(&chnk_log.probes[i]));
        i = i + 1;
        assert(want.take(i as int) =~= want.take(i - 1).push(want[i - 1]));
    }
    assert(want.take(i as int) =~= want);
    let list = join_by(&rows, ",");
    let mut s = "{\"id\":".to_owned();
    push_decimal(&mut s, chnk_log.chnk_idx as u64);
    s.append(",\"r\":");
    push_decimal(&mut s, chnk_log.round as u64);
    s.append(",\"f\":");
    push_decimal(&mut s, chnk_log.frames as u64);
    s.append(",\"p\":[");
    s.append(list.as_str());
    s.append("],\"fc\":");
    s.append(chnk_log.final_crf.as_str());
    s.append(",\"fs\":");
    s.append(chnk_log.final_score.as_str());
    s.append(",\"fz\":");
    push_decimal(&mut s, chnk_log.final_sz);
    s.append("}\n");
    assert(s@ =~= chunk_line(chnk_log));
    FileWrite { path: join(work_dir, "chunks.json"), text: s }
}

/// A probe in the report: the quality with two places, the score with three, and the bitrate
/// without any.
pub struct JsonProbe {
    /// The bit pattern of the quality.
    pub bits: u32,
    pub crf: String,
    pub score: String,
    pub kbs: String,
}

/// A chunk in the report.
pub struct JsonChunk {
    pub id: u64,
    pub r: usize,
    pub probes: Vec<JsonProbe>,
    pub final_crf: String,
    pub final_score: String,
    pub final_kbs: String,
    /// The final quality in hundredths.
    pub hundredths: u64,
}

/// A quality, its score and its bitrate.
pub open spec fn triple_text(crf: Seq<char>, score: Seq<char>, kbs: Seq<char>) -> Seq<char> {
    "{ \"crf\": "@ + crf + ", \"score\": "@ + score + ", \"kbs\": "@ + kbs + " }"@
}

/// Rows with a text between them, and an end of line behind the last.
pub open spec fn listed(rows: Seq<Seq<char>>, between: Seq<char>) -> Seq<char> {
    if rows.len() == 0 {
        seq![]
    } else {
        joined_by(rows, between) + "\n"@
    }
}

fn push_listed(s: &mut String, rows: &Vec<String>, between: &str)
    ensures
        final(s)@ == old(s)@ + listed(texts(rows@), between@),
{
    if rows.len() > 0 {
        let t = join_by(rows, between);
        s.append(t.as_str());
        s.append("\n");
    }
    assert(s@ =~= old(s)@ + listed(texts(rows@), between@));
}

/// The keys that probes are sorted by.
pub open spec fn probe_keys(probes: Seq<JsonProbe>) -> Seq<i128> {
    probes.map_values(|p: JsonProbe| rank_of(p.bits) as i128)
}

/// A row for each probe, by quality.
pub open spec fn probe_rows(probes: Seq<JsonProbe>) -> Seq<Seq<char>> {
    order_of(probe_keys(probes)).map_values(
        |i: usize|
            "        "@ + triple_text(
                probes[i as int].crf@,
                probes[i as int].score@,
                probes[i as int].kbs@,
            ),
    )
}

/// A chunk in the report.
pub open spec fn chunk_text(c: &JsonChunk) -> Seq<char> {
    "    {\n      \"id\": "@ + decimal(c.id as nat) + ",\n      \"probes\": [\n"@ + listed(
        probe_rows(c.probes@),
        ",\n"@,
    ) + "      ],\n      \"final\": "@ + triple_text(c.final_crf@, c.final_score@, c.final_kbs@)
        + "\n    }"@
}

fn push_triple(s: &mut String, crf: &str, score: &str, kbs: &str)
    ensures
        final(s)@ == old(s)@ + triple_text(crf@, score@, kbs@),
{
    s.append("{ \"crf\": ");
    s.append(crf);
    s.append(", \"score\": ");
    s.append(score);
    s.append(", \"kbs\": ");
    s.append(kbs);
    s.append(" }");
    assert(s@ =~= old(s)@ + triple_text(crf@, score@, kbs@));
}

fn probe_list(probes: &Vec<JsonProbe>) -> (rows: Vec<String>)
    ensures
        texts(rows@) == probe_rows(probes@),
{
    let mut keys: Vec<i128> = Vec::new();
    let mut i: usize = 0;
    while i < probes.len()
        invariant
            i <= probes@.len(),
            keys@ == probe_keys(probes@).take(i as int),
        decreases probes@.len() - i,
    {
        keys.push(rank(probes[i].bits) as i128);
        i = i + 1;
        assert(keys@ =~= probe_keys(probes@).take(i as int));
    }
    assert(keys@ =~= probe_keys(probes@));
    let order = stable_order(&keys);
    let ghost want = probe_rows(probes@);
    let mut rows: Vec<String> = Vec::new();
    let mut k: usize = 0;
    assert(texts(rows@) =~= want.take(0));
    while k < order.len()
        invariant
            k <= order@.len(),
            order@ == order_of(probe_keys(probes@)),
            want == probe_rows(probes@),
            want.len() == order@.len(),
            forall|j: int| 0 <= j < order@.len() ==> (#[trigger] order@[j]) < probes@.len(),
            texts(rows@) == want.take(k as int),
        decreases order@.len() - k,
    {
        let j: usize = order[k];
        let mut s = "        ".to_owned();
        push_triple(
            &mut s,
            probes[j].crf.as_str(),
            probes[j].score.as_str(),
            probes[j].kbs.as_str(),
        );
        assert(s@ =~= want[k as int]);
        push_owned(&mut rows, s);
        k = k + 1;
        assert(want.take(k as int) =~= want.take(k - 1).push(want[k - 1]));
    }
    assert(want.take(k as int) =~= want);
    rows
}

fn chunk_block(c: &JsonChunk) -> (s: String)
    ensures
        s@ == chunk_text(c),
{
    let mut s = "    {\n      \"id\": ".to_owned();
    push_decimal(&mut s, c.id);
    s.append(",\n      \"probes\": [\n");
    let rows = probe_list(&c.probes);
    push_listed(&mut s, &rows, ",\n");
    s.append("      ],\n      \"final\": ");
    push_triple(&mut s, c.final_crf.as_str(), c.final_score.as_str(), c.final_kbs.as_str());
    s.append("\n    }");
    assert(s@ =~= chunk_text(c));
    s
}

/// How many chunks took at most six rounds.
pub open spec fn in_range_of(logs: Seq<JsonChunk>) -> nat
    decreases logs.len(),
{
    if logs.len() == 0 {
        0
    } else {
        in_range_of(logs.drop_last()) + if logs.last().r <= 6 {
            1nat
        } else {
            0nat
        }
    }
}

fn count_in_range(logs: &Vec<JsonChunk>) -> (n: usize)
    ensures
        n == in_range_of(logs@),
        n <= logs@.len(),
{
    let mut n: usize = 0;
    let mut i: usize = 0;
    assert(logs@.take(0) =~= seq![]);
    while i < logs.len()
        invariant
            i <= logs@.len(),
            n <= i,
            n == in_range_of(logs@.take(i as int)),
        decreases logs@.len() - i,
    {
        assert(logs@.take(i + 1).drop_last() =~= logs@.take(i as int));
        if logs[i].r <= 6 {
            n = n + 1;
        }
        i = i + 1;
    }
    assert(logs@.take(i as int) =~= logs@);
    n
}

/// How many probes each chunk took.
pub open spec fn probe_numbers(logs: Seq<JsonChunk>) -> Seq<u64> {
    logs.map_values(|l: JsonChunk| l.probes@.len() as u64)
}

/// The final quality of each chunk, in hundredths.
pub open spec fn final_numbers(logs: Seq<JsonChunk>) -> Seq<u64> {
    logs.map_values(|l: JsonChunk| l.hundredths)
}

/// How often each number of probes was taken, by number.
pub fn round_counts(logs: &Vec<JsonChunk>) -> (r: Vec<(u64, usize)>)
    ensures
        r@ == tally(probe_numbers(logs@)),
        counts(probe_numbers(logs@), r@),
{
    let mut keys: Vec<u64> = Vec::new();
    let mut i: usize = 0;
    while i < logs.len()
        invariant
            i <= logs@.len(),
            keys@ == probe_numbers(logs@).take(i as int),
        decreases logs@.len() - i,
    {
        keys.push(logs[i].probes.len() as u64);
        i = i + 1;
        assert(keys@ =~= probe_numbers(logs@).take(i as int));
    }
    assert(keys@ =~= probe_numbers(logs@));
    count_keys(&keys)
}

/// The keys that qualities are sorted by: the most frequent first.
pub open spec fn frequency_keys(rows: Seq<(u64, usize)>) -> Seq<i128> {
    rows.map_values(|r: (u64, usize)| (-(r.1 as int)) as i128)
}

/// The rows, the most frequent first.
pub open spec fn by_frequency(rows: Seq<(u64, usize)>) -> Seq<(u64, usize)> {
    order_of(frequency_keys(rows)).map_values(|i: usize| rows[i as int])
}

/// At most the first 25 rows.
pub open spec fn first_25(rows: Seq<(u64, usize)>) -> Seq<(u64, usize)> {
    if rows.len() <= 25 {
        rows
    } else {
        rows.take(25)
    }
}

/// How often each quality was chosen, in hundredths, by quality.
pub fn crf_counts(logs: &Vec<JsonChunk>) -> (r: Vec<(u64, usize)>)
    ensures
        r@ == tally(final_numbers(logs@)),
        counts(final_numbers(logs@), r@),
{
    let mut keys: Vec<u64> = Vec::new();
    let mut i: usize = 0;
    while i < logs.len()
        invariant
            i <= logs@.len(),
            keys@ == final_numbers(logs@).take(i as int),
        decreases logs@.len() - i,
    {
        keys.push(logs[i].hundredths);
        i = i + 1;
        assert(keys@ =~= final_numbers(logs@).take(i as int));
    }
    assert(keys@ =~= final_numbers(logs@));
    count_keys(&keys)
}

/// The 25 rows that are most frequent, the most frequent first; equally frequent ones keep their
/// order.
pub fn common_crfs(rows: &Vec<(u64, usize)>) -> (r: Vec<(u64, usize)>)
    ensures
        r@ == first_25(by_frequency(rows@)),
{
    let mut by: Vec<i128> = Vec::new();
    let mut k: usize = 0;
    while k < rows.len()
        invariant
            k <= rows@.len(),
            by@ == frequency_keys(rows@).take(k as int),
        decreases rows@.len() - k,
    {
        let c: i128 = rows[k].1 as i128;
        by.push(-c);
        k = k + 1;
        assert(by@ =~= frequency_keys(rows@).take(k as int));
    }
    assert(by@ =~= frequency_keys(rows@));
    let order = stable_order(&by);
    let ghost want = by_frequency(rows@);
    let mut r: Vec<(u64, usize)> = Vec::new();
    let mut j: usize = 0;
    while j < order.len() && j < 25
        invariant
            j <= order@.len(),
            j <= 25,
            order@ == order_of(frequency_keys(rows@)),
            want == by_frequency(rows@),
            want.len() == order@.len(),
            forall|x: int| 0 <= x < order@.len() ==> (#[trigger] order@[x]) < rows@.len(),
            r@ == want.take(j as int),
        decreases order@.len() - j,
    {
        let at: usize = order[j];
        r.push(rows[at]);
        j = j + 1;
        assert(r@ =~= want.take(j as int));
    }
    assert(r@ =~= first_25(want));
    r
}

/// A row for each number of probes, with its share in percent as it is shown.
pub open spec fn round_rows(rows: Seq<(u64, usize)>, pcts: Seq<Seq<char>>) -> Seq<Seq<char>> {
    Seq::new(
        rows.len(),
        |i: int|
            "    \""@ + decimal(rows[i].0 as nat) + "\": { \"count\": "@ + decimal(
                rows[i].1 as nat,
            ) + ", \"%\": "@ + pcts[i] + " }"@,
    )
}

/// A row for each quality, as it is shown.
pub open spec fn crf_rows(rows: Seq<(u64, usize)>, crfs: Seq<Seq<char>>) -> Seq<Seq<char>> {
    Seq::new(
        rows.len(),
        |i: int|
            "    { \"crf\": "@ + crfs[i] + ", \"count\": "@ + decimal(rows[i].1 as nat) + " }"@,
    )
}

fn round_list(rows: &Vec<(u64, usize)>, pcts: &Vec<String>) -> (r: Vec<String>)
    requires
        pcts@.len() == rows@.len(),
    ensures
        texts(r@) == round_rows(rows@, texts(pcts@)),
{
    let ghost want = round_rows(rows@, texts(pcts@));
    let mut r: Vec<String> = Vec::new();
    let mut i: usize = 0;
    assert(texts(r@) =~= want.take(0));
    while i < rows.len()
        invariant
            i <= rows@.len(),
            pcts@.len() == rows@.len(),
            want == round_rows(rows@, texts(pcts@)),
            texts(r@) == want.take(i as int),
        decreases rows@.len() - i,
    {
        let mut s = "    \"".to_owned();
        push_decimal(&mut s, rows[i].0);
        s.append("\": { \"count\": ");
        push_decimal(&mut s, rows[i].1 as u64);
        s.append(", \"%\": ");
        s.append(pcts[i].as_str());
        s.append(" }");
        assert(texts(pcts@)[i as int] == pcts@[i as int]@);
        assert(s@ =~= want[i as int]);
        push_owned(&mut r, s);
        i = i + 1;
        assert(want.take(i as int) =~= want.take(i - 1).push(want[i - 1]));
    }
    assert(want.take(i as int) =~= want);
    r
}

fn crf_list(rows: &Vec<(u64, usize)>, crfs: &Vec<String>) -> (r: Vec<String>)
    requires
        crfs@.len() == rows@.len(),
    ensures
        texts(r@) == crf_rows(rows@, texts(crfs@)),
{
    let ghost want = crf_rows(rows@, texts(crfs@));
    let mut r: Vec<String> = Vec::new();
    let mut i: usize = 0;
    assert(texts(r@) =~= want.take(0));
    while i < rows.len()
        invariant
            i <= rows@.len(),
            crfs@.len() == rows@.len(),
            want == crf_rows(rows@, texts(crfs@)),
            texts(r@) == want.take(i as int),
        decreases rows@.len() - i,
    {
        let mut s = "    { \"crf\": ".to_owned();
        s.append(crfs[i].as_str());
        s.append(", \"count\": ");
        push_decimal(&mut s, rows[i].1 as u64);
        s.append(" }");
        assert(texts(crfs@)[i as int] == crfs@[i as int]@);
        assert(s@ =~= want[i as int]);
        push_owned(&mut r, s);
        i = i + 1;
        assert(want.take(i as int) =~= want.take(i - 1).push(want[i - 1]));
    }
    assert(want.take(i as int) =~= want);
    r
}

/// The chunks in the report, in the order in which they are given.
pub open spec fn chunk_rows(logs: Seq<JsonChunk>) -> Seq<Seq<char>> {
    logs.map_values(|l: JsonChunk| chunk_text(&l))
}

fn chunk_list(logs: &Vec<JsonChunk>) -> (r: Vec<String>)
    ensures
        texts(r@) == chunk_rows(logs@),
{
    let ghost want = chunk_rows(logs@);
    let mut r: Vec<String> = Vec::new();
    let mut k: usize = 0;
    assert(texts(r@) =~= want.take(0));
    while k < logs.len()
        invariant
            k <= logs@.len(),
            want == chunk_rows(logs@),
            texts(r@) == want.take(k as int),
        decreases logs@.len() - k,
    {
        push_owned(&mut r, chunk_block(&logs[k]));
        k = k + 1;
        assert(want.take(k as int) =~= want.take(k - 1).push(want[k - 1]));
    }
    assert(want.take(k as int) =~= want);
    r
}

/// What in the report is computed with fractions, as it is shown.
pub struct Shown {
    /// The average number of probes.
    pub average: String,
    /// The share of each number of probes, by number.
    pub pcts: Vec<String>,
    /// Each of the most frequent qualities, the most frequent first.
    pub crfs: Vec<String>,
}

/// The report of a run: its chunks in the order in which they are given, how often each number of
/// probes was taken, and how often each quality was chosen.
pub open spec fn report_text(
    logs: Seq<JsonChunk>,
    metric: Seq<char>,
    rounds: Seq<(u64, usize)>,
    crfs: Seq<(u64, usize)>,
    shown: &Shown,
) -> Seq<char> {
    "{\n  \"chunks_"@ + metric + "\": [\n"@ + listed(chunk_rows(logs), ",\n\n"@)
        + "  ],\n\n  \"average_probes\": "@ + shown.average@ + ",\n  \"in_range\": "@ + decimal(
        in_range_of(logs),
    ) + ",\n  \"out_range\": "@ + decimal((logs.len() - in_range_of(logs)) as nat)
        + ",\n\n  \"rounds\": {\n"@ + listed(round_rows(rounds, texts(shown.pcts@)), ",\n"@)
        + "  },\n\n  \"common_crfs\": [\n"@ + listed(
        crf_rows(first_25(by_frequency(crfs)), texts(shown.crfs@)),
        ",\n"@,
    ) + "  ]\n}"@
}

/// Whether there is a text for every row that needs one.
pub open spec fn shows_all(
    rounds: Seq<(u64, usize)>,
    crfs: Seq<(u64, usize)>,
    shown: &Shown,
) -> bool {
    &&& shown.pcts@.len() == rounds.len()
    &&& shown.crfs@.len() == first_25(by_frequency(crfs)).len()
}

/// The report of a run.
pub fn form_tq_json(
    logs: &Vec<JsonChunk>,
    metric_name: &str,
    rounds: &Vec<(u64, usize)>,
    crfs: &Vec<(u64, usize)>,
    shown: &Shown,
) -> (r: String)
    requires
        shows_all(rounds@, crfs@, shown),
    ensures
        r@ == report_text(logs@, metric_name@, rounds@, crfs@, shown),
{
    let in_range: usize = count_in_range(logs);
    let mut s = "{\n  \"chunks_".to_owned();
    s.append(metric_name);
    s.append("\": [\n");
    let blocks = chunk_list(logs);
    push_listed(&mut s, &blocks, ",\n\n");
    s.append("  ],\n\n  \"average_probes\": ");
    s.append(shown.average.as_str());
    s.append(",\n  \"in_range\": ");
    push_decimal(&mut s, in_range as u64);
    s.append(",\n  \"out_range\": ");
    push_decimal(&mut s, (logs.len() - in_range) as u64);
    s.append(",\n\n  \"rounds\": {\n");
    let round_texts = round_list(rounds, &shown.pcts);
    push_listed(&mut s, &round_texts, ",\n");
    s.append("  },\n\n  \"common_crfs\": [\n");
    let common = common_crfs(crfs);
    let crf_texts = crf_list(&common, &shown.crfs);
    push_listed(&mut s, &crf_texts, ",\n");
    s.append("  ]\n}");
    assert(s@ =~= report_text(logs@, metric_name@, rounds@, crfs@, shown));
    s
}

/// The keys that chunks are sorted by.
pub open spec fn id_keys(logs: Seq<JsonChunk>) -> Seq<i128> {
    logs.map_values(|l: JsonChunk| l.id as i128)
}

/// The chunks by number; those with equal numbers keep their order.
pub open spec fn by_id(logs: Seq<JsonChunk>) -> Seq<JsonChunk> {
    order_of(id_keys(logs)).map_values(|i: usize| logs[i as int])
}

/// The chunks in places of their own, the last first.
fn slots_of(logs: Vec<JsonChunk>) -> (slots: Vec<Option<JsonChunk>>)
    ensures
        slots@.len() == logs@.len(),
        forall|k: int|
            0 <= k < slots@.len() ==> #[trigger] slots@[k] == Some(logs@[logs@.len() - 1 - k]),
{
    let ghost all = logs@;
    let mut rest = logs;
    let mut slots: Vec<Option<JsonChunk>> = Vec::new();
    while rest.len() > 0
        invariant
            rest@.len() + slots@.len() == all.len(),
            rest@ == all.take(rest@.len() as int),
            forall|k: int|
                0 <= k < slots@.len() ==> #[trigger] slots@[k] == Some(all[all.len() - 1 - k]),
        decreases rest@.len(),
    {
        slots.push(rest.pop());
        assert(rest@ =~= all.take(rest@.len() as int));
    }
    slots
}

fn sort_by_id(logs: Vec<JsonChunk>) -> (r: Vec<JsonChunk>)
    ensures
        r@ == by_id(logs@),
{
    let mut keys: Vec<i128> = Vec::new();
    let mut i: usize = 0;
    while i < logs.len()
        invariant
            i <= logs@.len(),
            keys@ == id_keys(logs@).take(i as int),
        decreases logs@.len() - i,
    {
        keys.push(logs[i].id as i128);
        i = i + 1;
        assert(keys@ =~= id_keys(logs@).take(i as int));
    }
    assert(keys@ =~= id_keys(logs@));
    let order = stable_order(&keys);
    let n: usize = logs.len();
    let ghost all = logs@;
    let ghost want = by_id(all);
    let mut slots = slots_of(logs);
    let mut r: Vec<JsonChunk> = Vec::new();
    let mut k: usize = 0;
    while k < order.len()
        invariant
            k <= order@.len(),
            n == all.len(),
            slots@.len() == n,
            order@ == order_of(id_keys(all)),
            is_order(id_keys(all), order@),
            want == by_id(all),
            r@ == want.take(k as int),
            forall|j: int|
                k <= j < order@.len() ==> slots@[n - 1 - (#[trigger] order@[j])] == Some(
                    all[order@[j] as int],
                ),
        decreases order@.len() - k,
    {
        let at: usize = n - 1 - order[k];
        let mut c: Option<JsonChunk> = None;
        core::mem::swap(&mut c, &mut slots[at]);
        assert forall|j: int| k < j < order@.len() implies slots@[n - 1 - (#[trigger] order@[j])]
            == Some(all[order@[j] as int]) by {
            assert(precedes(id_keys(all), order@[k as int], order@[j]));
        }
        if let Some(c) = c {
            r.push(c);
        }
        k = k + 1;
        assert(r@ =~= want.take(k as int));
    }
    assert(r@ =~= want);
    r
}

/// The report beside the input, where a chunk was logged: the chunks by number.
pub fn write_tq_log(inp: &str, logs: Vec<JsonChunk>, metric_name: &str, shown: &Shown) -> (r: Option<
    FileWrite,
>)
    requires
        shows_all(tally(probe_numbers(logs@)), tally(final_numbers(logs@)), shown),
    ensures
        r is None <==> logs@.len() == 0,
        r matches Some(w) ==> w.path@ == re_extended(inp@, "json"@) && w.text@ == report_text(
            by_id(logs@),
            metric_name@,
            tally(probe_numbers(logs@)),
            tally(final_numbers(logs@)),
            shown,
        ),
{
    if logs.len() == 0 {
        return None;
    }
    let rounds = round_counts(&logs);
    let crfs = crf_counts(&logs);
    let sorted = sort_by_id(logs);
    Some(
        FileWrite {
            path: with_extension(inp, "json"),
            text: form_tq_json(&sorted, metric_name, &rounds, &crfs, shown),
        },
    )
}

/// Every chunk is either in range or not, so that the two counts in the report make up all.
pub proof fn law_in_range_is_at_most_all(logs: Seq<JsonChunk>)
    ensures
        in_range_of(logs) <= logs.len(),
    decreases logs.len(),
{
    if logs.len() > 0 {
        law_in_range_is_at_most_all(logs.drop_last());
    }
}


/// A quality, its score and its bitrate in the report stand each behind its own key.
pub proof fn law_triple_gives_its_parts(crf: Seq<char>, score: Seq<char>, kbs: Seq<char>)
    ensures
        ({
            let t = triple_text(crf, score, kbs);
            &&& gives(t, "{ \"crf\": "@, crf, ", \"score\": "@)
            &&& gives(t, ", \"score\": "@, score, ", \"kbs\": "@)
            &&& gives(t, ", \"kbs\": "@, kbs, " }"@)
        }),
{
    let e = Seq::<char>::empty();
    let x1 = "{ \"crf\": "@ + crf + ", \"score\": "@;
    let x2 = x1 + score + ", \"kbs\": "@;
    let x3 = x2 + kbs + " }"@;
    assert(e + "{ \"crf\": "@ + crf + ", \"score\": "@ =~= x1);
    lemma_gives_here(e, "{ \"crf\": "@, crf, ", \"score\": "@);
    lemma_gives_more(x1, score);
    lemma_gives_more(x1 + score, ", \"kbs\": "@);
    lemma_gives_more(x2, kbs);
    lemma_gives_more(x2 + kbs, " }"@);
    lemma_gives_here("{ \"crf\": "@ + crf, ", \"score\": "@, score, ", \"kbs\": "@);
    lemma_gives_here(x1 + score, ", \"kbs\": "@, kbs, " }"@);
}

/// The line of a chunk gives its number, its rounds, its frames, its final quality, score and size
/// each behind its own key, and is one line.
pub proof fn law_chunk_line_gives_its_parts(l: &ProbeLog)
    ensures
        ({
            let t = chunk_line(l);
            &&& gives(t, "{\"id\":"@, decimal(l.chnk_idx as nat), ",\"r\":"@)
            &&& gives(t, ",\"r\":"@, decimal(l.round as nat), ",\"f\":"@)
            &&& gives(t, ",\"f\":"@, decimal(l.frames as nat), ",\"p\":["@)
            &&& gives(t, "],\"fc\":"@, l.final_crf@, ",\"fs\":"@)
            &&& gives(t, ",\"fs\":"@, l.final_score@, ",\"fz\":"@)
            &&& gives(t, ",\"fz\":"@, decimal(l.final_sz as nat), "}\n"@)
        }),
{
    let e = Seq::<char>::empty();
    let probes = joined_by(l.probes@.map_values(|p: ProbeEntry| entry_text(p)), ","@);
    let (id, r, f) = (
        decimal(l.chnk_idx as nat),
        decimal(l.round as nat),
        decimal(l.frames as nat),
    );
    let (fc, fs, fz) = (l.final_crf@, l.final_score@, decimal(l.final_sz as nat));
    let x1 = "{\"id\":"@ + id + ",\"r\":"@;
    let x2 = x1 + r + ",\"f\":"@;
    let x3 = x2 + f + ",\"p\":["@;
    let x4 = x3 + probes + "],\"fc\":"@;
    let x5 = x4 + fc + ",\"fs\":"@;
    let x6 = x5 + fs + ",\"fz\":"@;
    let x7 = x6 + fz + "}\n"@;
    assert(x7 == chunk_line(l));
    assert(e + "{\"id\":"@ + id + ",\"r\":"@ =~= x1);
    lemma_gives_here(e, "{\"id\":"@, id, ",\"r\":"@);
    lemma_gives_here("{\"id\":"@ + id, ",\"r\":"@, r, ",\"f\":"@);
    lemma_gives_here(x1 + r, ",\"f\":"@, f, ",\"p\":["@);
    lemma_gives_here(x3 + probes, "],\"fc\":"@, fc, ",\"fs\":"@);
    lemma_gives_here(x4 + fc, ",\"fs\":"@, fs, ",\"fz\":"@);
    lemma_gives_here(x5 + fs, ",\"fz\":"@, fz, "}\n"@);
    lemma_gives_more(x1, r);
    lemma_gives_more(x1 + r, ",\"f\":"@);
    lemma_gives_more(x2, f);
    lemma_gives_more(x2 + f, ",\"p\":["@);
    lemma_gives_more(x3, probes);
    lemma_gives_more(x3 + probes, "],\"fc\":"@);
    lemma_gives_more(x4, fc);
    lemma_gives_more(x4 + fc, ",\"fs\":"@);
    lemma_gives_more(x5, fs);
    lemma_gives_more(x5 + fs, ",\"fz\":"@);
    lemma_gives_more(x6, fz);
    lemma_gives_more(x6 + fz, "}\n"@);
}

/// A probe in the log is a list of three: its quality, its score and its size in decimal.
pub proof fn law_probe_entry_comes_apart(p: ProbeEntry)
    requires
        is_free_of(p.crf@, ','),
        is_free_of(p.score@, ','),
    ensures
        ({
            let t = entry_text(p);
            &&& t[0] == '[' && t.last() == ']'
            &&& pieces_of(t.subrange(1, t.len() - 1), ',') == seq![
                p.crf@,
                p.score@,
                decimal(p.sz as nat),
            ]
        }),
{
    reveal_strlit("[");
    reveal_strlit(",");
    reveal_strlit("]");
    let (a, b, c) = (p.crf@, p.score@, decimal(p.sz as nat));
    let t = entry_text(p);
    let tail = b.push(',') + c;
    assert(t.subrange(1, t.len() - 1) =~= a.push(',') + tail);
    lemma_decimal_digits(p.sz as nat);
    assert(is_free_of(c, ','));
    lemma_first_piece(a, tail, ',');
    lemma_first_piece(b, c, ',');
    lemma_first_piece(c, seq![], ',');
    assert(seq![a] + (seq![b] + seq![c]) =~= seq![a, b, c]);
}

/// A chunk that took at most six rounds is in range and any other is not: when all did all are, when
/// none did none is, and of two lists together as many are as of each.
pub proof fn law_chunks_in_range(a: Seq<JsonChunk>, b: Seq<JsonChunk>)
    ensures
        in_range_of(a + b) == in_range_of(a) + in_range_of(b),
        (forall|i: int| 0 <= i < b.len() ==> (#[trigger] b[i]).r <= 6) ==> in_range_of(b) == b.len(),
        (forall|i: int| 0 <= i < b.len() ==> (#[trigger] b[i]).r > 6) ==> in_range_of(b) == 0,
    decreases b.len(),
{
    if b.len() == 0 {
        assert(a + b =~= a);
    } else {
        let init = b.drop_last();
        assert((a + b).drop_last() =~= a + init);
        assert(b.last() == b[b.len() - 1]);
        assert(forall|i: int| 0 <= i < init.len() ==> #[trigger] init[i] == b[i]);
        law_chunks_in_range(a, init);
    }
}

/// Whether a report gives how many chunks are in range and how many are not.
pub open spec fn gives_counts(t: Seq<char>, i: nat, o: nat) -> bool {
    &&& gives(t, ",\n  \"in_range\": "@, decimal(i), ",\n  \"out_range\": "@)
    &&& gives(t, ",\n  \"out_range\": "@, decimal(o), ",\n\n  \"rounds\": {\n"@)
}

/// The counts in the report: both make up all chunks, each behind its own key.
pub proof fn law_report_counts_add_up(
    logs: Seq<JsonChunk>,
    metric: Seq<char>,
    rounds: Seq<(u64, usize)>,
    crfs: Seq<(u64, usize)>,
    shown: &Shown,
)
    ensures
        exists|i: nat, o: nat| #[trigger]
            gives_counts(report_text(logs, metric, rounds, crfs, shown), i, o) && i + o == logs.len()
                && ((forall|k: int| 0 <= k < logs.len() ==> (#[trigger] logs[k]).r <= 6) ==> o == 0)
                && ((forall|k: int| 0 <= k < logs.len() ==> (#[trigger] logs[k]).r > 6) ==> i == 0),
        gives(
            report_text(logs, metric, rounds, crfs, shown),
            "{\n  \"chunks_"@,
            metric,
            "\": [\n"@,
        ),
        gives(
            report_text(logs, metric, rounds, crfs, shown),
            "  ],\n\n  \"average_probes\": "@,
            shown.average@,
            ",\n  \"in_range\": "@,
        ),
        gives(
            report_text(logs, metric, rounds, crfs, shown),
            ",\n\n  \"rounds\": {\n"@,
            listed(round_rows(rounds, texts(shown.pcts@)), ",\n"@),
            "  },\n\n  \"common_crfs\": [\n"@,
        ),
{
    law_in_range_is_at_most_all(logs);
    law_chunks_in_range(seq![], logs);
    let i = in_range_of(logs);
    let o = (logs.len() - i) as nat;
    let e = Seq::<char>::empty();
    let rows = listed(chunk_rows(logs), ",\n\n"@);
    let rr = listed(round_rows(rounds, texts(shown.pcts@)), ",\n"@);
    let cc = listed(crf_rows(first_25(by_frequency(crfs)), texts(shown.crfs@)), ",\n"@);
    let x1 = "{\n  \"chunks_"@ + metric + "\": [\n"@;
    let x2 = x1 + rows + "  ],\n\n  \"average_probes\": "@;
    let x3 = x2 + shown.average@ + ",\n  \"in_range\": "@;
    let x4 = x3 + decimal(i) + ",\n  \"out_range\": "@;
    let x5 = x4 + decimal(o) + ",\n\n  \"rounds\": {\n"@;
    let x6 = x5 + rr + "  },\n\n  \"common_crfs\": [\n"@;
    let x7 = x6 + cc + "  ]\n}"@;
    assert(x7 == report_text(logs, metric, rounds, crfs, shown));
    assert(e + "{\n  \"chunks_"@ + metric + "\": [\n"@ =~= x1);
    lemma_gives_here(e, "{\n  \"chunks_"@, metric, "\": [\n"@);
    lemma_gives_here(
        x1 + rows,
        "  ],\n\n  \"average_probes\": "@,
        shown.average@,
        ",\n  \"in_range\": "@,
    );
    lemma_gives_here(
        x2 + shown.average@,
        ",\n  \"in_range\": "@,
        decimal(i),
        ",\n  \"out_range\": "@,
    );
    lemma_gives_here(
        x3 + decimal(i),
        ",\n  \"out_range\": "@,
        decimal(o),
        ",\n\n  \"rounds\": {\n"@,
    );
    lemma_gives_here(
        x4 + decimal(o),
        ",\n\n  \"rounds\": {\n"@,
        rr,
        "  },\n\n  \"common_crfs\": [\n"@,
    );
    lemma_gives_more(x1, rows);
    lemma_gives_more(x1 + rows, "  ],\n\n  \"average_probes\": "@);
    lemma_gives_more(x2, shown.average@);
    lemma_gives_more(x2 + shown.average@, ",\n  \"in_range\": "@);
    lemma_gives_more(x3, decimal(i));
    lemma_gives_more(x3 + decimal(i), ",\n  \"out_range\": "@);
    lemma_gives_more(x4, decimal(o));
    lemma_gives_more(x4 + decimal(o), ",\n\n  \"rounds\": {\n"@);
    lemma_gives_more(x5, rr);
    lemma_gives_more(x5 + rr, "  },\n\n  \"common_crfs\": [\n"@);
    lemma_gives_more(x6, cc);
    lemma_gives_more(x6 + cc, "  ]\n}"@);
    assert(gives_counts(x7, i, o));
}

/// Every chunk is counted among those with as many probes, once, and among those of its final
/// quality, once; the rows rise.
pub proof fn law_every_chunk_is_counted(
    logs: &Vec<JsonChunk>,
    rounds: Vec<(u64, usize)>,
    crfs: Vec<(u64, usize)>,
    i: int,
)
    requires
        call_ensures(round_counts, (logs,), rounds),
        call_ensures(crf_counts, (logs,), crfs),
        0 <= i < logs@.len(),
    ensures
        total_count(rounds@) == logs@.len(),
        total_count(crfs@) == logs@.len(),
        exists|k: int| 0 <= k < rounds@.len() && (#[trigger] rounds@[k]).0 == logs@[i].probes@.len() as u64,
        exists|k: int| 0 <= k < crfs@.len() && (#[trigger] crfs@[k]).0 == logs@[i].hundredths,
        forall|a: int, b: int|
            0 <= a < b < rounds@.len() ==> (#[trigger] rounds@[a]).0 < (#[trigger] rounds@[b]).0,
        forall|a: int, b: int|
            0 <= a < b < crfs@.len() ==> (#[trigger] crfs@[a]).0 < (#[trigger] crfs@[b]).0,
{
    let p = probe_numbers(logs@);
    let f = final_numbers(logs@);
    law_tally_counts_all(p, rounds@);
    law_tally_counts_all(f, crfs@);
    assert(p[i] == logs@[i].probes@.len() as u64);
    assert(f[i] == logs@[i].hundredths);
    law_what_is_there_occurs(p, p[i]);
    law_what_is_there_occurs(f, f[i]);
    assert(p.contains(p[i]));
    assert(f.contains(f[i]));
}

/// The most frequent qualities stand first, at most 25 of them and no fewer than there are; none that
/// is left out is more frequent than one that is shown.
pub proof fn law_most_frequent_stand_first(
    rows: &Vec<(u64, usize)>,
    r: Vec<(u64, usize)>,
    i: int,
    j: int,
)
    requires
        call_ensures(common_crfs, (rows,), r),
    ensures
        r@.len() == if rows@.len() < 25 {
            rows@.len()
        } else {
            25
        },
        0 <= i < j < r@.len() ==> r@[i].1 >= r@[j].1,
        0 <= i < r@.len() ==> rows@.contains(r@[i]),
        0 <= i < r@.len() && 0 <= j < rows@.len() ==> r@.contains(rows@[j]) || rows@[j].1 <= r@[i].1,
{
    let keys = frequency_keys(rows@);
    assert(rows@.len() == rows.len());
    law_order_is_there(keys);
    let o = order_of(keys);
    let all = by_frequency(rows@);
    assert(all.len() == rows@.len());
    assert(forall|x: int| 0 <= x < all.len() ==> #[trigger] all[x] == rows@[o[x] as int]);
    if 0 <= i < j < r@.len() {
        assert(precedes(keys, o[i], o[j]));
        assert(keys[o[i] as int] <= keys[o[j] as int]);
        assert(o[i] < keys.len() && o[j] < keys.len());
        assert(keys[o[i] as int] == (-(rows@[o[i] as int].1 as int)) as i128);
        assert(keys[o[j] as int] == (-(rows@[o[j] as int].1 as int)) as i128);
    }
    if 0 <= i < r@.len() {
        assert(o[i] < keys.len());
        assert(r@[i] == rows@[o[i] as int]);
        if 0 <= j < rows@.len() {
            assert(o.contains(j as usize));
            let x = choose|x: int| 0 <= x < o.len() && o[x] == j as usize;
            assert(all[x] == rows@[j]);
            if x < r@.len() {
                assert(r@[x] == rows@[j]);
            } else {
                assert(precedes(keys, o[i], o[x]));
                assert(keys[o[i] as int] == (-(rows@[o[i] as int].1 as int)) as i128);
                assert(keys[j] == (-(rows@[j].1 as int)) as i128);
            }
        }
    }
}

/// The chunks in the report rise by number, and they are the chunks that were logged.
pub proof fn law_report_is_by_number(logs: Seq<JsonChunk>, i: int, j: int)
    requires
        logs.len() <= usize::MAX,
    ensures
        by_id(logs).len() == logs.len(),
        0 <= i < j < logs.len() ==> by_id(logs)[i].id <= by_id(logs)[j].id,
        0 <= i < logs.len() ==> logs.contains(by_id(logs)[i]),
        0 <= i < logs.len() ==> by_id(logs).contains(logs[i]),
{
    let keys = id_keys(logs);
    law_order_is_there(keys);
    let o = order_of(keys);
    let all = by_id(logs);
    assert(forall|x: int| 0 <= x < all.len() ==> #[trigger] all[x] == logs[o[x] as int]);
    if 0 <= i < j < logs.len() {
        assert(precedes(keys, o[i], o[j]));
        assert(o[i] < keys.len() && o[j] < keys.len());
        assert(keys[o[i] as int] == logs[o[i] as int].id as i128);
        assert(keys[o[j] as int] == logs[o[j] as int].id as i128);
    }
    if 0 <= i < logs.len() {
        assert(o[i] < keys.len());
        assert(all[i] == logs[o[i] as int]);
        assert(o.contains(i as usize));
        let x = choose|x: int| 0 <= x < o.len() && o[x] == i as usize;
        assert(all[x] == logs[i]);
    }
}

/// The probes of a chunk rise by quality in the report, each once.
pub proof fn law_probes_rise_by_quality(probes: Seq<JsonProbe>, i: int, j: int)
    requires
        probes.len() <= usize::MAX,
        0 <= i < j < probes.len(),
    ensures
        probe_rows(probes).len() == probes.len(),
        exists|a: int, b: int|
            {
                &&& 0 <= a < probes.len() && 0 <= b < probes.len() && a != b
                &&& rank_of((#[trigger] probes[a]).bits) <= rank_of((#[trigger] probes[b]).bits)
                &&& probe_rows(probes)[i] == "        "@ + triple_text(
                    probes[a].crf@,
                    probes[a].score@,
                    probes[a].kbs@,
                )
                &&& probe_rows(probes)[j] == "        "@ + triple_text(
                    probes[b].crf@,
                    probes[b].score@,
                    probes[b].kbs@,
                )
            },
{
    let keys = probe_keys(probes);
    law_order_is_there(keys);
    let o = order_of(keys);
    let (a, b) = (o[i] as int, o[j] as int);
    assert(precedes(keys, o[i], o[j]));
    assert(o[i] < keys.len() && o[j] < keys.len());
    assert(keys[a] == rank_of(probes[a].bits) as i128);
    assert(keys[b] == rank_of(probes[b].bits) as i128);
    assert(rank_of(probes[a].bits) <= rank_of(probes[b].bits));
}

/// The report stands beside the input under its stem as JSON, the log of chunks in the work directory
/// under a name that does not change.
pub proof fn law_reports_have_their_places(
    inp: &str,
    logs: Vec<JsonChunk>,
    metric_name: &str,
    shown: &Shown,
    r: Option<FileWrite>,
    log: &ProbeLog,
    work_dir: &str,
    w: FileWrite,
)
    requires
        call_ensures(write_tq_log, (inp, logs, metric_name, shown), r),
        call_ensures(write_chnk_log, (log, work_dir), w),
        file_stem_of(inp@) is Some,
    ensures
        r is None <==> logs@.len() == 0,
        r matches Some(f) ==> extension_of(f.path@) == Some("json"@) && file_stem_of(f.path@)
            == file_stem_of(inp@) && parent_of(f.path@) == parent_of(inp@),
        work_dir@.is_prefix_of(w.path@),
        w.path@.skip(w.path@.len() - 11) == "chunks.json"@,
{
    reveal_strlit("json");
    law_re_extended_has_extension(inp@, "json"@);
    reveal_strlit("chunks.json");
    let name = "chunks.json"@;
    assert(name != seq!['.'] && name != seq!['.', '.']) by {
        assert(name.len() == 11);
    }
    law_joined_has_name(work_dir@, name);
}


/// A row of the rounds gives the number of probes, how often it was taken and its share; a row of the
/// qualities gives the quality and how often it was chosen.
pub proof fn law_rows_give_their_parts(
    rows: Seq<(u64, usize)>,
    pcts: Seq<Seq<char>>,
    crfs: Seq<Seq<char>>,
    i: int,
)
    requires
        0 <= i < rows.len(),
    ensures
        round_rows(rows, pcts).len() == rows.len() && crf_rows(rows, crfs).len() == rows.len(),
        gives(
            round_rows(rows, pcts)[i],
            "    \""@,
            decimal(rows[i].0 as nat),
            "\": { \"count\": "@,
        ),
        gives(
            round_rows(rows, pcts)[i],
            "\": { \"count\": "@,
            decimal(rows[i].1 as nat),
            ", \"%\": "@,
        ),
        gives(round_rows(rows, pcts)[i], ", \"%\": "@, pcts[i], " }"@),
        gives(crf_rows(rows, crfs)[i], "    { \"crf\": "@, crfs[i], ", \"count\": "@),
        gives(crf_rows(rows, crfs)[i], ", \"count\": "@, decimal(rows[i].1 as nat), " }"@),
{
    let e = Seq::<char>::empty();
    let (n, c) = (decimal(rows[i].0 as nat), decimal(rows[i].1 as nat));
    let x1 = "    \""@ + n + "\": { \"count\": "@;
    let x2 = x1 + c + ", \"%\": "@;
    assert(e + "    \""@ + n + "\": { \"count\": "@ =~= x1);
    lemma_gives_here(e, "    \""@, n, "\": { \"count\": "@);
    lemma_gives_here("    \""@ + n, "\": { \"count\": "@, c, ", \"%\": "@);
    lemma_gives_here(x1 + c, ", \"%\": "@, pcts[i], " }"@);
    lemma_gives_more(x1, c);
    lemma_gives_more(x1 + c, ", \"%\": "@);
    lemma_gives_more(x2, pcts[i]);
    lemma_gives_more(x2 + pcts[i], " }"@);
    let y1 = "    { \"crf\": "@ + crfs[i] + ", \"count\": "@;
    assert(e + "    { \"crf\": "@ + crfs[i] + ", \"count\": "@ =~= y1);
    lemma_gives_here(e, "    { \"crf\": "@, crfs[i], ", \"count\": "@);
    lemma_gives_here("    { \"crf\": "@ + crfs[i], ", \"count\": "@, c, " }"@);
    lemma_gives_more(y1, c);
    lemma_gives_more(y1 + c, " }"@);
}

/// A chunk in the report gives its number, its probes, and its final quality, score and bitrate.
pub proof fn law_chunk_gives_its_parts(c: &JsonChunk)
    ensures
        ({
            let t = chunk_text(c);
            &&& gives(t, "    {\n      \"id\": "@, decimal(c.id as nat), ",\n      \"probes\": [\n"@)
            &&& gives(
                t,
                ",\n      \"probes\": [\n"@,
                listed(probe_rows(c.probes@), ",\n"@),
                "      ],\n      \"final\": "@,
            )
            &&& gives(
                t,
                "      ],\n      \"final\": "@,
                triple_text(c.final_crf@, c.final_score@, c.final_kbs@),
                "\n    }"@,
            )
        }),
{
    let e = Seq::<char>::empty();
    let id = decimal(c.id as nat);
    let rows = listed(probe_rows(c.probes@), ",\n"@);
    let last = triple_text(c.final_crf@, c.final_score@, c.final_kbs@);
    let x1 = "    {\n      \"id\": "@ + id + ",\n      \"probes\": [\n"@;
    let x2 = x1 + rows + "      ],\n      \"final\": "@;
    assert(e + "    {\n      \"id\": "@ + id + ",\n      \"probes\": [\n"@ =~= x1);
    lemma_gives_here(e, "    {\n      \"id\": "@, id, ",\n      \"probes\": [\n"@);
    lemma_gives_here(
        "    {\n      \"id\": "@ + id,
        ",\n      \"probes\": [\n"@,
        rows,
        "      ],\n      \"final\": "@,
    );
    lemma_gives_here(x1 + rows, "      ],\n      \"final\": "@, last, "\n    }"@);
    lemma_gives_more(x1, rows);
    lemma_gives_more(x1 + rows, "      ],\n      \"final\": "@);
    lemma_gives_more(x2, last);
    lemma_gives_more(x2 + last, "\n    }"@);
}

} // verus!
