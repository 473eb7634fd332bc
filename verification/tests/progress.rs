use xav::progs::{self, Board, CrfScore, Line, LineReader, Palette, Slot, VvencWatch, Watch, X265Event, X265Watch};

fn pal() -> Palette {
    let s = |t: &str| t.to_string();
    Palette { b: s("<b>"), c: s("<c>"), g: s("<g>"), n: s("<n>"), p: s("<p>"), r: s("<r>"), w: s("<w>"), y: s("<y>") }
}

fn watch(track: bool) -> Watch {
    Watch { worker_id: 0, chnk_idx: 7, frames: 40, track_frames: track, crf_score: None }
}

fn shown(l: &Line) -> String {
    String::from_utf8(l.buf.clone()).unwrap()
}

#[test]
fn lines_hold_no_more_than_their_capacity() {
    let mut l = Line::new();
    l.write_str(&"x".repeat(500));
    l.write_str(&"y".repeat(20));
    assert_eq!(l.buf.len(), 512);
    assert_eq!(l.buf[511], b'y');
    let mut one = Line::new();
    one.write_str(&("x".repeat(500) + &"y".repeat(20)));
    assert_eq!(one.buf, l.buf);
}

#[test]
fn labels_of_chunks() {
    let t = |cs: Option<&CrfScore>| {
        let mut s = String::new();
        progs::write_tag(&mut s, &pal(), 42, cs);
        s
    };
    assert_eq!(t(None), "<c>[0042<c>]");
    let cs = CrfScore { crf: "23.50".to_string(), score: None };
    assert_eq!(t(Some(&cs)), "<c>[0042 / F 23.50 /      <c>]");
    let cs = CrfScore { crf: "23.50".to_string(), score: Some(" 9.21".to_string()) };
    assert_eq!(t(Some(&cs)), "<c>[0042 / F 23.50 /  9.21<c>]");
}

#[test]
fn bars_have_twenty_cells() {
    for filled in 0..=20 {
        let mut s = String::new();
        progs::write_bar(&mut s, filled, "#", "-");
        assert_eq!(s, "#".repeat(filled) + &"-".repeat(20 - filled));
    }
}

#[test]
fn records_end_at_delimiters() {
    let mut r = LineReader::new(b'\n');
    assert_eq!(r.room(), 8192);
    assert!(!r.fill(&[]));
    assert!(r.fill("ab\ncd\ne".as_bytes()));
    assert_eq!(r.next_buffered(), Some("ab".as_bytes().to_vec()));
    assert_eq!(r.drain(), vec!["cd".as_bytes().to_vec()]);
    assert!(r.fill("f\n".as_bytes()));
    assert_eq!(r.drain(), vec!["ef".as_bytes().to_vec()]);
    assert_eq!(r.next_buffered(), None);
}

#[test]
fn records_do_not_depend_on_reads() {
    let text = "POC 1\nerror\n\nPOC 2\nrest".as_bytes();
    let mut whole = LineReader::new(b'\n');
    whole.fill(text);
    let want = whole.drain();
    for cut in 0..text.len() {
        let mut r = LineReader::new(b'\n');
        r.fill(&text[..cut]);
        let mut got = r.drain();
        r.fill(&text[cut..]);
        got.extend(r.drain());
        assert_eq!(got, want);
    }
}

#[test]
fn a_record_that_fills_the_reader_is_dropped() {
    let mut r = LineReader::new(b'\n');
    r.fill(&vec![b'x'; 8192]);
    assert_eq!(r.room(), 0);
    assert_eq!(r.next_buffered(), None);
    assert_eq!(r.room(), 8192);
}

#[test]
fn vvenc_is_watched() {
    let mut lr = LineReader::new(b'\n');
    let mut v = VvencWatch::new();
    assert!(v.feed(&mut lr, &[]).is_none());
    let printed = v.feed(&mut lr, " POC 0\nan Error\nPOC error\n\u{ff}".as_bytes()).unwrap();
    assert_eq!(printed, ["an Error", "POC error"]);
    assert_eq!(v.poc_cnt, 2);
    assert_eq!(v.record(&[0xff, 0xfe]), None);
    let u = v.update(&pal(), &watch(true), " 25.00");
    assert_eq!(u.processed, 2);
    let bar = "\x1b[1;94m#".repeat(1) + &"\x1b[1;93m-".repeat(19);
    assert_eq!(
        shown(&u.line),
        format!("<c>[0007<c>] <p>[{bar}<p>] <w>  5%<c>, <y> 25.00<c>, <g>  2<c>/<r> 40")
    );
    assert_eq!(v.update(&pal(), &watch(true), "").processed, 0);
    assert_eq!(v.update(&pal(), &watch(false), "").processed, 0);
}

#[test]
fn a_record_may_come_in_two_reads() {
    let text = "POC 0\nan error\nPOC 1\nPO".as_bytes();
    for cut in 1..text.len() {
        let mut lr = LineReader::new(b'\n');
        let mut v = VvencWatch::new();
        let mut printed = v.feed(&mut lr, &text[..cut]).unwrap();
        printed.extend(v.feed(&mut lr, &text[cut..]).unwrap());
        assert_eq!((v.poc_cnt, printed), (2, vec!["an error".to_string()]));
        assert_eq!((lr.start, lr.acc.as_slice()), (0, "PO".as_bytes()));
        assert!(v.feed(&mut lr, &[]).is_none());
        assert!(v.feed(&mut lr, "C 2\n".as_bytes()).unwrap().is_empty());
        assert_eq!(v.poc_cnt, 3);
    }
}

#[test]
fn updates_are_due_after_an_interval() {
    assert!(!progs::due(511));
    assert!(progs::due(512));
}

#[test]
fn x265_records() {
    assert!(matches!(progs::x265_record(&[0xff], true), X265Event::Pass));
    assert!(matches!(progs::x265_record("  ".as_bytes(), true), X265Event::Pass));
    assert!(matches!(progs::x265_record("encoded 3 frames".as_bytes(), true), X265Event::Pass));
    match progs::x265_record(" x265 [error]: no ".as_bytes(), false) {
        X265Event::Print(t) => assert_eq!(t, "x265 [error]: no"),
        _ => panic!("expected a text"),
    }
    let rec = "[12.5%] 30/240 frames".as_bytes();
    assert!(matches!(progs::x265_record(rec, false), X265Event::Pass));
    assert!(matches!(progs::x265_record(rec, true), X265Event::Update(_)));
}

#[test]
fn x265_counts() {
    let c = progs::parse_x265("[12.5%] 30/240 frames, 25.10 fps, 900.00 kb/s, eta 0:00:08").unwrap();
    assert_eq!((c.cur, c.fps.as_str(), c.kbps.as_str()), (30, "25.10", "900.00"));
    let c = progs::parse_x265("[1%] 5 frames: , 2 fps, 3 kb/s");
    assert!(c.is_none());
    assert!(progs::parse_x265("30/240, 1, 2").is_none());
    assert!(progs::parse_x265("[x] 30/240, 1").is_none());
    assert!(progs::parse_x265("[x] 30/240, 1 fps, ").is_none());
    assert!(progs::parse_x265("[x] 30/240, , 3").is_none());
}

#[test]
fn x265_is_watched() {
    let mut x = X265Watch::new();
    let u = x.update(&pal(), &watch(true), 30, " 25.10", "900");
    assert_eq!(u.processed, 30);
    let bar = "\x1b[1;94m#".repeat(15) + &"\x1b[1;93m-".repeat(5);
    assert_eq!(
        shown(&u.line),
        format!("<c>[0007<c>] <p>[{bar}<p>] <w> 75% <y> 30/ 40 <g> 25.10 <w>| <p>900 kb/s")
    );
    assert_eq!(x.update(&pal(), &watch(true), 20, "", "").processed, 0);
    assert_eq!(x.update(&pal(), &watch(true), 25, "", "").processed, 5);
    assert_eq!(x.update(&pal(), &watch(false), 40, "", "").processed, 0);
}

#[test]
fn frames_are_added_once_while_counts_do_not_fall() {
    let mut x = X265Watch::new();
    let mut sum = 0;
    for c in [3, 3, 10, 38, 40] {
        sum += x.update(&pal(), &watch(true), c, "", "").processed;
    }
    assert_eq!(sum, 40);
}

#[test]
fn slots_of_workers() {
    assert_eq!(Slot::new().tag, progs::TAG_EMPTY);
    let s = Slot::mk(9, 100, true, Some((5, Some(6))), progs::TAG_LIB);
    assert_eq!((s.cnt, s.tot, s.idx, s.c, s.s, s.fl, s.tag), (1, 100, 9, 5, 6, 3, 1));
    let s = Slot::mk(9, 100, false, Some((5, None)), progs::TAG_MET);
    assert_eq!((s.cnt, s.c, s.s, s.fl), (0, 5, 0, 1));
    assert_eq!(Slot::mk(9, 1, false, None, progs::TAG_LIB).fl, 0);
}

#[test]
fn boards_ignore_workers_that_are_not_there() {
    let mut b = Board { tags: vec![0, 0], lines: vec![Line::new(), Line::new()] };
    let mut l = Line::new();
    l.write_str("hi");
    b.put(1, l);
    b.put(2, Line::new());
    assert_eq!(b.tags, [progs::TAG_EMPTY, progs::TAG_TXT]);
    assert_eq!(b.lines[1].buf, "hi".as_bytes());
    b.clear(1);
    b.clear(5);
    assert_eq!(b.tags, [0, 0]);
}

#[test]
fn pass_and_track_in_one_number() {
    assert_eq!(progs::pack_au(2, 3), 2 | (3 << 8));
    assert_eq!(progs::pack_au(255, 255), 0xffff);
}
