//! The command line that a run leaves behind, and how it is read back.
use vstd::prelude::*;

use crate::paths::{file_name_of, join, joined, law_joined_has_name};
use crate::text::{joined_by, push_text, texts, to_chars};

verus! {

/// A file that is to be written.
pub struct FileWrite {
    pub path: String,
    pub text: String,
}

/// Whether the text holds the character.
pub open spec fn holds(s: Seq<char>, c: char) -> bool {
    exists|i: int| 0 <= i < s.len() && s[i] == c
}

/// An argument as it stands in a command line: in quotes when it holds a blank.
pub open spec fn quoted(arg: Seq<char>) -> Seq<char> {
    if holds(arg, ' ') {
        seq!['"'] + arg + seq!['"']
    } else {
        arg
    }
}

/// The arguments as one line, parted by single blanks.
pub open spec fn line_of(args: Seq<Seq<char>>) -> Seq<char>
    decreases args.len(),
{
    if args.len() == 0 {
        seq![]
    } else if args.len() == 1 {
        quoted(args[0])
    } else {
        line_of(args.drop_last()).push(' ') + quoted(args.last())
    }
}

/// Where the reading of a line stands.
pub struct Reading {
    pub done: Seq<Seq<char>>,
    pub current: Seq<char>,
    pub in_quotes: bool,
}

/// The reading before the first character.
pub open spec fn fresh() -> Reading {
    Reading { done: seq![], current: seq![], in_quotes: false }
}

/// One character further: a quote opens or closes, a blank outside quotes ends an argument.
pub open spec fn step(r: Reading, c: char) -> Reading {
    if c == '"' {
        Reading { done: r.done, current: r.current, in_quotes: !r.in_quotes }
    } else if c == ' ' && !r.in_quotes {
        if r.current.len() > 0 {
            Reading { done: r.done.push(r.current), current: seq![], in_quotes: false }
        } else {
            r
        }
    } else {
        Reading { done: r.done, current: r.current.push(c), in_quotes: r.in_quotes }
    }
}

/// The reading after every character of `s`.
pub open spec fn read_on(r: Reading, s: Seq<char>) -> Reading
    decreases s.len(),
{
    if s.len() == 0 {
        r
    } else {
        step(read_on(r, s.drop_last()), s.last())
    }
}

/// The arguments that a line stands for.
pub open spec fn unquoted(line: Seq<char>) -> Seq<Seq<char>> {
    let r = read_on(fresh(), line);
    if r.current.len() > 0 {
        r.done.push(r.current)
    } else {
        r.done
    }
}

/// Reads a saved command line back into its arguments.
pub fn parse_quoted_args(cmd_line: &str) -> (args: Vec<String>)
    ensures
        texts(args@) == unquoted(cmd_line@),
{
    let v = to_chars(cmd_line);
    let mut args: Vec<String> = Vec::new();
    let mut current = String::new();
    let mut in_quotes: bool = false;
    let mut i: usize = 0;
    assert(texts(args@) =~= seq![]);
    assert(current@ =~= seq![]);
    while i < v.len()
        invariant
            v@ == cmd_line@,
            i <= v@.len(),
            read_on(fresh(), v@.take(i as int)).done == texts(args@),
            read_on(fresh(), v@.take(i as int)).current == current@,
            read_on(fresh(), v@.take(i as int)).in_quotes == in_quotes,
        decreases v@.len() - i,
    {
        let c = v[i];
        assert(v@.take(i + 1).drop_last() =~= v@.take(i as int));
        assert(v@.take(i + 1).last() == c);
        if c == '"' {
            in_quotes = !in_quotes;
        } else if c == ' ' && !in_quotes {
            if !current.as_str().is_empty() {
                push_text(&mut args, current.as_str());
                current = String::new();
                assert(current@ =~= seq![]);
            }
        } else {
            current.push(c);
        }
        i = i + 1;
    }
    assert(v@.take(i as int) =~= v@);
    if !current.as_str().is_empty() {
        push_text(&mut args, current.as_str());
    }
    args
}

/// Appends an argument, in quotes when it holds a blank.
fn push_quoted(line: &mut String, arg: &str)
    ensures
        final(line)@ == old(line)@ + quoted(arg@),
{
    let v = to_chars(arg);
    let mut i: usize = 0;
    let mut blank: bool = false;
    while i < v.len()
        invariant
            v@ == arg@,
            i <= v@.len(),
            blank == (exists|k: int| 0 <= k < i && v@[k] == ' '),
        decreases v@.len() - i,
    {
        if v[i] == ' ' {
            blank = true;
        }
        i = i + 1;
    }
    assert(blank == holds(arg@, ' '));
    if blank {
        line.push('"');
        line.append(arg);
        line.push('"');
    } else {
        line.append(arg);
    }
    assert(line@ =~= old(line)@ + quoted(arg@));
}

/// The arguments as one line that `parse_quoted_args` reads back.
pub fn quote_args(cmd: &Vec<String>) -> (line: String)
    ensures
        line@ == line_of(texts(cmd@)),
{
    let mut line = String::new();
    let mut i: usize = 0;
    assert(texts(cmd@).take(0) =~= seq![]);
    assert(line@ =~= line_of(texts(cmd@).take(0)));
    while i < cmd.len()
        invariant
            i <= cmd@.len(),
            line@ == line_of(texts(cmd@).take(i as int)),
        decreases cmd@.len() - i,
    {
        let ghost part = texts(cmd@).take(i + 1);
        assert(part.drop_last() =~= texts(cmd@).take(i as int));
        assert(part.last() == cmd@[i as int]@);
        if i > 0 {
            line.push(' ');
        }
        push_quoted(&mut line, cmd[i].as_str());
        assert(line@ =~= line_of(part));
        i = i + 1;
    }
    assert(texts(cmd@).take(i as int) =~= texts(cmd@));
    line
}

/// The file that keeps the command line of a run: `cmd.txt` in the work directory.
pub fn save_args(work_dir: &str, cmd: &Vec<String>) -> (w: FileWrite)
    ensures
        w.path@ == joined(work_dir@, "cmd.txt"@),
        w.text@ == line_of(texts(cmd@)),
{
    FileWrite { path: join(work_dir, "cmd.txt"), text: quote_args(cmd) }
}

/// Reading one text after another is reading them put together.
proof fn lemma_read_on_concat(r: Reading, a: Seq<char>, b: Seq<char>)
    ensures
        read_on(r, a + b) == read_on(read_on(r, a), b),
    decreases b.len(),
{
    if b.len() == 0 {
        assert(a + b =~= a);
    } else {
        lemma_read_on_concat(r, a, b.drop_last());
        assert((a + b).drop_last() =~= a + b.drop_last());
        assert((a + b).last() == b.last());
    }
}

/// Characters that neither quote nor part only lengthen the current argument.
proof fn lemma_read_plain(r: Reading, s: Seq<char>)
    requires
        !holds(s, '"'),
        r.in_quotes || !holds(s, ' '),
    ensures
        read_on(r, s) == (Reading { done: r.done, current: r.current + s, in_quotes: r.in_quotes }),
    decreases s.len(),
{
    if s.len() == 0 {
        assert(r.current + s =~= r.current);
    } else {
        let t = s.drop_last();
        assert forall|i: int| 0 <= i < t.len() implies t[i] != '"' && (r.in_quotes || t[i] != ' ') by {
            assert(t[i] == s[i]);
        }
        lemma_read_plain(r, t);
        assert(s.last() == s[s.len() - 1]);
        assert(r.current + s =~= (r.current + t).push(s.last()));
    }
}

/// A quoted argument is read as the argument.
proof fn lemma_read_quoted(r: Reading, a: Seq<char>)
    requires
        !holds(a, '"'),
        !r.in_quotes,
        r.current.len() == 0,
    ensures
        read_on(r, quoted(a)) == (Reading { done: r.done, current: a, in_quotes: false }),
{
    assert(r.current + a =~= a);
    if holds(a, ' ') {
        let q = seq!['"'];
        let opened = Reading { done: r.done, current: r.current, in_quotes: true };
        assert(q.drop_last() =~= seq![]);
        assert(read_on(r, q) == step(read_on(r, q.drop_last()), q.last()));
        assert(read_on(r, q) == opened);
        lemma_read_on_concat(r, q, a);
        lemma_read_plain(opened, a);
        let mid = read_on(opened, a);
        assert(read_on(mid, q) == step(read_on(mid, q.drop_last()), q.last()));
        lemma_read_on_concat(r, q + a, q);
    } else {
        lemma_read_plain(r, a);
    }
}

proof fn lemma_read_line(args: Seq<Seq<char>>)
    requires
        args.len() > 0,
        forall|i: int| 0 <= i < args.len() ==> (#[trigger] args[i]).len() > 0 && !holds(args[i], '"'),
    ensures
        read_on(fresh(), line_of(args)) == (Reading {
            done: args.drop_last(),
            current: args.last(),
            in_quotes: false,
        }),
    decreases args.len(),
{
    if args.len() == 1 {
        lemma_read_quoted(fresh(), args[0]);
        assert(args.drop_last() =~= seq![]);
    } else {
        let init = args.drop_last();
        assert forall|i: int| 0 <= i < init.len() implies (#[trigger] init[i]).len() > 0 && !holds(
            init[i],
            '"',
        ) by {
            assert(init[i] == args[i]);
        }
        lemma_read_line(init);
        let head = line_of(init).push(' ');
        assert(head.drop_last() =~= line_of(init));
        assert(init.last() == args[args.len() - 2]);
        let mid = read_on(fresh(), head);
        assert(init.drop_last().push(init.last()) =~= init);
        assert(mid == (Reading { done: init, current: seq![], in_quotes: false }));
        assert(args.last() == args[args.len() - 1]);
        lemma_read_on_concat(fresh(), head, quoted(args.last()));
        lemma_read_quoted(mid, args.last());
    }
}

/// Reading a saved command line gives the arguments back, when none of them is empty or holds a
/// quote.
pub proof fn law_saved_args_read_back(args: Seq<Seq<char>>)
    requires
        forall|i: int| 0 <= i < args.len() ==> (#[trigger] args[i]).len() > 0 && !holds(args[i], '"'),
    ensures
        unquoted(line_of(args)) == args,
{
    if args.len() == 0 {
        assert(line_of(args) =~= seq![]);
        assert(unquoted(line_of(args)) =~= args);
    } else {
        lemma_read_line(args);
        assert(args.last() == args[args.len() - 1]);
        assert(args.drop_last().push(args.last()) =~= args);
    }
}

proof fn lemma_reading_parts(s: Seq<char>)
    ensures
        forall|i: int|
            0 <= i < read_on(fresh(), s).done.len() ==> (#[trigger] read_on(
                fresh(),
                s,
            ).done[i]).len() > 0 && !holds(read_on(fresh(), s).done[i], '"'),
        !holds(read_on(fresh(), s).current, '"'),
    decreases s.len(),
{
    if s.len() > 0 {
        lemma_reading_parts(s.drop_last());
        let r = read_on(fresh(), s.drop_last());
        let t = read_on(fresh(), s);
        assert(t == step(r, s.last()));
        assert forall|i: int| 0 <= i < t.done.len() implies (#[trigger] t.done[i]).len() > 0
            && !holds(t.done[i], '"') by {
            if i < r.done.len() {
                assert(t.done[i] == r.done[i]);
            }
        }
        if holds(t.current, '"') {
            let k = choose|k: int| 0 <= k < t.current.len() && t.current[k] == '"';
            if k < r.current.len() {
                assert(r.current[k] == '"');
            }
        }
    }
}

/// Whatever is read from a line can be saved again and reads back as itself.
pub proof fn law_read_args_save_back(line: Seq<char>)
    ensures
        unquoted(line_of(unquoted(line))) == unquoted(line),
{
    lemma_reading_parts(line);
    let r = read_on(fresh(), line);
    let u = unquoted(line);
    assert forall|i: int| 0 <= i < u.len() implies (#[trigger] u[i]).len() > 0 && !holds(
        u[i],
        '"',
    ) by {
        if i < r.done.len() {
            assert(u[i] == r.done[i]);
        }
    }
    law_saved_args_read_back(u);
}


/// Arguments without blanks stand in the line as they are, with single blanks between them.
pub proof fn law_plain_arguments_stay(args: Seq<Seq<char>>)
    requires
        forall|i: int| 0 <= i < args.len() ==> !holds(#[trigger] args[i], ' '),
    ensures
        line_of(args) == joined_by(args, " "@),
    decreases args.len(),
{
    reveal_strlit(" ");
    if args.len() == 1 {
        assert(!holds(args[0], ' '));
    } else if args.len() > 1 {
        let init = args.drop_last();
        assert(forall|i: int| 0 <= i < init.len() ==> #[trigger] init[i] == args[i]);
        law_plain_arguments_stay(init);
        assert(!holds(args[args.len() - 1], ' '));
        assert(line_of(init).push(' ') + args.last() =~= line_of(init) + " "@ + args.last());
    }
}

/// Only an argument with a blank stands in quotes.
pub proof fn law_blanks_are_quoted(arg: Seq<char>)
    ensures
        holds(arg, ' ') ==> line_of(seq![arg]) == seq!['"'] + arg + seq!['"'],
        !holds(arg, ' ') ==> line_of(seq![arg]) == arg,
        line_of(seq![]) == Seq::<char>::empty(),
{
}

/// A blank outside quotes ends an argument and is none itself: more of them, or one in front, change
/// nothing; inside quotes it belongs to the argument.
pub proof fn law_blanks_part_arguments(r: Reading, c: char)
    ensures
        step(step(r, ' '), ' ') == if r.in_quotes {
            Reading { done: r.done, current: r.current.push(' ').push(' '), in_quotes: true }
        } else {
            step(r, ' ')
        },
        step(fresh(), ' ') == fresh(),
        step(step(r, '"'), '"') == r,
        c != '"' && c != ' ' ==> step(r, c).current == r.current.push(c) && step(r, c).done == r.done,
        !r.in_quotes && r.current.len() > 0 ==> step(r, ' ').done == r.done.push(r.current) && step(
            r,
            ' ',
        ).current.len() == 0,
{
}

/// The command line of a run is kept in the work directory under a name that does not change.
pub proof fn law_command_line_has_its_place(work_dir: &str, cmd: &Vec<String>, w: FileWrite)
    requires
        call_ensures(save_args, (work_dir, cmd), w),
    ensures
        work_dir@.is_prefix_of(w.path@),
        file_name_of(w.path@) == Some("cmd.txt"@),
        w.text@ == line_of(texts(cmd@)),
{
    reveal_strlit("cmd.txt");
    let name = "cmd.txt"@;
    assert(name != seq!['.'] && name != seq!['.', '.']) by {
        assert(name.len() == 7);
    }
    law_joined_has_name(work_dir@, name);
}

} // verus!
