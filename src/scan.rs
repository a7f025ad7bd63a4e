//! The line scanner: which lines match, and the record printed for each.
use vstd::prelude::*;
use crate::config::Config;
use crate::text::{chars_of, contains, contains_chars, lemma_contains_lower, lower, lowercase, occurs_at};

verus! {

/// `s` as it is compared: lowercased when case is ignored, as it is otherwise.
pub open spec fn fold_case(s: Seq<char>, ignore_case: bool) -> Seq<char> {
    if ignore_case {
        lower(s)
    } else {
        s
    }
}

/// The matching rule: the line holds the pattern as a contiguous part,
/// both compared in the chosen case mode.
pub open spec fn line_matches(line: Seq<char>, pattern: Seq<char>, ignore_case: bool) -> bool {
    contains(fold_case(line, ignore_case), fold_case(pattern, ignore_case))
}

/// The decimal digit for `d`, a number below ten.
pub open spec fn digit_char(d: nat) -> char {
    if d == 0 {
        '0'
    } else if d == 1 {
        '1'
    } else if d == 2 {
        '2'
    } else if d == 3 {
        '3'
    } else if d == 4 {
        '4'
    } else if d == 5 {
        '5'
    } else if d == 6 {
        '6'
    } else if d == 7 {
        '7'
    } else if d == 8 {
        '8'
    } else {
        '9'
    }
}

/// `n` written in decimal, without leading zeros.
pub open spec fn decimal(n: nat) -> Seq<char>
    decreases n,
{
    if n < 10 {
        seq![digit_char(n)]
    } else {
        decimal(n / 10) + seq![digit_char(n % 10)]
    }
}

/// The output record of a matching line: `<line_number>: <line>`.
pub open spec fn record(line_number: nat, line: Seq<char>) -> Seq<char> {
    decimal(line_number) + seq![':', ' '] + line
}

/// The matches among `lines`, each as its 1-based line number and its text,
/// in the order of the lines.
pub open spec fn report(lines: Seq<Seq<char>>, pattern: Seq<char>, ignore_case: bool) -> Seq<
    (nat, Seq<char>),
>
    decreases lines.len(),
{
    if lines.len() == 0 {
        Seq::empty()
    } else {
        let prev = report(lines.drop_last(), pattern, ignore_case);
        if line_matches(lines.last(), pattern, ignore_case) {
            prev.push((lines.len(), lines.last()))
        } else {
            prev
        }
    }
}

/// The records printed for the entries of a report, in order.
pub open spec fn render(entries: Seq<(nat, Seq<char>)>) -> Seq<Seq<char>> {
    entries.map_values(|e: (nat, Seq<char>)| record(e.0, e.1))
}

/// The views of a list of strings.
pub open spec fn views(v: Seq<String>) -> Seq<Seq<char>> {
    v.map_values(|s: String| s@)
}

/// The string of one decimal digit.
fn digit_str(d: usize) -> (r: &'static str)
    requires
        d < 10,
    ensures
        r@ == seq![digit_char(d as nat)],
{
    proof {
        reveal_strlit("0");
        reveal_strlit("1");
        reveal_strlit("2");
        reveal_strlit("3");
        reveal_strlit("4");
        reveal_strlit("5");
        reveal_strlit("6");
        reveal_strlit("7");
        reveal_strlit("8");
        reveal_strlit("9");
    }
    if d == 0 {
        "0"
    } else if d == 1 {
        "1"
    } else if d == 2 {
        "2"
    } else if d == 3 {
        "3"
    } else if d == 4 {
        "4"
    } else if d == 5 {
        "5"
    } else if d == 6 {
        "6"
    } else if d == 7 {
        "7"
    } else if d == 8 {
        "8"
    } else {
        "9"
    }
}

/// Appends `n` in decimal to `out`.
fn push_decimal(out: &mut String, n: usize)
    ensures
        final(out)@ == old(out)@ + decimal(n as nat),
    decreases n,
{
    if n >= 10 {
        push_decimal(out, n / 10);
    }
    out.append(digit_str(n % 10));
    assert(final(out)@ =~= old(out)@ + decimal(n as nat));
}

/// The record printed for a matching line: its number, a colon, a space and
/// the line as it was read.
pub fn format_record(line_number: usize, line: &str) -> (r: String)
    ensures
        r@ == record(line_number as nat, line@),
{
    let mut out = String::new();
    push_decimal(&mut out, line_number);
    out.append(": ");
    proof {
        reveal_strlit(": ");
    }
    out.append(line);
    assert(out@ =~= record(line_number as nat, line@));
    out
}

/// `s` as a sequence of characters in the chosen case mode.
fn folded_chars(s: &str, ignore_case: bool) -> (r: Vec<char>)
    ensures
        r@ == fold_case(s@, ignore_case),
{
    let chars = chars_of(s);
    if ignore_case {
        lowercase(&chars)
    } else {
        chars
    }
}

/// Whether `line` matches `pattern` in the chosen case mode.
pub fn is_match(line: &str, pattern: &str, ignore_case: bool) -> (r: bool)
    ensures
        r == line_matches(line@, pattern@, ignore_case),
{
    let hay = folded_chars(line, ignore_case);
    let needle = folded_chars(pattern, ignore_case);
    contains_chars(&hay, &needle)
}

/// Scans lines one at a time, in file order, and hands back the record of
/// each line that matches.
pub struct LineFilter {
    needle: Vec<char>,
    ignore_case: bool,
    lines_seen: usize,
    pattern: Ghost<Seq<char>>,
}

impl LineFilter {
    /// The pattern searched for, as configured.
    pub closed spec fn pattern(&self) -> Seq<char> {
        self.pattern@
    }

    /// Whether letter case is ignored.
    pub closed spec fn ignore_case(&self) -> bool {
        self.ignore_case
    }

    /// How many lines have been scanned so far.
    pub closed spec fn lines_seen(&self) -> nat {
        self.lines_seen as nat
    }

    /// The pattern is kept in the form in which lines are compared with it.
    pub closed spec fn wf(&self) -> bool {
        self.needle@ == fold_case(self.pattern@, self.ignore_case)
    }

    /// A filter for the search that `config` describes, before its first line.
    pub fn new(config: &Config) -> (r: LineFilter)
        ensures
            r.wf(),
            r.pattern() == config.pattern@,
            r.ignore_case() == config.ignore_case,
            r.lines_seen() == 0,
    {
        LineFilter {
            needle: folded_chars(config.pattern.as_str(), config.ignore_case),
            ignore_case: config.ignore_case,
            lines_seen: 0,
            pattern: Ghost(config.pattern@),
        }
    }

    /// How many lines have been fed so far.
    pub fn line_count(&self) -> (r: usize)
        ensures
            r == self.lines_seen(),
    {
        self.lines_seen
    }

    /// Takes the next line of the file, without its terminator. Returns its
    /// record when it matches, numbered from 1 for the first line fed.
    pub fn feed(&mut self, line: &str) -> (r: Option<String>)
        requires
            old(self).wf(),
            old(self).lines_seen() < usize::MAX,
        ensures
            final(self).wf(),
            final(self).pattern() == old(self).pattern(),
            final(self).ignore_case() == old(self).ignore_case(),
            final(self).lines_seen() == old(self).lines_seen() + 1,
            r is Some == line_matches(line@, old(self).pattern(), old(self).ignore_case()),
            r matches Some(s) ==> s@ == record(final(self).lines_seen(), line@),
    {
        self.lines_seen = self.lines_seen + 1;
        let hay = folded_chars(line, self.ignore_case);
        if contains_chars(&hay, &self.needle) {
            Some(format_record(self.lines_seen, line))
        } else {
            None
        }
    }
}

/// The records of all the matching lines among `lines`, in order.
pub fn scan(config: &Config, lines: &Vec<String>) -> (r: Vec<String>)
    ensures
        views(r@) == render(report(views(lines@), config.pattern@, config.ignore_case)),
{
    let mut filter = LineFilter::new(config);
    let mut out: Vec<String> = Vec::new();
    for i in 0..lines.len()
        invariant
            filter.wf(),
            filter.pattern() == config.pattern@,
            filter.ignore_case() == config.ignore_case,
            filter.lines_seen() == i,
            views(out@) == render(report(views(lines@.take(i as int)), config.pattern@, config.ignore_case)),
    {
        let ghost before = out@;
        let ghost seen = views(lines@.take(i as int));
        let ghost now = views(lines@.take(i + 1));
        assert(now.drop_last() =~= seen);
        assert(now.last() == lines@[i as int]@);
        match filter.feed(lines[i].as_str()) {
            Some(rec) => {
                out.push(rec);
                assert(views(out@) =~= views(before).push(rec@));
                assert(render(report(now, config.pattern@, config.ignore_case)) =~= render(
                    report(seen, config.pattern@, config.ignore_case),
                ).push(rec@));
            },
            None => {},
        }
    }
    assert(lines@.take(lines@.len() as int) =~= lines@);
    out
}

/// The report lists exactly the matching lines: each entry carries the
/// 1-based number of a line that matches and that line's own text, the
/// numbers ascend, and every matching line has an entry.
pub proof fn lemma_report_exact(lines: Seq<Seq<char>>, pattern: Seq<char>, ignore_case: bool)
    ensures
        forall|k: int|
            0 <= k < report(lines, pattern, ignore_case).len() ==> {
                let e = #[trigger] report(lines, pattern, ignore_case)[k];
                &&& 1 <= e.0 <= lines.len()
                &&& e.1 == lines[e.0 - 1]
                &&& line_matches(e.1, pattern, ignore_case)
            },
        forall|j: int, k: int|
            0 <= j < k < report(lines, pattern, ignore_case).len() ==> (#[trigger] report(
                lines,
                pattern,
                ignore_case,
            )[j]).0 < (#[trigger] report(lines, pattern, ignore_case)[k]).0,
        forall|n: int|
            1 <= n <= lines.len() && line_matches(#[trigger] lines[n - 1], pattern, ignore_case)
                ==> exists|k: int|
                0 <= k < report(lines, pattern, ignore_case).len() && #[trigger] report(
                    lines,
                    pattern,
                    ignore_case,
                )[k].0 == n,
    decreases lines.len(),
{
    if lines.len() > 0 {
        let prev_lines = lines.drop_last();
        lemma_report_exact(prev_lines, pattern, ignore_case);
        let prev = report(prev_lines, pattern, ignore_case);
        let r = report(lines, pattern, ignore_case);
        assert forall|k: int| 0 <= k < prev.len() implies r[k] == prev[k] by {}
        assert forall|k: int| 0 <= k < prev.len() implies (#[trigger] prev[k]).0 < lines.len() by {}
        assert forall|n: int|
            1 <= n <= lines.len() && line_matches(
                #[trigger] lines[n - 1],
                pattern,
                ignore_case,
            ) implies exists|k: int| 0 <= k < r.len() && #[trigger] r[k].0 == n by {
            if n < lines.len() {
                assert(prev_lines[n - 1] == lines[n - 1]);
                let k = choose|k: int| 0 <= k < prev.len() && #[trigger] prev[k].0 == n;
                assert(r[k].0 == n);
            } else {
                assert(r[prev.len() as int].0 == n);
            }
        }
    }
}

/// Ignoring case never loses a match: a line that holds the pattern with
/// case respected still holds it with case ignored.
pub proof fn lemma_ignore_case_keeps_match(line: Seq<char>, pattern: Seq<char>)
    requires
        line_matches(line, pattern, false),
    ensures
        line_matches(line, pattern, true),
{
    lemma_contains_lower(line, pattern);
}

/// Over a whole file, every line reported with case respected is reported,
/// with the same text, with case ignored.
pub proof fn lemma_ignore_case_report_superset(lines: Seq<Seq<char>>, pattern: Seq<char>)
    ensures
        forall|k: int|
            0 <= k < report(lines, pattern, false).len() ==> report(lines, pattern, true).contains(
                #[trigger] report(lines, pattern, false)[k],
            ),
{
    lemma_report_exact(lines, pattern, false);
    lemma_report_exact(lines, pattern, true);
    let rs = report(lines, pattern, false);
    let ri = report(lines, pattern, true);
    assert forall|k: int| 0 <= k < rs.len() implies ri.contains(#[trigger] rs[k]) by {
        let n = rs[k].0 as int;
        lemma_ignore_case_keeps_match(lines[n - 1], pattern);
        let j = choose|j: int| 0 <= j < ri.len() && #[trigger] ri[j].0 == n;
        assert(ri[j] == rs[k]);
    }
}

/// With an empty pattern every line is reported, in order, numbered from 1.
pub proof fn lemma_empty_pattern_reports_all(lines: Seq<Seq<char>>, ignore_case: bool)
    ensures
        report(lines, Seq::empty(), ignore_case).len() == lines.len(),
        forall|i: int|
            0 <= i < lines.len() ==> #[trigger] report(lines, Seq::empty(), ignore_case)[i] == (
            (i + 1) as nat,
            lines[i],
        ),
    decreases lines.len(),
{
    if lines.len() > 0 {
        let prev_lines = lines.drop_last();
        lemma_empty_pattern_reports_all(prev_lines, ignore_case);
        let line = fold_case(lines.last(), ignore_case);
        let empty = Seq::<char>::empty();
        assert(lower(empty) == empty);
        assert(fold_case(empty, ignore_case) == empty);
        assert(line.subrange(0, 0) =~= empty);
        assert(occurs_at(line, empty, 0));
        assert(line_matches(lines.last(), empty, ignore_case));
        let r = report(lines, empty, ignore_case);
        assert forall|i: int| 0 <= i < lines.len() implies #[trigger] r[i] == ((i + 1) as nat, lines[i]) by {
            if i < prev_lines.len() {
                assert(prev_lines[i] == lines[i]);
            }
        }
    }
}

} // verus!
