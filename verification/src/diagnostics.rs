//! A light summary of what a tool printed: how many lines report errors,
//! warnings or failures, and the first of those lines.
use crate::names;
use crate::text;
use vstd::prelude::*;
use vstd::slice::slice_subrange;
use vstd::string::*;

verus! {

/// How many lines a summary highlights at most.
pub const MAX_DIAGNOSTIC_HIGHLIGHTS: usize = 80;

/// Counts of the lines that report something, and the first such lines.
#[derive(Debug)]
pub struct DiagnosticSummary {
    pub error_lines: usize,
    pub warning_lines: usize,
    pub failure_lines: usize,
    pub highlights: Vec<String>,
}

/// A summary as plain numbers and texts.
pub struct Summary {
    pub error_lines: nat,
    pub warning_lines: nat,
    pub failure_lines: nat,
    pub highlights: Seq<Seq<char>>,
}

impl View for DiagnosticSummary {
    type V = Summary;

    open spec fn view(&self) -> Summary {
        Summary {
            error_lines: self.error_lines as nat,
            warning_lines: self.warning_lines as nat,
            failure_lines: self.failure_lines as nat,
            highlights: names::texts(self.highlights@),
        }
    }
}

impl Default for DiagnosticSummary {
    /// The summary of no output.
    fn default() -> (r: DiagnosticSummary)
        ensures
            r@ == empty_summary(),
    {
        let r = DiagnosticSummary {
            error_lines: 0,
            warning_lines: 0,
            failure_lines: 0,
            highlights: Vec::new(),
        };
        assert(names::texts(r.highlights@) == Seq::<Seq<char>>::empty());
        r
    }
}

/// The summary of no output.
pub open spec fn empty_summary() -> Summary {
    Summary { error_lines: 0, warning_lines: 0, failure_lines: 0, highlights: seq![] }
}

// ---------------------------------------------------------------------------
// What a line reports
// ---------------------------------------------------------------------------

/// `line` with its ASCII capitals made small.
pub open spec fn lowered(line: Seq<char>) -> Seq<char> {
    line.map_values(|c: char| text::lower(c))
}

/// One of `marks` stands somewhere in `line`.
pub open spec fn mentions(line: Seq<char>, marks: Seq<Seq<char>>) -> bool {
    exists|k: int| 0 <= k < marks.len() && #[trigger] text::contains_text(line, marks[k])
}

/// What an error line mentions.
pub open spec fn error_marks() -> Seq<Seq<char>> {
    seq!["error"@, "panic"@, "exception"@, "traceback"@, "ts2"@, "ts6"@]
}

/// What a warning line mentions.
pub open spec fn warning_marks() -> Seq<Seq<char>> {
    seq!["warning"@, "warn:"@]
}

/// What a failure line mentions.
pub open spec fn failure_marks() -> Seq<Seq<char>> {
    seq!["failed"@, "failure"@, "fail:"@, "✖"@, "not ok"@]
}

/// The line reports an error.
pub open spec fn is_error(line: Seq<char>) -> bool {
    mentions(lowered(line), error_marks())
}

/// The line reports a warning.
pub open spec fn is_warning(line: Seq<char>) -> bool {
    mentions(lowered(line), warning_marks())
}

/// The line reports a failure.
pub open spec fn is_failure(line: Seq<char>) -> bool {
    let low = lowered(line);
    ||| mentions(low, failure_marks())
    ||| low == "fail"@
    ||| text::starts_with(low, "fail "@)
    ||| text::starts_with(low, "fail\t"@)
}

/// The line reports something.
pub open spec fn is_notable(line: Seq<char>) -> bool {
    is_error(line) || is_warning(line) || is_failure(line)
}

// ---------------------------------------------------------------------------
// Lists of lines
// ---------------------------------------------------------------------------

/// The members of a list, each where it first stands.
pub open spec fn distinct(list: Seq<Seq<char>>) -> Seq<Seq<char>>
    decreases list.len(),
{
    if list.len() == 0 {
        seq![]
    } else {
        let d = distinct(list.drop_last());
        if d.contains(list.last()) {
            d
        } else {
            d.push(list.last())
        }
    }
}

/// The first `n` of a list, or all where there are fewer.
pub open spec fn capped(list: Seq<Seq<char>>, n: int) -> Seq<Seq<char>> {
    if n <= 0 {
        seq![]
    } else if list.len() <= n {
        list
    } else {
        list.take(n)
    }
}

/// What `distinct` keeps.
pub proof fn lemma_distinct(list: Seq<Seq<char>>)
    ensures
        distinct(list).no_duplicates(),
        forall|t: Seq<char>| distinct(list).contains(t) <==> list.contains(t),
        distinct(list).len() <= list.len(),
    decreases list.len(),
{
    if list.len() != 0 {
        let rest = list.drop_last();
        let d = distinct(rest);
        lemma_distinct(rest);
        assert(list == rest.push(list.last()));
        assert forall|t: Seq<char>| distinct(list).contains(t) <==> list.contains(t) by {
            if d.contains(t) {
                let k = choose|k: int| 0 <= k < d.len() && d[k] == t;
                assert(d.push(list.last())[k] == t);
                assert(rest.contains(t));
                let j = choose|j: int| 0 <= j < rest.len() && rest[j] == t;
                assert(list[j] == t);
            }
            if list.contains(t) {
                let k = choose|k: int| 0 <= k < list.len() && list[k] == t;
                if k < rest.len() {
                    assert(rest[k] == t);
                    assert(rest.contains(t));
                } else {
                    assert(d.push(t)[d.len() as int] == t);
                }
            }
            if distinct(list).contains(t) && !d.contains(t) {
                assert(t == list.last());
                assert(list[list.len() - 1] == t);
            }
        }
    }
}

/// A list without repetitions is what `distinct` keeps of it.
pub proof fn lemma_distinct_of_distinct(list: Seq<Seq<char>>)
    requires
        list.no_duplicates(),
    ensures
        distinct(list) == list,
    decreases list.len(),
{
    if list.len() != 0 {
        let rest = list.drop_last();
        assert(rest.no_duplicates());
        lemma_distinct_of_distinct(rest);
        assert(list == rest.push(list.last()));
        if rest.contains(list.last()) {
            let k = choose|k: int| 0 <= k < rest.len() && rest[k] == list.last();
            assert(list[k] == list[list.len() - 1]);
        }
    } else {
        assert(distinct(list) == list);
    }
}

/// Lines as the sequence of their texts.
pub open spec fn views(list: Seq<&[char]>) -> Seq<Seq<char>> {
    list.map_values(|l: &[char]| l@)
}

// ---------------------------------------------------------------------------
// The summary of a run
// ---------------------------------------------------------------------------

/// The lines of one output, trimmed.
pub open spec fn trimmed_lines(output: Seq<char>) -> Seq<Seq<char>> {
    text::lines(output).map_values(|l: Seq<char>| text::trimmed(l))
}

/// What was printed, line by line, without empty lines: first the standard
/// output, then the standard error.
pub open spec fn report(stdout: Seq<char>, stderr: Seq<char>) -> Seq<Seq<char>> {
    (trimmed_lines(stdout) + trimmed_lines(stderr)).filter(|l: Seq<char>| l.len() != 0)
}

/// The summary of a list of lines.
pub open spec fn summary_of(lines: Seq<Seq<char>>) -> Summary {
    Summary {
        error_lines: lines.filter(|l: Seq<char>| is_error(l)).len(),
        warning_lines: lines.filter(|l: Seq<char>| is_warning(l)).len(),
        failure_lines: lines.filter(|l: Seq<char>| is_failure(l)).len(),
        highlights: capped(
            distinct(lines.filter(|l: Seq<char>| is_notable(l))),
            MAX_DIAGNOSTIC_HIGHLIGHTS as int,
        ),
    }
}

fn same_chars(a: &[char], b: &[char]) -> (r: bool)
    ensures
        r == (a@ == b@),
{
    let n = a.len();
    if n != b.len() {
        return false;
    }
    let r = text::matches_at(a, b, 0);
    assert(a@.subrange(0, n as int) == a@);
    r
}

fn has_line(list: &Vec<&[char]>, line: &[char]) -> (r: bool)
    ensures
        r == views(list@).contains(line@),
{
    let n = list.len();
    for i in 0..n
        invariant
            n == list@.len(),
            forall|j: int| 0 <= j < i ==> (#[trigger] list@[j])@ != line@,
    {
        if same_chars(list[i], line) {
            assert(views(list@)[i as int] == line@);
            return true;
        }
    }
    assert forall|j: int| 0 <= j < views(list@).len() implies views(list@)[j] != line@ by {
        assert(list@[j]@ != line@);
    }
    false
}

fn marks_of(list: &[&str]) -> (r: Vec<Vec<char>>)
    ensures
        r@.len() == list@.len(),
        forall|k: int| 0 <= k < r@.len() ==> (#[trigger] r@[k])@ == list@[k]@,
{
    let mut r: Vec<Vec<char>> = Vec::new();
    let n = list.len();
    for i in 0..n
        invariant
            n == list@.len(),
            r@.len() == i,
            forall|k: int| 0 <= k < i ==> (#[trigger] r@[k])@ == list@[k]@,
    {
        r.push(text::chars_of(list[i]));
    }
    r
}

fn lower_chars(chars: &[char]) -> (r: Vec<char>)
    ensures
        r@ == lowered(chars@),
{
    let mut r: Vec<char> = Vec::new();
    let n = chars.len();
    for i in 0..n
        invariant
            n == chars@.len(),
            r@ == lowered(chars@.take(i as int)),
    {
        r.push(text::lower_char(chars[i]));
        assert(r@ == lowered(chars@.take(i + 1)));
    }
    assert(chars@.take(n as int) == chars@);
    r
}

/// What the kinds of lines mention, ready for searching.
struct Marks {
    error: Vec<Vec<char>>,
    warning: Vec<Vec<char>>,
    failure: Vec<Vec<char>>,
    fail: Vec<char>,
    fail_space: Vec<char>,
    fail_tab: Vec<char>,
}

spec fn mark_texts(list: Seq<Vec<char>>) -> Seq<Seq<char>> {
    list.map_values(|m: Vec<char>| m@)
}

impl Marks {
    spec fn wf(&self) -> bool {
        &&& mark_texts(self.error@) == error_marks()
        &&& mark_texts(self.warning@) == warning_marks()
        &&& mark_texts(self.failure@) == failure_marks()
        &&& self.fail@ == "fail"@
        &&& self.fail_space@ == "fail "@
        &&& self.fail_tab@ == "fail\t"@
    }

    fn new() -> (r: Marks)
        ensures
            r.wf(),
    {
        let r = Marks {
            error: marks_of(&["error", "panic", "exception", "traceback", "ts2", "ts6"]),
            warning: marks_of(&["warning", "warn:"]),
            failure: marks_of(&["failed", "failure", "fail:", "✖", "not ok"]),
            fail: text::chars_of("fail"),
            fail_space: text::chars_of("fail "),
            fail_tab: text::chars_of("fail\t"),
        };
        assert(mark_texts(r.error@) == error_marks());
        assert(mark_texts(r.warning@) == warning_marks());
        assert(mark_texts(r.failure@) == failure_marks());
        r
    }

    /// Whether the line reports an error, a warning, a failure.
    fn classify(&self, line: &[char]) -> (r: (bool, bool, bool))
        requires
            self.wf(),
        ensures
            r == (is_error(line@), is_warning(line@), is_failure(line@)),
    {
        let low = lower_chars(line);
        let low = low.as_slice();
        let error = mentions_any(low, &self.error);
        let warning = mentions_any(low, &self.warning);
        let failure = mentions_any(low, &self.failure) || same_chars(low, self.fail.as_slice())
            || text::has_prefix(low, self.fail_space.as_slice()) || text::has_prefix(
            low,
            self.fail_tab.as_slice(),
        );
        (error, warning, failure)
    }
}

fn mentions_any(line: &[char], marks: &Vec<Vec<char>>) -> (r: bool)
    ensures
        r == mentions(line@, mark_texts(marks@)),
{
    let r = text::has_any_text(line, marks);
    proof {
        let list = mark_texts(marks@);
        if r {
            let k = choose|k: int|
                0 <= k < marks@.len() && #[trigger] text::contains_text(line@, marks@[k]@);
            assert(list[k] == marks@[k]@);
            assert(text::contains_text(line@, list[k]));
        }
        if mentions(line@, list) {
            let k = choose|k: int|
                0 <= k < list.len() && #[trigger] text::contains_text(line@, list[k]);
            assert(list[k] == marks@[k]@);
        }
    }
    r
}

/// Adds the non-empty trimmed lines of one output to a report.
fn add_report_lines<'a>(lines: &mut Vec<&'a [char]>, output: &'a [char])
    ensures
        views(final(lines)@) == views(old(lines)@) + trimmed_lines(output@).filter(
            |l: Seq<char>| l.len() != 0,
        ),
{
    let ranges = text::line_ranges(output);
    let n = ranges.len();
    let ghost all = trimmed_lines(output@);
    let ghost kept = |l: Seq<char>| l.len() != 0;
    proof {
        assert(text::pieces(output@, ranges@).len() == n);
        assert(all.take(0) == Seq::<Seq<char>>::empty());
        reveal(Seq::filter);
        assert(views(lines@) == views(old(lines)@) + all.take(0).filter(kept));
    }
    for i in 0..n
        invariant
            n == ranges@.len(),
            text::ranges_within(ranges@, output@.len()),
            text::pieces(output@, ranges@) == text::lines(output@),
            all == trimmed_lines(output@),
            all.len() == n,
            kept == (|l: Seq<char>| l.len() != 0),
            views(lines@) == views(old(lines)@) + all.take(i as int).filter(kept),
    {
        let range = ranges[i];
        let ghost was = lines@;
        let line = text::trim_chars(slice_subrange(output, range.0, range.1));
        proof {
            assert(text::pieces(output@, ranges@)[i as int] == output@.subrange(
                range.0 as int,
                range.1 as int,
            ));
            assert(line@ == all[i as int]);
            assert(all.take(i + 1) == all.take(i as int).push(line@));
            text::lemma_filter_push(all.take(i as int), line@, kept);
        }
        if line.len() != 0 {
            lines.push(line);
            assert(views(lines@) == views(was).push(line@));
        }
    }
    assert(all.take(n as int) == all);
}

proof fn lemma_summary_push(lines: Seq<Seq<char>>, line: Seq<char>)
    ensures
        ({
            let was = summary_of(lines);
            let now = summary_of(lines.push(line));
            &&& now.error_lines == was.error_lines + (if is_error(line) { 1int } else { 0 })
            &&& now.warning_lines == was.warning_lines + (if is_warning(line) { 1int } else { 0 })
            &&& now.failure_lines == was.failure_lines + (if is_failure(line) { 1int } else { 0 })
            &&& now.highlights == (if is_notable(line) && was.highlights.len()
                < MAX_DIAGNOSTIC_HIGHLIGHTS && !was.highlights.contains(line) {
                was.highlights.push(line)
            } else {
                was.highlights
            })
        }),
{
    text::lemma_filter_push(lines, line, |l: Seq<char>| is_error(l));
    text::lemma_filter_push(lines, line, |l: Seq<char>| is_warning(l));
    text::lemma_filter_push(lines, line, |l: Seq<char>| is_failure(l));
    text::lemma_filter_push(lines, line, |l: Seq<char>| is_notable(l));
    let notable = lines.filter(|l: Seq<char>| is_notable(l));
    if is_notable(line) {
        lemma_capped_distinct_push(notable, line, MAX_DIAGNOSTIC_HIGHLIGHTS as int);
    }
}

/// One more member: it is kept when there is room and it is new.
proof fn lemma_capped_distinct_push(list: Seq<Seq<char>>, line: Seq<char>, n: int)
    requires
        n >= 0,
    ensures
        ({
            let was = capped(distinct(list), n);
            capped(distinct(list.push(line)), n) == (if was.len() < n && !was.contains(line) {
                was.push(line)
            } else {
                was
            })
        }),
{
    let d = distinct(list);
    assert(list.push(line).drop_last() == list);
    assert(list.push(line).last() == line);
    if !d.contains(line) && d.len() >= n && n > 0 {
        assert(d.push(line).take(n) == d.take(n));
        assert(d.take(d.len() as int) == d);
    }
}

/// Summarises what a run printed.
pub fn summarize_diagnostics(stdout: &str, stderr: &str) -> (r: DiagnosticSummary)
    ensures
        r@ == summary_of(report(stdout@, stderr@)),
{
    let marks = Marks::new();
    let out = text::chars_of(stdout);
    let err = text::chars_of(stderr);
    let mut lines: Vec<&[char]> = Vec::new();
    add_report_lines(&mut lines, out.as_slice());
    add_report_lines(&mut lines, err.as_slice());
    let ghost all = report(stdout@, stderr@);
    proof {
        text::lemma_filter_append(
            trimmed_lines(stdout@),
            trimmed_lines(stderr@),
            |l: Seq<char>| l.len() != 0,
        );
        assert(views(lines@) == all);
    }
    let n = lines.len();
    let mut error_lines: usize = 0;
    let mut warning_lines: usize = 0;
    let mut failure_lines: usize = 0;
    let mut kept: Vec<&[char]> = Vec::new();
    proof {
        reveal(Seq::filter);
        assert(all.take(0) == Seq::<Seq<char>>::empty());
        assert(views(kept@) == summary_of(all.take(0)).highlights);
    }
    for i in 0..n
        invariant
            n == lines@.len(),
            views(lines@) == all,
            marks.wf(),
            error_lines <= i,
            warning_lines <= i,
            failure_lines <= i,
            error_lines == summary_of(all.take(i as int)).error_lines,
            warning_lines == summary_of(all.take(i as int)).warning_lines,
            failure_lines == summary_of(all.take(i as int)).failure_lines,
            views(kept@) == summary_of(all.take(i as int)).highlights,
    {
        let line = lines[i];
        proof {
            assert(all[i as int] == line@);
            assert(all.take(i + 1) == all.take(i as int).push(line@));
            lemma_summary_push(all.take(i as int), line@);
        }
        let (error, warning, failure) = marks.classify(line);
        if error {
            error_lines += 1;
        }
        if warning {
            warning_lines += 1;
        }
        if failure {
            failure_lines += 1;
        }
        if (error || warning || failure) && kept.len() < MAX_DIAGNOSTIC_HIGHLIGHTS && !has_line(
            &kept,
            line,
        ) {
            let ghost was = kept@;
            kept.push(line);
            assert(views(kept@) == views(was).push(line@));
        }
    }
    assert(all.take(n as int) == all);
    let highlights = strings_of(&kept);
    DiagnosticSummary { error_lines, warning_lines, failure_lines, highlights }
}

fn strings_of(list: &Vec<&[char]>) -> (r: Vec<String>)
    ensures
        names::texts(r@) == views(list@),
{
    let mut r: Vec<String> = Vec::new();
    let n = list.len();
    for i in 0..n
        invariant
            n == list@.len(),
            r@.len() == i,
            forall|k: int| 0 <= k < i ==> (#[trigger] r@[k])@ == list@[k]@,
    {
        r.push(text::string_of(list[i]));
    }
    assert(names::texts(r@) == views(list@));
    r
}

// ---------------------------------------------------------------------------
// Merging
// ---------------------------------------------------------------------------

/// Two summaries as one: the counts add up, and the highlights of the second
/// that the first lacks follow its own, as far as there is room.
pub open spec fn merged(target: Summary, source: Summary) -> Summary {
    let fresh = source.highlights.filter(|l: Seq<char>| !target.highlights.contains(l));
    Summary {
        error_lines: target.error_lines + source.error_lines,
        warning_lines: target.warning_lines + source.warning_lines,
        failure_lines: target.failure_lines + source.failure_lines,
        highlights: target.highlights + capped(
            distinct(fresh),
            MAX_DIAGNOSTIC_HIGHLIGHTS - target.highlights.len(),
        ),
    }
}

/// The counts of both summaries together can be counted.
pub open spec fn mergeable(target: Summary, source: Summary) -> bool {
    &&& target.error_lines + source.error_lines <= usize::MAX
    &&& target.warning_lines + source.warning_lines <= usize::MAX
    &&& target.failure_lines + source.failure_lines <= usize::MAX
}

/// Whether the counts of both summaries together can be counted.
pub fn can_merge(target: &DiagnosticSummary, source: &DiagnosticSummary) -> (r: bool)
    ensures
        r == mergeable(target@, source@),
{
    target.error_lines <= usize::MAX - source.error_lines && target.warning_lines <= usize::MAX
        - source.warning_lines && target.failure_lines <= usize::MAX - source.failure_lines
}

/// Adds a summary to another.
pub fn merge_diagnostics(target: &mut DiagnosticSummary, source: &DiagnosticSummary)
    requires
        mergeable(old(target)@, source@),
    ensures
        final(target)@ == merged(old(target)@, source@),
{
    let ghost first = target@.highlights;
    let ghost second = source@.highlights;
    let ghost fresh = |l: Seq<char>| !first.contains(l);
    let ghost room = MAX_DIAGNOSTIC_HIGHLIGHTS - first.len();
    target.error_lines += source.error_lines;
    target.warning_lines += source.warning_lines;
    target.failure_lines += source.failure_lines;
    let n = source.highlights.len();
    proof {
        reveal(Seq::filter);
        assert(second.take(0) == Seq::<Seq<char>>::empty());
        assert(target@.highlights == first + capped(distinct(second.take(0).filter(fresh)), room));
    }
    for i in 0..n
        invariant
            n == source.highlights@.len(),
            second == names::texts(source.highlights@),
            fresh == (|l: Seq<char>| !first.contains(l)),
            room == MAX_DIAGNOSTIC_HIGHLIGHTS - first.len(),
            target.error_lines == old(target).error_lines + source.error_lines,
            target.warning_lines == old(target).warning_lines + source.warning_lines,
            target.failure_lines == old(target).failure_lines + source.failure_lines,
            target@.highlights == first + capped(
                distinct(second.take(i as int).filter(fresh)),
                room,
            ),
    {
        let ghost seen = second.take(i as int).filter(fresh);
        let ghost was = target@.highlights;
        let ghost line = second[i as int];
        proof {
            assert(second.take(i + 1) == second.take(i as int).push(line));
            text::lemma_filter_push(second.take(i as int), line, fresh);
            if room > 0 {
                lemma_capped_distinct_push(seen, line, room);
            }
            text::lemma_contains_concat(first, capped(distinct(seen), room), line);
        }
        if target.highlights.len() < MAX_DIAGNOSTIC_HIGHLIGHTS && !names::has_name(
            target.highlights.as_slice(),
            source.highlights[i].as_str(),
        ) {
            target.highlights.push(source.highlights[i].clone());
            assert(target@.highlights == was.push(line));
        }
        assert(target@.highlights == first + capped(
            distinct(second.take(i + 1).filter(fresh)),
            room,
        ));
    }
    assert(second.take(n as int) == second);
    assert(target@.highlights == merged(old(target)@, source@).highlights);
}

// ---------------------------------------------------------------------------
// What holds of every summary
// ---------------------------------------------------------------------------

/// The highlights are few enough, and none is repeated.
pub open spec fn well_kept(s: Summary) -> bool {
    s.highlights.no_duplicates() && s.highlights.len() <= MAX_DIAGNOSTIC_HIGHLIGHTS
}

proof fn lemma_capped_distinct(list: Seq<Seq<char>>, n: int)
    ensures
        capped(distinct(list), n).no_duplicates(),
        n >= 0 ==> capped(distinct(list), n).len() <= n,
        forall|t: Seq<char>| capped(distinct(list), n).contains(t) ==> list.contains(t),
        0 <= capped(distinct(list), n).len() < n ==> forall|t: Seq<char>|
            list.contains(t) ==> capped(distinct(list), n).contains(t),
{
    lemma_distinct(list);
    let d = distinct(list);
    let c = capped(d, n);
    assert forall|t: Seq<char>| c.contains(t) implies list.contains(t) by {
        let k = choose|k: int| 0 <= k < c.len() && c[k] == t;
        assert(d[k] == t);
        assert(d.contains(t));
    }
}

/// The highlights of a summary are lines that report something, each of them
/// once and at most the fixed number; where there are fewer, every line that
/// reports something is among them.
pub proof fn law_highlights_are_the_notable_lines(lines: Seq<Seq<char>>)
    ensures
        well_kept(summary_of(lines)),
        forall|t: Seq<char>| #[trigger]
            summary_of(lines).highlights.contains(t) ==> lines.contains(t) && is_notable(t),
        summary_of(lines).highlights.len() < MAX_DIAGNOSTIC_HIGHLIGHTS ==> forall|t: Seq<char>|
            lines.contains(t) && is_notable(t) ==> #[trigger] summary_of(
                lines,
            ).highlights.contains(t),
{
    let p = |l: Seq<char>| is_notable(l);
    let notable = lines.filter(p);
    let s = summary_of(lines);
    lemma_capped_distinct(notable, MAX_DIAGNOSTIC_HIGHLIGHTS as int);
    assert forall|t: Seq<char>| #[trigger] s.highlights.contains(t) implies lines.contains(t)
        && is_notable(t) by {
        text::lemma_filter_contains(lines, p, t);
    }
    if s.highlights.len() < MAX_DIAGNOSTIC_HIGHLIGHTS {
        assert forall|t: Seq<char>|
            lines.contains(t) && is_notable(t) implies #[trigger] s.highlights.contains(t) by {
            text::lemma_filter_contains(lines, p, t);
        }
    }
}

/// Merging loses and reorders none of the highlights that were there, adds
/// only highlights of the other summary, and keeps a summary well kept.
pub proof fn law_merging_extends(target: Summary, source: Summary)
    ensures
        target.highlights.is_prefix_of(merged(target, source).highlights),
        forall|t: Seq<char>| #[trigger]
            merged(target, source).highlights.contains(t) ==> target.highlights.contains(t)
                || source.highlights.contains(t),
        well_kept(target) ==> well_kept(merged(target, source)),
        merged(target, source).highlights.len() < MAX_DIAGNOSTIC_HIGHLIGHTS ==> forall|
            t: Seq<char>,
        |
            source.highlights.contains(t) ==> #[trigger] merged(
                target,
                source,
            ).highlights.contains(t),
{
    let p = |l: Seq<char>| !target.highlights.contains(l);
    let fresh = source.highlights.filter(p);
    let room = MAX_DIAGNOSTIC_HIGHLIGHTS - target.highlights.len();
    let more = capped(distinct(fresh), room);
    let now = merged(target, source).highlights;
    lemma_capped_distinct(fresh, room);
    assert forall|t: Seq<char>| #[trigger] now.contains(t) implies target.highlights.contains(t)
        || source.highlights.contains(t) by {
        text::lemma_contains_concat(target.highlights, more, t);
        text::lemma_filter_contains(source.highlights, p, t);
    }
    if well_kept(target) {
        assert forall|i: int, j: int| 0 <= i < now.len() && 0 <= j < now.len() && i != j implies
            now[i] != now[j] by {
            let k = target.highlights.len();
            if i < k && j >= k {
                assert(more.contains(more[j - k]));
                text::lemma_filter_contains(source.highlights, p, more[j - k]);
            }
            if j < k && i >= k {
                assert(more.contains(more[i - k]));
                text::lemma_filter_contains(source.highlights, p, more[i - k]);
            }
        }
    }
    if now.len() < MAX_DIAGNOSTIC_HIGHLIGHTS {
        assert forall|t: Seq<char>| source.highlights.contains(t) implies #[trigger] now.contains(
            t,
        ) by {
            text::lemma_contains_concat(target.highlights, more, t);
            text::lemma_filter_contains(source.highlights, p, t);
        }
    }
}

proof fn lemma_distinct_members_fit(few: Seq<Seq<char>>, many: Seq<Seq<char>>)
    requires
        few.no_duplicates(),
        many.no_duplicates(),
        forall|t: Seq<char>| many.contains(t) ==> few.contains(t),
    ensures
        many.len() <= few.len(),
{
    few.unique_seq_to_set();
    many.unique_seq_to_set();
    vstd::seq_lib::seq_to_set_is_finite(few);
    assert forall|t: Seq<char>| many.to_set().contains(t) implies few.to_set().contains(t) by {
        assert(many.contains(t));
    }
    vstd::set_lib::lemma_len_subset(many.to_set(), few.to_set());
}

proof fn lemma_merged_push(target: Summary, source: Summary, line: Seq<char>)
    ensures
        ({
            let was = merged(target, source).highlights;
            let more = Summary { highlights: source.highlights.push(line), ..source };
            merged(target, more).highlights == (if was.len() < MAX_DIAGNOSTIC_HIGHLIGHTS
                && !was.contains(line) {
                was.push(line)
            } else {
                was
            })
        }),
{
    let p = |l: Seq<char>| !target.highlights.contains(l);
    let room = MAX_DIAGNOSTIC_HIGHLIGHTS - target.highlights.len();
    let fresh = source.highlights.filter(p);
    let kept = capped(distinct(fresh), room);
    let was = merged(target, source).highlights;
    let more = Summary { highlights: source.highlights.push(line), ..source };
    text::lemma_filter_push(source.highlights, line, p);
    text::lemma_contains_concat(target.highlights, kept, line);
    if room > 0 && p(line) {
        lemma_capped_distinct_push(fresh, line, room);
    }
    assert(merged(target, more).highlights == (if was.len() < MAX_DIAGNOSTIC_HIGHLIGHTS
        && !was.contains(line) {
        was.push(line)
    } else {
        was
    }));
}

/// Merging the summaries of two lists of lines gives the summary of both lists
/// in a row.
pub proof fn law_merging_is_summarizing_both(a: Seq<Seq<char>>, b: Seq<Seq<char>>)
    ensures
        merged(summary_of(a), summary_of(b)) == summary_of(a + b),
    decreases b.len(),
{
    let first = summary_of(a);
    law_highlights_are_the_notable_lines(a);
    if b.len() == 0 {
        reveal(Seq::filter);
        assert(a + b == a);
        assert(summary_of(b).highlights == Seq::<Seq<char>>::empty());
        assert(merged(first, summary_of(b)).highlights == first.highlights);
    } else {
        let rest = b.drop_last();
        let line = b.last();
        let second = summary_of(rest);
        let both = merged(first, second);
        law_merging_is_summarizing_both(a, rest);
        assert(b == rest.push(line));
        assert(a + b == (a + rest).push(line));
        lemma_summary_push(rest, line);
        lemma_summary_push(a + rest, line);
        lemma_merged_push(first, second, line);
        law_highlights_are_the_notable_lines(rest);
        law_merging_extends(first, second);
        if both.highlights.len() < MAX_DIAGNOSTIC_HIGHLIGHTS {
            lemma_distinct_members_fit(both.highlights, second.highlights);
        }
        assert(merged(first, summary_of(b)).highlights == summary_of(a + b).highlights);
    }
}

/// The summary depends on the lines that were printed alone, not on which of
/// the two outputs holds them.
pub proof fn law_summary_depends_on_the_lines(
    stdout: Seq<char>,
    stderr: Seq<char>,
    other_stdout: Seq<char>,
    other_stderr: Seq<char>,
)
    requires
        text::lines(stdout) + text::lines(stderr) == text::lines(other_stdout) + text::lines(
            other_stderr,
        ),
    ensures
        summary_of(report(stdout, stderr)) == summary_of(report(other_stdout, other_stderr)),
{
    let f = |l: Seq<char>| text::trimmed(l);
    let all = text::lines(stdout) + text::lines(stderr);
    assert(trimmed_lines(stdout) + trimmed_lines(stderr) == all.map_values(f));
    assert(trimmed_lines(other_stdout) + trimmed_lines(other_stderr) == all.map_values(f));
}

/// Merging into the summary of no output gives the summary itself.
pub proof fn law_merging_into_nothing(source: Summary)
    requires
        well_kept(source),
    ensures
        merged(empty_summary(), source) == source,
{
    let none = empty_summary().highlights;
    let p = |l: Seq<char>| !none.contains(l);
    text::lemma_filter_all(source.highlights, p);
    lemma_distinct_of_distinct(source.highlights);
    assert(none + source.highlights == source.highlights);
}

// ---------------------------------------------------------------------------
// What is searched for in a line
// ---------------------------------------------------------------------------

/// Lowering a line keeps its length and maps each of its characters by itself.
pub proof fn law_lowering_maps_each_character(line: Seq<char>, i: int)
    requires
        0 <= i < line.len(),
    ensures
        lowered(line).len() == line.len(),
        'A' <= line[i] <= 'Z' ==> lowered(line)[i] as int == line[i] as int + 32,
        !('A' <= line[i] <= 'Z') ==> lowered(line)[i] == line[i],
{
}

/// `part` is the text `mark`, its letters in either ASCII case.
pub open spec fn spells(part: Seq<char>, mark: Seq<char>) -> bool {
    &&& part.len() == mark.len()
    &&& forall|i: int|
        0 <= i < part.len() ==> mark[i] as int == if 'A' <= #[trigger] part[i] <= 'Z' {
            part[i] as int + 32
        } else {
            part[i] as int
        }
}

/// Some part of the line, wherever it stands, is the text `mark`, its letters in
/// either ASCII case.
pub open spec fn holds(line: Seq<char>, mark: Seq<char>) -> bool {
    exists|i: int|
        0 <= i && i + mark.len() <= line.len() && #[trigger] spells(
            line.subrange(i, i + mark.len()),
            mark,
        )
}

proof fn lemma_spells(part: Seq<char>, mark: Seq<char>)
    ensures
        spells(part, mark) <==> lowered(part) == mark,
{
    if lowered(part) == mark {
        assert forall|i: int| 0 <= i < part.len() implies mark[i] as int == if 'A'
            <= #[trigger] part[i] <= 'Z' {
            part[i] as int + 32
        } else {
            part[i] as int
        } by {
            assert(lowered(part)[i] == text::lower(part[i]));
        }
    }
    if spells(part, mark) {
        assert forall|i: int| 0 <= i < part.len() implies lowered(part)[i] == mark[i] by {
            assert(lowered(part)[i] == text::lower(part[i]));
        }
        assert(lowered(part) == mark);
    }
}

proof fn lemma_holds(line: Seq<char>, mark: Seq<char>)
    ensures
        holds(line, mark) <==> text::contains_text(lowered(line), mark),
{
    let low = lowered(line);
    if holds(line, mark) {
        let i = choose|i: int|
            0 <= i && i + mark.len() <= line.len() && #[trigger] spells(
                line.subrange(i, i + mark.len()),
                mark,
            );
        let part = line.subrange(i, i + mark.len());
        lemma_spells(part, mark);
        assert(low.subrange(i, i + mark.len()) == lowered(part));
        assert(text::occurs_at(low, mark, i));
    }
    if text::contains_text(low, mark) {
        let i = choose|i: int| text::occurs_at(low, mark, i);
        let part = line.subrange(i, i + mark.len());
        assert(low.subrange(i, i + mark.len()) == lowered(part));
        lemma_spells(part, mark);
        assert(spells(line.subrange(i, i + mark.len()), mark));
    }
}

proof fn lemma_mentions_one(line: Seq<char>, marks: Seq<Seq<char>>, k: int)
    requires
        0 <= k < marks.len(),
        text::contains_text(line, marks[k]),
    ensures
        mentions(line, marks),
{
}

/// A line is an error line exactly where one of the texts `error`, `panic`,
/// `exception`, `traceback`, `ts2`, `ts6` stands anywhere in it, in any ASCII
/// case.
pub proof fn law_error_lines(line: Seq<char>)
    ensures
        is_error(line) <==> holds(line, "error"@) || holds(line, "panic"@) || holds(
            line,
            "exception"@,
        ) || holds(line, "traceback"@) || holds(line, "ts2"@) || holds(line, "ts6"@),
{
    let low = lowered(line);
    let marks = error_marks();
    lemma_holds(line, "error"@);
    lemma_holds(line, "panic"@);
    lemma_holds(line, "exception"@);
    lemma_holds(line, "traceback"@);
    lemma_holds(line, "ts2"@);
    lemma_holds(line, "ts6"@);
    assert(marks[0] == "error"@ && marks[1] == "panic"@ && marks[2] == "exception"@);
    assert(marks[3] == "traceback"@ && marks[4] == "ts2"@ && marks[5] == "ts6"@);
    if holds(line, "error"@) {
        lemma_mentions_one(low, marks, 0);
    }
    if holds(line, "panic"@) {
        lemma_mentions_one(low, marks, 1);
    }
    if holds(line, "exception"@) {
        lemma_mentions_one(low, marks, 2);
    }
    if holds(line, "traceback"@) {
        lemma_mentions_one(low, marks, 3);
    }
    if holds(line, "ts2"@) {
        lemma_mentions_one(low, marks, 4);
    }
    if holds(line, "ts6"@) {
        lemma_mentions_one(low, marks, 5);
    }
}

/// A line is a warning line exactly where `warning` or `warn:` stands anywhere
/// in it, in any ASCII case.
pub proof fn law_warning_lines(line: Seq<char>)
    ensures
        is_warning(line) <==> holds(line, "warning"@) || holds(line, "warn:"@),
{
    let low = lowered(line);
    let marks = warning_marks();
    lemma_holds(line, "warning"@);
    lemma_holds(line, "warn:"@);
    assert(marks[0] == "warning"@ && marks[1] == "warn:"@);
    if holds(line, "warning"@) {
        lemma_mentions_one(low, marks, 0);
    }
    if holds(line, "warn:"@) {
        lemma_mentions_one(low, marks, 1);
    }
}

/// A line is a failure line exactly where `failed`, `failure`, `fail:`, a heavy
/// cross or `not ok` stands anywhere in it, or where it is `fail` or begins with
/// that and a space or a tab, in any ASCII case.
pub proof fn law_failure_lines(line: Seq<char>)
    ensures
        is_failure(line) <==> holds(line, "failed"@) || holds(line, "failure"@) || holds(
            line,
            "fail:"@,
        ) || holds(line, "✖"@) || holds(line, "not ok"@) || spells(line, "fail"@) || (line.len()
            >= 5 && (spells(line.take(5), "fail "@) || spells(line.take(5), "fail\t"@))),
{
    let low = lowered(line);
    let marks = failure_marks();
    lemma_holds(line, "failed"@);
    lemma_holds(line, "failure"@);
    lemma_holds(line, "fail:"@);
    lemma_holds(line, "✖"@);
    lemma_holds(line, "not ok"@);
    lemma_spells(line, "fail"@);
    reveal_strlit("fail ");
    reveal_strlit("fail\t");
    assert("fail "@.len() == 5 && "fail\t"@.len() == 5);
    if line.len() >= 5 {
        lemma_spells(line.take(5), "fail "@);
        lemma_spells(line.take(5), "fail\t"@);
        assert(low.take(5) == lowered(line.take(5)));
    }
    assert(marks[0] == "failed"@ && marks[1] == "failure"@ && marks[2] == "fail:"@);
    assert(marks[3] == "✖"@ && marks[4] == "not ok"@);
    if holds(line, "failed"@) {
        lemma_mentions_one(low, marks, 0);
    }
    if holds(line, "failure"@) {
        lemma_mentions_one(low, marks, 1);
    }
    if holds(line, "fail:"@) {
        lemma_mentions_one(low, marks, 2);
    }
    if holds(line, "✖"@) {
        lemma_mentions_one(low, marks, 3);
    }
    if holds(line, "not ok"@) {
        lemma_mentions_one(low, marks, 4);
    }
}

/// A mark in any ASCII case is found between any two texts, however long.
pub proof fn law_marks_are_found_anywhere(
    a: Seq<char>,
    part: Seq<char>,
    b: Seq<char>,
    mark: Seq<char>,
)
    requires
        part.len() == mark.len(),
        forall|i: int|
            0 <= i < part.len() ==> (#[trigger] part[i] == mark[i] && !('A' <= part[i] <= 'Z'))
                || ('A' <= part[i] <= 'Z' && part[i] as int + 32 == mark[i] as int),
    ensures
        holds(a + part + b, mark),
        mark == "error"@ ==> is_error(a + part + b),
        mark == "panic"@ ==> is_error(a + part + b),
        mark == "exception"@ ==> is_error(a + part + b),
        mark == "traceback"@ ==> is_error(a + part + b),
        mark == "ts2"@ ==> is_error(a + part + b),
        mark == "ts6"@ ==> is_error(a + part + b),
        mark == "warning"@ ==> is_warning(a + part + b),
        mark == "warn:"@ ==> is_warning(a + part + b),
        mark == "failed"@ ==> is_failure(a + part + b),
        mark == "failure"@ ==> is_failure(a + part + b),
        mark == "fail:"@ ==> is_failure(a + part + b),
        mark == "✖"@ ==> is_failure(a + part + b),
        mark == "not ok"@ ==> is_failure(a + part + b),
{
    let line = a + part + b;
    let i = a.len() as int;
    assert(line.subrange(i, i + mark.len()) == part);
    assert(spells(line.subrange(i, i + mark.len()), mark));
    law_error_lines(line);
    law_warning_lines(line);
    law_failure_lines(line);
}

// ---------------------------------------------------------------------------
// How a summary grows
// ---------------------------------------------------------------------------

/// Nothing printed gives no counts and no highlights. One more line adds one to
/// each count whose kind it is, and is highlighted where it reports something,
/// is not highlighted yet, and fewer than eighty lines are.
pub proof fn law_summary_grows_line_by_line(lines: Seq<Seq<char>>, line: Seq<char>)
    ensures
        ({
            let was = summary_of(lines);
            let now = summary_of(lines.push(line));
            &&& now.error_lines == was.error_lines + (if is_error(line) { 1int } else { 0 })
            &&& now.warning_lines == was.warning_lines + (if is_warning(line) { 1int } else { 0 })
            &&& now.failure_lines == was.failure_lines + (if is_failure(line) { 1int } else { 0 })
            &&& now.highlights == (if (is_error(line) || is_warning(line) || is_failure(line))
                && was.highlights.len() < 80 && !was.highlights.contains(line) {
                was.highlights.push(line)
            } else {
                was.highlights
            })
        }),
        ({
            let none = summary_of(Seq::<Seq<char>>::empty());
            &&& none.error_lines == 0 && none.warning_lines == 0 && none.failure_lines == 0
            &&& none.highlights.len() == 0
        }),
{
    lemma_summary_push(lines, line);
    reveal(Seq::filter);
}

/// Merging adds the counts up.
pub proof fn law_merging_adds_the_counts(target: Summary, source: Summary)
    ensures
        merged(target, source).error_lines == target.error_lines + source.error_lines,
        merged(target, source).warning_lines == target.warning_lines + source.warning_lines,
        merged(target, source).failure_lines == target.failure_lines + source.failure_lines,
{
}

/// Merging takes the highlights of the other summary one by one: each is added
/// where it is not there yet and fewer than eighty are.
pub proof fn law_merging_takes_one_by_one(target: Summary, source: Summary, line: Seq<char>)
    ensures
        ({
            let was = merged(target, source).highlights;
            let more = Summary { highlights: source.highlights.push(line), ..source };
            merged(target, more).highlights == (if was.len() < 80 && !was.contains(line) {
                was.push(line)
            } else {
                was
            })
        }),
        source.highlights.len() == 0 ==> merged(target, source).highlights == target.highlights,
{
    lemma_merged_push(target, source, line);
    if source.highlights.len() == 0 {
        reveal(Seq::filter);
        assert(merged(target, source).highlights == target.highlights);
    }
}

/// What was printed is read line by line: each line is trimmed and reported
/// unless nothing is left of it, and the standard error follows the standard
/// output.
pub proof fn law_reports_are_read_line_by_line(
    line: Seq<char>,
    rest: Seq<char>,
    stderr: Seq<char>,
)
    requires
        !line.contains('\n'),
    ensures
        ({
            let ended = if line.len() != 0 && line.last() == '\r' {
                line.drop_last()
            } else {
                line
            };
            report(line + seq!['\n'] + rest, stderr) == (if text::trimmed(ended).len() == 0 {
                Seq::<Seq<char>>::empty()
            } else {
                seq![text::trimmed(ended)]
            }) + report(rest, stderr)
        }),
        report(rest, stderr) == report(rest, Seq::<char>::empty()) + report(
            Seq::<char>::empty(),
            stderr,
        ),
        report(Seq::<char>::empty(), stderr) == report(stderr, Seq::<char>::empty()),
        report(line, Seq::<char>::empty()) == if text::trimmed(line).len() == 0 {
            Seq::<Seq<char>>::empty()
        } else {
            seq![text::trimmed(line)]
        },
{
    let p = |l: Seq<char>| l.len() != 0;
    let none: Seq<Seq<char>> = Seq::empty();
    let nothing: Seq<char> = Seq::empty();
    let ended = if line.len() != 0 && line.last() == '\r' {
        line.drop_last()
    } else {
        line
    };
    let s = line + seq!['\n'] + rest;
    reveal(Seq::filter);
    text::law_line_feed_ends_a_line(line, rest);
    text::law_text_without_line_feed_is_one_line(line);
    text::law_text_without_line_feed_is_one_line(nothing);
    let first = seq![text::trimmed(ended)];
    assert(trimmed_lines(s) == first + trimmed_lines(rest));
    assert(trimmed_lines(s) + trimmed_lines(stderr) == first + (trimmed_lines(rest)
        + trimmed_lines(stderr)));
    text::lemma_filter_append(first, trimmed_lines(rest) + trimmed_lines(stderr), p);
    text::lemma_filter_push(none, text::trimmed(ended), p);
    assert(none.push(text::trimmed(ended)) == first);
    assert(none.filter(p) == none);
    assert(trimmed_lines(nothing) == none);
    assert(trimmed_lines(rest) + none == trimmed_lines(rest));
    assert(none + trimmed_lines(stderr) == trimmed_lines(stderr));
    assert(trimmed_lines(stderr) + none == trimmed_lines(stderr));
    text::lemma_filter_append(trimmed_lines(rest), trimmed_lines(stderr), p);
    if line.len() == 0 {
        text::law_trimming_keeps_the_core(nothing, nothing, nothing);
        assert(nothing + nothing + nothing == line);
        assert(trimmed_lines(line) + none == none);
    } else {
        text::lemma_filter_push(none, text::trimmed(line), p);
        assert(none.push(text::trimmed(line)) == seq![text::trimmed(line)]);
        assert(trimmed_lines(line) + none == seq![text::trimmed(line)]);
    }
}

/// A line of either output in which a mark of an error stands is counted as an
/// error, wherever in the line it stands, and is highlighted where there is
/// room.
pub proof fn law_printed_errors_are_counted(
    stdout: Seq<char>,
    stderr: Seq<char>,
    a: Seq<char>,
    part: Seq<char>,
    b: Seq<char>,
    mark: Seq<char>,
)
    requires
        text::lines(stdout).contains(a + part + b) || text::lines(stderr).contains(a + part + b),
        part.len() == mark.len(),
        forall|i: int|
            0 <= i < part.len() ==> (#[trigger] part[i] == mark[i] && !('A' <= part[i] <= 'Z'))
                || ('A' <= part[i] <= 'Z' && part[i] as int + 32 == mark[i] as int),
        mark == "error"@ || mark == "panic"@ || mark == "exception"@ || mark == "traceback"@
            || mark == "ts2"@ || mark == "ts6"@,
    ensures
        summary_of(report(stdout, stderr)).error_lines > 0,
        summary_of(report(stdout, stderr)).highlights.len() < 80 ==> summary_of(
            report(stdout, stderr),
        ).highlights.contains(text::trimmed(a + part + b)),
{
    let line = a + part + b;
    let all = report(stdout, stderr);
    let p = |l: Seq<char>| l.len() != 0;
    let q = |l: Seq<char>| is_error(l);
    reveal_strlit("error");
    reveal_strlit("panic");
    reveal_strlit("exception");
    reveal_strlit("traceback");
    reveal_strlit("ts2");
    reveal_strlit("ts6");
    assert("error"@.len() == 5 && "panic"@.len() == 5 && "exception"@.len() == 9);
    assert("traceback"@.len() == 9 && "ts2"@.len() == 3 && "ts6"@.len() == 3);
    assert("error"@[0] == 'e' && "error"@[4] == 'r' && "panic"@[0] == 'p' && "panic"@[4] == 'c');
    assert("exception"@[0] == 'e' && "exception"@[8] == 'n');
    assert("traceback"@[0] == 't' && "traceback"@[8] == 'k');
    assert("ts2"@[0] == 't' && "ts2"@[2] == '2' && "ts6"@[0] == 't' && "ts6"@[2] == '6');
    assert(part.first() == part[0] && part.last() == part[part.len() - 1]);
    assert(!text::is_white_space(part.first()));
    assert(!text::is_white_space(part.last()));
    text::law_trimming_loses_no_text(a, part, b);
    let core = text::trimmed(line);
    let i = choose|i: int| text::occurs_at(core, part, i);
    let x = core.take(i);
    let y = core.skip(i + part.len());
    assert(core == x + part + y);
    law_marks_are_found_anywhere(x, part, y, mark);
    let printed = trimmed_lines(stdout) + trimmed_lines(stderr);
    text::lemma_contains_concat(trimmed_lines(stdout), trimmed_lines(stderr), core);
    if text::lines(stdout).contains(line) {
        let k = choose|k: int|
            0 <= k < text::lines(stdout).len() && text::lines(stdout)[k] == line;
        assert(trimmed_lines(stdout)[k] == core);
    } else {
        let k = choose|k: int|
            0 <= k < text::lines(stderr).len() && text::lines(stderr)[k] == line;
        assert(trimmed_lines(stderr)[k] == core);
    }
    text::lemma_filter_contains(printed, p, core);
    assert(all.contains(core));
    text::lemma_filter_contains(all, q, core);
    law_highlights_are_the_notable_lines(all);
}

} // verus!
