//! The simple, concrete targets of a makefile.
use crate::names;
use crate::render;
use crate::text;
use vstd::prelude::*;
use vstd::slice::slice_subrange;
use vstd::string::*;

verus! {

/// The words that may stand before the variable of an assignment.
pub open spec fn modifiers() -> Seq<Seq<char>> {
    seq!["export"@, "override"@, "private"@]
}

/// What stands before the operator of an assignment is one variable, behind
/// modifiers alone.
pub open spec fn names_variable(left: Seq<char>) -> bool {
    let list = text::words(left);
    list.len() != 0 && forall|k: int|
        0 <= k < list.len() - 1 ==> modifiers().contains(#[trigger] list[k])
}

/// What stands before the operator that ends right behind `left` with `=`.
pub open spec fn before_operator(left: Seq<char>) -> Seq<char> {
    if left.len() != 0 && (left.last() == '?' || left.last() == '+' || left.last() == '!') {
        left.drop_last()
    } else {
        left
    }
}

/// The line assigns to a variable, with `=`, `?=`, `+=`, `!=`, or with colons
/// right before the `=`. A line with several words before the operator is no
/// assignment, for a variable's name holds no white space.
pub open spec fn is_assignment(line: Seq<char>) -> bool {
    let e = text::first_index(line, '=');
    let c = text::first_index(line, ':');
    if e >= line.len() {
        false
    } else if e < c {
        names_variable(before_operator(line.take(e)))
    } else {
        (forall|k: int| c <= k < e ==> line[k] == ':') && names_variable(line.take(c))
    }
}

/// The words with which a line that tells make something begins.
pub open spec fn directives() -> Seq<Seq<char>> {
    seq![
        "define"@,
        "endef"@,
        "undefine"@,
        "ifdef"@,
        "ifndef"@,
        "ifeq"@,
        "ifneq"@,
        "else"@,
        "endif"@,
        "include"@,
        "-include"@,
        "sinclude"@,
        "export"@,
        "unexport"@,
        "vpath"@,
    ]
}

/// The line is a directive: its first word is one.
pub open spec fn is_directive(line: Seq<char>) -> bool {
    text::words(line).len() != 0 && directives().contains(text::words(line)[0])
}

/// A line that cannot name targets: a recipe or an indented line, a comment, a
/// special target, an assignment, a rule that holds the mark of one, or a
/// directive.
pub open spec fn is_skipped(line: Seq<char>) -> bool {
    ||| line.len() != 0 && (line[0] == ' ' || line[0] == '\t' || line[0] == '#' || line[0] == '.')
    ||| text::contains_text(line, "::="@)
    ||| text::contains_text(line, " :="@)
    ||| is_assignment(line)
    ||| is_directive(line)
}

/// A character of the name of a concrete target.
pub open spec fn is_target_char(c: char) -> bool {
    render::is_alphanumeric(c) || c == '_' || c == '-' || c == '.' || c == '/'
}

/// The name of a concrete target: no pattern, variable or assignment.
pub open spec fn is_target_name(name: Seq<char>) -> bool {
    forall|i: int| 0 <= i < name.len() ==> is_target_char(#[trigger] name[i])
}

/// The words before the first colon of a line, where there is a colon.
pub open spec fn rule_words(line: Seq<char>) -> Seq<Seq<char>> {
    let colon = text::first_index(line, ':');
    if colon < line.len() {
        text::words(line.take(colon))
    } else {
        seq![]
    }
}

/// The line names `target`.
pub open spec fn names_target(line: Seq<char>, target: Seq<char>) -> bool {
    !is_skipped(line) && rule_words(line).contains(target) && is_target_name(target)
}

/// One of the lines names `target`.
pub open spec fn some_line_names(lines: Seq<Seq<char>>, target: Seq<char>) -> bool {
    exists|i: int| 0 <= i < lines.len() && names_target(#[trigger] lines[i], target)
}

/// The makefile names `target`.
pub open spec fn declares_target(makefile: Seq<char>, target: Seq<char>) -> bool {
    some_line_names(text::lines(makefile), target)
}

/// The list is that of the targets of a makefile: in order, each once.
pub open spec fn lists_targets(list: Seq<Seq<char>>, makefile: Seq<char>) -> bool {
    &&& names::strictly_sorted(list)
    &&& forall|t: Seq<char>| #[trigger] list.contains(t) <==> declares_target(makefile, t)
}

fn variable(left: &[char]) -> (r: bool)
    ensures
        r == names_variable(left@),
{
    let known: [&str; 3] = ["export", "override", "private"];
    assert(names::str_texts(known@) == modifiers());
    let ranges = text::word_ranges(left);
    let n = ranges.len();
    let ghost list = text::words(left@);
    assert(list == text::pieces(left@, ranges@));
    if n == 0 {
        return false;
    }
    for i in 0..n - 1
        invariant
            0 < n == ranges@.len(),
            list == text::words(left@),
            list == text::pieces(left@, ranges@),
            text::ranges_within(ranges@, left@.len()),
            names::str_texts(known@) == modifiers(),
            forall|k: int| 0 <= k < i ==> modifiers().contains(#[trigger] list[k]),
    {
        let range = ranges[i];
        let word = text::string_of(slice_subrange(left, range.0, range.1));
        assert(word@ == list[i as int]);
        if !names::has_str(&known, word.as_str()) {
            return false;
        }
    }
    true
}

fn directive(line: &[char]) -> (r: bool)
    ensures
        r == is_directive(line@),
{
    let known: [&str; 15] = [
        "define",
        "endef",
        "undefine",
        "ifdef",
        "ifndef",
        "ifeq",
        "ifneq",
        "else",
        "endif",
        "include",
        "-include",
        "sinclude",
        "export",
        "unexport",
        "vpath",
    ];
    assert(names::str_texts(known@) == directives());
    let ranges = text::word_ranges(line);
    assert(text::words(line@) == text::pieces(line@, ranges@));
    if ranges.len() == 0 {
        return false;
    }
    let range = ranges[0];
    let word = text::string_of(slice_subrange(line, range.0, range.1));
    assert(word@ == text::words(line@)[0]);
    names::has_str(&known, word.as_str())
}

fn assignment(line: &[char]) -> (r: bool)
    ensures
        r == is_assignment(line@),
{
    let e = text::find_char(line, '=');
    let c = text::find_char(line, ':');
    proof {
        text::lemma_first_index(line@, '=');
        text::lemma_first_index(line@, ':');
    }
    if e >= line.len() {
        return false;
    }
    if e < c {
        let left = slice_subrange(line, 0, e);
        assert(left@ == line@.take(e as int));
        if e > 0 && (line[e - 1] == '?' || line[e - 1] == '+' || line[e - 1] == '!') {
            let shorter = slice_subrange(line, 0, e - 1);
            assert(shorter@ == left@.drop_last());
            return variable(shorter);
        }
        return variable(left);
    }
    for k in c..e
        invariant
            c <= e < line@.len(),
            e == text::first_index(line@, '='),
            c == text::first_index(line@, ':'),
            forall|j: int| c <= j < k ==> line@[j] == ':',
    {
        if line[k] != ':' {
            return false;
        }
    }
    let left = slice_subrange(line, 0, c);
    assert(left@ == line@.take(c as int));
    variable(left)
}

fn skipped(line: &[char], define: &[char], assign: &[char]) -> (r: bool)
    requires
        define@ == "::="@,
        assign@ == " :="@,
    ensures
        r == is_skipped(line@),
{
    (line.len() != 0 && (line[0] == ' ' || line[0] == '\t' || line[0] == '#' || line[0] == '.'))
        || text::has_text(line, define) || text::has_text(line, assign) || assignment(line)
        || directive(line)
}

fn target_name(name: &[char]) -> (r: bool)
    ensures
        r == is_target_name(name@),
{
    let n = name.len();
    for i in 0..n
        invariant
            n == name@.len(),
            forall|j: int| 0 <= j < i ==> is_target_char(#[trigger] name@[j]),
    {
        let c = name[i];
        if !(render::alphanumeric(c) || c == '_' || c == '-' || c == '.' || c == '/') {
            assert(!is_target_char(name@[i as int]));
            return false;
        }
    }
    true
}

/// Adds the targets that a line names.
fn add_line_targets(targets: &mut names::NameSet, line: &[char], define: &[char], assign: &[char])
    requires
        old(targets).wf(),
        define@ == "::="@,
        assign@ == " :="@,
    ensures
        final(targets).wf(),
        forall|t: Seq<char>| #[trigger]
            final(targets)@.contains(t) <==> old(targets)@.contains(t) || names_target(line@, t),
{
    if skipped(line, define, assign) {
        return ;
    }
    let colon = text::find_char(line, ':');
    proof {
        text::lemma_first_index(line@, ':');
    }
    if colon >= line.len() {
        return ;
    }
    let left = slice_subrange(line, 0, colon);
    assert(left@ == line@.take(colon as int));
    let ranges = text::word_ranges(left);
    let n = ranges.len();
    let ghost words = rule_words(line@);
    assert(words == text::pieces(left@, ranges@));
    for i in 0..n
        invariant
            n == ranges@.len(),
            targets.wf(),
            words == text::pieces(left@, ranges@),
            text::ranges_within(ranges@, left@.len()),
            forall|t: Seq<char>| #[trigger]
                targets@.contains(t) <==> old(targets)@.contains(t) || (words.take(
                    i as int,
                ).contains(t) && is_target_name(t)),
    {
        let range = ranges[i];
        let word = slice_subrange(left, range.0, range.1);
        let ghost was = targets@;
        proof {
            assert(word@ == words[i as int]);
            assert(words.take(i + 1) == words.take(i as int).push(word@));
        }
        let valid = target_name(word);
        if valid {
            targets.insert(text::string_of(word));
        }
        proof {
            assert forall|t: Seq<char>| #[trigger]
                targets@.contains(t) <==> old(targets)@.contains(t) || (words.take(
                    i + 1,
                ).contains(t) && is_target_name(t)) by {
                text::lemma_contains_push(words.take(i as int), word@, t);
                assert(was.contains(t) <==> old(targets)@.contains(t) || (words.take(
                    i as int,
                ).contains(t) && is_target_name(t)));
            }
        }
    }
    assert(words.take(n as int) == words);
}

/// The targets of a makefile, in order, each once.
pub fn make_targets(makefile: &str) -> (r: Vec<String>)
    ensures
        lists_targets(names::texts(r@), makefile@),
{
    let chars = text::chars_of(makefile);
    let define = text::chars_of("::=");
    let assign = text::chars_of(" :=");
    let ranges = text::line_ranges(chars.as_slice());
    let n = ranges.len();
    let mut targets = names::NameSet::new();
    let ghost lines = text::lines(makefile@);
    for i in 0..n
        invariant
            n == ranges@.len(),
            chars@ == makefile@,
            define@ == "::="@,
            assign@ == " :="@,
            targets.wf(),
            lines == text::lines(makefile@),
            lines == text::pieces(chars@, ranges@),
            text::ranges_within(ranges@, chars@.len()),
            forall|t: Seq<char>| #[trigger]
                targets@.contains(t) <==> some_line_names(lines.take(i as int), t),
    {
        let range = ranges[i];
        let line = slice_subrange(chars.as_slice(), range.0, range.1);
        let ghost was = targets@;
        add_line_targets(&mut targets, line, define.as_slice(), assign.as_slice());
        proof {
            let seen = lines.take(i as int);
            let now = lines.take(i + 1);
            assert(line@ == lines[i as int]);
            assert(now[i as int] == line@);
            assert forall|t: Seq<char>| #[trigger]
                targets@.contains(t) <==> some_line_names(now, t) by {
                assert(was.contains(t) <==> some_line_names(seen, t));
                if some_line_names(seen, t) {
                    let k = choose|k: int|
                        0 <= k < seen.len() && names_target(#[trigger] seen[k], t);
                    assert(names_target(now[k], t));
                }
                if some_line_names(now, t) {
                    let k = choose|k: int|
                        0 <= k < now.len() && names_target(#[trigger] now[k], t);
                    if k < i {
                        assert(names_target(seen[k], t));
                    }
                }
                if names_target(line@, t) {
                    assert(names_target(now[i as int], t));
                }
            }
        }
    }
    assert(lines.take(n as int) == lines);
    targets.into_names()
}

/// An assignment declares no target, whatever its variable and value are.
pub proof fn law_assignments_declare_nothing(line: Seq<char>, target: Seq<char>)
    requires
        is_assignment(line),
    ensures
        !names_target(line, target),
{
}

/// A directive declares no target, whatever it names.
pub proof fn law_directives_declare_nothing(line: Seq<char>, target: Seq<char>)
    requires
        is_directive(line),
    ensures
        !names_target(line, target),
{
}

/// What is said of a file that could not be read.
pub open spec fn unreadable(path: Seq<char>, error: Seq<char>) -> Seq<char> {
    "cannot read "@ + path + ": "@ + error
}

/// Says that a file could not be read.
pub fn unreadable_message(path: &str, error: &str) -> (r: String)
    ensures
        r@ == unreadable(path@, error@),
{
    let mut message = "cannot read ".to_owned();
    message.append(path);
    message.append(": ");
    message.append(error);
    message
}

/// The targets of the makefile at `path`, given what reading it gave: its text
/// or the error.
pub fn read_make_targets(path: &str, contents: &Result<String, String>) -> (r: Result<
    Vec<String>,
    String,
>)
    ensures
        match (contents, r) {
            (Ok(makefile), Ok(list)) => lists_targets(names::texts(list@), makefile@),
            (Err(error), Err(message)) => message@ == unreadable(path@, error@),
            _ => false,
        },
{
    match contents {
        Ok(makefile) => Ok(make_targets(makefile.as_str())),
        Err(error) => Err(unreadable_message(path, error.as_str())),
    }
}

// ---------------------------------------------------------------------------
// What every line declares
// ---------------------------------------------------------------------------

/// A makefile is read line by line: it declares what its first line declares and
/// what the rest declares.
pub proof fn law_targets_are_declared_line_by_line(
    line: Seq<char>,
    rest: Seq<char>,
    target: Seq<char>,
)
    requires
        !line.contains('\n'),
    ensures
        ({
            let ended = if line.len() != 0 && line.last() == '\r' {
                line.drop_last()
            } else {
                line
            };
            declares_target(line + seq!['\n'] + rest, target) <==> names_target(ended, target)
                || declares_target(rest, target)
        }),
        declares_target(line, target) <==> line.len() != 0 && names_target(line, target),
{
    let ended = if line.len() != 0 && line.last() == '\r' {
        line.drop_last()
    } else {
        line
    };
    text::law_line_feed_ends_a_line(line, rest);
    text::law_text_without_line_feed_is_one_line(line);
    let more = text::lines(rest);
    let all = seq![ended] + more;
    if some_line_names(all, target) {
        let k = choose|k: int| 0 <= k < all.len() && names_target(#[trigger] all[k], target);
        if k > 0 {
            assert(all[k] == more[k - 1]);
        }
    }
    if names_target(ended, target) {
        assert(names_target(all[0], target));
    }
    if some_line_names(more, target) {
        let k = choose|k: int| 0 <= k < more.len() && names_target(#[trigger] more[k], target);
        assert(all[k + 1] == more[k]);
    }
    let one = text::lines(line);
    if line.len() != 0 {
        assert(one[0] == line);
    }
}

/// The directives are these fifteen words, and no others.
pub proof fn law_directives(name: Seq<char>)
    ensures
        directives().contains(name) <==> {
            ||| name == "define"@ || name == "endef"@ || name == "undefine"@
            ||| name == "ifdef"@ || name == "ifndef"@ || name == "ifeq"@
            ||| name == "ifneq"@ || name == "else"@ || name == "endif"@
            ||| name == "include"@ || name == "-include"@ || name == "sinclude"@
            ||| name == "export"@ || name == "unexport"@ || name == "vpath"@
        },
{
    let list = directives();
    assert(list[0] == "define"@);
    assert(list[1] == "endef"@);
    assert(list[2] == "undefine"@);
    assert(list[3] == "ifdef"@);
    assert(list[4] == "ifndef"@);
    assert(list[5] == "ifeq"@);
    assert(list[6] == "ifneq"@);
    assert(list[7] == "else"@);
    assert(list[8] == "endif"@);
    assert(list[9] == "include"@);
    assert(list[10] == "-include"@);
    assert(list[11] == "sinclude"@);
    assert(list[12] == "export"@);
    assert(list[13] == "unexport"@);
    assert(list[14] == "vpath"@);
}

proof fn lemma_directives_hold_no_colon(name: Seq<char>)
    requires
        name.contains(':'),
    ensures
        !directives().contains(name),
{
    law_directives(name);
    reveal_strlit("define");
    reveal_strlit("endef");
    reveal_strlit("undefine");
    reveal_strlit("ifdef");
    reveal_strlit("ifndef");
    reveal_strlit("ifeq");
    reveal_strlit("ifneq");
    reveal_strlit("else");
    reveal_strlit("endif");
    reveal_strlit("include");
    reveal_strlit("-include");
    reveal_strlit("sinclude");
    reveal_strlit("export");
    reveal_strlit("unexport");
    reveal_strlit("vpath");
    assert("define"@.len() == 6);
    assert("endef"@.len() == 5);
    assert("undefine"@.len() == 8);
    assert("ifdef"@.len() == 5);
    assert("ifndef"@.len() == 6);
    assert("ifeq"@.len() == 4);
    assert("ifneq"@.len() == 5);
    assert("else"@.len() == 4);
    assert("endif"@.len() == 5);
    assert("include"@.len() == 7);
    assert("-include"@.len() == 8);
    assert("sinclude"@.len() == 8);
    assert("export"@.len() == 6);
    assert("unexport"@.len() == 8);
    assert("vpath"@.len() == 5);
}

/// The modifiers of an assignment are these three words, and no others.
pub proof fn law_modifiers(name: Seq<char>)
    ensures
        modifiers().contains(name) <==> name == "export"@ || name == "override"@ || name
            == "private"@,
{
    let list = modifiers();
    assert(list[0] == "export"@ && list[1] == "override"@ && list[2] == "private"@);
}

/// A rule declares exactly those of the words before its colon that consist of
/// ASCII letters, digits, underscores, hyphens, dots and slashes, however many
/// there are and whatever follows the colon. A rule begins neither with white
/// space, a `#` or a dot nor with a directive, and holds no `=`.
pub proof fn law_rules_declare_the_words_before_the_colon(
    left: Seq<char>,
    rest: Seq<char>,
    target: Seq<char>,
)
    requires
        left.len() > 0,
        !text::is_white_space(left[0]),
        left[0] != '#' && left[0] != '.',
        !left.contains(':') && !left.contains('=') && !rest.contains('='),
        directives().contains(text::words(left)[0]) ==> forall|i: int|
            0 <= i < left.len() ==> !text::is_white_space(#[trigger] left[i]),
    ensures
        names_target(left + seq![':'] + rest, target) <==> text::words(left).contains(target) && (
        forall|i: int|
            0 <= i < target.len() ==> {
                let c = #[trigger] target[i];
                ||| 'a' <= c <= 'z' || 'A' <= c <= 'Z' || '0' <= c <= '9'
                ||| c == '_' || c == '-' || c == '.' || c == '/'
            }),
{
    let line = left + seq![':'] + rest;
    let more = seq![':'] + rest;
    let n = left.len() as int;
    assert(line == left + more);
    assert(line[0] == left[0]);
    assert forall|j: int| 0 <= j < line.len() implies line[j] != '=' by {
        if j < n {
            assert(line[j] == left[j]);
            assert(left.contains(left[j]));
        } else if j > n {
            assert(line[j] == rest[j - n - 1]);
            assert(rest.contains(rest[j - n - 1]));
        }
    }
    assert forall|j: int| 0 <= j < n implies line[j] != ':' by {
        assert(line[j] == left[j]);
        assert(left.contains(left[j]));
    }
    text::lemma_first_index_is(line, ':', n);
    text::lemma_first_index_is(line, '=', line.len() as int);
    assert(line.take(n) == left);
    reveal_strlit("::=");
    reveal_strlit(" :=");
    assert("::="@.len() == 3 && "::="@[2] == '=' && " :="@.len() == 3 && " :="@[2] == '=');
    if text::contains_text(line, "::="@) {
        let i = choose|i: int| text::occurs_at(line, "::="@, i);
        assert(line.subrange(i, i + 3)[2] == line[i + 2]);
    }
    if text::contains_text(line, " :="@) {
        let i = choose|i: int| text::occurs_at(line, " :="@, i);
        assert(line.subrange(i, i + 3)[2] == line[i + 2]);
    }
    text::lemma_first_word(left, more);
    let w = text::word_len(line);
    let first = line.take(w);
    assert(text::words(line)[0] == first);
    let k = text::word_len(left);
    assert(text::words(left)[0] == left.take(k));
    if k < n {
        assert(first == left.take(k));
        if directives().contains(first) {
            lemma_word_ends(left);
        }
    } else {
        text::lemma_first_word(more.drop_first(), Seq::<char>::empty());
        assert(!text::is_white_space(':'));
        assert(more[0] == ':');
        assert(w >= n + 1);
        text::lemma_first_word(line, Seq::<char>::empty());
        assert(first[n] == ':');
        assert(first.contains(':'));
        lemma_directives_hold_no_colon(first);
    }
    if is_target_name(target) {
        assert forall|i: int| 0 <= i < target.len() implies {
            let c = #[trigger] target[i];
            ||| 'a' <= c <= 'z' || 'A' <= c <= 'Z' || '0' <= c <= '9'
            ||| c == '_' || c == '-' || c == '.' || c == '/'
        } by {
            assert(is_target_char(target[i]));
        }
    } else {
        let i = choose|i: int| 0 <= i < target.len() && !is_target_char(#[trigger] target[i]);
        assert(!is_target_char(target[i]));
    }
}

proof fn lemma_word_ends(s: Seq<char>)
    requires
        text::word_len(s) < s.len(),
    ensures
        0 <= text::word_len(s),
        text::is_white_space(s[text::word_len(s)]),
    decreases s.len(),
{
    if !text::is_white_space(s[0]) {
        let rest = s.drop_first();
        text::lemma_first_word(rest, Seq::<char>::empty());
        lemma_word_ends(rest);
    }
}

/// A line that begins with a space, a tab, a `#` or a dot, and one without a
/// colon, declares nothing.
pub proof fn law_other_lines_declare_nothing(line: Seq<char>, target: Seq<char>)
    requires
        line.len() == 0 || line[0] == ' ' || line[0] == '\t' || line[0] == '#' || line[0] == '.'
            || !line.contains(':'),
    ensures
        !names_target(line, target),
{
    text::lemma_first_index(line, ':');
}

/// A name, white space or none, and any of the operators `=`, `?=`, `+=`, `!=`
/// and any number of colons before a `=` make an assignment, whatever follows.
pub proof fn law_names_before_operators_are_assigned(
    name: Seq<char>,
    gap: Seq<char>,
    operator: Seq<char>,
    rest: Seq<char>,
)
    requires
        name.len() > 0,
        forall|i: int|
            0 <= i < name.len() ==> !text::is_white_space(#[trigger] name[i]) && name[i] != '='
                && name[i] != ':' && name[i] != '?' && name[i] != '+' && name[i] != '!',
        forall|i: int| 0 <= i < gap.len() ==> text::is_white_space(#[trigger] gap[i]),
        operator == seq!['?'] || operator == seq!['+'] || operator == seq!['!'] || forall|i: int|
            0 <= i < operator.len() ==> #[trigger] operator[i] == ':',
    ensures
        is_assignment(name + gap + operator + seq!['='] + rest),
{
    let head = name + gap;
    let line = name + gap + operator + seq!['='] + rest;
    let h = head.len() as int;
    let e = h + operator.len();
    assert forall|j: int| 0 <= j < h implies line[j] == head[j] && head[j] != '=' && head[j] != ':'
        && head[j] != '?' && head[j] != '+' && head[j] != '!' by {
        if j < name.len() {
            assert(head[j] == name[j]);
        } else {
            assert(head[j] == gap[j - name.len()]);
        }
    }
    assert forall|j: int| 0 <= j < e implies line[j] != '=' by {
        if j >= h {
            assert(line[j] == operator[j - h]);
        }
    }
    assert(line[e] == '=');
    text::lemma_first_index_is(line, '=', e);
    assert(text::words(head) == seq![name]) by {
        text::law_words_are_separated_by_white_space(name, gap);
        text::law_white_space_holds_no_words(gap);
        assert(text::words(head) == seq![name]);
    }
    assert(names_variable(head));
    text::lemma_first_index(line, ':');
    let c = text::first_index(line, ':');
    if operator.len() > 0 && operator[0] == ':' {
        assert(line[h] == operator[0]);
        text::lemma_first_index_is(line, ':', h);
        assert forall|k: int| h <= k < e implies line[k] == ':' by {
            assert(line[k] == operator[k - h]);
        }
        assert(line.take(h) == head);
    } else {
        if c < e {
            if c >= h {
                assert(line[c] == operator[c - h]);
            } else {
                assert(line[c] == head[c]);
            }
        }
        assert(e < c);
        let left = line.take(e);
        if operator.len() == 0 {
            assert(left == head);
            assert(left.last() == head[h - 1]);
        } else {
            assert(left.last() == operator[0]);
            assert(left.drop_last() == head);
        }
    }
}

/// Several words before an `=` are no assignment, unless all but the last are
/// modifiers.
pub proof fn law_words_before_an_equals_sign(
    first: Seq<char>,
    second: Seq<char>,
    rest: Seq<char>,
)
    requires
        first.len() > 0 && second.len() > 0,
        forall|i: int|
            0 <= i < first.len() ==> !text::is_white_space(#[trigger] first[i]) && first[i] != '='
                && first[i] != ':',
        forall|i: int|
            0 <= i < second.len() ==> !text::is_white_space(#[trigger] second[i]) && second[i]
                != '=' && second[i] != ':' && second[i] != '?' && second[i] != '+' && second[i]
                != '!',
    ensures
        is_assignment(first + seq![' '] + second + seq!['='] + rest) <==> first == "export"@
            || first == "override"@ || first == "private"@,
{
    let head = first + seq![' '] + second;
    let line = head + seq!['='] + rest;
    let h = head.len() as int;
    assert forall|j: int| 0 <= j < h implies line[j] != '=' && line[j] != ':' by {
        assert(line[j] == head[j]);
        if j < first.len() {
            assert(head[j] == first[j]);
        } else if j > first.len() {
            assert(head[j] == second[j - first.len() - 1]);
        }
    }
    text::lemma_first_index_is(line, '=', h);
    text::lemma_first_index(line, ':');
    assert(line[h] == '=');
    assert(h < text::first_index(line, ':'));
    assert(line.take(h) == head);
    assert(head.last() == second[second.len() - 1]);
    let none: Seq<char> = Seq::empty();
    assert(head == first + (seq![' '] + second));
    assert((seq![' '] + second)[0] == ' ');
    text::law_words_are_separated_by_white_space(first, seq![' '] + second);
    text::law_leading_white_space_is_no_word(' ', second);
    text::law_words_are_separated_by_white_space(second, none);
    assert(second + none == second);
    assert(text::words(second) == seq![second] + text::words(none));
    assert(text::words(head) == seq![first] + (seq![second] + text::words(none)));
    assert(text::words(none).len() == 0);
    assert(text::words(head).len() == 2);
    assert(text::words(head)[0] == first);
    law_modifiers(first);
}

} // verus!
