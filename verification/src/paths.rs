//! Unix paths as callers name them: relative to the workspace, and never out
//! of it.
use crate::limits;
use crate::names;
use crate::text;
use vstd::prelude::*;
use vstd::slice::slice_subrange;
use vstd::string::*;
use vstd::utf8::encode_utf8;

verus! {

/// The segment names something: it is neither empty nor a single dot.
pub open spec fn is_step(segment: Seq<char>) -> bool {
    segment.len() != 0 && segment != seq!['.']
}

/// The segments of a path that name something, `..` among them.
pub open spec fn steps(raw: Seq<char>) -> Seq<Seq<char>> {
    text::split(raw, '/').filter(|s: Seq<char>| is_step(s))
}

/// The path starts at the root of the file system.
pub open spec fn is_absolute(raw: Seq<char>) -> bool {
    raw.len() != 0 && raw[0] == '/'
}

/// The step to the parent directory.
pub open spec fn parent_step() -> Seq<char> {
    seq!['.', '.']
}

/// The relative path of a raw one: its steps, with one separator between each
/// two, or why it is refused.
pub open spec fn cleaned_path(raw: Seq<char>) -> Result<Seq<char>, Seq<char>> {
    match limits::line_text_check("path"@, raw, limits::MAX_PATH_BYTES as nat) {
        Err(e) => Err(e),
        Ok(_) => if is_absolute(raw) {
            Err("absolute paths are not allowed"@)
        } else if steps(raw).contains(parent_step()) {
            Err("parent traversal (`..`) is not allowed"@)
        } else if steps(raw).len() == 0 {
            Err("path must resolve at or below the configured workspace root"@)
        } else {
            Ok(text::join(steps(raw), '/'))
        },
    }
}

/// The relative directory of a raw one, where `.` is the workspace itself.
pub open spec fn cleaned_dir(raw: Seq<char>) -> Result<Seq<char>, Seq<char>> {
    if raw == seq!['.'] {
        Ok(seq!['.'])
    } else {
        cleaned_path(raw)
    }
}

/// The last step of a path, unless it is the one to the parent directory.
pub open spec fn file_name(raw: Seq<char>) -> Option<Seq<char>> {
    if steps(raw).len() == 0 || steps(raw).last() == parent_step() {
        None
    } else {
        Some(steps(raw).last())
    }
}

fn step(segment: &[char]) -> (r: bool)
    ensures
        r == is_step(segment@),
{
    let n = segment.len();
    if n == 0 {
        return false;
    }
    let dot = n == 1 && segment[0] == '.';
    assert(dot ==> segment@ == seq!['.']);
    !dot
}

fn to_parent(segment: &[char]) -> (r: bool)
    ensures
        r == (segment@ == parent_step()),
{
    let r = segment.len() == 2 && segment[0] == '.' && segment[1] == '.';
    assert(r ==> segment@ == parent_step());
    r
}

/// Where the steps of a path stand.
fn step_ranges(chars: &[char]) -> (r: Vec<(usize, usize)>)
    ensures
        text::ranges_within(r@, chars@.len()),
        text::pieces(chars@, r@) == steps(chars@),
{
    let all = text::split_ranges(chars, '/');
    let n = all.len();
    let mut r: Vec<(usize, usize)> = Vec::new();
    let ghost list = text::pieces(chars@, all@);
    let ghost kept = |s: Seq<char>| is_step(s);
    proof {
        assert(list.take(0) == Seq::<Seq<char>>::empty());
        reveal(Seq::filter);
        assert(text::pieces(chars@, r@) == list.take(0).filter(kept));
    }
    for i in 0..n
        invariant
            n == all@.len(),
            list == text::pieces(chars@, all@),
            kept == (|s: Seq<char>| is_step(s)),
            text::ranges_within(all@, chars@.len()),
            text::ranges_within(r@, chars@.len()),
            text::pieces(chars@, r@) == list.take(i as int).filter(kept),
    {
        let range = all[i];
        let segment = slice_subrange(chars, range.0, range.1);
        let ghost was = r@;
        proof {
            assert(segment@ == list[i as int]);
            assert(list.take(i + 1) == list.take(i as int).push(segment@));
            text::lemma_filter_push(list.take(i as int), segment@, kept);
        }
        if step(segment) {
            r.push(range);
            assert(text::pieces(chars@, r@) == text::pieces(chars@, was).push(segment@));
        }
    }
    assert(list.take(n as int) == list);
    r
}

/// Whether a path starts at the root of the file system.
pub fn absolute(raw: &str) -> (r: bool)
    ensures
        r == is_absolute(raw@),
{
    let chars = text::chars_of(raw);
    chars.len() != 0 && chars[0] == '/'
}

/// A relative path below the workspace: not absolute, and without `..`.
pub fn clean_relative_path(raw: &str) -> (r: Result<String, String>)
    ensures
        limits::told_text(r) == cleaned_path(raw@),
{
    match limits::validate_nonempty_text("path", raw, limits::MAX_PATH_BYTES) {
        Err(e) => {
            return Err(e);
        },
        Ok(_) => {},
    }
    if absolute(raw) {
        return Err("absolute paths are not allowed".to_owned());
    }
    let chars = text::chars_of(raw);
    let ranges = step_ranges(chars.as_slice());
    let n = ranges.len();
    let mut cleaned = String::new();
    let ghost list = steps(raw@);
    assert(list == text::pieces(chars@, ranges@));
    assert(cleaned@ == text::join(list.take(0), '/'));
    for i in 0..n
        invariant
            n == ranges@.len(),
            chars@ == raw@,
            list == text::pieces(chars@, ranges@),
            list == steps(raw@),
            limits::is_line_text(raw@, limits::MAX_PATH_BYTES as nat),
            !is_absolute(raw@),
            text::ranges_within(ranges@, chars@.len()),
            forall|j: int| 0 <= j < i ==> list[j] != parent_step(),
            cleaned@ == text::join(list.take(i as int), '/'),
    {
        let range = ranges[i];
        let part = slice_subrange(chars.as_slice(), range.0, range.1);
        proof {
            assert(part@ == list[i as int]);
            assert(list.take(i + 1) == list.take(i as int).push(part@));
            text::lemma_join_push(list.take(i as int), '/', part@);
        }
        if to_parent(part) {
            return Err("parent traversal (`..`) is not allowed".to_owned());
        }
        if i > 0 {
            cleaned.push('/');
        }
        cleaned.append(text::string_of(part).as_str());
    }
    assert(list.take(n as int) == list);
    if n == 0 {
        return Err("path must resolve at or below the configured workspace root".to_owned());
    }
    Ok(cleaned)
}

/// A relative directory: the workspace itself, or a path below it.
pub fn clean_relative_dir(raw: &str) -> (r: Result<String, String>)
    ensures
        limits::told_text(r) == cleaned_dir(raw@),
{
    proof {
        reveal_strlit(".");
        assert("."@ == seq!['.']);
    }
    if text::same_text(raw, ".") {
        return Ok(".".to_owned());
    }
    clean_relative_path(raw)
}

/// The file name of a path.
pub fn file_name_of(raw: &str) -> (r: Option<String>)
    ensures
        match r {
            Some(s) => file_name(raw@) == Some(s@),
            None => file_name(raw@) is None,
        },
{
    let chars = text::chars_of(raw);
    let ranges = step_ranges(chars.as_slice());
    let n = ranges.len();
    if n == 0 {
        return None;
    }
    let range = ranges[n - 1];
    let part = slice_subrange(chars.as_slice(), range.0, range.1);
    assert(part@ == steps(raw@).last());
    if to_parent(part) {
        None
    } else {
        Some(text::string_of(part))
    }
}

/// The steps of a path.
pub fn step_texts(raw: &str) -> (r: Vec<String>)
    ensures
        names::texts(r@) == steps(raw@),
{
    let chars = text::chars_of(raw);
    let ranges = step_ranges(chars.as_slice());
    let n = ranges.len();
    let mut r: Vec<String> = Vec::new();
    let ghost list = steps(raw@);
    for i in 0..n
        invariant
            n == ranges@.len(),
            list == text::pieces(chars@, ranges@),
            text::ranges_within(ranges@, chars@.len()),
            r@.len() == i,
            forall|k: int| 0 <= k < i ==> (#[trigger] r@[k])@ == list[k],
    {
        let range = ranges[i];
        let part = slice_subrange(chars.as_slice(), range.0, range.1);
        assert(part@ == list[i as int]);
        r.push(text::string_of(part));
    }
    assert(names::texts(r@) == list);
    r
}

proof fn lemma_steps(raw: Seq<char>)
    ensures
        forall|k: int|
            0 <= k < steps(raw).len() ==> is_step(#[trigger] steps(raw)[k]) && !steps(
                raw,
            )[k].contains('/'),
{
    let p = |s: Seq<char>| is_step(s);
    let list = text::split(raw, '/');
    text::lemma_split_members(raw, '/');
    assert forall|k: int| 0 <= k < steps(raw).len() implies is_step(#[trigger] steps(raw)[k])
        && !steps(raw)[k].contains('/') by {
        let t = steps(raw)[k];
        assert(list.filter(p).contains(t));
        text::lemma_filter_contains(list, p, t);
        let j = choose|j: int| 0 <= j < list.len() && list[j] == t;
        assert(!list[j].contains('/'));
    }
}

proof fn lemma_fewer_segments_are_shorter(list: Seq<Seq<char>>, p: spec_fn(Seq<char>) -> bool)
    ensures
        limits::utf8_len(text::join(list.filter(p), '/')) <= limits::utf8_len(
            text::join(list, '/'),
        ),
    decreases list.len(),
{
    if list.len() == 0 {
        reveal(Seq::filter);
        assert(list.filter(p) == list);
    } else {
        let rest = list.drop_last();
        let last = list.last();
        let kept = rest.filter(p);
        lemma_fewer_segments_are_shorter(rest, p);
        assert(list == rest.push(last));
        text::lemma_filter_push(rest, last, p);
        text::lemma_join_push(rest, '/', last);
        text::lemma_join_push(kept, '/', last);
        let a = text::join(rest, '/');
        let b = text::join(kept, '/');
        assert(a.push('/') == a + seq!['/']);
        assert(b.push('/') == b + seq!['/']);
        limits::lemma_utf8_concat(a, seq!['/']);
        limits::lemma_utf8_concat(a.push('/'), last);
        limits::lemma_utf8_concat(b, seq!['/']);
        limits::lemma_utf8_concat(b.push('/'), last);
        if rest.len() == 0 {
            reveal(Seq::filter);
        }
    }
}

proof fn lemma_cleaned_is_line_text(raw: Seq<char>, max_bytes: nat)
    requires
        limits::is_line_text(raw, max_bytes),
        steps(raw).len() > 0,
    ensures
        limits::is_line_text(text::join(steps(raw), '/'), max_bytes),
{
    let p = |s: Seq<char>| is_step(s);
    let list = text::split(raw, '/');
    let cleaned = text::join(steps(raw), '/');
    lemma_steps(raw);
    text::law_join_undoes_split(raw, '/');
    lemma_fewer_segments_are_shorter(list, p);
    text::lemma_join_first(steps(raw), '/');
    assert(is_step(steps(raw)[0]));
    assert forall|c: char| c != '/' && cleaned.contains(c) implies raw.contains(c) by {
        text::lemma_join_contains(steps(raw), '/', c);
        text::lemma_join_contains(list, '/', c);
        let k = choose|k: int|
            0 <= k < steps(raw).len() && (#[trigger] steps(raw)[k]).contains(c);
        assert(list.filter(p).contains(steps(raw)[k]));
        text::lemma_filter_contains(list, p, steps(raw)[k]);
        let j = choose|j: int| 0 <= j < list.len() && list[j] == steps(raw)[k];
        assert(list[j].contains(c));
    }
}

/// A path that was accepted leads below where it is taken from: it is
/// relative, goes down at least one step, and never up. It has the steps of
/// the raw path.
pub proof fn law_cleaned_path_leads_down(raw: Seq<char>)
    requires
        cleaned_path(raw) is Ok,
    ensures
        !is_absolute(cleaned_path(raw)->Ok_0),
        steps(cleaned_path(raw)->Ok_0) == steps(raw),
        steps(raw).len() > 0,
        !steps(raw).contains(parent_step()),
{
    let cleaned = cleaned_path(raw)->Ok_0;
    lemma_steps(raw);
    assert forall|k: int| 0 <= k < steps(raw).len() implies !(#[trigger] steps(raw)[k]).contains(
        '/',
    ) by {
        assert(is_step(steps(raw)[k]));
    }
    text::law_split_undoes_join(steps(raw), '/');
    text::lemma_filter_all(steps(raw), |s: Seq<char>| is_step(s));
    text::lemma_join_first(steps(raw), '/');
    assert(is_step(steps(raw)[0]));
    assert(cleaned[0] == steps(raw)[0][0]);
    assert(steps(raw)[0].contains(steps(raw)[0][0]));
}

/// Cleaning a cleaned path changes nothing.
pub proof fn law_cleaning_is_idempotent(raw: Seq<char>)
    requires
        cleaned_path(raw) is Ok,
    ensures
        cleaned_path(cleaned_path(raw)->Ok_0) == cleaned_path(raw),
{
    law_cleaned_path_leads_down(raw);
    lemma_cleaned_is_line_text(raw, limits::MAX_PATH_BYTES as nat);
}

/// A path that climbs, an absolute one, and one that leads nowhere are refused.
pub proof fn law_escaping_paths_are_refused(raw: Seq<char>)
    requires
        is_absolute(raw) || steps(raw).contains(parent_step()) || steps(raw).len() == 0,
    ensures
        cleaned_path(raw) is Err,
{
}

// ---------------------------------------------------------------------------
// What holds of every path
// ---------------------------------------------------------------------------

/// A separator parts the steps of a path: those before it and those behind it
/// are steps each by themselves, however many there are.
pub proof fn law_steps_are_parted_by_separators(a: Seq<char>, b: Seq<char>)
    ensures
        steps(a + seq!['/'] + b) == steps(a) + steps(b),
{
    let p = |s: Seq<char>| is_step(s);
    text::law_separators_split(a, b, '/');
    text::lemma_filter_append(text::split(a, '/'), text::split(b, '/'), p);
}

/// A text without a separator is one step, unless it is empty or a single dot.
pub proof fn law_segments_are_steps(segment: Seq<char>)
    requires
        !segment.contains('/'),
    ensures
        steps(segment) == if segment.len() == 0 || segment == seq!['.'] {
            Seq::<Seq<char>>::empty()
        } else {
            seq![segment]
        },
{
    let p = |s: Seq<char>| is_step(s);
    let none: Seq<Seq<char>> = Seq::empty();
    text::lemma_split_without(segment, '/');
    text::lemma_filter_push(none, segment, p);
    assert(none.push(segment) == seq![segment]);
    reveal(Seq::filter);
    assert(none.filter(p) == none);
}

/// A path is accepted exactly where it is not empty, takes at most 4096 bytes,
/// holds neither NUL nor CR, does not begin with a separator, has a step and has
/// no step to a parent; it then is its steps with one separator between each
/// two.
pub proof fn law_paths_are_accepted(raw: Seq<char>)
    ensures
        cleaned_path(raw) is Ok <==> {
            &&& raw.len() > 0 && encode_utf8(raw).len() <= 4096
            &&& forall|i: int| 0 <= i < raw.len() ==> #[trigger] raw[i] != '\0' && raw[i] != '\r'
            &&& raw[0] != '/'
            &&& steps(raw).len() > 0
            &&& forall|k: int| 0 <= k < steps(raw).len() ==> #[trigger] steps(raw)[k] != seq!['.', '.']
        },
        cleaned_path(raw) matches Ok(path) ==> path == text::join(steps(raw), '/'),
        raw != seq!['.'] ==> cleaned_dir(raw) == cleaned_path(raw),
        cleaned_dir(seq!['.']) == Ok::<Seq<char>, Seq<char>>(seq!['.']),
{
    limits::law_line_texts("path"@, raw, 4096);
    if cleaned_path(raw) is Ok {
        assert forall|k: int| 0 <= k < steps(raw).len() implies #[trigger] steps(raw)[k] != seq![
            '.',
            '.',
        ] by {
            assert(steps(raw).contains(steps(raw)[k]));
        }
    }
}

/// A path that is refused is told why: by its text first, then for where it
/// starts, then for a step to a parent, then for having no step.
pub proof fn law_refused_paths_are_told_why(raw: Seq<char>)
    ensures
        limits::line_text_check("path"@, raw, 4096) matches Err(e) ==> cleaned_path(raw) == Err::<
            Seq<char>,
            Seq<char>,
        >(e),
        limits::line_text_check("path"@, raw, 4096) is Ok && raw[0] == '/' ==> cleaned_path(raw)
            == Err::<Seq<char>, Seq<char>>("absolute paths are not allowed"@),
        limits::line_text_check("path"@, raw, 4096) is Ok && raw[0] != '/' && steps(raw).contains(
            seq!['.', '.'],
        ) ==> cleaned_path(raw) == Err::<Seq<char>, Seq<char>>(
            "parent traversal (`..`) is not allowed"@,
        ),
        limits::line_text_check("path"@, raw, 4096) is Ok && raw[0] != '/' && steps(raw).len() == 0
            ==> cleaned_path(raw) == Err::<Seq<char>, Seq<char>>(
            "path must resolve at or below the configured workspace root"@,
        ),
{
    limits::law_line_texts("path"@, raw, 4096);
}

/// The file name of a path is the name behind its last separator, whatever
/// stands before; a separator or a dot at the end does not change it, and a path
/// that ends at a parent has none.
pub proof fn law_file_name_is_the_last_step(dir: Seq<char>, name: Seq<char>)
    requires
        !name.contains('/'),
        name.len() > 0,
        name != seq!['.'],
    ensures
        ({
            let leaf = if name == seq!['.', '.'] {
                None::<Seq<char>>
            } else {
                Some(name)
            };
            &&& file_name(name) == leaf
            &&& file_name(dir + seq!['/'] + name) == leaf
            &&& file_name(dir + seq!['/'] + name + seq!['/'] + Seq::<char>::empty()) == leaf
            &&& file_name(dir + seq!['/'] + name + seq!['/'] + seq!['.']) == leaf
        }),
{
    let none: Seq<char> = Seq::empty();
    let whole = dir + seq!['/'] + name;
    law_segments_are_steps(name);
    law_steps_are_parted_by_separators(dir, name);
    law_segments_are_steps(none);
    law_segments_are_steps(seq!['.']);
    law_steps_are_parted_by_separators(whole, none);
    law_steps_are_parted_by_separators(whole, seq!['.']);
    assert(steps(whole).last() == name);
    assert(steps(whole) + Seq::<Seq<char>>::empty() == steps(whole));
}

} // verus!
