//! Text as a sequence of characters: the searches, splits and trims that the
//! rest of the library is written in.
use vstd::prelude::*;
use vstd::slice::slice_subrange;
use vstd::string::*;
use vstd::utf8::*;

verus! {

/// `String::push` appends one character at the end of the string.
pub assume_specification[ String::push ](s: &mut String, ch: char)
    ensures
        final(s)@ == old(s)@.push(ch),
;

// ---------------------------------------------------------------------------
// Sequences
// ---------------------------------------------------------------------------

/// One more member, filtered.
pub proof fn lemma_filter_push<T>(list: Seq<T>, last: T, p: spec_fn(T) -> bool)
    ensures
        list.push(last).filter(p) == (if p(last) {
            list.filter(p).push(last)
        } else {
            list.filter(p)
        }),
{
    reveal(Seq::filter);
    assert(list.push(last).drop_last() == list);
}

/// Two lists in a row, filtered.
pub proof fn lemma_filter_append<T>(a: Seq<T>, b: Seq<T>, p: spec_fn(T) -> bool)
    ensures
        (a + b).filter(p) == a.filter(p) + b.filter(p),
    decreases b.len(),
{
    if b.len() == 0 {
        reveal(Seq::filter);
        assert(a + b == a);
        assert(b.filter(p) == Seq::<T>::empty());
    } else {
        let rest = b.drop_last();
        lemma_filter_append(a, rest, p);
        assert(b == rest.push(b.last()));
        assert(a + b == (a + rest).push(b.last()));
        lemma_filter_push(rest, b.last(), p);
        lemma_filter_push(a + rest, b.last(), p);
    }
}

/// What a filtered list holds.
pub proof fn lemma_filter_contains<T>(list: Seq<T>, p: spec_fn(T) -> bool, t: T)
    ensures
        list.filter(p).contains(t) <==> list.contains(t) && p(t),
        list.filter(p).len() <= list.len(),
    decreases list.len(),
{
    if list.len() == 0 {
        reveal(Seq::filter);
    } else {
        let rest = list.drop_last();
        let last = list.last();
        lemma_filter_contains(rest, p, t);
        assert(list == rest.push(last));
        lemma_filter_push(rest, last, p);
        lemma_contains_push(rest, last, t);
        lemma_contains_push(rest.filter(p), last, t);
    }
}

/// A filter that everything passes changes nothing.
pub proof fn lemma_filter_all<T>(list: Seq<T>, p: spec_fn(T) -> bool)
    requires
        forall|i: int| 0 <= i < list.len() ==> p(#[trigger] list[i]),
    ensures
        list.filter(p) == list,
    decreases list.len(),
{
    if list.len() == 0 {
        reveal(Seq::filter);
        assert(list.filter(p) == list);
    } else {
        let rest = list.drop_last();
        assert forall|i: int| 0 <= i < rest.len() implies p(#[trigger] rest[i]) by {
            assert(list[i] == rest[i]);
        }
        lemma_filter_all(rest, p);
        assert(list == rest.push(list.last()));
        lemma_filter_push(rest, list.last(), p);
    }
}

/// A filter that nothing passes leaves nothing.
pub proof fn lemma_filter_none<T>(list: Seq<T>, p: spec_fn(T) -> bool)
    requires
        forall|i: int| 0 <= i < list.len() ==> !p(#[trigger] list[i]),
    ensures
        list.filter(p) == Seq::<T>::empty(),
    decreases list.len(),
{
    if list.len() == 0 {
        reveal(Seq::filter);
        assert(list.filter(p) == Seq::<T>::empty());
    } else {
        let rest = list.drop_last();
        assert forall|i: int| 0 <= i < rest.len() implies !p(#[trigger] rest[i]) by {
            assert(list[i] == rest[i]);
        }
        lemma_filter_none(rest, p);
        assert(list == rest.push(list.last()));
        lemma_filter_push(rest, list.last(), p);
        assert(list[list.len() - 1] == list.last());
    }
}

/// What a list with one more member holds.
pub proof fn lemma_contains_push<T>(list: Seq<T>, last: T, t: T)
    ensures
        list.push(last).contains(t) <==> list.contains(t) || t == last,
{
    let now = list.push(last);
    if list.contains(t) {
        let k = choose|k: int| 0 <= k < list.len() && list[k] == t;
        assert(now[k] == t);
    }
    assert(now[list.len() as int] == last);
    if now.contains(t) && t != last {
        let k = choose|k: int| 0 <= k < now.len() && now[k] == t;
        assert(list[k] == t);
    }
}

/// What two lists in a row hold.
pub proof fn lemma_contains_concat<T>(a: Seq<T>, b: Seq<T>, t: T)
    ensures
        (a + b).contains(t) <==> a.contains(t) || b.contains(t),
{
    let c = a + b;
    if a.contains(t) {
        let k = choose|k: int| 0 <= k < a.len() && a[k] == t;
        assert(c[k] == t);
    }
    if b.contains(t) {
        let k = choose|k: int| 0 <= k < b.len() && b[k] == t;
        assert(c[a.len() + k] == t);
    }
    if c.contains(t) {
        let k = choose|k: int| 0 <= k < c.len() && c[k] == t;
        if k < a.len() {
            assert(a[k] == t);
        } else {
            assert(b[k - a.len()] == t);
        }
    }
}

// ---------------------------------------------------------------------------
// Characters
// ---------------------------------------------------------------------------

/// The Unicode property `White_Space`.
pub open spec fn is_white_space(c: char) -> bool {
    ||| '\u{9}' <= c <= '\u{d}'
    ||| c == ' '
    ||| c == '\u{85}'
    ||| c == '\u{a0}'
    ||| c == '\u{1680}'
    ||| '\u{2000}' <= c <= '\u{200a}'
    ||| c == '\u{2028}'
    ||| c == '\u{2029}'
    ||| c == '\u{202f}'
    ||| c == '\u{205f}'
    ||| c == '\u{3000}'
}

/// Whether `c` has the Unicode property `White_Space`.
pub fn white_space(c: char) -> (r: bool)
    ensures
        r == is_white_space(c),
{
    ('\u{9}' <= c && c <= '\u{d}') || c == ' ' || c == '\u{85}' || c == '\u{a0}' || c == '\u{1680}'
        || ('\u{2000}' <= c && c <= '\u{200a}') || c == '\u{2028}' || c == '\u{2029}'
        || c == '\u{202f}' || c == '\u{205f}' || c == '\u{3000}'
}

/// `c` with an ASCII capital letter replaced by its small one.
pub open spec fn lower(c: char) -> char {
    if 'A' <= c <= 'Z' {
        (c as u8 + 32) as char
    } else {
        c
    }
}

/// The ASCII small letter of an ASCII capital; any other character unchanged.
pub fn lower_char(c: char) -> (r: char)
    ensures
        r == lower(c),
{
    if 'A' <= c && c <= 'Z' {
        (c as u8 + 32) as char
    } else {
        c
    }
}

// ---------------------------------------------------------------------------
// Strings and their characters
// ---------------------------------------------------------------------------

/// The characters of a string, in order.
pub fn chars_of(s: &str) -> (r: Vec<char>)
    ensures
        r@ == s@,
{
    let mut r: Vec<char> = Vec::new();
    for c in it: s.chars()
        invariant
            r@ == it.seq().take(it.index() as int),
            it.seq() == s@,
    {
        r.push(c);
    }
    assert(s@.take(s@.len() as int) == s@);
    r
}

/// The string made of the given characters.
pub fn string_of(chars: &[char]) -> (r: String)
    ensures
        r@ == chars@,
{
    let mut r = String::new();
    let n = chars.len();
    for i in 0..n
        invariant
            n == chars@.len(),
            r@ == chars@.take(i as int),
    {
        r.push(chars[i]);
    }
    r
}

/// Two strings are the same when their characters are.
pub fn same_text(a: &str, b: &str) -> (r: bool)
    ensures
        r == (a@ == b@),
{
    let x = a.as_bytes();
    let y = b.as_bytes();
    proof {
        encode_utf8_decode_utf8(a@);
        encode_utf8_decode_utf8(b@);
    }
    let n = x.len();
    if n != y.len() {
        return false;
    }
    for i in 0..n
        invariant
            n == x@.len() == y@.len(),
            x@ == encode_utf8(a@),
            y@ == encode_utf8(b@),
            x@.take(i as int) == y@.take(i as int),
    {
        if x[i] != y[i] {
            return false;
        }
    }
    assert(x@.take(n as int) == x@);
    assert(y@.take(n as int) == y@);
    true
}

// ---------------------------------------------------------------------------
// Searching
// ---------------------------------------------------------------------------

/// Where `c` first stands in `s`; the length of `s` when it does not.
pub open spec fn first_index<T>(s: Seq<T>, c: T) -> int
    decreases s.len(),
{
    if s.len() == 0 || s[0] == c {
        0
    } else {
        1 + first_index(s.drop_first(), c)
    }
}

/// `first_index` is a position, nothing before it is `c`, and `c` is there
/// unless it is the end.
pub proof fn lemma_first_index<T>(s: Seq<T>, c: T)
    ensures
        0 <= first_index(s, c) <= s.len(),
        forall|j: int| 0 <= j < first_index(s, c) ==> s[j] != c,
        first_index(s, c) < s.len() ==> s[first_index(s, c)] == c,
    decreases s.len(),
{
    if s.len() != 0 && s[0] != c {
        lemma_first_index(s.drop_first(), c);
        assert forall|j: int| 0 <= j < first_index(s, c) implies s[j] != c by {
            if j > 0 {
                assert(s.drop_first()[j - 1] == s[j]);
            }
        }
    }
}

/// A position with those properties is `first_index`.
pub proof fn lemma_first_index_is<T>(s: Seq<T>, c: T, i: int)
    requires
        0 <= i <= s.len(),
        forall|j: int| 0 <= j < i ==> s[j] != c,
        i < s.len() ==> s[i] == c,
    ensures
        first_index(s, c) == i,
{
    lemma_first_index(s, c);
}

/// The first position of `c`, or the length.
pub fn find_char(chars: &[char], c: char) -> (r: usize)
    ensures
        r == first_index(chars@, c),
{
    let n = chars.len();
    let mut i: usize = 0;
    while i < n && chars[i] != c
        invariant
            n == chars@.len(),
            i <= n,
            forall|j: int| 0 <= j < i ==> chars@[j] != c,
        decreases n - i,
    {
        i += 1;
    }
    proof {
        lemma_first_index_is(chars@, c, i as int);
    }
    i
}

/// Whether `c` is one of the characters.
pub fn has_char(chars: &[char], c: char) -> (r: bool)
    ensures
        r == chars@.contains(c),
{
    let i = find_char(chars, c);
    proof {
        lemma_first_index(chars@, c);
    }
    i < chars.len()
}

/// `s` begins with `prefix`.
pub open spec fn starts_with(s: Seq<char>, prefix: Seq<char>) -> bool {
    prefix.len() <= s.len() && s.take(prefix.len() as int) == prefix
}

/// `needle` stands in `s` at position `i`.
pub open spec fn occurs_at(s: Seq<char>, needle: Seq<char>, i: int) -> bool {
    0 <= i && i + needle.len() <= s.len() && s.subrange(i, i + needle.len()) == needle
}

/// `needle` stands somewhere in `s`.
pub open spec fn contains_text(s: Seq<char>, needle: Seq<char>) -> bool {
    exists|i: int| occurs_at(s, needle, i)
}

/// Whether `needle` stands in `chars` at position `at`.
pub fn matches_at(chars: &[char], needle: &[char], at: usize) -> (r: bool)
    ensures
        r == occurs_at(chars@, needle@, at as int),
{
    let n = chars.len();
    let m = needle.len();
    if at > n || m > n - at {
        return false;
    }
    for k in 0..m
        invariant
            n == chars@.len(),
            m == needle@.len(),
            at + m <= n,
            forall|j: int| 0 <= j < k ==> chars@[at + j] == needle@[j],
    {
        if chars[at + k] != needle[k] {
            assert(chars@.subrange(at as int, at + m)[k as int] != needle@[k as int]);
            return false;
        }
    }
    assert(chars@.subrange(at as int, at + m) == needle@);
    true
}

/// Whether `chars` begins with `prefix`.
pub fn has_prefix(chars: &[char], prefix: &[char]) -> (r: bool)
    ensures
        r == starts_with(chars@, prefix@),
{
    let r = matches_at(chars, prefix, 0);
    assert(prefix@.len() <= chars@.len() ==> chars@.take(prefix@.len() as int) == chars@.subrange(
        0,
        prefix@.len() as int,
    ));
    r
}

/// Whether `needle` stands somewhere in `chars`.
pub fn has_text(chars: &[char], needle: &[char]) -> (r: bool)
    ensures
        r == contains_text(chars@, needle@),
{
    let n = chars.len();
    let m = needle.len();
    if m > n {
        return false;
    }
    let last: usize = n - m;
    let mut i: usize = 0;
    while i <= last
        invariant
            n == chars@.len(),
            m == needle@.len(),
            m <= n,
            last == n - m,
            i <= last + 1,
            forall|j: int| 0 <= j < i ==> !occurs_at(chars@, needle@, j),
        decreases last + 1 - i,
    {
        if matches_at(chars, needle, i) {
            return true;
        }
        if i == last {
            assert forall|j: int| !occurs_at(chars@, needle@, j) by {}
            return false;
        }
        i += 1;
    }
    false
}

/// Whether one of `needles` stands somewhere in `chars`.
pub fn has_any_text(chars: &[char], needles: &Vec<Vec<char>>) -> (r: bool)
    ensures
        r == exists|k: int| 0 <= k < needles@.len() && #[trigger] contains_text(
            chars@,
            needles@[k]@,
        ),
{
    let n = needles.len();
    for k in 0..n
        invariant
            n == needles@.len(),
            forall|j: int| 0 <= j < k ==> !#[trigger] contains_text(chars@, needles@[j]@),
    {
        if has_text(chars, needles[k].as_slice()) {
            return true;
        }
    }
    false
}

// ---------------------------------------------------------------------------
// Trimming
// ---------------------------------------------------------------------------

/// `s` without its leading white space.
pub open spec fn trim_start(s: Seq<char>) -> Seq<char>
    decreases s.len(),
{
    if s.len() != 0 && is_white_space(s[0]) {
        trim_start(s.drop_first())
    } else {
        s
    }
}

/// `s` without its trailing white space.
pub open spec fn trim_end(s: Seq<char>) -> Seq<char>
    decreases s.len(),
{
    if s.len() != 0 && is_white_space(s.last()) {
        trim_end(s.drop_last())
    } else {
        s
    }
}

/// `s` without white space at either end.
pub open spec fn trimmed(s: Seq<char>) -> Seq<char> {
    trim_end(trim_start(s))
}

/// The characters without white space at either end.
pub fn trim_chars(chars: &[char]) -> (r: &[char])
    ensures
        r@ == trimmed(chars@),
{
    let n = chars.len();
    let mut i: usize = 0;
    assert(chars@.skip(0) == chars@);
    while i < n && white_space(chars[i])
        invariant
            n == chars@.len(),
            i <= n,
            trim_start(chars@) == trim_start(chars@.skip(i as int)),
        decreases n - i,
    {
        assert(chars@.skip(i as int).drop_first() == chars@.skip(i + 1));
        i += 1;
    }
    assert(trim_start(chars@) == chars@.skip(i as int));
    let ghost head = chars@.skip(i as int);
    let mut j: usize = n;
    assert(chars@.subrange(i as int, n as int) == head);
    while j > i && white_space(chars[j - 1])
        invariant
            n == chars@.len(),
            i <= j <= n,
            trim_end(head) == trim_end(chars@.subrange(i as int, j as int)),
        decreases j,
    {
        assert(chars@.subrange(i as int, j as int).drop_last() == chars@.subrange(
            i as int,
            j - 1,
        ));
        j -= 1;
    }
    slice_subrange(chars, i, j)
}

// ---------------------------------------------------------------------------
// Lines and words
// ---------------------------------------------------------------------------

/// `s` without one carriage return at its end.
pub open spec fn strip_cr(s: Seq<char>) -> Seq<char> {
    if s.len() != 0 && s.last() == '\r' {
        s.drop_last()
    } else {
        s
    }
}

/// The lines of a text. A line ends at a line feed, or at a carriage return
/// directly before one; neither is part of it. The last line may lack its end.
pub open spec fn lines(s: Seq<char>) -> Seq<Seq<char>>
    decreases s.len(),
    via lines_decreases
{
    let i = first_index(s, '\n');
    if s.len() == 0 {
        seq![]
    } else if i >= s.len() {
        seq![s]
    } else {
        seq![strip_cr(s.take(i))] + lines(s.skip(i + 1))
    }
}

#[via_fn]
proof fn lines_decreases(s: Seq<char>) {
    lemma_first_index(s, '\n');
}

/// The pieces of `s` that the given half-open ranges cut out.
pub open spec fn pieces(s: Seq<char>, ranges: Seq<(usize, usize)>) -> Seq<Seq<char>> {
    ranges.map_values(|r: (usize, usize)| s.subrange(r.0 as int, r.1 as int))
}

/// The given ranges lie in a text of `n` characters.
pub open spec fn ranges_within(ranges: Seq<(usize, usize)>, n: nat) -> bool {
    forall|k: int| 0 <= k < ranges.len() ==> (#[trigger] ranges[k]).0 <= ranges[k].1 <= n
}

/// Where the lines of a text stand in it.
pub fn line_ranges(chars: &[char]) -> (r: Vec<(usize, usize)>)
    ensures
        ranges_within(r@, chars@.len()),
        pieces(chars@, r@) == lines(chars@),
{
    let n = chars.len();
    let mut r: Vec<(usize, usize)> = Vec::new();
    let mut start: usize = 0;
    assert(chars@.skip(0) == chars@);
    while start < n
        invariant
            n == chars@.len(),
            start <= n,
            ranges_within(r@, n as nat),
            lines(chars@) == pieces(chars@, r@) + lines(chars@.skip(start as int)),
        decreases n - start,
    {
        let rest = slice_subrange(chars, start, n);
        assert(rest@ == chars@.skip(start as int));
        let i = find_char(rest, '\n');
        let ghost before = r@;
        proof {
            lemma_first_index(rest@, '\n');
        }
        if i >= rest.len() {
            r.push((start, n));
            assert(pieces(chars@, r@) == pieces(chars@, before) + seq![rest@]);
            assert(lines(chars@.skip(n as int)) == Seq::<Seq<char>>::empty());
            start = n;
        } else {
            let mut end: usize = start + i;
            if i > 0 && rest[i - 1] == '\r' {
                end -= 1;
            }
            r.push((start, end));
            assert(chars@.subrange(start as int, end as int) == strip_cr(rest@.take(i as int)));
            assert(pieces(chars@, r@) == pieces(chars@, before) + seq![
                strip_cr(rest@.take(i as int)),
            ]);
            assert(rest@.skip(i + 1) == chars@.skip(start + i + 1));
            start = start + i + 1;
        }
    }
    assert(chars@.skip(start as int).len() == 0);
    r
}

/// How many characters of `s` come before its first white space.
pub open spec fn word_len(s: Seq<char>) -> int
    decreases s.len(),
{
    if s.len() == 0 || is_white_space(s[0]) {
        0
    } else {
        1 + word_len(s.drop_first())
    }
}

proof fn lemma_word_len(s: Seq<char>)
    ensures
        0 <= word_len(s) <= s.len(),
    decreases s.len(),
{
    if s.len() != 0 && !is_white_space(s[0]) {
        lemma_word_len(s.drop_first());
    }
}

/// The words of a text: its longest runs without white space.
pub open spec fn words(s: Seq<char>) -> Seq<Seq<char>>
    decreases s.len(),
    via words_decreases
{
    if s.len() == 0 {
        seq![]
    } else if is_white_space(s[0]) {
        words(s.drop_first())
    } else {
        seq![s.take(word_len(s))] + words(s.skip(word_len(s)))
    }
}

#[via_fn]
proof fn words_decreases(s: Seq<char>) {
    lemma_word_len(s);
    if s.len() != 0 && !is_white_space(s[0]) {
        lemma_word_len(s.drop_first());
    }
}

/// Where the words of a text stand in it.
pub fn word_ranges(chars: &[char]) -> (r: Vec<(usize, usize)>)
    ensures
        ranges_within(r@, chars@.len()),
        pieces(chars@, r@) == words(chars@),
{
    let n = chars.len();
    let mut r: Vec<(usize, usize)> = Vec::new();
    let mut start: usize = 0;
    assert(chars@.skip(0) == chars@);
    while start < n
        invariant
            n == chars@.len(),
            start <= n,
            ranges_within(r@, n as nat),
            words(chars@) == pieces(chars@, r@) + words(chars@.skip(start as int)),
        decreases n - start,
    {
        let ghost rest = chars@.skip(start as int);
        if white_space(chars[start]) {
            assert(rest.drop_first() == chars@.skip(start + 1));
            start += 1;
        } else {
            let mut end: usize = start;
            while end < n && !white_space(chars[end])
                invariant
                    n == chars@.len(),
                    start <= end <= n,
                    rest == chars@.skip(start as int),
                    word_len(rest) == end - start + word_len(chars@.skip(end as int)),
                decreases n - end,
            {
                assert(chars@.skip(end as int).drop_first() == chars@.skip(end + 1));
                end += 1;
            }
            let ghost before = r@;
            proof {
                assert(word_len(rest) == end - start);
                lemma_word_len(rest.drop_first());
            }
            r.push((start, end));
            assert(rest.take(end - start) == chars@.subrange(start as int, end as int));
            assert(pieces(chars@, r@) == pieces(chars@, before) + seq![rest.take(end - start)]);
            assert(rest.skip(end - start) == chars@.skip(end as int));
            start = end;
        }
    }
    assert(chars@.skip(start as int).len() == 0);
    r
}

// ---------------------------------------------------------------------------
// Numbers
// ---------------------------------------------------------------------------

/// The decimal digit of a number below ten.
pub open spec fn digit(n: nat) -> char {
    (48 + n) as char
}

/// A number in decimal, without leading zeros.
pub open spec fn decimal(n: nat) -> Seq<char>
    decreases n,
{
    if n < 10 {
        seq![digit(n)]
    } else {
        decimal(n / 10).push(digit(n % 10))
    }
}

/// A number written in decimal.
pub fn decimal_text(n: u64) -> (r: String)
    ensures
        r@ == decimal(n as nat),
    decreases n,
{
    if n < 10 {
        let mut r = String::new();
        r.push((48 + n as u8) as char);
        r
    } else {
        let mut r = decimal_text(n / 10);
        r.push((48 + (n % 10) as u8) as char);
        r
    }
}

// ---------------------------------------------------------------------------
// Separated lists
// ---------------------------------------------------------------------------

/// What stands between the separators of `s`, and before the first and after
/// the last of them.
pub open spec fn split<T>(s: Seq<T>, separator: T) -> Seq<Seq<T>>
    decreases s.len(),
{
    let i = first_index(s, separator);
    if i >= s.len() {
        seq![s]
    } else {
        proof {
            lemma_first_index(s, separator);
        }
        seq![s.take(i)] + split(s.skip(i + 1), separator)
    }
}

/// The members of a list with a separator between each two.
pub open spec fn join<T>(list: Seq<Seq<T>>, separator: T) -> Seq<T>
    decreases list.len(),
{
    if list.len() == 0 {
        seq![]
    } else if list.len() == 1 {
        list[0]
    } else {
        join(list.drop_last(), separator).push(separator) + list.last()
    }
}

/// The members of a list with a separating text between each two.
pub open spec fn join_with(list: Seq<Seq<char>>, separator: Seq<char>) -> Seq<char>
    decreases list.len(),
{
    if list.len() == 0 {
        seq![]
    } else if list.len() == 1 {
        list[0]
    } else {
        join_with(list.drop_last(), separator) + separator + list.last()
    }
}

/// No member of a split holds the separator.
pub proof fn lemma_split_members<T>(s: Seq<T>, separator: T)
    ensures
        split(s, separator).len() > 0,
        forall|k: int|
            0 <= k < split(s, separator).len() ==> !(#[trigger] split(s, separator)[k]).contains(
                separator,
            ),
    decreases s.len(),
{
    lemma_first_index(s, separator);
    let i = first_index(s, separator);
    let list = split(s, separator);
    if i >= s.len() {
        assert(list[0] == s);
    } else {
        let rest = s.skip(i + 1);
        lemma_split_members(rest, separator);
        assert forall|k: int| 0 <= k < list.len() implies !(#[trigger] list[k]).contains(
            separator,
        ) by {
            if k == 0 {
                assert(list[0] == s.take(i));
            } else {
                assert(list[k] == split(rest, separator)[k - 1]);
            }
        }
    }
}

/// A text without the separator is not split.
pub proof fn lemma_split_without<T>(s: Seq<T>, separator: T)
    requires
        !s.contains(separator),
    ensures
        split(s, separator) == seq![s],
{
    lemma_first_index(s, separator);
}

/// A list joined and one more member.
pub proof fn lemma_join_push<T>(list: Seq<Seq<T>>, separator: T, last: Seq<T>)
    ensures
        list.len() > 0 ==> join(list.push(last), separator) == join(list, separator).push(separator)
            + last,
        list.len() == 0 ==> join(list.push(last), separator) == last,
{
    assert(list.push(last).drop_last() == list);
    assert(list.push(last).last() == last);
}

/// A first member and a list joined.
pub proof fn lemma_join_cons<T>(first: Seq<T>, list: Seq<Seq<T>>, separator: T)
    requires
        list.len() > 0,
    ensures
        join(seq![first] + list, separator) == first.push(separator) + join(list, separator),
    decreases list.len(),
{
    let all = seq![first] + list;
    assert(all.drop_last() == seq![first] + list.drop_last());
    assert(all.last() == list.last());
    if list.len() > 1 {
        lemma_join_cons(first, list.drop_last(), separator);
        assert(join(all, separator) == first.push(separator) + join(list, separator));
    } else {
        assert(all.drop_last() == seq![first]);
        assert(join(seq![first], separator) == first);
        assert(join(all, separator) == first.push(separator) + join(list, separator));
    }
}

/// Joining what a split gave is the text itself.
pub proof fn law_join_undoes_split<T>(s: Seq<T>, separator: T)
    ensures
        join(split(s, separator), separator) == s,
    decreases s.len(),
{
    lemma_first_index(s, separator);
    let i = first_index(s, separator);
    if i < s.len() {
        let rest = s.skip(i + 1);
        law_join_undoes_split(rest, separator);
        lemma_split_members(rest, separator);
        lemma_join_cons(s.take(i), split(rest, separator), separator);
        assert(s == s.take(i).push(separator) + rest);
    }
}

/// Splitting what was joined gives the members back, where none of them holds
/// the separator.
pub proof fn law_split_undoes_join<T>(list: Seq<Seq<T>>, separator: T)
    requires
        list.len() > 0,
        forall|k: int| 0 <= k < list.len() ==> !(#[trigger] list[k]).contains(separator),
    ensures
        split(join(list, separator), separator) == list,
    decreases list.len(),
{
    let first = list[0];
    let rest = list.drop_first();
    assert(list == seq![first] + rest);
    if list.len() == 1 {
        assert(!first.contains(separator));
        lemma_first_index(first, separator);
        assert(split(join(list, separator), separator) == list);
    } else {
        assert forall|k: int| 0 <= k < rest.len() implies !(#[trigger] rest[k]).contains(
            separator,
        ) by {
            assert(rest[k] == list[k + 1]);
        }
        law_split_undoes_join(rest, separator);
        lemma_join_cons(first, rest, separator);
        let s = join(list, separator);
        let n = first.len() as int;
        assert(!first.contains(separator));
        assert forall|j: int| 0 <= j < n implies s[j] != separator by {
            assert(s[j] == first[j]);
        }
        lemma_first_index_is(s, separator, n);
        assert(s.take(n) == first);
        assert(s.skip(n + 1) == join(rest, separator));
    }
}

/// What a joined list holds: what its members hold, and the separator.
pub proof fn lemma_join_contains<T>(list: Seq<Seq<T>>, separator: T, c: T)
    ensures
        forall|k: int|
            0 <= k < list.len() && (#[trigger] list[k]).contains(c) ==> join(
                list,
                separator,
            ).contains(c),
        join(list, separator).contains(c) && c != separator ==> exists|k: int|
            0 <= k < list.len() && (#[trigger] list[k]).contains(c),
    decreases list.len(),
{
    if list.len() == 1 {
        assert(join(list, separator) == list[0]);
    } else if list.len() > 1 {
        let rest = list.drop_last();
        let last = list.last();
        lemma_join_contains(rest, separator, c);
        lemma_contains_concat(join(rest, separator).push(separator), last, c);
        lemma_contains_push(join(rest, separator), separator, c);
        assert forall|k: int| 0 <= k < list.len() && (#[trigger] list[k]).contains(c) implies join(
            list,
            separator,
        ).contains(c) by {
            if k < rest.len() {
                assert(rest[k] == list[k]);
            }
        }
        if join(list, separator).contains(c) && c != separator {
            if last.contains(c) {
                assert(list[list.len() - 1].contains(c));
            } else {
                let k = choose|k: int| 0 <= k < rest.len() && (#[trigger] rest[k]).contains(c);
                assert(list[k].contains(c));
            }
        }
    }
}

/// A joined list starts with its first member.
pub proof fn lemma_join_first<T>(list: Seq<Seq<T>>, separator: T)
    requires
        list.len() > 0,
    ensures
        list[0].is_prefix_of(join(list, separator)),
    decreases list.len(),
{
    if list.len() > 1 {
        lemma_join_first(list.drop_last(), separator);
        assert(list.drop_last()[0] == list[0]);
    }
}

/// Where the members of a split stand.
pub fn split_ranges(chars: &[char], separator: char) -> (r: Vec<(usize, usize)>)
    ensures
        ranges_within(r@, chars@.len()),
        pieces(chars@, r@) == split(chars@, separator),
{
    let n = chars.len();
    let mut r: Vec<(usize, usize)> = Vec::new();
    let mut start: usize = 0;
    assert(chars@.skip(0) == chars@);
    loop
        invariant
            n == chars@.len(),
            start <= n,
            ranges_within(r@, n as nat),
            split(chars@, separator) == pieces(chars@, r@) + split(
                chars@.skip(start as int),
                separator,
            ),
        decreases n - start,
    {
        let rest = slice_subrange(chars, start, n);
        assert(rest@ == chars@.skip(start as int));
        let i = find_char(rest, separator);
        let ghost before = r@;
        proof {
            lemma_first_index(rest@, separator);
        }
        if i >= rest.len() {
            r.push((start, n));
            assert(pieces(chars@, r@) == pieces(chars@, before) + seq![rest@]);
            return r;
        }
        r.push((start, start + i));
        assert(chars@.subrange(start as int, start + i) == rest@.take(i as int));
        assert(pieces(chars@, r@) == pieces(chars@, before) + seq![rest@.take(i as int)]);
        assert(rest@.skip(i + 1) == chars@.skip(start + i + 1));
        start = start + i + 1;
    }
}

// ---------------------------------------------------------------------------
// What holds of every text
// ---------------------------------------------------------------------------

/// A line feed ends a line: what stands before it is the first line, without
/// one carriage return at its end, and the lines of the rest follow.
pub proof fn law_line_feed_ends_a_line(line: Seq<char>, rest: Seq<char>)
    requires
        !line.contains('\n'),
    ensures
        lines(line + seq!['\n'] + rest) == seq![
            if line.len() != 0 && line.last() == '\r' {
                line.drop_last()
            } else {
                line
            },
        ] + lines(rest),
{
    let s = line + seq!['\n'] + rest;
    let n = line.len() as int;
    assert forall|j: int| 0 <= j < n implies s[j] != '\n' by {
        assert(s[j] == line[j]);
        assert(line.contains(line[j]));
    }
    lemma_first_index_is(s, '\n', n);
    assert(s.take(n) == line);
    assert(s.skip(n + 1) == rest);
}

/// A text without a line feed is one line, and no line where it is empty.
pub proof fn law_text_without_line_feed_is_one_line(line: Seq<char>)
    requires
        !line.contains('\n'),
    ensures
        lines(line) == if line.len() == 0 {
            Seq::<Seq<char>>::empty()
        } else {
            seq![line]
        },
{
    lemma_first_index(line, '\n');
}

proof fn lemma_word_len_is(word: Seq<char>, rest: Seq<char>)
    requires
        forall|i: int| 0 <= i < word.len() ==> !is_white_space(#[trigger] word[i]),
        rest.len() == 0 || is_white_space(rest[0]),
    ensures
        word_len(word + rest) == word.len(),
    decreases word.len(),
{
    let s = word + rest;
    if word.len() == 0 {
        assert(s == rest);
    } else {
        let shorter = word.drop_first();
        assert(s[0] == word[0]);
        assert(s.drop_first() == shorter + rest);
        assert forall|i: int| 0 <= i < shorter.len() implies !is_white_space(
            #[trigger] shorter[i],
        ) by {
            assert(shorter[i] == word[i + 1]);
        }
        lemma_word_len_is(shorter, rest);
    }
}

/// A run without white space that white space or the end follows is a word, and
/// the words of the rest follow it.
pub proof fn law_words_are_separated_by_white_space(word: Seq<char>, rest: Seq<char>)
    requires
        word.len() != 0,
        forall|i: int| 0 <= i < word.len() ==> !is_white_space(#[trigger] word[i]),
        rest.len() == 0 || is_white_space(rest[0]),
    ensures
        words(word + rest) == seq![word] + words(rest),
{
    let s = word + rest;
    lemma_word_len_is(word, rest);
    assert(s[0] == word[0]);
    assert(s.take(word.len() as int) == word);
    assert(s.skip(word.len() as int) == rest);
}

/// White space before the words of a text does not matter, and there are no
/// words in nothing.
pub proof fn law_leading_white_space_is_no_word(c: char, rest: Seq<char>)
    requires
        is_white_space(c),
    ensures
        words(seq![c] + rest) == words(rest),
        words(Seq::<char>::empty()).len() == 0,
{
    let s = seq![c] + rest;
    assert(s.drop_first() == rest);
}

proof fn lemma_trim_start_skips(white: Seq<char>, rest: Seq<char>)
    requires
        forall|i: int| 0 <= i < white.len() ==> is_white_space(#[trigger] white[i]),
    ensures
        trim_start(white + rest) == trim_start(rest),
    decreases white.len(),
{
    if white.len() == 0 {
        assert(white + rest == rest);
    } else {
        let shorter = white.drop_first();
        assert((white + rest)[0] == white[0]);
        assert((white + rest).drop_first() == shorter + rest);
        assert forall|i: int| 0 <= i < shorter.len() implies is_white_space(
            #[trigger] shorter[i],
        ) by {
            assert(shorter[i] == white[i + 1]);
        }
        lemma_trim_start_skips(shorter, rest);
    }
}

proof fn lemma_trim_end_skips(rest: Seq<char>, white: Seq<char>)
    requires
        forall|i: int| 0 <= i < white.len() ==> is_white_space(#[trigger] white[i]),
    ensures
        trim_end(rest + white) == trim_end(rest),
    decreases white.len(),
{
    if white.len() == 0 {
        assert(rest + white == rest);
    } else {
        let shorter = white.drop_last();
        assert((rest + white).last() == white.last());
        assert(white[white.len() - 1] == white.last());
        assert((rest + white).drop_last() == rest + shorter);
        assert forall|i: int| 0 <= i < shorter.len() implies is_white_space(
            #[trigger] shorter[i],
        ) by {
            assert(shorter[i] == white[i]);
        }
        lemma_trim_end_skips(rest, shorter);
    }
}

/// Trimming takes away the white space at both ends and nothing else, however
/// long the text is.
pub proof fn law_trimming_keeps_the_core(left: Seq<char>, core: Seq<char>, right: Seq<char>)
    requires
        forall|i: int| 0 <= i < left.len() ==> is_white_space(#[trigger] left[i]),
        forall|i: int| 0 <= i < right.len() ==> is_white_space(#[trigger] right[i]),
        core.len() != 0 ==> !is_white_space(core.first()) && !is_white_space(core.last()),
    ensures
        trimmed(left + core + right) == core,
{
    assert(left + core + right == left + (core + right));
    lemma_trim_start_skips(left, core + right);
    if core.len() == 0 {
        assert(core + right == right + core);
        lemma_trim_start_skips(right, core);
        assert(trim_start(core) == core);
        assert(trim_end(core) == core);
    } else {
        assert((core + right)[0] == core[0]);
        lemma_trim_end_skips(core, right);
    }
}

/// The decimal digits of a number spell it: read from the left they give the
/// number back, and none but that of zero itself leads with a zero.
pub proof fn law_decimal_spells_the_number(n: nat)
    ensures
        decimal(n).len() > 0,
        decimal(n).fold_left(0int, |v: int, c: char| 10 * v + (c as int - 48)) == n,
        forall|i: int| 0 <= i < decimal(n).len() ==> '0' <= #[trigger] decimal(n)[i] <= '9',
        decimal(n)[0] == '0' ==> n == 0,
        n < 10 ==> decimal(n).len() == 1,
    decreases n,
{
    let f = |v: int, c: char| 10 * v + (c as int - 48);
    let d = decimal(n);
    if n < 10 {
        assert(d.last() == d[0]);
        assert(d.drop_last() == Seq::<char>::empty());
        reveal_with_fuel(Seq::fold_left, 2);
    } else {
        law_decimal_spells_the_number(n / 10);
        assert(d.drop_last() == decimal(n / 10));
        assert(d.last() == digit(n % 10));
        assert(d[0] == decimal(n / 10)[0]);
        assert forall|i: int| 0 <= i < d.len() implies '0' <= #[trigger] d[i] <= '9' by {
            if i < d.len() - 1 {
                assert(d[i] == decimal(n / 10)[i]);
            }
        }
    }
}

/// A separator splits: what stands before it and what stands behind it are
/// split each by itself.
pub proof fn law_separators_split<T>(a: Seq<T>, b: Seq<T>, separator: T)
    ensures
        split(a + seq![separator] + b, separator) == split(a, separator) + split(b, separator),
    decreases a.len(),
{
    let s = a + seq![separator] + b;
    lemma_first_index(a, separator);
    let i = first_index(a, separator);
    if i >= a.len() {
        assert forall|j: int| 0 <= j < a.len() implies s[j] != separator by {
            assert(s[j] == a[j]);
        }
        lemma_first_index_is(s, separator, a.len() as int);
        assert(s.take(a.len() as int) == a);
        assert(s.skip(a.len() as int + 1) == b);
    } else {
        assert forall|j: int| 0 <= j < i implies s[j] != separator by {
            assert(s[j] == a[j]);
        }
        lemma_first_index_is(s, separator, i);
        let rest = a.skip(i + 1);
        law_separators_split(rest, b, separator);
        assert(s.take(i) == a.take(i));
        assert(s.skip(i + 1) == rest + seq![separator] + b);
        assert(split(s, separator) == split(a, separator) + split(b, separator));
    }
}

/// A joined list grows by the separator and the new member; a single member is
/// joined as it is, and no members to nothing.
pub proof fn law_joining_adds_one<T>(list: Seq<Seq<T>>, separator: T, last: Seq<T>)
    ensures
        list.len() > 0 ==> join(list.push(last), separator) == join(list, separator) + seq![
            separator,
        ] + last,
        join(seq![last], separator) == last,
        join(Seq::<Seq<T>>::empty(), separator).len() == 0,
{
    lemma_join_push(list, separator, last);
    assert(join(list, separator).push(separator) == join(list, separator) + seq![separator]);
}

/// The same of a separating text.
pub proof fn law_joining_with_adds_one(
    list: Seq<Seq<char>>,
    separator: Seq<char>,
    last: Seq<char>,
)
    ensures
        list.len() > 0 ==> join_with(list.push(last), separator) == join_with(list, separator)
            + separator + last,
        join_with(seq![last], separator) == last,
        join_with(Seq::<Seq<char>>::empty(), separator).len() == 0,
{
    assert(list.push(last).drop_last() == list);
}

/// A text stands in another exactly where it can be cut out of it between some
/// beginning and some end, and starts it exactly where that beginning is empty.
pub proof fn law_containing_is_standing_between(s: Seq<char>, needle: Seq<char>)
    ensures
        contains_text(s, needle) <==> exists|a: Seq<char>, b: Seq<char>|
            s == #[trigger] (a + needle + b),
        starts_with(s, needle) <==> needle.is_prefix_of(s),
{
    if contains_text(s, needle) {
        let i = choose|i: int| occurs_at(s, needle, i);
        let a = s.take(i);
        let b = s.skip(i + needle.len());
        assert(s == a + needle + b);
    }
    if exists|a: Seq<char>, b: Seq<char>| s == #[trigger] (a + needle + b) {
        let (a, b) = choose|a: Seq<char>, b: Seq<char>| s == #[trigger] (a + needle + b);
        let i = a.len() as int;
        assert(s.subrange(i, i + needle.len()) == needle);
        assert(occurs_at(s, needle, i));
    }
    if needle.len() <= s.len() {
        assert(s.take(needle.len() as int) == s.subrange(0, needle.len() as int));
    }
}

proof fn lemma_trim_start_range(s: Seq<char>) -> (i: int)
    ensures
        0 <= i <= s.len(),
        trim_start(s) == s.skip(i),
        forall|k: int| 0 <= k < i ==> is_white_space(#[trigger] s[k]),
    decreases s.len(),
{
    if s.len() != 0 && is_white_space(s[0]) {
        let j = lemma_trim_start_range(s.drop_first());
        assert(s.drop_first().skip(j) == s.skip(j + 1));
        assert forall|k: int| 0 <= k < j + 1 implies is_white_space(#[trigger] s[k]) by {
            if k > 0 {
                assert(s[k] == s.drop_first()[k - 1]);
            }
        }
        j + 1
    } else {
        assert(s.skip(0) == s);
        0
    }
}

proof fn lemma_trim_end_range(s: Seq<char>) -> (j: int)
    ensures
        0 <= j <= s.len(),
        trim_end(s) == s.take(j),
        forall|k: int| j <= k < s.len() ==> is_white_space(#[trigger] s[k]),
    decreases s.len(),
{
    if s.len() != 0 && is_white_space(s.last()) {
        let j = lemma_trim_end_range(s.drop_last());
        assert(s.drop_last().take(j) == s.take(j));
        assert forall|k: int| j <= k < s.len() implies is_white_space(#[trigger] s[k]) by {
            if k < s.len() - 1 {
                assert(s[k] == s.drop_last()[k]);
            }
        }
        j
    } else {
        assert(s.take(s.len() as int) == s);
        s.len() as int
    }
}

/// What trimming leaves out is white space: whatever stands in a text between
/// two characters that are no white space stands in the trimmed text too.
pub proof fn law_trimming_loses_no_text(a: Seq<char>, part: Seq<char>, b: Seq<char>)
    requires
        part.len() != 0,
        !is_white_space(part.first()),
        !is_white_space(part.last()),
    ensures
        contains_text(trimmed(a + part + b), part),
{
    let s = a + part + b;
    let i = lemma_trim_start_range(s);
    let head = s.skip(i);
    let j = lemma_trim_end_range(head);
    let p = a.len() as int;
    let q = p + part.len();
    assert(s[p] == part[0]);
    assert(s[q - 1] == part[part.len() - 1]);
    assert(i <= p);
    if i + j < q {
        assert(head[q - 1 - i] == s[q - 1]);
    }
    assert(trimmed(s).subrange(p - i, q - i) == part);
    assert(occurs_at(trimmed(s), part, p - i));
}

/// White space alone holds no words.
pub proof fn law_white_space_holds_no_words(white: Seq<char>)
    requires
        forall|i: int| 0 <= i < white.len() ==> is_white_space(#[trigger] white[i]),
    ensures
        words(white).len() == 0,
    decreases white.len(),
{
    if white.len() != 0 {
        let rest = white.drop_first();
        assert forall|i: int| 0 <= i < rest.len() implies is_white_space(#[trigger] rest[i]) by {
            assert(rest[i] == white[i + 1]);
        }
        law_white_space_holds_no_words(rest);
    }
}

/// What follows a text changes its first word only where the text is one word.
pub proof fn lemma_first_word(s: Seq<char>, more: Seq<char>)
    ensures
        0 <= word_len(s) <= s.len(),
        word_len(s) < s.len() ==> word_len(s + more) == word_len(s),
        word_len(s) == s.len() ==> word_len(s + more) == s.len() + word_len(more),
    decreases s.len(),
{
    if s.len() == 0 {
        assert(s + more == more);
    } else {
        assert((s + more)[0] == s[0]);
        assert((s + more).drop_first() == s.drop_first() + more);
        lemma_first_word(s.drop_first(), more);
    }
}

} // verus!
