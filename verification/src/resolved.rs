//! Paths that the file system resolved: absolute, without links, `.` or `..`.
use crate::names;
use crate::output;
use crate::paths;
use crate::text;
use vstd::prelude::*;
use vstd::slice::{slice_subrange, slice_to_vec};
use vstd::string::*;
use vstd::utf8::{decode_utf8, encode_utf8, valid_utf8};

verus! {

/// The byte that separates the names of a path.
pub const SEPARATOR: u8 = 47;

/// The byte that a path to the directory itself consists of.
pub const DOT: u8 = 46;

/// The segment names something: it is neither empty nor a single dot.
pub open spec fn is_name(segment: Seq<u8>) -> bool {
    segment.len() != 0 && segment != seq![DOT]
}

/// The names along an absolute path, from the root down.
pub open spec fn path_names(bytes: Seq<u8>) -> Seq<Seq<u8>> {
    text::split(bytes, SEPARATOR).filter(|s: Seq<u8>| is_name(s))
}

/// The bytes of the absolute path along the given names.
pub open spec fn path_bytes(names: Seq<Seq<u8>>) -> Seq<u8> {
    seq![SEPARATOR] + text::join(names, SEPARATOR)
}

/// The names of the steps of a path that a caller names.
pub open spec fn step_names(path: Seq<char>) -> Seq<Seq<u8>> {
    paths::steps(path).map_values(|s: Seq<char>| encode_utf8(s))
}

/// A resolved path, as the names along it from the root down.
#[derive(Debug)]
pub struct ResolvedPath {
    names: Vec<Vec<u8>>,
}

/// The bytes of each of a list of byte vectors.
pub open spec fn byte_views(list: Seq<Vec<u8>>) -> Seq<Seq<u8>> {
    list.map_values(|n: Vec<u8>| n@)
}

impl View for ResolvedPath {
    type V = Seq<Seq<u8>>;

    closed spec fn view(&self) -> Seq<Seq<u8>> {
        byte_views(self.names@)
    }
}

fn find_byte(bytes: &[u8], c: u8) -> (r: usize)
    ensures
        r == text::first_index(bytes@, c),
{
    let n = bytes.len();
    let mut i: usize = 0;
    while i < n && bytes[i] != c
        invariant
            n == bytes@.len(),
            i <= n,
            forall|j: int| 0 <= j < i ==> bytes@[j] != c,
        decreases n - i,
    {
        i += 1;
    }
    proof {
        text::lemma_first_index_is(bytes@, c, i as int);
    }
    i
}

fn same_bytes(a: &[u8], b: &[u8]) -> (r: bool)
    ensures
        r == (a@ == b@),
{
    let n = a.len();
    if n != b.len() {
        return false;
    }
    for i in 0..n
        invariant
            n == a@.len() == b@.len(),
            forall|j: int| 0 <= j < i ==> a@[j] == b@[j],
    {
        if a[i] != b[i] {
            return false;
        }
    }
    assert(a@ == b@);
    true
}

impl ResolvedPath {
    /// The path that the given bytes spell.
    pub fn from_bytes(bytes: &[u8]) -> (r: ResolvedPath)
        ensures
            r@ == path_names(bytes@),
    {
        let n = bytes.len();
        let mut names: Vec<Vec<u8>> = Vec::new();
        let mut start: usize = 0;
        let ghost kept = |s: Seq<u8>| is_name(s);
        proof {
            assert(bytes@.skip(0) == bytes@);
            assert(byte_views(names@) + path_names(bytes@) == path_names(bytes@));
        }
        loop
            invariant
                n == bytes@.len(),
                start <= n,
                kept == (|s: Seq<u8>| is_name(s)),
                path_names(bytes@) == byte_views(names@) + text::split(
                    bytes@.skip(start as int),
                    SEPARATOR,
                ).filter(kept),
            decreases n - start,
        {
            let rest = slice_subrange(bytes, start, n);
            assert(rest@ == bytes@.skip(start as int));
            let i = find_byte(rest, SEPARATOR);
            proof {
                text::lemma_first_index(rest@, SEPARATOR);
            }
            let segment = slice_subrange(rest, 0, i);
            let ghost was = names@;
            let ghost more = text::split(rest@.skip(i + 1), SEPARATOR);
            let ghost one = seq![segment@];
            proof {
                reveal(Seq::filter);
                let none = Seq::<Seq<u8>>::empty();
                text::lemma_filter_push(none, segment@, kept);
                assert(none.push(segment@) == one);
                assert(none.filter(kept) == none);
                if i < rest@.len() {
                    assert(segment@ == rest@.take(i as int));
                    text::lemma_filter_append(one, more, kept);
                } else {
                    assert(segment@ == rest@);
                }
            }
            if i != 0 && !(i == 1 && segment[0] == DOT) {
                assert(is_name(segment@));
                names.push(slice_to_vec(segment));
                assert(byte_views(names@) == byte_views(was) + one);
            } else {
                assert(i == 1 ==> segment@ == seq![DOT]);
                assert(!is_name(segment@));
            }
            assert(byte_views(names@) == byte_views(was) + one.filter(kept));
            if i >= n - start {
                assert(path_names(bytes@) == byte_views(names@));
                return ResolvedPath { names };
            }
            assert(rest@.skip(i + 1) == bytes@.skip(start + i + 1));
            assert(path_names(bytes@) == byte_views(names@) + more.filter(kept));
            start = start + i + 1;
        }
    }

    /// The bytes of the path.
    pub fn to_bytes(&self) -> (r: Vec<u8>)
        ensures
            r@ == path_bytes(self@),
    {
        let mut r: Vec<u8> = Vec::new();
        r.push(SEPARATOR);
        let mut joined = joined_names(&self.names, 0);
        assert(self@.skip(0) == self@);
        r.append(&mut joined);
        r
    }

    /// The path as text.
    pub fn display(&self) -> (r: String)
        ensures
            r@ == output::utf8_lossy(path_bytes(self@)),
            valid_utf8(path_bytes(self@)) ==> r@ == decode_utf8(path_bytes(self@)),
    {
        output::lossy_text(self.to_bytes().as_slice())
    }

    /// Whether this path is the other or lies below it.
    pub fn is_within(&self, other: &ResolvedPath) -> (r: bool)
        ensures
            r == other@.is_prefix_of(self@),
    {
        let n = other.names.len();
        if n > self.names.len() {
            return false;
        }
        for i in 0..n
            invariant
                n == other.names@.len(),
                n <= self.names@.len(),
                forall|j: int| 0 <= j < i ==> self@[j] == other@[j],
        {
            if !same_bytes(self.names[i].as_slice(), other.names[i].as_slice()) {
                assert(self@[i as int] != other@[i as int]);
                assert(self@.subrange(0, n as int)[i as int] == self@[i as int]);
                return false;
            }
        }
        assert(other@ == self@.subrange(0, n as int));
        true
    }

    /// How many names the path has.
    pub fn depth(&self) -> (r: usize)
        ensures
            r == self@.len(),
    {
        self.names.len()
    }

    /// The directory that the first `n` names lead to.
    pub fn ancestor(&self, n: usize) -> (r: ResolvedPath)
        requires
            n <= self@.len(),
        ensures
            r@ == self@.take(n as int),
    {
        let mut names: Vec<Vec<u8>> = Vec::new();
        for i in 0..n
            invariant
                n <= self.names@.len(),
                names@.len() == i,
                forall|j: int| 0 <= j < i ==> (#[trigger] names@[j])@ == self.names@[j]@,
        {
            names.push(slice_to_vec(self.names[i].as_slice()));
        }
        let r = ResolvedPath { names };
        assert(r@ == self@.take(n as int));
        r
    }

    /// The path that the steps of another lead to from this one.
    pub fn below(&self, path: &str) -> (r: ResolvedPath)
        ensures
            r@ == self@ + step_names(path@),
    {
        let steps = paths::step_texts(path);
        let n = steps.len();
        let ghost more = step_names(path@);
        let mut r = self.ancestor(self.names.len());
        assert(self@.take(self@.len() as int) + more.take(0) == self@);
        for i in 0..n
            invariant
                n == steps@.len(),
                names::texts(steps@) == paths::steps(path@),
                more == step_names(path@),
                r@ == self@ + more.take(i as int),
        {
            let ghost was = r@;
            assert(names::texts(steps@)[i as int] == steps@[i as int]@);
            r.names.push(slice_to_vec(steps[i].as_str().as_bytes()));
            assert(r@ == was.push(more[i as int]));
            assert(more.take(i + 1) == more.take(i as int).push(more[i as int]));
        }
        assert(more.take(n as int) == more);
        r
    }

    /// What remains of the path after its first `n` names, as text.
    pub fn display_after(&self, n: usize) -> (r: String)
        requires
            n <= self@.len(),
        ensures
            r@ == output::utf8_lossy(text::join(self@.skip(n as int), SEPARATOR)),
            valid_utf8(text::join(self@.skip(n as int), SEPARATOR)) ==> r@ == decode_utf8(
                text::join(self@.skip(n as int), SEPARATOR),
            ),
    {
        output::lossy_text(joined_names(&self.names, n).as_slice())
    }
}

fn joined_names(names: &Vec<Vec<u8>>, from: usize) -> (r: Vec<u8>)
    requires
        from <= names@.len(),
    ensures
        r@ == text::join(byte_views(names@).skip(from as int), SEPARATOR),
{
    let n = names.len();
    let mut r: Vec<u8> = Vec::new();
    let ghost list = byte_views(names@).skip(from as int);
    assert(r@ == text::join(list.take(0), SEPARATOR));
    for i in from..n
        invariant
            n == names@.len(),
            from <= n,
            list == byte_views(names@).skip(from as int),
            r@ == text::join(list.take(i - from), SEPARATOR),
    {
        proof {
            let k = i - from;
            assert(list[k] == names@[i as int]@);
            assert(list.take(k + 1) == list.take(k).push(list[k]));
            text::lemma_join_push(list.take(k), SEPARATOR, list[k]);
        }
        if i > from {
            r.push(SEPARATOR);
        }
        let mut name = slice_to_vec(names[i].as_slice());
        r.append(&mut name);
    }
    assert(list.take(n - from) == list);
    r
}

/// The names along a path are no separators, no dots, and not empty.
pub open spec fn are_names(names: Seq<Seq<u8>>) -> bool {
    forall|k: int| 0 <= k < names.len() ==> is_name(#[trigger] names[k]) && !names[k].contains(
        SEPARATOR,
    )
}

/// Spelling a path along given names and reading it gives the names back.
pub proof fn law_path_names_round_trip(names: Seq<Seq<u8>>)
    requires
        are_names(names),
    ensures
        path_names(path_bytes(names)) == names,
{
    let p = |s: Seq<u8>| is_name(s);
    let empty: Seq<u8> = seq![];
    let list = seq![empty] + names;
    let s = path_bytes(names);
    reveal(Seq::filter);
    text::lemma_filter_all(names, p);
    text::lemma_filter_append(seq![empty], names, p);
    text::lemma_filter_push(Seq::<Seq<u8>>::empty(), empty, p);
    assert(Seq::<Seq<u8>>::empty().push(empty) == seq![empty]);
    assert(!p(empty));
    assert(seq![empty].filter(p) == Seq::<Seq<u8>>::empty());
    if names.len() == 0 {
        assert(s == seq![SEPARATOR]);
        assert(s.take(0) == empty && s.skip(1) == empty);
        text::lemma_first_index_is(s, SEPARATOR, 0);
        text::lemma_first_index_is(empty, SEPARATOR, 0);
        assert(text::split(empty, SEPARATOR) == seq![empty]);
        assert(text::split(s, SEPARATOR) == seq![empty] + seq![empty]);
        text::lemma_filter_append(seq![empty], seq![empty], p);
        assert(path_names(s) == names);
    } else {
        text::lemma_join_cons(empty, names, SEPARATOR);
        assert(empty.push(SEPARATOR) == seq![SEPARATOR]);
        assert(s == text::join(list, SEPARATOR));
        assert forall|k: int| 0 <= k < list.len() implies !(#[trigger] list[k]).contains(
            SEPARATOR,
        ) by {
            if k > 0 {
                assert(list[k] == names[k - 1]);
                assert(is_name(names[k - 1]));
            }
        }
        text::law_split_undoes_join(list, SEPARATOR);
        assert(path_names(s) == names);
    }
}

/// What is read from any path are names: none is empty, a dot, or holds a
/// separator.
pub proof fn law_path_names_are_names(bytes: Seq<u8>)
    ensures
        are_names(path_names(bytes)),
{
    let p = |s: Seq<u8>| is_name(s);
    let list = text::split(bytes, SEPARATOR);
    text::lemma_split_members(bytes, SEPARATOR);
    assert forall|k: int| 0 <= k < path_names(bytes).len() implies is_name(
        #[trigger] path_names(bytes)[k],
    ) && !path_names(bytes)[k].contains(SEPARATOR) by {
        let t = path_names(bytes)[k];
        assert(list.filter(p).contains(t));
        text::lemma_filter_contains(list, p, t);
        let j = choose|j: int| 0 <= j < list.len() && list[j] == t;
        assert(!list[j].contains(SEPARATOR));
    }
}

/// A separator parts the names of a path, however many there are.
pub proof fn law_names_are_parted_by_separators(a: Seq<u8>, b: Seq<u8>)
    ensures
        path_names(a + seq![47u8] + b) == path_names(a) + path_names(b),
{
    let p = |s: Seq<u8>| is_name(s);
    text::law_separators_split(a, b, 47u8);
    text::lemma_filter_append(text::split(a, 47u8), text::split(b, 47u8), p);
}

/// Bytes without a separator are one name, unless they are none or a single dot.
pub proof fn law_segments_are_names(segment: Seq<u8>)
    requires
        !segment.contains(47u8),
    ensures
        path_names(segment) == if segment.len() == 0 || segment == seq![46u8] {
            Seq::<Seq<u8>>::empty()
        } else {
            seq![segment]
        },
{
    let p = |s: Seq<u8>| is_name(s);
    let none: Seq<Seq<u8>> = Seq::empty();
    text::lemma_split_without(segment, 47u8);
    text::lemma_filter_push(none, segment, p);
    assert(none.push(segment) == seq![segment]);
    reveal(Seq::filter);
    assert(none.filter(p) == none);
}

/// A path is spelled with a separator before each of its names.
pub proof fn law_names_are_spelled_behind_separators(names: Seq<Seq<u8>>, last: Seq<u8>)
    ensures
        names.len() > 0 ==> path_bytes(names.push(last)) == path_bytes(names) + seq![47u8] + last,
        path_bytes(seq![last]) == seq![47u8] + last,
        path_bytes(Seq::<Seq<u8>>::empty()) == seq![47u8],
{
    text::law_joining_adds_one(names, 47u8, last);
    if names.len() > 0 {
        assert(path_bytes(names.push(last)) == path_bytes(names) + seq![47u8] + last);
    }
    assert(path_bytes(Seq::<Seq<u8>>::empty()) == seq![47u8]);
}

/// The names of the steps of a path are the bytes of the steps, one by one.
pub proof fn law_step_names_are_the_bytes_of_steps(path: Seq<char>, k: int)
    requires
        0 <= k < paths::steps(path).len(),
    ensures
        step_names(path).len() == paths::steps(path).len(),
        step_names(path)[k] == encode_utf8(paths::steps(path)[k]),
{
}

} // verus!
