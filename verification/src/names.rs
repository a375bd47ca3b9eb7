//! Names in order: the order of strings, and sets of names kept in it.
use crate::text;
use vstd::prelude::*;
use vstd::string::*;

verus! {

/// `a` comes before `b`: by the first character in which they differ, or as
/// the shorter one.
pub open spec fn before(a: Seq<char>, b: Seq<char>) -> bool
    decreases a.len(),
{
    if b.len() == 0 {
        false
    } else if a.len() == 0 {
        true
    } else if a[0] != b[0] {
        a[0] < b[0]
    } else {
        before(a.drop_first(), b.drop_first())
    }
}

/// Nothing comes before itself.
pub proof fn lemma_before_irreflexive(a: Seq<char>)
    ensures
        !before(a, a),
    decreases a.len(),
{
    if a.len() != 0 {
        lemma_before_irreflexive(a.drop_first());
    }
}

/// The order is transitive.
pub proof fn lemma_before_transitive(a: Seq<char>, b: Seq<char>, c: Seq<char>)
    requires
        before(a, b),
        before(b, c),
    ensures
        before(a, c),
    decreases a.len(),
{
    if a.len() != 0 && b.len() != 0 && c.len() != 0 && a[0] == b[0] && b[0] == c[0] {
        lemma_before_transitive(a.drop_first(), b.drop_first(), c.drop_first());
    }
}

/// How two texts stand to each other.
#[derive(Clone, Copy, Debug, PartialEq, Eq)]
pub enum Order {
    Before,
    Same,
    After,
}

/// Which of two strings comes first.
pub fn order_of(a: &str, b: &str) -> (r: Order)
    ensures
        match r {
            Order::Before => before(a@, b@),
            Order::Same => a@ == b@,
            Order::After => before(b@, a@),
        },
{
    let x = text::chars_of(a);
    let y = text::chars_of(b);
    let mut i: usize = 0;
    assert(x@.skip(0) == a@);
    assert(y@.skip(0) == b@);
    while i < x.len() && i < y.len()
        invariant
            x@ == a@,
            y@ == b@,
            i <= x@.len(),
            i <= y@.len(),
            x@.take(i as int) == y@.take(i as int),
            before(a@, b@) == before(x@.skip(i as int), y@.skip(i as int)),
            before(b@, a@) == before(y@.skip(i as int), x@.skip(i as int)),
        decreases x.len() - i,
    {
        if x[i] < y[i] {
            return Order::Before;
        }
        if y[i] < x[i] {
            return Order::After;
        }
        assert(x@.skip(i as int).drop_first() == x@.skip(i + 1));
        assert(y@.skip(i as int).drop_first() == y@.skip(i + 1));
        assert(x@.take(i + 1) == x@.take(i as int).push(x@[i as int]));
        assert(y@.take(i + 1) == y@.take(i as int).push(y@[i as int]));
        i += 1;
    }
    if i < y.len() {
        Order::Before
    } else if i < x.len() {
        Order::After
    } else {
        assert(x@.take(i as int) == x@);
        assert(y@.take(i as int) == y@);
        Order::Same
    }
}

/// The texts of a list of strings.
pub open spec fn texts(list: Seq<String>) -> Seq<Seq<char>> {
    list.map_values(|s: String| s@)
}

/// Whether `name` is one of the strings.
pub fn has_name(list: &[String], name: &str) -> (r: bool)
    ensures
        r == texts(list@).contains(name@),
{
    let n = list.len();
    for i in 0..n
        invariant
            n == list@.len(),
            forall|j: int| 0 <= j < i ==> (#[trigger] list@[j])@ != name@,
    {
        if text::same_text(list[i].as_str(), name) {
            assert(texts(list@)[i as int] == name@);
            return true;
        }
    }
    assert forall|j: int| 0 <= j < texts(list@).len() implies texts(list@)[j] != name@ by {
        assert(list@[j]@ != name@);
    }
    false
}

/// The strings with a separating text between each two.
pub fn joined(list: &[String], separator: &str) -> (r: String)
    ensures
        r@ == text::join_with(texts(list@), separator@),
{
    let mut r = String::new();
    let n = list.len();
    let ghost all = texts(list@);
    assert(all.take(0) == Seq::<Seq<char>>::empty());
    for i in 0..n
        invariant
            n == list@.len(),
            all == texts(list@),
            r@ == text::join_with(all.take(i as int), separator@),
    {
        let ghost was = r@;
        proof {
            assert(all[i as int] == list@[i as int]@);
            assert(all.take(i + 1).drop_last() == all.take(i as int));
            assert(all.take(i + 1).last() == all[i as int]);
        }
        if i > 0 {
            r.append(separator);
        }
        r.append(list[i].as_str());
        assert(r@ == text::join_with(all.take(i + 1), separator@));
    }
    assert(all.take(n as int) == all);
    r
}

/// Copies of the strings.
pub fn copied(list: &[String]) -> (r: Vec<String>)
    ensures
        texts(r@) == texts(list@),
{
    let mut r: Vec<String> = Vec::new();
    let n = list.len();
    for i in 0..n
        invariant
            n == list@.len(),
            r@.len() == i,
            forall|k: int| 0 <= k < i ==> (#[trigger] r@[k])@ == list@[k]@,
    {
        r.push(list[i].clone());
    }
    assert(texts(r@) == texts(list@));
    r
}

/// The texts of a list of string slices.
pub open spec fn str_texts(list: Seq<&str>) -> Seq<Seq<char>> {
    list.map_values(|s: &str| s@)
}

/// Whether `name` is one of the string slices.
pub fn has_str(list: &[&str], name: &str) -> (r: bool)
    ensures
        r == str_texts(list@).contains(name@),
{
    let n = list.len();
    for i in 0..n
        invariant
            n == list@.len(),
            forall|j: int| 0 <= j < i ==> (#[trigger] list@[j])@ != name@,
    {
        if text::same_text(list[i], name) {
            assert(str_texts(list@)[i as int] == name@);
            return true;
        }
    }
    assert forall|j: int| 0 <= j < str_texts(list@).len() implies str_texts(list@)[j]
        != name@ by {
        assert(list@[j]@ != name@);
    }
    false
}

/// The texts stand in strictly rising order, so that none occurs twice.
pub open spec fn strictly_sorted(list: Seq<Seq<char>>) -> bool {
    forall|i: int, j: int| 0 <= i < j < list.len() ==> #[trigger] before(list[i], list[j])
}

/// The order fixes the list: two strictly sorted lists with the same members
/// are the same list.
pub proof fn law_sorted_list_is_unique(a: Seq<Seq<char>>, b: Seq<Seq<char>>)
    requires
        strictly_sorted(a),
        strictly_sorted(b),
        forall|t: Seq<char>| a.contains(t) <==> b.contains(t),
    ensures
        a == b,
    decreases a.len(),
{
    if a.len() == 0 {
        if b.len() != 0 {
            assert(b.contains(b[0]));
        }
        assert(a == b);
    } else {
        assert(a.contains(a.last()));
        let k = choose|k: int| 0 <= k < b.len() && b[k] == a.last();
        assert(b.contains(b.last()));
        let m = choose|m: int| 0 <= m < a.len() && a[m] == b.last();
        if k < b.len() - 1 {
            assert(before(b[k], b[b.len() - 1]));
            if m < a.len() - 1 {
                assert(before(a[m], a[a.len() - 1]));
                lemma_before_transitive(a[m], a.last(), b.last());
            }
            lemma_before_irreflexive(b.last());
        }
        assert(a.last() == b.last());
        let x = a.drop_last();
        let y = b.drop_last();
        assert(strictly_sorted(x)) by {
            assert forall|i: int, j: int| 0 <= i < j < x.len() implies #[trigger] before(
                x[i],
                x[j],
            ) by {
                assert(before(a[i], a[j]));
            }
        }
        assert(strictly_sorted(y)) by {
            assert forall|i: int, j: int| 0 <= i < j < y.len() implies #[trigger] before(
                y[i],
                y[j],
            ) by {
                assert(before(b[i], b[j]));
            }
        }
        assert forall|t: Seq<char>| x.contains(t) <==> y.contains(t) by {
            if x.contains(t) {
                let i = choose|i: int| 0 <= i < x.len() && x[i] == t;
                assert(before(a[i], a[a.len() - 1]));
                lemma_before_irreflexive(t);
                assert(a.contains(a[i]));
                assert(b.contains(t));
                let j = choose|j: int| 0 <= j < b.len() && b[j] == t;
                assert(y[j] == t);
            }
            if y.contains(t) {
                let i = choose|i: int| 0 <= i < y.len() && y[i] == t;
                assert(before(b[i], b[b.len() - 1]));
                lemma_before_irreflexive(t);
                assert(b.contains(b[i]));
                assert(a.contains(t));
                let j = choose|j: int| 0 <= j < a.len() && a[j] == t;
                assert(x[j] == t);
            }
        }
        law_sorted_list_is_unique(x, y);
        assert(a == x.push(a.last()));
        assert(b == y.push(b.last()));
    }
}

/// A set of names, kept in order.
pub struct NameSet {
    names: Vec<String>,
}

impl View for NameSet {
    type V = Seq<Seq<char>>;

    closed spec fn view(&self) -> Seq<Seq<char>> {
        texts(self.names@)
    }
}

impl NameSet {
    /// The names are in strictly rising order.
    pub open spec fn wf(&self) -> bool {
        strictly_sorted(self@)
    }

    /// The set without names.
    pub fn new() -> (r: NameSet)
        ensures
            r.wf(),
            r@ == Seq::<Seq<char>>::empty(),
    {
        NameSet { names: Vec::new() }
    }

    /// Adds a name and says whether it was new.
    pub fn insert(&mut self, name: String) -> (added: bool)
        requires
            old(self).wf(),
        ensures
            final(self).wf(),
            added == !old(self)@.contains(name@),
            forall|t: Seq<char>|
                final(self)@.contains(t) <==> old(self)@.contains(t) || t == name@,
    {
        let n = self.names.len();
        let mut i: usize = 0;
        let ghost was = self@;
        while i < n
            invariant
                self@ == was,
                was == old(self)@,
                was == texts(self.names@),
                n == self.names@.len(),
                i <= n,
                strictly_sorted(was),
                forall|k: int| 0 <= k < i ==> before(#[trigger] was[k], name@),
            ensures
                i <= n,
                i < n ==> before(name@, was[i as int]),
            decreases n - i,
        {
            match order_of(self.names[i].as_str(), name.as_str()) {
                Order::Before => {
                    i += 1;
                },
                Order::Same => {
                    assert(was[i as int] == name@);
                    assert(was.contains(was[i as int]));
                    return false;
                },
                Order::After => {
                    assert(was[i as int] == self.names@[i as int]@);
                    break ;
                },
            }
        }
        let ghost text = name@;
        proof {
            if was.contains(text) {
                let k = choose|k: int| 0 <= k < was.len() && was[k] == text;
                lemma_before_irreflexive(text);
                if k > i {
                    assert(before(was[i as int], was[k]));
                    lemma_before_transitive(text, was[i as int], text);
                }
            }
        }
        self.names.insert(i, name);
        proof {
            let now = self@;
            assert(now == was.insert(i as int, text));
            assert forall|a: int, b: int| 0 <= a < b < now.len() implies #[trigger] before(
                now[a],
                now[b],
            ) by {
                let p = if a < i { a } else { a - 1 };
                let q = if b < i { b } else { b - 1 };
                if a == i {
                    if q > i {
                        assert(before(was[i as int], was[q]));
                        lemma_before_transitive(text, was[i as int], was[q]);
                    }
                } else if b != i {
                    assert(before(was[p], was[q]));
                }
            }
            assert forall|t: Seq<char>| now.contains(t) <==> was.contains(t) || t == text by {
                if was.contains(t) {
                    let k = choose|k: int| 0 <= k < was.len() && was[k] == t;
                    assert(now[if k < i { k } else { k + 1 }] == t);
                }
                if now.contains(t) {
                    let k = choose|k: int| 0 <= k < now.len() && now[k] == t;
                    if k != i {
                        assert(was[if k < i { k } else { k - 1 }] == t);
                    }
                }
                assert(now[i as int] == text);
            }
        }
        true
    }

    /// The names, in order.
    pub fn into_names(self) -> (r: Vec<String>)
        ensures
            texts(r@) == self@,
    {
        self.names
    }
}

/// Names are ordered by the first character in which they differ, however late
/// it comes, and a name stands before its longer continuations.
pub proof fn law_names_are_ordered_by_their_first_difference(
    common: Seq<char>,
    x: char,
    y: char,
    a: Seq<char>,
    b: Seq<char>,
)
    ensures
        x != y ==> (before(common + seq![x] + a, common + seq![y] + b) <==> x < y),
        before(common, common + b) <==> b.len() > 0,
        !before(common + b, common),
    decreases common.len(),
{
    if common.len() == 0 {
        assert(common + b == b);
        assert((common + seq![x] + a)[0] == x);
        assert((common + seq![y] + b)[0] == y);
    } else {
        let rest = common.drop_first();
        law_names_are_ordered_by_their_first_difference(rest, x, y, a, b);
        let p = common + seq![x] + a;
        let q = common + seq![y] + b;
        assert(p[0] == common[0] && q[0] == common[0]);
        assert(p.drop_first() == rest + seq![x] + a);
        assert(q.drop_first() == rest + seq![y] + b);
        assert((common + b)[0] == common[0]);
        assert((common + b).drop_first() == rest + b);
    }
}

} // verus!
