//! The environment variables of a process that the server starts.
use crate::limits;
use crate::names;
use crate::render;
use crate::text;
use vstd::prelude::*;
use vstd::slice::slice_to_vec;
use vstd::string::*;
use vstd::utf8::encode_utf8;

verus! {

/// How many variables a request may set.
pub const MAX_ENV_VARIABLES: usize = 128;

/// How many bytes the name of a variable may have.
pub const MAX_ENV_NAME_BYTES: usize = 256;

/// A variable that a request sets.
#[derive(Debug)]
pub struct Variable {
    pub name: String,
    pub value: String,
}

/// A variable as plain texts.
pub struct Setting {
    pub name: Seq<char>,
    pub value: Seq<char>,
}

impl View for Variable {
    type V = Setting;

    open spec fn view(&self) -> Setting {
        Setting { name: self.name@, value: self.value@ }
    }
}

/// The variables that a request sets, each name once, in the order of the
/// names.
#[derive(Debug)]
pub struct Environment {
    variables: Vec<Variable>,
}

/// The settings of a list of variables.
pub open spec fn settings(list: Seq<Variable>) -> Seq<Setting> {
    list.map_values(|v: Variable| v@)
}

impl View for Environment {
    type V = Seq<Setting>;

    closed spec fn view(&self) -> Seq<Setting> {
        settings(self.variables@)
    }
}

/// The names stand in strictly rising order.
pub open spec fn sorted_settings(list: Seq<Setting>) -> bool {
    forall|i: int, j: int|
        0 <= i < j < list.len() ==> #[trigger] names::before(list[i].name, list[j].name)
}

/// The list sets `name` to `value`.
pub open spec fn sets(list: Seq<Setting>, name: Seq<char>, value: Seq<char>) -> bool {
    list.contains(Setting { name, value })
}

impl Environment {
    /// No name occurs twice, and the names are in order.
    pub open spec fn wf(&self) -> bool {
        sorted_settings(self@)
    }

    /// No variables.
    pub fn new() -> (r: Environment)
        ensures
            r.wf(),
            r@ == Seq::<Setting>::empty(),
    {
        let r = Environment { variables: Vec::new() };
        assert(r@ == Seq::<Setting>::empty());
        r
    }

    /// How many variables are set.
    pub fn len(&self) -> (r: usize)
        ensures
            r == self@.len(),
    {
        self.variables.len()
    }

    /// The variable at a place in the order of the names.
    pub fn get(&self, i: usize) -> (r: &Variable)
        requires
            i < self@.len(),
        ensures
            r@ == self@[i as int],
    {
        &self.variables[i]
    }

    /// Sets a variable, in place of what its name was set to.
    pub fn set(&mut self, name: String, value: String)
        requires
            old(self).wf(),
        ensures
            final(self).wf(),
            forall|n: Seq<char>, v: Seq<char>| #[trigger]
                sets(final(self)@, n, v) <==> if n == name@ {
                    v == value@
                } else {
                    sets(old(self)@, n, v)
                },
    {
        let n = self.variables.len();
        let mut i: usize = 0;
        let ghost was = self@;
        let ghost new = Setting { name: name@, value: value@ };
        while i < n
            invariant
                self@ == was,
                was == old(self)@,
                was == settings(self.variables@),
                n == self.variables@.len(),
                i <= n,
                new == (Setting { name: name@, value: value@ }),
                sorted_settings(was),
                forall|k: int| 0 <= k < i ==> names::before((#[trigger] was[k]).name, new.name),
            ensures
                i <= n,
                i < n ==> names::before(new.name, was[i as int].name) || new.name
                    == was[i as int].name,
            decreases n - i,
        {
            assert(was[i as int] == self.variables@[i as int]@);
            match names::order_of(self.variables[i].name.as_str(), name.as_str()) {
                names::Order::Before => {
                    i += 1;
                },
                _ => {
                    break ;
                },
            }
        }
        let mut same = false;
        if i < n {
            assert(was[i as int] == self.variables@[i as int]@);
            same = text::same_text(self.variables[i].name.as_str(), name.as_str());
        }
        if same {
            self.variables.set(i, Variable { name, value });
            proof {
                let now = self@;
                assert(now == was.update(i as int, new));
                lemma_settings_updated(was, now, i as int, new);
            }
        } else {
            self.variables.insert(i, Variable { name, value });
            proof {
                let now = self@;
                assert(now == was.insert(i as int, new));
                lemma_settings_inserted(was, now, i as int, new);
            }
        }
    }
}

proof fn lemma_settings_updated(was: Seq<Setting>, now: Seq<Setting>, i: int, new: Setting)
    requires
        sorted_settings(was),
        0 <= i < was.len(),
        was[i].name == new.name,
        now == was.update(i, new),
    ensures
        sorted_settings(now),
        forall|n: Seq<char>, v: Seq<char>| #[trigger]
            sets(now, n, v) <==> if n == new.name {
                v == new.value
            } else {
                sets(was, n, v)
            },
{
    assert forall|a: int, b: int| 0 <= a < b < now.len() implies #[trigger] names::before(
        now[a].name,
        now[b].name,
    ) by {
        assert(names::before(was[a].name, was[b].name));
    }
    assert forall|n: Seq<char>, v: Seq<char>| #[trigger]
        sets(now, n, v) <==> if n == new.name {
            v == new.value
        } else {
            sets(was, n, v)
        } by {
        let s = Setting { name: n, value: v };
        if n == new.name {
            if now.contains(s) {
                let k = choose|k: int| 0 <= k < now.len() && now[k] == s;
                names::lemma_before_irreflexive(n);
                if k < i {
                    assert(names::before(now[k].name, now[i].name));
                } else if i < k {
                    assert(names::before(now[i].name, now[k].name));
                }
            }
            assert(now[i] == new);
        } else {
            if now.contains(s) {
                let k = choose|k: int| 0 <= k < now.len() && now[k] == s;
                assert(was[k] == s);
            }
            if was.contains(s) {
                let k = choose|k: int| 0 <= k < was.len() && was[k] == s;
                assert(now[k] == s);
            }
        }
    }
}

proof fn lemma_settings_inserted(was: Seq<Setting>, now: Seq<Setting>, i: int, new: Setting)
    requires
        sorted_settings(was),
        0 <= i <= was.len(),
        forall|k: int| 0 <= k < i ==> names::before((#[trigger] was[k]).name, new.name),
        i < was.len() ==> names::before(new.name, was[i].name),
        now == was.insert(i, new),
    ensures
        sorted_settings(now),
        forall|n: Seq<char>, v: Seq<char>| #[trigger]
            sets(now, n, v) <==> if n == new.name {
                v == new.value
            } else {
                sets(was, n, v)
            },
{
    assert forall|a: int, b: int| 0 <= a < b < now.len() implies #[trigger] names::before(
        now[a].name,
        now[b].name,
    ) by {
        let p = if a < i { a } else { a - 1 };
        let q = if b < i { b } else { b - 1 };
        if a == i {
            if q > i {
                assert(names::before(was[i].name, was[q].name));
                names::lemma_before_transitive(new.name, was[i].name, was[q].name);
            }
        } else if b != i {
            assert(names::before(was[p].name, was[q].name));
        } else {
            assert(now[a] == was[a]);
        }
    }
    assert forall|n: Seq<char>, v: Seq<char>| #[trigger]
        sets(now, n, v) <==> if n == new.name {
            v == new.value
        } else {
            sets(was, n, v)
        } by {
        let s = Setting { name: n, value: v };
        if n == new.name {
            if now.contains(s) {
                let k = choose|k: int| 0 <= k < now.len() && now[k] == s;
                names::lemma_before_irreflexive(n);
                if k < i {
                    assert(names::before(now[k].name, now[i].name));
                } else if i < k {
                    assert(names::before(now[i].name, now[k].name));
                }
            }
            assert(now[i] == new);
        } else {
            if now.contains(s) {
                let k = choose|k: int| 0 <= k < now.len() && now[k] == s;
                assert(was[if k < i { k } else { k - 1 }] == s);
            }
            if was.contains(s) {
                let k = choose|k: int| 0 <= k < was.len() && was[k] == s;
                assert(now[if k < i { k } else { k + 1 }] == s);
            }
        }
    }
}

// ---------------------------------------------------------------------------
// What a request may set
// ---------------------------------------------------------------------------

/// A character of the name of a variable.
pub open spec fn is_name_char(c: char) -> bool {
    render::is_alphanumeric(c) || c == '_'
}

/// The name of a variable: letters, digits and underscores, no digit first.
pub open spec fn is_variable_name(name: Seq<char>) -> bool {
    &&& name.len() != 0
    &&& limits::utf8_len(name) <= MAX_ENV_NAME_BYTES
    &&& forall|i: int| 0 <= i < name.len() ==> is_name_char(#[trigger] name[i])
    &&& !('0' <= name[0] <= '9')
}

/// What is wrong with a variable, if anything is.
pub open spec fn setting_problem(s: Setting) -> Option<Seq<char>> {
    if !is_variable_name(s.name) {
        Some("invalid environment variable name `"@ + s.name + "`"@)
    } else if !limits::is_bounded(s.value, limits::MAX_ARG_BYTES as nat) {
        Some("invalid value for environment variable `"@ + s.name + "`"@)
    } else {
        None
    }
}

/// The first thing that is wrong with a list of variables.
pub open spec fn first_problem(list: Seq<Setting>) -> Option<Seq<char>>
    decreases list.len(),
{
    if list.len() == 0 {
        None
    } else if setting_problem(list[0]) is Some {
        setting_problem(list[0])
    } else {
        first_problem(list.drop_first())
    }
}

/// The check of the variables that a request sets.
pub open spec fn environment_check(list: Seq<Setting>) -> Result<(), Seq<char>> {
    if list.len() > MAX_ENV_VARIABLES {
        Err("at most 128 explicit environment variables are allowed"@)
    } else {
        match first_problem(list) {
            Some(e) => Err(e),
            None => Ok(()),
        }
    }
}

fn variable_name(name: &str) -> (r: bool)
    ensures
        r == is_variable_name(name@),
{
    let chars = text::chars_of(name);
    let n = chars.len();
    if n == 0 || limits::byte_len(name) > MAX_ENV_NAME_BYTES {
        return false;
    }
    for i in 0..n
        invariant
            n == chars@.len(),
            chars@ == name@,
            forall|j: int| 0 <= j < i ==> is_name_char(#[trigger] chars@[j]),
    {
        if !(render::alphanumeric(chars[i]) || chars[i] == '_') {
            assert(!is_name_char(name@[i as int]));
            return false;
        }
    }
    !('0' <= chars[0] && chars[0] <= '9')
}

/// Checks the variables that a request sets: not too many, and each with a
/// proper name and a bounded value.
pub fn validate_env(env: &Environment) -> (r: Result<(), String>)
    ensures
        limits::told(r) == environment_check(env@),
{
    let n = env.len();
    if n > MAX_ENV_VARIABLES {
        return Err("at most 128 explicit environment variables are allowed".to_owned());
    }
    assert(env@.skip(0) == env@);
    for i in 0..n
        invariant
            n == env@.len(),
            n <= MAX_ENV_VARIABLES,
            first_problem(env@) == first_problem(env@.skip(i as int)),
    {
        let variable = env.get(i);
        assert(env@.skip(i as int).drop_first() == env@.skip(i + 1));
        if !variable_name(variable.name.as_str()) {
            let mut message = "invalid environment variable name `".to_owned();
            message.append(variable.name.as_str());
            message.append("`");
            return Err(message);
        }
        if !limits::bounded(variable.value.as_str(), limits::MAX_ARG_BYTES) {
            let mut message = "invalid value for environment variable `".to_owned();
            message.append(variable.name.as_str());
            message.append("`");
            return Err(message);
        }
    }
    Ok(())
}

/// The variables of a request pass if there are few enough of them and each
/// has a proper name and a bounded value; otherwise they are refused.
pub proof fn law_environment_check(list: Seq<Setting>)
    ensures
        environment_check(list) is Ok <==> {
            &&& list.len() <= MAX_ENV_VARIABLES
            &&& forall|k: int|
                0 <= k < list.len() ==> is_variable_name((#[trigger] list[k]).name)
                    && limits::is_bounded(list[k].value, limits::MAX_ARG_BYTES as nat)
        },
{
    lemma_first_problem(list);
}

proof fn lemma_first_problem(list: Seq<Setting>)
    ensures
        first_problem(list) is None <==> forall|k: int|
            0 <= k < list.len() ==> is_variable_name((#[trigger] list[k]).name)
                && limits::is_bounded(list[k].value, limits::MAX_ARG_BYTES as nat),
    decreases list.len(),
{
    if list.len() != 0 {
        let rest = list.drop_first();
        lemma_first_problem(rest);
        assert forall|k: int| 0 < k < list.len() implies #[trigger] list[k] == rest[k - 1] by {}
        assert forall|k: int| 0 <= k < rest.len() implies #[trigger] rest[k] == list[k + 1] by {}
        assert(setting_problem(list[0]) is None <==> is_variable_name(list[0].name)
            && limits::is_bounded(list[0].value, limits::MAX_ARG_BYTES as nat));
    }
}

// ---------------------------------------------------------------------------
// What a process gets
// ---------------------------------------------------------------------------

/// A variable of a process: its name, and its value as bytes.
#[derive(Debug)]
pub struct Assignment {
    pub name: String,
    pub value: Vec<u8>,
}

/// An assignment as plain values.
pub struct Binding {
    pub name: Seq<char>,
    pub value: Seq<u8>,
}

impl View for Assignment {
    type V = Binding;

    open spec fn view(&self) -> Binding {
        Binding { name: self.name@, value: self.value@ }
    }
}

/// The bindings of a list of assignments.
pub open spec fn bindings(list: Seq<Assignment>) -> Seq<Binding> {
    list.map_values(|a: Assignment| a@)
}

/// The variables that a process inherits by name.
pub open spec fn base_env_allowlist() -> Seq<Seq<char>> {
    seq![
        "PATH"@,
        "HOME"@,
        "USER"@,
        "LOGNAME"@,
        "SHELL"@,
        "TMPDIR"@,
        "TEMP"@,
        "TMP"@,
        "LANG"@,
        "LC_ALL"@,
        "LC_CTYPE"@,
        "TERM"@,
        "COLORTERM"@,
        "CI"@,
        "CARGO_HOME"@,
        "RUSTUP_HOME"@,
        "RUSTC_WRAPPER"@,
        "RUSTFLAGS"@,
        "RUSTDOCFLAGS"@,
        "SCCACHE_DIR"@,
        "GOPATH"@,
        "GOROOT"@,
        "GOMODCACHE"@,
        "GOCACHE"@,
        "GOENV"@,
        "GOFLAGS"@,
        "PNPM_HOME"@,
        "NPM_CONFIG_USERCONFIG"@,
        "NVM_DIR"@,
        "VOLTA_HOME"@,
        "COREPACK_HOME"@,
        "BUN_INSTALL"@,
        "CC"@,
        "CXX"@,
        "AR"@,
        "CFLAGS"@,
        "CXXFLAGS"@,
        "LDFLAGS"@,
        "PKG_CONFIG_PATH"@,
        "CPATH"@,
        "LIBRARY_PATH"@,
        "SSL_CERT_FILE"@,
        "SSL_CERT_DIR"@,
        "HTTP_PROXY"@,
        "HTTPS_PROXY"@,
        "NO_PROXY"@,
        "http_proxy"@,
        "https_proxy"@,
        "no_proxy"@,
        "SSH_AUTH_SOCK"@,
    ]
}

/// The variables that a process inherits by how their name starts: those of
/// the locale.
pub open spec fn is_locale_name(name: Seq<char>) -> bool {
    text::starts_with(name, "LC_"@)
}

/// What a name is bound to: its first binding.
pub open spec fn lookup(list: Seq<Binding>, name: Seq<char>) -> Option<Seq<u8>>
    decreases list.len(),
{
    if list.len() == 0 {
        None
    } else if list[0].name == name {
        Some(list[0].value)
    } else {
        lookup(list.drop_first(), name)
    }
}

/// The bindings of those of the given names that have one.
pub open spec fn bound(wanted: Seq<Seq<char>>, list: Seq<Binding>) -> Seq<Binding>
    decreases wanted.len(),
{
    if wanted.len() == 0 {
        seq![]
    } else {
        let name = wanted.last();
        match lookup(list, name) {
            Some(value) => bound(wanted.drop_last(), list).push(Binding { name, value }),
            None => bound(wanted.drop_last(), list),
        }
    }
}

/// A variable of a request, as a process gets it.
pub open spec fn setting_binding(s: Setting) -> Binding {
    Binding { name: s.name, value: encode_utf8(s.value) }
}

/// The variables that every process gets, for output that tools can read.
pub open spec fn fixed_bindings() -> Seq<Binding> {
    seq![
        Binding { name: "PAGER"@, value: encode_utf8("cat"@) },
        Binding { name: "GIT_PAGER"@, value: encode_utf8("cat"@) },
        Binding { name: "NO_COLOR"@, value: encode_utf8("1"@) },
    ]
}

/// The assignments that make up the environment of a process, in order: what
/// it inherits, what the request sets, and what is fixed.
pub open spec fn child_bindings(inherited: Seq<Binding>, explicit: Seq<Setting>) -> Seq<Binding> {
    bound(base_env_allowlist(), inherited) + inherited.filter(|b: Binding| is_locale_name(b.name))
        + explicit.map_values(|s: Setting| setting_binding(s)) + fixed_bindings()
}

fn assignment(name: &str, value: &str) -> (r: Assignment)
    ensures
        r@ == setting_binding(Setting { name: name@, value: value@ }),
{
    Assignment { name: name.to_owned(), value: slice_to_vec(value.as_bytes()) }
}

fn find_assignment<'a>(list: &'a Vec<Assignment>, name: &str) -> (r: Option<&'a Assignment>)
    ensures
        match r {
            Some(a) => a.name@ == name@ && lookup(bindings(list@), name@) == Some(a.value@),
            None => lookup(bindings(list@), name@) is None,
        },
{
    let ghost all = bindings(list@);
    let n = list.len();
    assert(all.skip(0) == all);
    for i in 0..n
        invariant
            n == list@.len(),
            all == bindings(list@),
            lookup(all, name@) == lookup(all.skip(i as int), name@),
    {
        assert(all.skip(i as int)[0] == list@[i as int]@);
        if text::same_text(list[i].name.as_str(), name) {
            return Some(&list[i]);
        }
        assert(all.skip(i as int).drop_first() == all.skip(i + 1));
    }
    assert(all.skip(n as int).len() == 0);
    None
}

fn push_inherited_by_name(r: &mut Vec<Assignment>, inherited: &Vec<Assignment>)
    ensures
        bindings(final(r)@) == bindings(old(r)@) + bound(
            base_env_allowlist(),
            bindings(inherited@),
        ),
{
    let wanted: [&str; 50] = [
        "PATH",
        "HOME",
        "USER",
        "LOGNAME",
        "SHELL",
        "TMPDIR",
        "TEMP",
        "TMP",
        "LANG",
        "LC_ALL",
        "LC_CTYPE",
        "TERM",
        "COLORTERM",
        "CI",
        "CARGO_HOME",
        "RUSTUP_HOME",
        "RUSTC_WRAPPER",
        "RUSTFLAGS",
        "RUSTDOCFLAGS",
        "SCCACHE_DIR",
        "GOPATH",
        "GOROOT",
        "GOMODCACHE",
        "GOCACHE",
        "GOENV",
        "GOFLAGS",
        "PNPM_HOME",
        "NPM_CONFIG_USERCONFIG",
        "NVM_DIR",
        "VOLTA_HOME",
        "COREPACK_HOME",
        "BUN_INSTALL",
        "CC",
        "CXX",
        "AR",
        "CFLAGS",
        "CXXFLAGS",
        "LDFLAGS",
        "PKG_CONFIG_PATH",
        "CPATH",
        "LIBRARY_PATH",
        "SSL_CERT_FILE",
        "SSL_CERT_DIR",
        "HTTP_PROXY",
        "HTTPS_PROXY",
        "NO_PROXY",
        "http_proxy",
        "https_proxy",
        "no_proxy",
        "SSH_AUTH_SOCK",
    ];
    let n = wanted.len();
    let ghost list = names::str_texts(wanted@);
    let ghost all = bindings(inherited@);
    proof {
        assert(list == base_env_allowlist());
        assert(list.take(0) == Seq::<Seq<char>>::empty());
        assert(bindings(r@) == bindings(old(r)@) + bound(list.take(0), all));
    }
    for i in 0..n
        invariant
            n == wanted@.len(),
            list == names::str_texts(wanted@),
            all == bindings(inherited@),
            bindings(r@) == bindings(old(r)@) + bound(list.take(i as int), all),
    {
        let name: &str = wanted[i];
        let ghost was = r@;
        proof {
            assert(list[i as int] == name@);
            assert(list.take(i + 1).drop_last() == list.take(i as int));
            assert(list.take(i + 1).last() == name@);
        }
        if let Some(found) = find_assignment(inherited, name) {
            r.push(
                Assignment { name: name.to_owned(), value: slice_to_vec(found.value.as_slice()) },
            );
            assert(bindings(r@) == bindings(was).push(
                Binding { name: name@, value: found.value@ },
            ));
        }
        assert(bindings(r@) == bindings(old(r)@) + bound(list.take(i + 1), all));
    }
    assert(list.take(n as int) == list);
}

fn push_locale(r: &mut Vec<Assignment>, inherited: &Vec<Assignment>)
    ensures
        bindings(final(r)@) == bindings(old(r)@) + bindings(inherited@).filter(
            |b: Binding| is_locale_name(b.name),
        ),
{
    let prefix = text::chars_of("LC_");
    let ghost all = bindings(inherited@);
    let ghost kept = |b: Binding| is_locale_name(b.name);
    let n = inherited.len();
    proof {
        assert(all.take(0) == Seq::<Binding>::empty());
        reveal(Seq::filter);
        assert(bindings(r@) == bindings(old(r)@) + all.take(0).filter(kept));
    }
    for i in 0..n
        invariant
            n == inherited@.len(),
            prefix@ == "LC_"@,
            all == bindings(inherited@),
            kept == (|b: Binding| is_locale_name(b.name)),
            bindings(r@) == bindings(old(r)@) + all.take(i as int).filter(kept),
    {
        let ghost was = r@;
        proof {
            assert(all[i as int] == inherited@[i as int]@);
            assert(all.take(i + 1) == all.take(i as int).push(all[i as int]));
            text::lemma_filter_push(all.take(i as int), all[i as int], kept);
        }
        let name = text::chars_of(inherited[i].name.as_str());
        if text::has_prefix(name.as_slice(), prefix.as_slice()) {
            r.push(
                Assignment {
                    name: inherited[i].name.clone(),
                    value: slice_to_vec(inherited[i].value.as_slice()),
                },
            );
            assert(bindings(r@) == bindings(was).push(all[i as int]));
        }
        assert(bindings(r@) == bindings(old(r)@) + all.take(i + 1).filter(kept));
    }
    assert(all.take(n as int) == all);
}

/// The assignments that make up the environment of a process, in the order in
/// which they are made; a later one replaces an earlier one of the same name.
pub fn child_environment(inherited: &Vec<Assignment>, explicit: &Environment) -> (r: Vec<
    Assignment,
>)
    ensures
        bindings(r@) == child_bindings(bindings(inherited@), explicit@),
{
    let mut r: Vec<Assignment> = Vec::new();
    push_inherited_by_name(&mut r, inherited);
    push_locale(&mut r, inherited);
    let n = explicit.len();
    let ghost start = bindings(r@);
    let ghost set = explicit@.map_values(|s: Setting| setting_binding(s));
    assert(start == start + set.take(0));
    for i in 0..n
        invariant
            n == explicit@.len(),
            set == explicit@.map_values(|s: Setting| setting_binding(s)),
            bindings(r@) == start + set.take(i as int),
    {
        let ghost was = r@;
        let variable = explicit.get(i);
        r.push(assignment(variable.name.as_str(), variable.value.as_str()));
        assert(bindings(r@) == bindings(was).push(set[i as int]));
        assert(bindings(r@) == start + set.take(i + 1));
    }
    assert(set.take(n as int) == set);
    r.push(assignment("PAGER", "cat"));
    r.push(assignment("GIT_PAGER", "cat"));
    r.push(assignment("NO_COLOR", "1"));
    assert(bindings(r@) == child_bindings(bindings(inherited@), explicit@));
    r
}

// ---------------------------------------------------------------------------
// What holds of every environment
// ---------------------------------------------------------------------------

/// The environment that assignments make, one after the other.
pub open spec fn effective(list: Seq<Binding>) -> Map<Seq<char>, Seq<u8>>
    decreases list.len(),
{
    if list.len() == 0 {
        Map::empty()
    } else {
        effective(list.drop_last()).insert(list.last().name, list.last().value)
    }
}

proof fn lemma_effective_push(list: Seq<Binding>, b: Binding)
    ensures
        effective(list.push(b)) == effective(list).insert(b.name, b.value),
{
    assert(list.push(b).drop_last() == list);
}

/// A name has a value if some assignment is to it.
proof fn lemma_effective_has(list: Seq<Binding>, name: Seq<char>)
    ensures
        effective(list).contains_key(name) <==> exists|k: int|
            0 <= k < list.len() && (#[trigger] list[k]).name == name,
    decreases list.len(),
{
    if list.len() != 0 {
        let rest = list.drop_last();
        lemma_effective_has(rest, name);
        assert(list[list.len() - 1] == list.last());
        if effective(rest).contains_key(name) {
            let k = choose|k: int| 0 <= k < rest.len() && (#[trigger] rest[k]).name == name;
            assert(list[k].name == name);
        }
        if exists|k: int| 0 <= k < list.len() && (#[trigger] list[k]).name == name {
            let k = choose|k: int| 0 <= k < list.len() && (#[trigger] list[k]).name == name;
            if k < rest.len() {
                assert(rest[k].name == name);
            }
        }
    }
}

/// A name keeps its value over assignments to other names.
proof fn lemma_effective_append(a: Seq<Binding>, b: Seq<Binding>, name: Seq<char>)
    ensures
        effective(b).contains_key(name) ==> effective(a + b).contains_key(name) && effective(
            a + b,
        )[name] == effective(b)[name],
        !effective(b).contains_key(name) ==> effective(a + b).contains_key(name) == effective(
            a,
        ).contains_key(name) && (effective(a).contains_key(name) ==> effective(a + b)[name]
            == effective(a)[name]),
    decreases b.len(),
{
    if b.len() == 0 {
        assert(a + b == a);
    } else {
        lemma_effective_append(a, b.drop_last(), name);
        assert((a + b).drop_last() == a + b.drop_last());
        assert((a + b).last() == b.last());
    }
}

proof fn lemma_fixed()
    ensures
        effective(fixed_bindings()).contains_key("PAGER"@),
        effective(fixed_bindings())["PAGER"@] == encode_utf8("cat"@),
        effective(fixed_bindings()).contains_key("GIT_PAGER"@),
        effective(fixed_bindings())["GIT_PAGER"@] == encode_utf8("cat"@),
        effective(fixed_bindings()).contains_key("NO_COLOR"@),
        effective(fixed_bindings())["NO_COLOR"@] == encode_utf8("1"@),
        forall|n: Seq<char>| #[trigger]
            effective(fixed_bindings()).contains_key(n) ==> n == "PAGER"@ || n == "GIT_PAGER"@
                || n == "NO_COLOR"@,
{
    reveal_strlit("PAGER");
    reveal_strlit("GIT_PAGER");
    reveal_strlit("NO_COLOR");
    assert("PAGER"@.len() == 5 && "GIT_PAGER"@.len() == 9 && "NO_COLOR"@.len() == 8);
    let none: Seq<Binding> = seq![];
    let f = fixed_bindings();
    lemma_effective_push(none, f[0]);
    lemma_effective_push(none.push(f[0]), f[1]);
    lemma_effective_push(none.push(f[0]).push(f[1]), f[2]);
    assert(none.push(f[0]).push(f[1]).push(f[2]) == f);
}

/// Whatever the server inherits and a request sets, a process prints without
/// pagers and colours.
pub proof fn law_output_is_plain(inherited: Seq<Binding>, explicit: Seq<Setting>)
    ensures
        ({
            let env = effective(child_bindings(inherited, explicit));
            &&& env.contains_key("PAGER"@) && env["PAGER"@] == encode_utf8("cat"@)
            &&& env.contains_key("GIT_PAGER"@) && env["GIT_PAGER"@] == encode_utf8("cat"@)
            &&& env.contains_key("NO_COLOR"@) && env["NO_COLOR"@] == encode_utf8("1"@)
        }),
{
    lemma_fixed();
    let start = bound(base_env_allowlist(), inherited) + inherited.filter(
        |b: Binding| is_locale_name(b.name),
    ) + explicit.map_values(|s: Setting| setting_binding(s));
    lemma_effective_append(start, fixed_bindings(), "PAGER"@);
    lemma_effective_append(start, fixed_bindings(), "GIT_PAGER"@);
    lemma_effective_append(start, fixed_bindings(), "NO_COLOR"@);
}

/// A request sets `name`.
pub open spec fn is_set(explicit: Seq<Setting>, name: Seq<char>) -> bool {
    exists|k: int| 0 <= k < explicit.len() && (#[trigger] explicit[k]).name == name
}

/// One of the variables that every process gets.
pub open spec fn is_fixed_name(name: Seq<char>) -> bool {
    name == "PAGER"@ || name == "GIT_PAGER"@ || name == "NO_COLOR"@
}

/// The server has a variable of that name.
pub open spec fn is_inherited(inherited: Seq<Binding>, name: Seq<char>) -> bool {
    exists|k: int| 0 <= k < inherited.len() && (#[trigger] inherited[k]).name == name
}

proof fn lemma_lookup(list: Seq<Binding>, name: Seq<char>)
    ensures
        lookup(list, name) is Some <==> is_inherited(list, name),
        lookup(list, name) matches Some(v) ==> list.contains(Binding { name, value: v }),
    decreases list.len(),
{
    if list.len() != 0 {
        let rest = list.drop_first();
        lemma_lookup(rest, name);
        if list[0].name == name {
            assert(list.contains(list[0]));
            assert(list[0] == (Binding { name, value: list[0].value }));
        } else {
            if is_inherited(rest, name) {
                let k = choose|k: int| 0 <= k < rest.len() && (#[trigger] rest[k]).name == name;
                assert(list[k + 1].name == name);
            }
            if is_inherited(list, name) {
                let k = choose|k: int| 0 <= k < list.len() && (#[trigger] list[k]).name == name;
                assert(rest[k - 1].name == name);
            }
            if let Some(v) = lookup(rest, name) {
                let b = Binding { name, value: v };
                let k = choose|k: int| 0 <= k < rest.len() && rest[k] == b;
                assert(list[k + 1] == b);
            }
        }
    }
}

proof fn lemma_bound(wanted: Seq<Seq<char>>, list: Seq<Binding>)
    ensures
        forall|k: int|
            0 <= k < bound(wanted, list).len() ==> wanted.contains(
                (#[trigger] bound(wanted, list)[k]).name,
            ) && is_inherited(list, bound(wanted, list)[k].name),
    decreases wanted.len(),
{
    if wanted.len() != 0 {
        let rest = wanted.drop_last();
        let name = wanted.last();
        lemma_bound(rest, list);
        lemma_lookup(list, name);
        let b = bound(wanted, list);
        assert(wanted == rest.push(name));
        assert forall|k: int| 0 <= k < b.len() implies wanted.contains((#[trigger] b[k]).name)
            && is_inherited(list, b[k].name) by {
            text::lemma_contains_push(rest, name, b[k].name);
            if k < bound(rest, list).len() {
                assert(b[k] == bound(rest, list)[k]);
            }
        }
    }
}

/// A process gets no variable but those that are fixed, those that the
/// request sets, and those of the server's own that are on the list or belong
/// to the locale.
pub proof fn law_environment_is_restricted(
    inherited: Seq<Binding>,
    explicit: Seq<Setting>,
    name: Seq<char>,
)
    ensures
        effective(child_bindings(inherited, explicit)).contains_key(name) ==> {
            ||| is_fixed_name(name)
            ||| is_set(explicit, name)
            ||| is_inherited(inherited, name) && (base_env_allowlist().contains(name)
                || is_locale_name(name))
        },
{
    let p = |b: Binding| is_locale_name(b.name);
    let listed = bound(base_env_allowlist(), inherited);
    let locale = inherited.filter(p);
    let set = explicit.map_values(|s: Setting| setting_binding(s));
    lemma_fixed();
    lemma_effective_append(listed + locale + set, fixed_bindings(), name);
    lemma_effective_append(listed + locale, set, name);
    lemma_effective_append(listed, locale, name);
    if effective(set).contains_key(name) {
        lemma_effective_has(set, name);
        let k = choose|k: int| 0 <= k < set.len() && (#[trigger] set[k]).name == name;
        assert(explicit[k].name == name);
    }
    if effective(locale).contains_key(name) {
        lemma_effective_has(locale, name);
        let k = choose|k: int| 0 <= k < locale.len() && (#[trigger] locale[k]).name == name;
        assert(locale.contains(locale[k]));
        text::lemma_filter_contains(inherited, p, locale[k]);
        let j = choose|j: int| 0 <= j < inherited.len() && inherited[j] == locale[k];
        assert(inherited[j].name == name);
    }
    if effective(listed).contains_key(name) {
        lemma_effective_has(listed, name);
        lemma_bound(base_env_allowlist(), inherited);
    }
}

/// What a request sets prevails over what is inherited, unless it is fixed.
pub proof fn law_request_overrides_inherited(
    inherited: Seq<Binding>,
    explicit: Seq<Setting>,
    s: Setting,
)
    requires
        sorted_settings(explicit),
        explicit.contains(s),
        !is_fixed_name(s.name),
    ensures
        effective(child_bindings(inherited, explicit)).contains_key(s.name),
        effective(child_bindings(inherited, explicit))[s.name] == encode_utf8(s.value),
{
    let start = bound(base_env_allowlist(), inherited) + inherited.filter(
        |b: Binding| is_locale_name(b.name),
    );
    let set = explicit.map_values(|t: Setting| setting_binding(t));
    lemma_fixed();
    lemma_effective_append(start + set, fixed_bindings(), s.name);
    lemma_effective_append(start, set, s.name);
    lemma_effective_set(explicit, s);
}

proof fn lemma_effective_set(explicit: Seq<Setting>, s: Setting)
    requires
        sorted_settings(explicit),
        explicit.contains(s),
    ensures
        ({
            let set = explicit.map_values(|t: Setting| setting_binding(t));
            effective(set).contains_key(s.name) && effective(set)[s.name] == encode_utf8(s.value)
        }),
    decreases explicit.len(),
{
    let set = explicit.map_values(|t: Setting| setting_binding(t));
    let rest = explicit.drop_last();
    let k = choose|k: int| 0 <= k < explicit.len() && explicit[k] == s;
    assert(set.drop_last() == rest.map_values(|t: Setting| setting_binding(t)));
    if k < rest.len() {
        assert(names::before(explicit[k].name, explicit[explicit.len() - 1].name));
        names::lemma_before_irreflexive(s.name);
        assert(rest[k] == s);
        assert forall|i: int, j: int| 0 <= i < j < rest.len() implies #[trigger] names::before(
            rest[i].name,
            rest[j].name,
        ) by {
            assert(names::before(explicit[i].name, explicit[j].name));
        }
        lemma_effective_set(rest, s);
    }
}

/// Each name is bound once.
pub open spec fn unique_names(list: Seq<Binding>) -> bool {
    forall|i: int, j: int|
        0 <= i < j < list.len() ==> (#[trigger] list[i]).name != (#[trigger] list[j]).name
}

/// A name has the value that all its assignments agree on.
proof fn lemma_effective_value(list: Seq<Binding>, name: Seq<char>, value: Seq<u8>)
    requires
        forall|k: int|
            0 <= k < list.len() && (#[trigger] list[k]).name == name ==> list[k].value == value,
    ensures
        effective(list).contains_key(name) ==> effective(list)[name] == value,
    decreases list.len(),
{
    if list.len() != 0 {
        let rest = list.drop_last();
        assert forall|k: int| 0 <= k < rest.len() && (#[trigger] rest[k]).name == name implies
            rest[k].value == value by {
            assert(list[k] == rest[k]);
        }
        lemma_effective_value(rest, name, value);
        assert(list[list.len() - 1] == list.last());
    }
}

proof fn lemma_bound_values(wanted: Seq<Seq<char>>, list: Seq<Binding>, name: Seq<char>)
    ensures
        forall|k: int|
            0 <= k < bound(wanted, list).len() && (#[trigger] bound(wanted, list)[k]).name == name
                ==> lookup(list, name) == Some(bound(wanted, list)[k].value),
        wanted.contains(name) && lookup(list, name) is Some ==> exists|k: int|
            0 <= k < bound(wanted, list).len() && (#[trigger] bound(wanted, list)[k]).name == name,
    decreases wanted.len(),
{
    if wanted.len() != 0 {
        let rest = wanted.drop_last();
        let last = wanted.last();
        lemma_bound_values(rest, list, name);
        let was = bound(rest, list);
        let now = bound(wanted, list);
        assert(wanted == rest.push(last));
        text::lemma_contains_push(rest, last, name);
        assert forall|k: int| 0 <= k < now.len() && (#[trigger] now[k]).name == name implies lookup(
            list,
            name,
        ) == Some(now[k].value) by {
            if k < was.len() {
                assert(now[k] == was[k]);
            }
        }
        if wanted.contains(name) && lookup(list, name) is Some {
            if rest.contains(name) {
                let k = choose|k: int| 0 <= k < was.len() && (#[trigger] was[k]).name == name;
                assert(now[k].name == name);
            } else {
                assert(now[was.len() as int].name == name);
            }
        }
    }
}

/// What the server has of the listed variables and of the locale reaches the
/// process as it is, unless the request sets it or it is fixed.
pub proof fn law_inherited_is_kept(
    inherited: Seq<Binding>,
    explicit: Seq<Setting>,
    b: Binding,
)
    requires
        unique_names(inherited),
        inherited.contains(b),
        base_env_allowlist().contains(b.name) || is_locale_name(b.name),
        !is_set(explicit, b.name),
        !is_fixed_name(b.name),
    ensures
        effective(child_bindings(inherited, explicit)).contains_key(b.name),
        effective(child_bindings(inherited, explicit))[b.name] == b.value,
{
    let p = |x: Binding| is_locale_name(x.name);
    let name = b.name;
    let listed = bound(base_env_allowlist(), inherited);
    let locale = inherited.filter(p);
    let set = explicit.map_values(|t: Setting| setting_binding(t));
    let at = choose|k: int| 0 <= k < inherited.len() && inherited[k] == b;
    lemma_fixed();
    lemma_effective_append(listed + locale + set, fixed_bindings(), name);
    lemma_effective_append(listed + locale, set, name);
    lemma_effective_append(listed, locale, name);
    if effective(set).contains_key(name) {
        lemma_effective_has(set, name);
        let k = choose|k: int| 0 <= k < set.len() && (#[trigger] set[k]).name == name;
        assert(explicit[k].name == name);
    }
    assert forall|k: int| 0 <= k < locale.len() && (#[trigger] locale[k]).name == name implies
        locale[k].value == b.value by {
        assert(locale.contains(locale[k]));
        text::lemma_filter_contains(inherited, p, locale[k]);
        let j = choose|j: int| 0 <= j < inherited.len() && inherited[j] == locale[k];
        if j < at {
            assert(inherited[j].name != inherited[at].name);
        } else if at < j {
            assert(inherited[at].name != inherited[j].name);
        }
    }
    lemma_effective_value(locale, name, b.value);
    if is_locale_name(name) {
        text::lemma_filter_contains(inherited, p, b);
        let k = choose|k: int| 0 <= k < locale.len() && locale[k] == b;
        assert(locale[k].name == name);
        lemma_effective_has(locale, name);
    } else {
        lemma_lookup(inherited, name);
        assert(inherited[at].name == name);
        let v = lookup(inherited, name)->Some_0;
        let found = Binding { name, value: v };
        let j = choose|j: int| 0 <= j < inherited.len() && inherited[j] == found;
        if j < at {
            assert(inherited[j].name != inherited[at].name);
        } else if at < j {
            assert(inherited[at].name != inherited[j].name);
        }
        assert(v == b.value);
        lemma_bound_values(base_env_allowlist(), inherited, name);
        lemma_effective_value(listed, name, b.value);
        lemma_effective_has(listed, name);
    }
}

/// The variables that a process inherits by name are these fifty, and no
/// others.
pub proof fn law_listed_variables(name: Seq<char>)
    ensures
        base_env_allowlist().contains(name) <==> {
            ||| name == "PATH"@ || name == "HOME"@ || name == "USER"@
            ||| name == "LOGNAME"@ || name == "SHELL"@ || name == "TMPDIR"@
            ||| name == "TEMP"@ || name == "TMP"@ || name == "LANG"@
            ||| name == "LC_ALL"@ || name == "LC_CTYPE"@ || name == "TERM"@
            ||| name == "COLORTERM"@ || name == "CI"@ || name == "CARGO_HOME"@
            ||| name == "RUSTUP_HOME"@ || name == "RUSTC_WRAPPER"@ || name == "RUSTFLAGS"@
            ||| name == "RUSTDOCFLAGS"@ || name == "SCCACHE_DIR"@ || name == "GOPATH"@
            ||| name == "GOROOT"@ || name == "GOMODCACHE"@ || name == "GOCACHE"@
            ||| name == "GOENV"@ || name == "GOFLAGS"@ || name == "PNPM_HOME"@
            ||| name == "NPM_CONFIG_USERCONFIG"@ || name == "NVM_DIR"@ || name == "VOLTA_HOME"@
            ||| name == "COREPACK_HOME"@ || name == "BUN_INSTALL"@ || name == "CC"@
            ||| name == "CXX"@ || name == "AR"@ || name == "CFLAGS"@
            ||| name == "CXXFLAGS"@ || name == "LDFLAGS"@ || name == "PKG_CONFIG_PATH"@
            ||| name == "CPATH"@ || name == "LIBRARY_PATH"@ || name == "SSL_CERT_FILE"@
            ||| name == "SSL_CERT_DIR"@ || name == "HTTP_PROXY"@ || name == "HTTPS_PROXY"@
            ||| name == "NO_PROXY"@ || name == "http_proxy"@ || name == "https_proxy"@
            ||| name == "no_proxy"@ || name == "SSH_AUTH_SOCK"@
        },
{
    let list = base_env_allowlist();
    assert(list[0] == "PATH"@ && list[1] == "HOME"@);
    assert(list[2] == "USER"@ && list[3] == "LOGNAME"@);
    assert(list[4] == "SHELL"@ && list[5] == "TMPDIR"@);
    assert(list[6] == "TEMP"@ && list[7] == "TMP"@);
    assert(list[8] == "LANG"@ && list[9] == "LC_ALL"@);
    assert(list[10] == "LC_CTYPE"@ && list[11] == "TERM"@);
    assert(list[12] == "COLORTERM"@ && list[13] == "CI"@);
    assert(list[14] == "CARGO_HOME"@ && list[15] == "RUSTUP_HOME"@);
    assert(list[16] == "RUSTC_WRAPPER"@ && list[17] == "RUSTFLAGS"@);
    assert(list[18] == "RUSTDOCFLAGS"@ && list[19] == "SCCACHE_DIR"@);
    assert(list[20] == "GOPATH"@ && list[21] == "GOROOT"@);
    assert(list[22] == "GOMODCACHE"@ && list[23] == "GOCACHE"@);
    assert(list[24] == "GOENV"@ && list[25] == "GOFLAGS"@);
    assert(list[26] == "PNPM_HOME"@ && list[27] == "NPM_CONFIG_USERCONFIG"@);
    assert(list[28] == "NVM_DIR"@ && list[29] == "VOLTA_HOME"@);
    assert(list[30] == "COREPACK_HOME"@ && list[31] == "BUN_INSTALL"@);
    assert(list[32] == "CC"@ && list[33] == "CXX"@);
    assert(list[34] == "AR"@ && list[35] == "CFLAGS"@);
    assert(list[36] == "CXXFLAGS"@ && list[37] == "LDFLAGS"@);
    assert(list[38] == "PKG_CONFIG_PATH"@ && list[39] == "CPATH"@);
    assert(list[40] == "LIBRARY_PATH"@ && list[41] == "SSL_CERT_FILE"@);
    assert(list[42] == "SSL_CERT_DIR"@ && list[43] == "HTTP_PROXY"@);
    assert(list[44] == "HTTPS_PROXY"@ && list[45] == "NO_PROXY"@);
    assert(list[46] == "http_proxy"@ && list[47] == "https_proxy"@);
    assert(list[48] == "no_proxy"@ && list[49] == "SSH_AUTH_SOCK"@);
}

/// The variables of the locale are those whose name begins with `LC_`, whatever
/// follows.
pub proof fn law_locale_variables(name: Seq<char>)
    ensures
        is_locale_name(name) <==> name.len() >= 3 && name[0] == 'L' && name[1] == 'C' && name[2]
            == '_',
{
    reveal_strlit("LC_");
    assert("LC_"@.len() == 3);
    if name.len() >= 3 {
        let head = name.take(3);
        assert(head[0] == name[0] && head[1] == name[1] && head[2] == name[2]);
        if name[0] == 'L' && name[1] == 'C' && name[2] == '_' {
            assert(head == "LC_"@);
        }
    }
}

/// The variables of a request pass exactly where there are at most 128, and each
/// has a name of at most 256 bytes that consists of ASCII letters, digits and
/// underscores and does not begin with a digit, and a value of at most 65536
/// bytes without NUL.
pub proof fn law_request_variables(list: Seq<Setting>)
    ensures
        environment_check(list) is Ok <==> {
            &&& list.len() <= 128
            &&& forall|k: int|
                0 <= k < list.len() ==> {
                    let name = (#[trigger] list[k]).name;
                    let value = list[k].value;
                    &&& name.len() > 0 && encode_utf8(name).len() <= 256
                    &&& forall|i: int|
                        0 <= i < name.len() ==> 'a' <= #[trigger] name[i] <= 'z' || 'A' <= name[i]
                            <= 'Z' || '0' <= name[i] <= '9' || name[i] == '_'
                    &&& !('0' <= name[0] <= '9')
                    &&& encode_utf8(value).len() <= 65536
                    &&& forall|i: int| 0 <= i < value.len() ==> #[trigger] value[i] != '\0'
                }
        },
        list.len() > 128 ==> environment_check(list) == Err::<(), Seq<char>>(
            "at most 128 explicit environment variables are allowed"@,
        ),
{
    law_environment_check(list);
    assert forall|k: int| 0 <= k < list.len() implies (limits::is_bounded(
        (#[trigger] list[k]).value,
        65536,
    ) <==> encode_utf8(list[k].value).len() <= 65536 && forall|i: int|
        0 <= i < list[k].value.len() ==> #[trigger] list[k].value[i] != '\0') by {
        limits::law_arguments(list[k].value);
    }
    assert forall|k: int| 0 <= k < list.len() implies (is_variable_name(
        (#[trigger] list[k]).name,
    ) <==> {
        let name = list[k].name;
        &&& name.len() > 0 && encode_utf8(name).len() <= 256
        &&& forall|i: int|
            0 <= i < name.len() ==> 'a' <= #[trigger] name[i] <= 'z' || 'A' <= name[i] <= 'Z'
                || '0' <= name[i] <= '9' || name[i] == '_'
        &&& !('0' <= name[0] <= '9')
    }) by {
        let name = list[k].name;
        if is_variable_name(name) {
            assert forall|i: int| 0 <= i < name.len() implies 'a' <= #[trigger] name[i] <= 'z'
                || 'A' <= name[i] <= 'Z' || '0' <= name[i] <= '9' || name[i] == '_' by {
                assert(is_name_char(name[i]));
            }
        }
    }
}

/// The message is that of the first variable that does not pass: of its name,
/// or of its value where the name passes.
pub proof fn law_first_bad_variable_is_told(
    good: Seq<Setting>,
    bad: Setting,
    rest: Seq<Setting>,
)
    requires
        good.len() + 1 + rest.len() <= 128,
        environment_check(good) is Ok,
        environment_check(seq![bad]) is Err,
    ensures
        environment_check(good + seq![bad] + rest) == environment_check(seq![bad]),
        environment_check(seq![bad]) == Err::<(), Seq<char>>(
            "invalid environment variable name `"@ + bad.name + "`"@,
        ) || environment_check(seq![bad]) == Err::<(), Seq<char>>(
            "invalid value for environment variable `"@ + bad.name + "`"@,
        ),
        !is_variable_name(bad.name) <==> environment_check(seq![bad]) == Err::<(), Seq<char>>(
            "invalid environment variable name `"@ + bad.name + "`"@,
        ),
    decreases good.len(),
{
    let one = seq![bad];
    let all = good + one + rest;
    assert(one.drop_first().len() == 0);
    assert(first_problem(one.drop_first()) is None);
    assert(first_problem(one) == setting_problem(bad));
    reveal_strlit("invalid environment variable name `");
    reveal_strlit("invalid value for environment variable `");
    let m = "invalid environment variable name `"@ + bad.name + "`"@;
    let v = "invalid value for environment variable `"@ + bad.name + "`"@;
    assert("invalid environment variable name `"@.len() == 35);
    assert("invalid value for environment variable `"@.len() == 40);
    assert(m.len() + 5 == v.len());
    if good.len() == 0 {
        assert(all[0] == bad);
    } else {
        let less = good.drop_first();
        assert(all[0] == good[0]);
        assert(all.drop_first() == less + one + rest);
        law_first_bad_variable_is_told(less, bad, rest);
    }
}

/// Setting variables one after the other leaves each name with its last value.
pub proof fn law_later_assignments_prevail(list: Seq<Binding>, last: Binding, name: Seq<char>)
    ensures
        effective(list.push(last)).contains_key(last.name),
        effective(list.push(last))[last.name] == last.value,
        name != last.name ==> (effective(list.push(last)).contains_key(name) <==> effective(
            list,
        ).contains_key(name)),
        name != last.name && effective(list).contains_key(name) ==> effective(list.push(last))[name]
            == effective(list)[name],
        effective(Seq::<Binding>::empty()) == Map::<Seq<char>, Seq<u8>>::empty(),
{
    lemma_effective_push(list, last);
}

} // verus!
