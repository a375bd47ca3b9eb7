//! Which conventional checks a project is given.
use crate::names;
use crate::render;
use crate::text;
use vstd::prelude::*;
use vstd::string::*;

verus! {

/// How much a quality check runs.
#[derive(Debug, Clone, Copy, PartialEq, Eq, Structural)]
pub enum QualityProfile {
    /// Checks that find issues, without production builds.
    Fast,
    /// The same, and conventional production builds.
    Full,
}

impl Default for QualityProfile {
    fn default() -> (r: QualityProfile)
        ensures
            r == QualityProfile::Fast,
    {
        QualityProfile::Fast
    }
}

/// A command to run, under the name that it is reported by.
#[derive(Debug)]
pub struct CommandSpec {
    pub label: String,
    pub program: String,
    pub args: Vec<String>,
}

/// A command as plain texts.
pub struct Command {
    pub label: Seq<char>,
    pub program: Seq<char>,
    pub args: Seq<Seq<char>>,
}

impl View for CommandSpec {
    type V = Command;

    open spec fn view(&self) -> Command {
        Command { label: self.label@, program: self.program@, args: names::texts(self.args@) }
    }
}

impl Command {
    /// The command as it is displayed.
    pub open spec fn line(self) -> Seq<char> {
        render::command_line(self.program, self.args)
    }
}

/// The commands of a list, as plain texts.
pub open spec fn commands(list: Seq<CommandSpec>) -> Seq<Command> {
    list.map_values(|c: CommandSpec| c@)
}

/// What was found out about a project.
#[derive(Debug)]
pub struct ProjectDetection {
    pub cwd: String,
    pub kinds: Vec<String>,
    pub package_manager: Option<String>,
    pub node_scripts: Vec<String>,
    pub make_targets: Vec<String>,
    pub markers: Vec<String>,
    pub recommended_checks: Vec<CommandSpec>,
}

/// A detection as plain texts.
pub struct Detection {
    pub cwd: Seq<char>,
    pub kinds: Seq<Seq<char>>,
    pub package_manager: Option<Seq<char>>,
    pub node_scripts: Seq<Seq<char>>,
    pub make_targets: Seq<Seq<char>>,
    pub markers: Seq<Seq<char>>,
    pub recommended_checks: Seq<Command>,
}

/// The text of an optional string.
pub open spec fn optional_text(s: Option<String>) -> Option<Seq<char>> {
    match s {
        Some(t) => Some(t@),
        None => None,
    }
}

impl View for ProjectDetection {
    type V = Detection;

    open spec fn view(&self) -> Detection {
        Detection {
            cwd: self.cwd@,
            kinds: names::texts(self.kinds@),
            package_manager: optional_text(self.package_manager),
            node_scripts: names::texts(self.node_scripts@),
            make_targets: names::texts(self.make_targets@),
            markers: names::texts(self.markers@),
            recommended_checks: commands(self.recommended_checks@),
        }
    }
}

// ---------------------------------------------------------------------------
// Scripts
// ---------------------------------------------------------------------------

/// The first of `candidates` that is one of `scripts`.
pub open spec fn first_present(scripts: Seq<Seq<char>>, candidates: Seq<Seq<char>>) -> Option<
    Seq<char>,
>
    decreases candidates.len(),
{
    if candidates.len() == 0 {
        None
    } else if scripts.contains(candidates[0]) {
        Some(candidates[0])
    } else {
        first_present(scripts, candidates.drop_first())
    }
}

/// The first candidate that is a declared script.
pub fn first_script<'a>(scripts: &'a [String], candidates: &[&str]) -> (r: Option<&'a str>)
    ensures
        match r {
            Some(s) => first_present(names::texts(scripts@), names::str_texts(candidates@)) == Some(s@),
            None => first_present(names::texts(scripts@), names::str_texts(candidates@)) is None,
        },
{
    let ghost declared = names::texts(scripts@);
    let ghost wanted = names::str_texts(candidates@);
    let n = candidates.len();
    let m = scripts.len();
    assert(wanted.skip(0) == wanted);
    for i in 0..n
        invariant
            n == candidates@.len(),
            m == scripts@.len(),
            declared == names::texts(scripts@),
            wanted == names::str_texts(candidates@),
            first_present(declared, wanted) == first_present(declared, wanted.skip(i as int)),
    {
        for j in 0..m
            invariant
                n == candidates@.len(),
                m == scripts@.len(),
                0 <= i < n,
                declared == names::texts(scripts@),
                wanted == names::str_texts(candidates@),
                first_present(declared, wanted) == first_present(declared, wanted.skip(i as int)),
                forall|k: int| 0 <= k < j ==> declared[k] != wanted[i as int],
        {
            if text::same_text(scripts[j].as_str(), candidates[i]) {
                assert(declared[j as int] == wanted[i as int]);
                return Some(scripts[j].as_str());
            }
        }
        assert(wanted.skip(i as int).drop_first() == wanted.skip(i + 1));
    }
    assert(wanted.skip(n as int).len() == 0);
    None
}

/// A package script, run through the package manager.
pub open spec fn script_command(
    manager: Seq<char>,
    label: Seq<char>,
    script: Seq<char>,
) -> Command {
    Command { label, program: manager, args: seq!["run"@, script] }
}

/// The command that runs a package script.
pub fn package_script_spec(manager: &str, label: &str, script: &str) -> (r: CommandSpec)
    ensures
        r@ == script_command(manager@, label@, script@),
{
    let mut args: Vec<String> = Vec::new();
    args.push("run".to_owned());
    args.push(script.to_owned());
    assert(names::texts(args@) == seq!["run"@, script@]);
    CommandSpec { label: label.to_owned(), program: manager.to_owned(), args }
}

fn command(label: &str, program: &str, args: &[&str]) -> (r: CommandSpec)
    ensures
        r@ == (Command { label: label@, program: program@, args: names::str_texts(args@) }),
{
    let mut list: Vec<String> = Vec::new();
    let n = args.len();
    for i in 0..n
        invariant
            n == args@.len(),
            list@.len() == i,
            forall|k: int| 0 <= k < i ==> (#[trigger] list@[k])@ == args@[k]@,
    {
        list.push(args[i].to_owned());
    }
    assert(names::texts(list@) == names::str_texts(args@));
    CommandSpec { label: label.to_owned(), program: program.to_owned(), args: list }
}

// ---------------------------------------------------------------------------
// Repeated commands
// ---------------------------------------------------------------------------

/// A command of `list` is displayed as `line`.
pub open spec fn has_line(list: Seq<Command>, line: Seq<char>) -> bool {
    exists|k: int| 0 <= k < list.len() && (#[trigger] list[k]).line() == line
}

/// The commands of a list, each where one displayed like it first stands.
pub open spec fn deduped(list: Seq<Command>) -> Seq<Command>
    decreases list.len(),
{
    if list.len() == 0 {
        seq![]
    } else {
        let d = deduped(list.drop_last());
        if has_line(d, list.last().line()) {
            d
        } else {
            d.push(list.last())
        }
    }
}

/// Drops each command that is displayed like an earlier one.
pub fn dedupe_plan(plan: Vec<CommandSpec>) -> (r: Vec<CommandSpec>)
    ensures
        commands(r@) == deduped(commands(plan@)),
{
    let mut seen = names::NameSet::new();
    let mut kept: Vec<CommandSpec> = Vec::new();
    let ghost all = commands(plan@);
    assert(commands(kept@) == deduped(all.take(0)));
    for spec in it: plan
        invariant
            it.seq() == plan@,
            all == commands(plan@),
            seen.wf(),
            commands(kept@) == deduped(all.take(it.index() as int)),
            forall|t: Seq<char>| seen@.contains(t) <==> has_line(commands(kept@), t),
    {
        let ghost was = commands(kept@);
        let ghost i = it.index() as int;
        let line = render::render_command(spec.program.as_str(), spec.args.as_slice());
        proof {
            assert(all[i] == spec@);
            assert(all.take(i + 1) == all.take(i).push(spec@));
            assert(all.take(i + 1).drop_last() == all.take(i));
            assert(line@ == spec@.line());
        }
        if seen.insert(line) {
            kept.push(spec);
            proof {
                let now = commands(kept@);
                assert(now == was.push(spec@));
                assert forall|t: Seq<char>| seen@.contains(t) <==> has_line(now, t) by {
                    assert(now[was.len() as int].line() == spec@.line());
                    if has_line(was, t) {
                        let k = choose|k: int| 0 <= k < was.len() && (#[trigger] was[k]).line() == t;
                        assert(now[k].line() == t);
                    }
                    if has_line(now, t) && t != spec@.line() {
                        let k = choose|k: int| 0 <= k < now.len() && (#[trigger] now[k]).line() == t;
                        assert(was[k].line() == t);
                    }
                }
            }
        }
    }
    assert(all.take(all.len() as int) == all);
    kept
}

// ---------------------------------------------------------------------------
// The plan
// ---------------------------------------------------------------------------

/// The package manager of a detection, `npm` where none is named.
pub open spec fn manager_of(d: Detection) -> Seq<char> {
    match d.package_manager {
        Some(m) => m,
        None => "npm"@,
    }
}

/// The check by the first declared one of several scripts, if there is one.
pub open spec fn script_check(
    d: Detection,
    label: Seq<char>,
    candidates: Seq<Seq<char>>,
) -> Seq<Command> {
    match first_present(d.node_scripts, candidates) {
        Some(script) => seq![script_command(manager_of(d), label, script)],
        None => seq![],
    }
}

/// The names of lint scripts, the preferred first.
pub open spec fn lint_scripts() -> Seq<Seq<char>> {
    seq!["lint"@, "lint:check"@, "check:lint"@]
}

/// The names of type check scripts, the preferred first.
pub open spec fn type_scripts() -> Seq<Seq<char>> {
    seq!["typecheck"@, "type-check"@, "check:types"@, "types"@]
}

/// The names of test scripts, the preferred first.
pub open spec fn test_scripts() -> Seq<Seq<char>> {
    seq!["test"@, "test:unit"@, "test:ci"@]
}

/// The checks of a Node project: its lint, type check and test scripts.
pub open spec fn node_checks(d: Detection) -> Seq<Command> {
    if d.kinds.contains("node"@) {
        script_check(d, "Node lint"@, lint_scripts()) + script_check(
            d,
            "Node type check"@,
            type_scripts(),
        ) + script_check(d, "Node tests"@, test_scripts())
    } else {
        seq![]
    }
}

/// The build of a Node project: its build script.
pub open spec fn node_builds(d: Detection) -> Seq<Command> {
    if d.kinds.contains("node"@) && d.node_scripts.contains("build"@) {
        seq![script_command(manager_of(d), "Node production build"@, "build"@)]
    } else {
        seq![]
    }
}

/// The checks of a Rust project.
pub open spec fn rust_checks(d: Detection) -> Seq<Command> {
    if d.kinds.contains("rust"@) {
        seq![
            Command {
                label: "Rust fmt check"@,
                program: "cargo"@,
                args: seq!["fmt"@, "--all"@, "--"@, "--check"@],
            },
            Command {
                label: "Rust check"@,
                program: "cargo"@,
                args: seq!["check"@, "--all-targets"@, "--all-features"@],
            },
            Command {
                label: "Rust clippy"@,
                program: "cargo"@,
                args: seq![
                    "clippy"@,
                    "--all-targets"@,
                    "--all-features"@,
                    "--"@,
                    "-D"@,
                    "warnings"@,
                ],
            },
            Command {
                label: "Rust tests"@,
                program: "cargo"@,
                args: seq!["test"@, "--all-targets"@, "--all-features"@],
            },
        ]
    } else {
        seq![]
    }
}

/// The build of a Rust project.
pub open spec fn rust_builds(d: Detection) -> Seq<Command> {
    if d.kinds.contains("rust"@) {
        seq![
            Command {
                label: "Rust release build"@,
                program: "cargo"@,
                args: seq!["build"@, "--release"@, "--all-features"@],
            },
        ]
    } else {
        seq![]
    }
}

/// The checks of a Go project.
pub open spec fn go_checks(d: Detection) -> Seq<Command> {
    if d.kinds.contains("go"@) {
        seq![
            Command { label: "Go vet"@, program: "go"@, args: seq!["vet"@, "./..."@] },
            Command { label: "Go tests"@, program: "go"@, args: seq!["test"@, "./..."@] },
        ]
    } else {
        seq![]
    }
}

/// The build of a Go project.
pub open spec fn go_builds(d: Detection) -> Seq<Command> {
    if d.kinds.contains("go"@) {
        seq![Command { label: "Go build"@, program: "go"@, args: seq!["build"@, "./..."@] }]
    } else {
        seq![]
    }
}

/// The command for a make target, if the target is declared.
pub open spec fn target_check(
    d: Detection,
    target: Seq<char>,
    label: Seq<char>,
) -> Seq<Command> {
    if d.make_targets.contains(target) {
        seq![Command { label, program: "make"@, args: seq![target] }]
    } else {
        seq![]
    }
}

/// The checks of a project with a makefile: its lint, check and test targets.
pub open spec fn make_checks(d: Detection) -> Seq<Command> {
    if d.kinds.contains("make"@) {
        target_check(d, "lint"@, "Make lint"@) + target_check(d, "check"@, "Make check"@)
            + target_check(d, "test"@, "Make test"@)
    } else {
        seq![]
    }
}

/// The build of a project with a makefile: its build target.
pub open spec fn make_builds(d: Detection) -> Seq<Command> {
    if d.kinds.contains("make"@) {
        target_check(d, "build"@, "Make build"@)
    } else {
        seq![]
    }
}

/// `list` under the full profile, nothing under the fast one.
pub open spec fn when_full(profile: QualityProfile, list: Seq<Command>) -> Seq<Command> {
    if profile == QualityProfile::Full {
        list
    } else {
        seq![]
    }
}

/// All checks of a project and, under the full profile, its builds.
pub open spec fn conventional_checks(d: Detection, profile: QualityProfile) -> Seq<Command> {
    node_checks(d) + when_full(profile, node_builds(d)) + rust_checks(d) + when_full(
        profile,
        rust_builds(d),
    ) + go_checks(d) + when_full(profile, go_builds(d)) + make_checks(d) + when_full(
        profile,
        make_builds(d),
    )
}

/// The plan of a project: its conventional checks, none of them twice.
pub open spec fn quality_plan(d: Detection, profile: QualityProfile) -> Seq<Command> {
    deduped(conventional_checks(d, profile))
}

fn push_script_check(
    plan: &mut Vec<CommandSpec>,
    detection: &ProjectDetection,
    manager: &str,
    label: &str,
    candidates: &[&str],
)
    requires
        manager@ == manager_of(detection@),
    ensures
        commands(final(plan)@) == commands(old(plan)@) + script_check(
            detection@,
            label@,
            names::str_texts(candidates@),
        ),
{
    if let Some(script) = first_script(detection.node_scripts.as_slice(), candidates) {
        plan.push(package_script_spec(manager, label, script));
    }
    assert(commands(plan@) == commands(old(plan)@) + script_check(
        detection@,
        label@,
        names::str_texts(candidates@),
    ));
}

fn push_node_checks(
    plan: &mut Vec<CommandSpec>,
    detection: &ProjectDetection,
    profile: QualityProfile,
)
    ensures
        commands(final(plan)@) == commands(old(plan)@) + node_checks(detection@) + when_full(
            profile,
            node_builds(detection@),
        ),
{
    if names::has_name(detection.kinds.as_slice(), "node") {
        let manager: &str = match &detection.package_manager {
            Some(m) => m.as_str(),
            None => "npm",
        };
        let lint: [&str; 3] = ["lint", "lint:check", "check:lint"];
        let types: [&str; 4] = ["typecheck", "type-check", "check:types", "types"];
        let tests: [&str; 3] = ["test", "test:unit", "test:ci"];
        assert(names::str_texts(lint@) == lint_scripts());
        assert(names::str_texts(types@) == type_scripts());
        assert(names::str_texts(tests@) == test_scripts());
        push_script_check(plan, detection, manager, "Node lint", &lint);
        push_script_check(plan, detection, manager, "Node type check", &types);
        push_script_check(plan, detection, manager, "Node tests", &tests);
        assert(commands(plan@) == commands(old(plan)@) + node_checks(detection@));
        if profile == QualityProfile::Full && names::has_name(
            detection.node_scripts.as_slice(),
            "build",
        ) {
            plan.push(package_script_spec(manager, "Node production build", "build"));
        }
    }
    assert(commands(plan@) == commands(old(plan)@) + node_checks(detection@) + when_full(
        profile,
        node_builds(detection@),
    ));
}

fn push_rust_checks(
    plan: &mut Vec<CommandSpec>,
    detection: &ProjectDetection,
    profile: QualityProfile,
)
    ensures
        commands(final(plan)@) == commands(old(plan)@) + rust_checks(detection@) + when_full(
            profile,
            rust_builds(detection@),
        ),
{
    if names::has_name(detection.kinds.as_slice(), "rust") {
        let fmt: [&str; 4] = ["fmt", "--all", "--", "--check"];
        let check: [&str; 3] = ["check", "--all-targets", "--all-features"];
        let clippy: [&str; 6] = [
            "clippy",
            "--all-targets",
            "--all-features",
            "--",
            "-D",
            "warnings",
        ];
        let test: [&str; 3] = ["test", "--all-targets", "--all-features"];
        let build: [&str; 3] = ["build", "--release", "--all-features"];
        assert(names::str_texts(fmt@) == seq!["fmt"@, "--all"@, "--"@, "--check"@]);
        assert(names::str_texts(check@) == seq!["check"@, "--all-targets"@, "--all-features"@]);
        assert(names::str_texts(clippy@) == seq![
            "clippy"@,
            "--all-targets"@,
            "--all-features"@,
            "--"@,
            "-D"@,
            "warnings"@,
        ]);
        assert(names::str_texts(test@) == seq!["test"@, "--all-targets"@, "--all-features"@]);
        assert(names::str_texts(build@) == seq!["build"@, "--release"@, "--all-features"@]);
        plan.push(command("Rust fmt check", "cargo", &fmt));
        plan.push(command("Rust check", "cargo", &check));
        plan.push(command("Rust clippy", "cargo", &clippy));
        plan.push(command("Rust tests", "cargo", &test));
        if profile == QualityProfile::Full {
            plan.push(command("Rust release build", "cargo", &build));
        }
    }
    assert(commands(plan@) == commands(old(plan)@) + rust_checks(detection@) + when_full(
        profile,
        rust_builds(detection@),
    ));
}

fn push_go_checks(
    plan: &mut Vec<CommandSpec>,
    detection: &ProjectDetection,
    profile: QualityProfile,
)
    ensures
        commands(final(plan)@) == commands(old(plan)@) + go_checks(detection@) + when_full(
            profile,
            go_builds(detection@),
        ),
{
    if names::has_name(detection.kinds.as_slice(), "go") {
        let vet: [&str; 2] = ["vet", "./..."];
        let test: [&str; 2] = ["test", "./..."];
        let build: [&str; 2] = ["build", "./..."];
        assert(names::str_texts(vet@) == seq!["vet"@, "./..."@]);
        assert(names::str_texts(test@) == seq!["test"@, "./..."@]);
        assert(names::str_texts(build@) == seq!["build"@, "./..."@]);
        plan.push(command("Go vet", "go", &vet));
        plan.push(command("Go tests", "go", &test));
        if profile == QualityProfile::Full {
            plan.push(command("Go build", "go", &build));
        }
    }
    assert(commands(plan@) == commands(old(plan)@) + go_checks(detection@) + when_full(
        profile,
        go_builds(detection@),
    ));
}

fn push_target_check(
    plan: &mut Vec<CommandSpec>,
    detection: &ProjectDetection,
    target: &str,
    label: &str,
)
    ensures
        commands(final(plan)@) == commands(old(plan)@) + target_check(
            detection@,
            target@,
            label@,
        ),
{
    if names::has_name(detection.make_targets.as_slice(), target) {
        let args: [&str; 1] = [target];
        assert(names::str_texts(args@) == seq![target@]);
        plan.push(command(label, "make", &args));
    }
    assert(commands(plan@) == commands(old(plan)@) + target_check(detection@, target@, label@));
}

fn push_make_checks(
    plan: &mut Vec<CommandSpec>,
    detection: &ProjectDetection,
    profile: QualityProfile,
)
    ensures
        commands(final(plan)@) == commands(old(plan)@) + make_checks(detection@) + when_full(
            profile,
            make_builds(detection@),
        ),
{
    if names::has_name(detection.kinds.as_slice(), "make") {
        push_target_check(plan, detection, "lint", "Make lint");
        push_target_check(plan, detection, "check", "Make check");
        push_target_check(plan, detection, "test", "Make test");
        if profile == QualityProfile::Full {
            push_target_check(plan, detection, "build", "Make build");
        }
    }
    assert(commands(plan@) == commands(old(plan)@) + make_checks(detection@) + when_full(
        profile,
        make_builds(detection@),
    ));
}

/// The commands of a quality check, in the order in which they run.
pub fn build_quality_plan(
    detection: &ProjectDetection,
    profile: QualityProfile,
) -> (r: Vec<CommandSpec>)
    ensures
        commands(r@) == quality_plan(detection@, profile),
{
    let mut plan: Vec<CommandSpec> = Vec::new();
    push_node_checks(&mut plan, detection, profile);
    push_rust_checks(&mut plan, detection, profile);
    push_go_checks(&mut plan, detection, profile);
    push_make_checks(&mut plan, detection, profile);
    assert(commands(plan@) == conventional_checks(detection@, profile));
    dedupe_plan(plan)
}

// ---------------------------------------------------------------------------
// What holds of every plan
// ---------------------------------------------------------------------------

/// No two commands of the list have the same program and arguments.
pub open spec fn no_repeats(list: Seq<Command>) -> bool {
    forall|i: int, j: int|
        0 <= i < j < list.len() ==> (#[trigger] list[i]).program != (#[trigger] list[j]).program
            || list[i].args != list[j].args
}

/// The list holds a command with the given program and arguments.
pub open spec fn runs(list: Seq<Command>, program: Seq<char>, args: Seq<Seq<char>>) -> bool {
    exists|k: int|
        0 <= k < list.len() && (#[trigger] list[k]).program == program && list[k].args == args
}

/// Deduplication leaves no command to run twice, drops no command that would
/// be run, adds none, and changes nothing when it is repeated.
pub proof fn law_deduplication(list: Seq<Command>)
    ensures
        no_repeats(deduped(list)),
        forall|program: Seq<char>, args: Seq<Seq<char>>|
            runs(deduped(list), program, args) <==> runs(list, program, args),
        forall|c: Command| #[trigger] deduped(list).contains(c) ==> list.contains(c),
        deduped(deduped(list)) == deduped(list),
{
    lemma_deduped(list);
    let d = deduped(list);
    assert forall|program: Seq<char>, args: Seq<Seq<char>>|
        runs(d, program, args) <==> runs(list, program, args) by {
        if runs(d, program, args) {
            let k = choose|k: int|
                0 <= k < d.len() && (#[trigger] d[k]).program == program && d[k].args == args;
            assert(d.contains(d[k]));
            let j = choose|j: int| 0 <= j < list.len() && list[j] == d[k];
            assert(list[j].program == program);
        }
        if runs(list, program, args) {
            let k = choose|k: int|
                0 <= k < list.len() && (#[trigger] list[k]).program == program && list[k].args
                    == args;
            assert(has_line(d, list[k].line()));
            let j = choose|j: int|
                0 <= j < d.len() && (#[trigger] d[j]).line() == list[k].line();
            render::law_command_line_is_unambiguous(d[j].program, d[j].args, program, args);
        }
    }
    lemma_deduped_unchanged(d);
}

proof fn lemma_deduped(list: Seq<Command>)
    ensures
        no_repeats(deduped(list)),
        forall|k: int| 0 <= k < list.len() ==> has_line(deduped(list), (#[trigger] list[k]).line()),
        forall|c: Command| #[trigger] deduped(list).contains(c) ==> list.contains(c),
    decreases list.len(),
{
    if list.len() != 0 {
        let rest = list.drop_last();
        let last = list.last();
        lemma_deduped(rest);
        let d = deduped(rest);
        let now = deduped(list);
        assert(list[list.len() - 1] == last);
        assert forall|i: int, j: int| 0 <= i < j < now.len() implies (#[trigger] now[i]).program
            != (#[trigger] now[j]).program || now[i].args != now[j].args by {
            if j < d.len() {
                assert(now[i] == d[i] && now[j] == d[j]);
            } else {
                assert(now[j] == last);
                assert(now[i] == d[i]);
                assert(d[i].line() != last.line());
            }
        }
        assert forall|k: int| 0 <= k < list.len() implies has_line(
            now,
            (#[trigger] list[k]).line(),
        ) by {
            if k < rest.len() {
                assert(rest[k] == list[k]);
                assert(has_line(d, rest[k].line()));
                let j = choose|j: int|
                    0 <= j < d.len() && (#[trigger] d[j]).line() == list[k].line();
                assert(now[j] == d[j]);
            } else if !has_line(d, last.line()) {
                assert(now[d.len() as int] == last);
            }
        }
        assert forall|c: Command| #[trigger] now.contains(c) implies list.contains(c) by {
            let k = choose|k: int| 0 <= k < now.len() && now[k] == c;
            if k < d.len() {
                assert(d[k] == c);
                assert(d.contains(c));
                let j = choose|j: int| 0 <= j < rest.len() && rest[j] == c;
                assert(list[j] == c);
            }
        }
    }
}

proof fn lemma_deduped_unchanged(list: Seq<Command>)
    requires
        no_repeats(list),
    ensures
        deduped(list) == list,
    decreases list.len(),
{
    if list.len() == 0 {
        assert(deduped(list) == list);
    } else {
        let rest = list.drop_last();
        let last = list.last();
        assert(no_repeats(rest)) by {
            assert forall|i: int, j: int| 0 <= i < j < rest.len() implies (
            #[trigger] rest[i]).program != (#[trigger] rest[j]).program || rest[i].args
                != rest[j].args by {
                assert(list[i] == rest[i] && list[j] == rest[j]);
            }
        }
        lemma_deduped_unchanged(rest);
        if has_line(rest, last.line()) {
            let k = choose|k: int|
                0 <= k < rest.len() && (#[trigger] rest[k]).line() == last.line();
            assert(list[k] == rest[k]);
            assert(list[list.len() - 1] == last);
            render::law_command_line_is_unambiguous(
                rest[k].program,
                rest[k].args,
                last.program,
                last.args,
            );
        }
        assert(list == rest.push(last));
    }
}

/// The place of a conventional command among all of them, by its arguments.
spec fn rank(args: Seq<Seq<char>>) -> int {
    if args.len() == 2 && args[0] == "run"@ {
        if lint_scripts().contains(args[1]) {
            0
        } else if type_scripts().contains(args[1]) {
            1
        } else if test_scripts().contains(args[1]) {
            2
        } else {
            3
        }
    } else if args.len() == 4 {
        4
    } else if args.len() == 6 {
        6
    } else if args.len() == 3 {
        if args[0] == "check"@ {
            5
        } else if args[0] == "test"@ {
            7
        } else {
            8
        }
    } else if args.len() == 2 {
        if args[0] == "vet"@ {
            9
        } else if args[0] == "test"@ {
            10
        } else {
            11
        }
    } else if args[0] == "lint"@ {
        12
    } else if args[0] == "check"@ {
        13
    } else if args[0] == "test"@ {
        14
    } else {
        15
    }
}

/// The ranks rise strictly and lie between two bounds.
spec fn ranked(list: Seq<Command>, low: int, high: int) -> bool {
    &&& forall|i: int| 0 <= i < list.len() ==> low <= rank((#[trigger] list[i]).args) < high
    &&& forall|i: int, j: int|
        0 <= i < j < list.len() ==> rank((#[trigger] list[i]).args) < rank(
            (#[trigger] list[j]).args,
        )
}

proof fn lemma_ranked_concat(a: Seq<Command>, b: Seq<Command>, low: int, mid: int, high: int)
    requires
        ranked(a, low, mid),
        ranked(b, mid, high),
        low <= mid <= high,
    ensures
        ranked(a + b, low, high),
{
    let c = a + b;
    assert forall|i: int| 0 <= i < c.len() implies low <= rank((#[trigger] c[i]).args) < high by {
        if i < a.len() {
            assert(c[i] == a[i]);
        } else {
            assert(c[i] == b[i - a.len()]);
        }
    }
    assert forall|i: int, j: int| 0 <= i < j < c.len() implies rank((#[trigger] c[i]).args) < rank(
        (#[trigger] c[j]).args,
    ) by {
        if i < a.len() {
            assert(c[i] == a[i]);
        } else {
            assert(c[i] == b[i - a.len()]);
        }
        if j < a.len() {
            assert(c[j] == a[j]);
        } else {
            assert(c[j] == b[j - a.len()]);
        }
    }
}

proof fn lemma_first_present(scripts: Seq<Seq<char>>, candidates: Seq<Seq<char>>)
    ensures
        first_present(scripts, candidates) matches Some(s) ==> candidates.contains(s)
            && scripts.contains(s),
    decreases candidates.len(),
{
    if candidates.len() != 0 {
        if scripts.contains(candidates[0]) {
            assert(candidates.contains(candidates[0]));
        } else {
            let rest = candidates.drop_first();
            lemma_first_present(scripts, rest);
            if let Some(s) = first_present(scripts, rest) {
                let k = choose|k: int| 0 <= k < rest.len() && rest[k] == s;
                assert(candidates[k + 1] == s);
            }
        }
    }
}

proof fn lemma_script_names(s: Seq<char>)
    ensures
        lint_scripts().contains(s) <==> s == "lint"@ || s == "lint:check"@ || s == "check:lint"@,
        type_scripts().contains(s) <==> s == "typecheck"@ || s == "type-check"@ || s
            == "check:types"@ || s == "types"@,
        test_scripts().contains(s) <==> s == "test"@ || s == "test:unit"@ || s == "test:ci"@,
{
    let lint = lint_scripts();
    let types = type_scripts();
    let tests = test_scripts();
    assert(lint[0] == "lint"@ && lint[1] == "lint:check"@ && lint[2] == "check:lint"@);
    assert(types[0] == "typecheck"@ && types[1] == "type-check"@);
    assert(types[2] == "check:types"@ && types[3] == "types"@);
    assert(tests[0] == "test"@ && tests[1] == "test:unit"@ && tests[2] == "test:ci"@);
}

proof fn lemma_script_names_differ(s: Seq<char>)
    ensures
        type_scripts().contains(s) ==> !lint_scripts().contains(s),
        test_scripts().contains(s) ==> !lint_scripts().contains(s) && !type_scripts().contains(s),
        s == "build"@ ==> !lint_scripts().contains(s) && !type_scripts().contains(s)
            && !test_scripts().contains(s),
{
    lemma_script_names(s);
    reveal_strlit("lint");
    reveal_strlit("lint:check");
    reveal_strlit("check:lint");
    reveal_strlit("typecheck");
    reveal_strlit("type-check");
    reveal_strlit("check:types");
    reveal_strlit("types");
    reveal_strlit("test");
    reveal_strlit("test:unit");
    reveal_strlit("test:ci");
    reveal_strlit("build");
    assert("lint"@.len() == 4 && "lint:check"@.len() == 10 && "check:lint"@.len() == 10);
    assert("typecheck"@.len() == 9 && "type-check"@.len() == 10 && "check:types"@.len() == 11);
    assert("types"@.len() == 5 && "test"@.len() == 4 && "test:unit"@.len() == 9);
    assert("test:ci"@.len() == 7 && "build"@.len() == 5);
    assert("lint"@[0] == 'l' && "test"@[0] == 't');
    assert("lint:check"@[0] == 'l' && "check:lint"@[0] == 'c' && "type-check"@[0] == 't');
    assert("typecheck"@[1] == 'y' && "test:unit"@[1] == 'e');
    assert("types"@[0] == 't' && "build"@[0] == 'b');
}

proof fn lemma_target_names_differ()
    ensures
        "run"@ != "vet"@,
        "run"@ != "test"@,
        "run"@ != "build"@,
        "vet"@ != "test"@,
        "vet"@ != "build"@,
        "test"@ != "build"@,
        "check"@ != "test"@,
        "check"@ != "build"@,
        "lint"@ != "check"@,
        "lint"@ != "test"@,
        "lint"@ != "build"@,
{
    reveal_strlit("run");
    reveal_strlit("vet");
    reveal_strlit("test");
    reveal_strlit("build");
    reveal_strlit("check");
    reveal_strlit("lint");
    assert("run"@[0] == 'r' && "vet"@[0] == 'v');
    assert("test"@[0] == 't' && "lint"@[0] == 'l');
    assert("check"@[0] == 'c' && "build"@[0] == 'b');
}

proof fn lemma_script_check_ranked(
    d: Detection,
    label: Seq<char>,
    candidates: Seq<Seq<char>>,
    k: int,
)
    requires
        k == 0 && candidates == lint_scripts() || k == 1 && candidates == type_scripts() || k == 2
            && candidates == test_scripts(),
    ensures
        ranked(script_check(d, label, candidates), k, k + 1),
{
    lemma_first_present(d.node_scripts, candidates);
    if let Some(script) = first_present(d.node_scripts, candidates) {
        lemma_script_names_differ(script);
    }
}

proof fn lemma_node_ranked(d: Detection)
    ensures
        ranked(node_checks(d), 0, 3),
        ranked(node_builds(d), 3, 4),
{
    let lint = script_check(d, "Node lint"@, lint_scripts());
    let types = script_check(d, "Node type check"@, type_scripts());
    let tests = script_check(d, "Node tests"@, test_scripts());
    lemma_script_check_ranked(d, "Node lint"@, lint_scripts(), 0);
    lemma_script_check_ranked(d, "Node type check"@, type_scripts(), 1);
    lemma_script_check_ranked(d, "Node tests"@, test_scripts(), 2);
    lemma_ranked_concat(lint, types, 0, 1, 2);
    lemma_ranked_concat(lint + types, tests, 0, 2, 3);
    lemma_script_names_differ("build"@);
}

proof fn lemma_rust_ranked(d: Detection)
    ensures
        ranked(rust_checks(d), 4, 8),
        ranked(rust_builds(d), 8, 9),
{
    lemma_target_names_differ();
}

proof fn lemma_go_ranked(d: Detection)
    ensures
        ranked(go_checks(d), 9, 11),
        ranked(go_builds(d), 11, 12),
{
    lemma_target_names_differ();
}

proof fn lemma_make_ranked(d: Detection)
    ensures
        ranked(make_checks(d), 12, 15),
        ranked(make_builds(d), 15, 16),
{
    lemma_target_names_differ();
    let lint = target_check(d, "lint"@, "Make lint"@);
    let check = target_check(d, "check"@, "Make check"@);
    let test = target_check(d, "test"@, "Make test"@);
    assert(ranked(lint, 12, 13));
    assert(ranked(check, 13, 14));
    assert(ranked(test, 14, 15));
    lemma_ranked_concat(lint, check, 12, 13, 14);
    lemma_ranked_concat(lint + check, test, 12, 14, 15);
}

proof fn lemma_when_full_ranked(
    profile: QualityProfile,
    list: Seq<Command>,
    low: int,
    high: int,
)
    requires
        ranked(list, low, high),
    ensures
        ranked(when_full(profile, list), low, high),
{
}

proof fn lemma_conventional_checks_ranked(d: Detection, profile: QualityProfile)
    ensures
        ranked(conventional_checks(d, profile), 0, 16),
{
    lemma_node_ranked(d);
    lemma_rust_ranked(d);
    lemma_go_ranked(d);
    lemma_make_ranked(d);
    lemma_when_full_ranked(profile, node_builds(d), 3, 4);
    lemma_when_full_ranked(profile, rust_builds(d), 8, 9);
    lemma_when_full_ranked(profile, go_builds(d), 11, 12);
    lemma_when_full_ranked(profile, make_builds(d), 15, 16);
    lemma_ranked_sum(
        node_checks(d),
        when_full(profile, node_builds(d)),
        rust_checks(d),
        when_full(profile, rust_builds(d)),
        go_checks(d),
        when_full(profile, go_builds(d)),
        make_checks(d),
        when_full(profile, make_builds(d)),
    );
}

proof fn lemma_ranked_sum(
    a: Seq<Command>,
    b: Seq<Command>,
    c: Seq<Command>,
    d: Seq<Command>,
    e: Seq<Command>,
    f: Seq<Command>,
    g: Seq<Command>,
    h: Seq<Command>,
)
    requires
        ranked(a, 0, 3),
        ranked(b, 3, 4),
        ranked(c, 4, 8),
        ranked(d, 8, 9),
        ranked(e, 9, 11),
        ranked(f, 11, 12),
        ranked(g, 12, 15),
        ranked(h, 15, 16),
    ensures
        ranked(a + b + c + d + e + f + g + h, 0, 16),
{
    lemma_ranked_concat(a, b, 0, 3, 4);
    lemma_ranked_concat(a + b, c, 0, 4, 8);
    lemma_ranked_concat(a + b + c, d, 0, 8, 9);
    lemma_ranked_concat(a + b + c + d, e, 0, 9, 11);
    lemma_ranked_concat(a + b + c + d + e, f, 0, 11, 12);
    lemma_ranked_concat(a + b + c + d + e + f, g, 0, 12, 15);
    lemma_ranked_concat(a + b + c + d + e + f + g, h, 0, 15, 16);
}

/// No conventional checks of a project run the same command, so that the plan
/// is all of them.
pub proof fn law_plan_is_every_conventional_check(d: Detection, profile: QualityProfile)
    ensures
        no_repeats(conventional_checks(d, profile)),
        quality_plan(d, profile) == conventional_checks(d, profile),
{
    let list = conventional_checks(d, profile);
    lemma_conventional_checks_ranked(d, profile);
    assert forall|i: int, j: int| 0 <= i < j < list.len() implies (#[trigger] list[i]).program != (
    #[trigger] list[j]).program || list[i].args != list[j].args by {
        assert(rank(list[i].args) < rank(list[j].args));
    }
    lemma_deduped_unchanged(list);
}

/// The detections agree in what a plan depends on.
pub open spec fn same_project(a: Detection, b: Detection) -> bool {
    &&& a.kinds == b.kinds
    &&& a.package_manager == b.package_manager
    &&& a.node_scripts == b.node_scripts
    &&& a.make_targets == b.make_targets
}

proof fn lemma_same_node(a: Detection, b: Detection)
    requires
        same_project(a, b),
    ensures
        node_checks(a) == node_checks(b),
        node_builds(a) == node_builds(b),
{
    assert(manager_of(a) == manager_of(b));
}

proof fn lemma_same_rust(a: Detection, b: Detection)
    requires
        same_project(a, b),
    ensures
        rust_checks(a) == rust_checks(b),
        rust_builds(a) == rust_builds(b),
{
}

proof fn lemma_same_go(a: Detection, b: Detection)
    requires
        same_project(a, b),
    ensures
        go_checks(a) == go_checks(b),
        go_builds(a) == go_builds(b),
{
}

proof fn lemma_same_make(a: Detection, b: Detection)
    requires
        same_project(a, b),
    ensures
        make_checks(a) == make_checks(b),
        make_builds(a) == make_builds(b),
{
}

/// The plan depends on the kinds, scripts, targets and package manager alone.
pub proof fn law_plan_depends_on_the_project(a: Detection, b: Detection, profile: QualityProfile)
    requires
        same_project(a, b),
    ensures
        quality_plan(a, profile) == quality_plan(b, profile),
{
    lemma_same_node(a, b);
    lemma_same_rust(a, b);
    lemma_same_go(a, b);
    lemma_same_make(a, b);
    assert(conventional_checks(a, profile) == conventional_checks(b, profile));
}

/// The builds that the full profile adds.
pub open spec fn conventional_builds(d: Detection) -> Seq<Command> {
    node_builds(d) + rust_builds(d) + go_builds(d) + make_builds(d)
}

proof fn lemma_builds_are_builds(d: Detection, c: Command)
    ensures
        conventional_builds(d).contains(c) <==> node_builds(d).contains(c) || rust_builds(
            d,
        ).contains(c) || go_builds(d).contains(c) || make_builds(d).contains(c),
{
    let two = node_builds(d) + rust_builds(d);
    let three = two + go_builds(d);
    text::lemma_contains_concat(three, make_builds(d), c);
    text::lemma_contains_concat(two, go_builds(d), c);
    text::lemma_contains_concat(node_builds(d), rust_builds(d), c);
}

/// The full plan runs what the fast plan runs and the builds, and nothing else.
pub proof fn law_full_plan_adds_the_builds(d: Detection)
    ensures
        forall|c: Command| #[trigger]
            quality_plan(d, QualityProfile::Full).contains(c) <==> quality_plan(
                d,
                QualityProfile::Fast,
            ).contains(c) || conventional_builds(d).contains(c),
        quality_plan(d, QualityProfile::Full).len() == quality_plan(d, QualityProfile::Fast).len()
            + conventional_builds(d).len(),
{
    law_plan_is_every_conventional_check(d, QualityProfile::Full);
    law_plan_is_every_conventional_check(d, QualityProfile::Fast);
    let fast = QualityProfile::Fast;
    let full = QualityProfile::Full;
    assert forall|c: Command| #[trigger]
        quality_plan(d, full).contains(c) <==> quality_plan(d, fast).contains(c)
            || conventional_builds(d).contains(c) by {
        lemma_checks_contain(d, full, c);
        lemma_checks_contain(d, fast, c);
        let nothing: Seq<Command> = seq![];
        assert(!nothing.contains(c));
        lemma_builds_are_builds(d, c);
    }
}

proof fn lemma_build_rank(d: Detection, c: Command)
    requires
        conventional_builds(d).contains(c),
    ensures
        rank(c.args) == 3 || rank(c.args) == 8 || rank(c.args) == 11 || rank(c.args) == 15,
{
    lemma_node_ranked(d);
    lemma_rust_ranked(d);
    lemma_go_ranked(d);
    lemma_make_ranked(d);
    lemma_builds_are_builds(d, c);
}

proof fn lemma_checks_pass(d: Detection, list: Seq<Command>, low: int, high: int)
    requires
        ranked(list, low, high),
        low == 0 && high == 3 || low == 4 && high == 8 || low == 9 && high == 11 || low == 12
            && high == 15,
    ensures
        list.filter(|c: Command| !conventional_builds(d).contains(c)) == list,
{
    let p = |c: Command| !conventional_builds(d).contains(c);
    assert forall|i: int| 0 <= i < list.len() implies p(#[trigger] list[i]) by {
        if conventional_builds(d).contains(list[i]) {
            lemma_build_rank(d, list[i]);
        }
    }
    text::lemma_filter_all(list, p);
}

proof fn lemma_builds_are_left_out(d: Detection, list: Seq<Command>)
    requires
        forall|i: int| 0 <= i < list.len() ==> conventional_builds(d).contains(#[trigger] list[i]),
    ensures
        list.filter(|c: Command| !conventional_builds(d).contains(c)) == Seq::<Command>::empty(),
{
    text::lemma_filter_none(list, |c: Command| !conventional_builds(d).contains(c));
}

proof fn lemma_filter_pairs(
    a: Seq<Command>,
    b: Seq<Command>,
    p: spec_fn(Command) -> bool,
    kept: Seq<Command>,
)
    requires
        a.filter(p) == kept,
        b.filter(p) == Seq::<Command>::empty(),
    ensures
        (a + b).filter(p) == kept,
{
    text::lemma_filter_append(a, b, p);
}

/// The fast plan is the full plan without its builds, in the same order.
pub proof fn law_fast_plan_is_the_full_plan_without_builds(d: Detection)
    ensures
        quality_plan(d, QualityProfile::Fast) == quality_plan(d, QualityProfile::Full).filter(
            |c: Command| !conventional_builds(d).contains(c),
        ),
{
    let p = |c: Command| !conventional_builds(d).contains(c);
    let (n, r, g, m) = (node_checks(d), rust_checks(d), go_checks(d), make_checks(d));
    let (nb, rb, gb, mb) = (node_builds(d), rust_builds(d), go_builds(d), make_builds(d));
    law_plan_is_every_conventional_check(d, QualityProfile::Full);
    law_plan_is_every_conventional_check(d, QualityProfile::Fast);
    lemma_node_ranked(d);
    lemma_rust_ranked(d);
    lemma_go_ranked(d);
    lemma_make_ranked(d);
    lemma_checks_pass(d, n, 0, 3);
    lemma_checks_pass(d, r, 4, 8);
    lemma_checks_pass(d, g, 9, 11);
    lemma_checks_pass(d, m, 12, 15);
    assert forall|c: Command|
        nb.contains(c) || rb.contains(c) || gb.contains(c) || mb.contains(
            c,
        ) implies #[trigger] conventional_builds(d).contains(c) by {
        lemma_builds_are_builds(d, c);
    }
    assert forall|i: int| 0 <= i < nb.len() implies conventional_builds(d).contains(
        #[trigger] nb[i],
    ) by {
        assert(nb.contains(nb[i]));
    }
    assert forall|i: int| 0 <= i < rb.len() implies conventional_builds(d).contains(
        #[trigger] rb[i],
    ) by {
        assert(rb.contains(rb[i]));
    }
    assert forall|i: int| 0 <= i < gb.len() implies conventional_builds(d).contains(
        #[trigger] gb[i],
    ) by {
        assert(gb.contains(gb[i]));
    }
    assert forall|i: int| 0 <= i < mb.len() implies conventional_builds(d).contains(
        #[trigger] mb[i],
    ) by {
        assert(mb.contains(mb[i]));
    }
    lemma_builds_are_left_out(d, nb);
    lemma_builds_are_left_out(d, rb);
    lemma_builds_are_left_out(d, gb);
    lemma_builds_are_left_out(d, mb);
    lemma_filter_pairs(n, nb, p, n);
    text::lemma_filter_append(n + nb, r, p);
    lemma_filter_pairs(n + nb + r, rb, p, n + r);
    text::lemma_filter_append(n + nb + r + rb, g, p);
    lemma_filter_pairs(n + nb + r + rb + g, gb, p, n + r + g);
    text::lemma_filter_append(n + nb + r + rb + g + gb, m, p);
    lemma_filter_pairs(n + nb + r + rb + g + gb + m, mb, p, n + r + g + m);
    assert(conventional_checks(d, QualityProfile::Fast) == n + r + g + m);
}

/// The programs that a plan runs.
pub proof fn lemma_planned_programs(d: Detection, profile: QualityProfile, c: Command)
    requires
        conventional_checks(d, profile).contains(c),
    ensures
        c.program == manager_of(d) || c.program == "cargo"@ || c.program == "go"@ || c.program
            == "make"@,
{
    lemma_checks_contain(d, profile, c);
    let lint = script_check(d, "Node lint"@, lint_scripts());
    let types = script_check(d, "Node type check"@, type_scripts());
    let tests = script_check(d, "Node tests"@, test_scripts());
    text::lemma_contains_concat(lint + types, tests, c);
    text::lemma_contains_concat(lint, types, c);
    let make_lint = target_check(d, "lint"@, "Make lint"@);
    let make_check = target_check(d, "check"@, "Make check"@);
    let make_test = target_check(d, "test"@, "Make test"@);
    text::lemma_contains_concat(make_lint + make_check, make_test, c);
    text::lemma_contains_concat(make_lint, make_check, c);
}

proof fn lemma_checks_contain(d: Detection, profile: QualityProfile, c: Command)
    ensures
        conventional_checks(d, profile).contains(c) <==> {
            ||| node_checks(d).contains(c)
            ||| when_full(profile, node_builds(d)).contains(c)
            ||| rust_checks(d).contains(c)
            ||| when_full(profile, rust_builds(d)).contains(c)
            ||| go_checks(d).contains(c)
            ||| when_full(profile, go_builds(d)).contains(c)
            ||| make_checks(d).contains(c)
            ||| when_full(profile, make_builds(d)).contains(c)
        },
{
    let l0 = node_checks(d);
    let l1 = l0 + when_full(profile, node_builds(d));
    let l2 = l1 + rust_checks(d);
    let l3 = l2 + when_full(profile, rust_builds(d));
    let l4 = l3 + go_checks(d);
    let l5 = l4 + when_full(profile, go_builds(d));
    let l6 = l5 + make_checks(d);
    text::lemma_contains_concat(l0, when_full(profile, node_builds(d)), c);
    text::lemma_contains_concat(l1, rust_checks(d), c);
    text::lemma_contains_concat(l2, when_full(profile, rust_builds(d)), c);
    text::lemma_contains_concat(l3, go_checks(d), c);
    text::lemma_contains_concat(l4, when_full(profile, go_builds(d)), c);
    text::lemma_contains_concat(l5, make_checks(d), c);
    text::lemma_contains_concat(l6, when_full(profile, make_builds(d)), c);
}

// ---------------------------------------------------------------------------
// What is planned, and in which order
// ---------------------------------------------------------------------------

/// The first candidate that is declared is taken, whatever comes after it and
/// however many before it are not declared; where none is, nothing is.
pub proof fn law_first_declared_candidate_is_taken(
    scripts: Seq<Seq<char>>,
    before: Seq<Seq<char>>,
    candidate: Seq<char>,
    after: Seq<Seq<char>>,
)
    requires
        forall|k: int| 0 <= k < before.len() ==> !scripts.contains(#[trigger] before[k]),
    ensures
        scripts.contains(candidate) ==> first_present(
            scripts,
            before + seq![candidate] + after,
        ) == Some(candidate),
        first_present(scripts, before) is None,
    decreases before.len(),
{
    let all = before + seq![candidate] + after;
    if before.len() == 0 {
        assert(all[0] == candidate);
    } else {
        let rest = before.drop_first();
        assert(all[0] == before[0]);
        assert(all.drop_first() == rest + seq![candidate] + after);
        assert forall|k: int| 0 <= k < rest.len() implies !scripts.contains(
            #[trigger] rest[k],
        ) by {
            assert(rest[k] == before[k + 1]);
        }
        law_first_declared_candidate_is_taken(scripts, rest, candidate, after);
    }
}

/// The command is a package script of a Node project: the first declared one of
/// the names for its purpose, run through the package manager.
spec fn is_script_command(
    d: Detection,
    profile: QualityProfile,
    label: Seq<char>,
    script: Seq<char>,
) -> bool {
    let declared = |s: Seq<char>| d.node_scripts.contains(s);
    &&& declared(script)
    &&& {
        ||| label == "Node lint"@ && {
            ||| script == "lint"@
            ||| script == "lint:check"@ && !declared("lint"@)
            ||| script == "check:lint"@ && !declared("lint"@) && !declared("lint:check"@)
        }
        ||| label == "Node type check"@ && {
            ||| script == "typecheck"@
            ||| script == "type-check"@ && !declared("typecheck"@)
            ||| script == "check:types"@ && !declared("typecheck"@) && !declared("type-check"@)
            ||| script == "types"@ && !declared("typecheck"@) && !declared("type-check"@) && !declared(
                "check:types"@,
            )
        }
        ||| label == "Node tests"@ && {
            ||| script == "test"@
            ||| script == "test:unit"@ && !declared("test"@)
            ||| script == "test:ci"@ && !declared("test"@) && !declared("test:unit"@)
        }
        ||| label == "Node production build"@ && script == "build"@ && profile
            == QualityProfile::Full
    }
}

proof fn lemma_script_check_contains(
    d: Detection,
    label: Seq<char>,
    candidates: Seq<Seq<char>>,
    c: Command,
)
    ensures
        script_check(d, label, candidates).contains(c) <==> (first_present(
            d.node_scripts,
            candidates,
        ) matches Some(s) && c == script_command(manager_of(d), label, s)),
{
    let list = script_check(d, label, candidates);
    if first_present(d.node_scripts, candidates) is Some {
        assert(list[0] == script_command(
            manager_of(d),
            label,
            first_present(d.node_scripts, candidates)->Some_0,
        ));
    }
}

proof fn lemma_first_scripts(d: Detection)
    ensures
        ({
            let declared = |s: Seq<char>| d.node_scripts.contains(s);
            &&& first_present(d.node_scripts, lint_scripts()) == if declared("lint"@) {
                Some("lint"@)
            } else if declared("lint:check"@) {
                Some("lint:check"@)
            } else if declared("check:lint"@) {
                Some("check:lint"@)
            } else {
                None
            }
            &&& first_present(d.node_scripts, type_scripts()) == if declared("typecheck"@) {
                Some("typecheck"@)
            } else if declared("type-check"@) {
                Some("type-check"@)
            } else if declared("check:types"@) {
                Some("check:types"@)
            } else if declared("types"@) {
                Some("types"@)
            } else {
                None
            }
            &&& first_present(d.node_scripts, test_scripts()) == if declared("test"@) {
                Some("test"@)
            } else if declared("test:unit"@) {
                Some("test:unit"@)
            } else if declared("test:ci"@) {
                Some("test:ci"@)
            } else {
                None
            }
        }),
{
    reveal_with_fuel(first_present, 5);
    let a = lint_scripts();
    assert(a[0] == "lint"@ && a.drop_first()[0] == "lint:check"@);
    assert(a.drop_first().drop_first()[0] == "check:lint"@);
    assert(a.drop_first().drop_first().drop_first().len() == 0);
    let b = type_scripts();
    assert(b[0] == "typecheck"@ && b.drop_first()[0] == "type-check"@);
    assert(b.drop_first().drop_first()[0] == "check:types"@);
    assert(b.drop_first().drop_first().drop_first()[0] == "types"@);
    assert(b.drop_first().drop_first().drop_first().drop_first().len() == 0);
    let t = test_scripts();
    assert(t[0] == "test"@ && t.drop_first()[0] == "test:unit"@);
    assert(t.drop_first().drop_first()[0] == "test:ci"@);
    assert(t.drop_first().drop_first().drop_first().len() == 0);
}

proof fn lemma_node_commands(d: Detection, profile: QualityProfile, c: Command)
    ensures
        node_checks(d).contains(c) || when_full(profile, node_builds(d)).contains(c)
            <==> d.kinds.contains("node"@) && c.program == manager_of(d) && c.args.len() == 2
            && c.args[0] == "run"@ && is_script_command(d, profile, c.label, c.args[1]),
{
    let lint = script_check(d, "Node lint"@, lint_scripts());
    let types = script_check(d, "Node type check"@, type_scripts());
    let tests = script_check(d, "Node tests"@, test_scripts());
    text::lemma_contains_concat(lint + types, tests, c);
    text::lemma_contains_concat(lint, types, c);
    lemma_script_check_contains(d, "Node lint"@, lint_scripts(), c);
    lemma_script_check_contains(d, "Node type check"@, type_scripts(), c);
    lemma_script_check_contains(d, "Node tests"@, test_scripts(), c);
    lemma_first_scripts(d);
    let nothing: Seq<Command> = seq![];
    assert(!nothing.contains(c));
    if node_builds(d).len() > 0 {
        assert(node_builds(d)[0] == script_command(
            manager_of(d),
            "Node production build"@,
            "build"@,
        ));
    }
    if c.args.len() == 2 && c.args[0] == "run"@ {
        assert(c.args == seq!["run"@, c.args[1]]);
        assert(c == script_command(c.program, c.label, c.args[1]));
    }
}

proof fn lemma_rust_commands(d: Detection, profile: QualityProfile, c: Command)
    ensures
        rust_checks(d).contains(c) || when_full(profile, rust_builds(d)).contains(c)
            <==> d.kinds.contains("rust"@) && c.program == "cargo"@ && {
            ||| c.label == "Rust fmt check"@ && c.args == seq!["fmt"@, "--all"@, "--"@, "--check"@]
            ||| c.label == "Rust check"@ && c.args == seq![
                "check"@,
                "--all-targets"@,
                "--all-features"@,
            ]
            ||| c.label == "Rust clippy"@ && c.args == seq![
                "clippy"@,
                "--all-targets"@,
                "--all-features"@,
                "--"@,
                "-D"@,
                "warnings"@,
            ]
            ||| c.label == "Rust tests"@ && c.args == seq![
                "test"@,
                "--all-targets"@,
                "--all-features"@,
            ]
            ||| c.label == "Rust release build"@ && c.args == seq![
                "build"@,
                "--release"@,
                "--all-features"@,
            ] && profile == QualityProfile::Full
        },
{
    let nothing: Seq<Command> = seq![];
    assert(!nothing.contains(c));
    let list = rust_checks(d);
    if d.kinds.contains("rust"@) {
        assert(list.len() == 4);
        assert(list.contains(list[0]) && list.contains(list[1]));
        assert(list.contains(list[2]) && list.contains(list[3]));
        assert(rust_builds(d).contains(rust_builds(d)[0]));
        if list.contains(c) {
            let k = choose|k: int| 0 <= k < list.len() && list[k] == c;
            assert(k == 0 || k == 1 || k == 2 || k == 3);
        }
    }
}

proof fn lemma_go_commands(d: Detection, profile: QualityProfile, c: Command)
    ensures
        go_checks(d).contains(c) || when_full(profile, go_builds(d)).contains(c)
            <==> d.kinds.contains("go"@) && c.program == "go"@ && {
            ||| c.label == "Go vet"@ && c.args == seq!["vet"@, "./..."@]
            ||| c.label == "Go tests"@ && c.args == seq!["test"@, "./..."@]
            ||| c.label == "Go build"@ && c.args == seq!["build"@, "./..."@] && profile
                == QualityProfile::Full
        },
{
    let nothing: Seq<Command> = seq![];
    assert(!nothing.contains(c));
    let list = go_checks(d);
    if d.kinds.contains("go"@) {
        assert(list.contains(list[0]) && list.contains(list[1]));
        assert(go_builds(d).contains(go_builds(d)[0]));
    }
}

proof fn lemma_make_commands(d: Detection, profile: QualityProfile, c: Command)
    ensures
        make_checks(d).contains(c) || when_full(profile, make_builds(d)).contains(c)
            <==> d.kinds.contains("make"@) && c.program == "make"@ && {
            ||| c.label == "Make lint"@ && c.args == seq!["lint"@] && d.make_targets.contains(
                "lint"@,
            )
            ||| c.label == "Make check"@ && c.args == seq!["check"@] && d.make_targets.contains(
                "check"@,
            )
            ||| c.label == "Make test"@ && c.args == seq!["test"@] && d.make_targets.contains(
                "test"@,
            )
            ||| c.label == "Make build"@ && c.args == seq!["build"@] && d.make_targets.contains(
                "build"@,
            ) && profile == QualityProfile::Full
        },
{
    let nothing: Seq<Command> = seq![];
    assert(!nothing.contains(c));
    let lint = target_check(d, "lint"@, "Make lint"@);
    let check = target_check(d, "check"@, "Make check"@);
    let test = target_check(d, "test"@, "Make test"@);
    let build = target_check(d, "build"@, "Make build"@);
    text::lemma_contains_concat(lint + check, test, c);
    text::lemma_contains_concat(lint, check, c);
    if lint.len() > 0 {
        assert(lint.contains(lint[0]));
    }
    if check.len() > 0 {
        assert(check.contains(check[0]));
    }
    if test.len() > 0 {
        assert(test.contains(test[0]));
    }
    if build.len() > 0 {
        assert(build.contains(build[0]));
    }
}

/// The commands of a plan are these and no others: for a Node project the first
/// declared script for each purpose, through its package manager; for Rust the
/// format, compile, lint and test commands of cargo; for Go its vet and test; for
/// make its declared targets; and under the full profile the build of each.
pub proof fn law_planned_commands(d: Detection, profile: QualityProfile, c: Command)
    ensures
        quality_plan(d, profile).contains(c) <==> {
            ||| d.kinds.contains("node"@) && c.program == (match d.package_manager {
                Some(manager) => manager,
                None => "npm"@,
            }) && c.args.len() == 2 && c.args[0] == "run"@ && {
                let script = c.args[1];
                let declared = |t: Seq<char>| d.node_scripts.contains(t);
                &&& declared(script)
                &&& {
                    ||| c.label == "Node lint"@ && {
                        ||| script == "lint"@
                        ||| script == "lint:check"@ && !declared("lint"@)
                        ||| script == "check:lint"@ && !declared("lint"@) && !declared(
                            "lint:check"@,
                        )
                    }
                    ||| c.label == "Node type check"@ && {
                        ||| script == "typecheck"@
                        ||| script == "type-check"@ && !declared("typecheck"@)
                        ||| script == "check:types"@ && !declared("typecheck"@) && !declared(
                            "type-check"@,
                        )
                        ||| script == "types"@ && !declared("typecheck"@) && !declared(
                            "type-check"@,
                        ) && !declared("check:types"@)
                    }
                    ||| c.label == "Node tests"@ && {
                        ||| script == "test"@
                        ||| script == "test:unit"@ && !declared("test"@)
                        ||| script == "test:ci"@ && !declared("test"@) && !declared("test:unit"@)
                    }
                    ||| c.label == "Node production build"@ && script == "build"@ && profile
                        == QualityProfile::Full
                }
            }
            ||| d.kinds.contains("rust"@) && c.program == "cargo"@ && {
                ||| c.label == "Rust fmt check"@ && c.args == seq![
                    "fmt"@,
                    "--all"@,
                    "--"@,
                    "--check"@,
                ]
                ||| c.label == "Rust check"@ && c.args == seq![
                    "check"@,
                    "--all-targets"@,
                    "--all-features"@,
                ]
                ||| c.label == "Rust clippy"@ && c.args == seq![
                    "clippy"@,
                    "--all-targets"@,
                    "--all-features"@,
                    "--"@,
                    "-D"@,
                    "warnings"@,
                ]
                ||| c.label == "Rust tests"@ && c.args == seq![
                    "test"@,
                    "--all-targets"@,
                    "--all-features"@,
                ]
                ||| c.label == "Rust release build"@ && c.args == seq![
                    "build"@,
                    "--release"@,
                    "--all-features"@,
                ] && profile == QualityProfile::Full
            }
            ||| d.kinds.contains("go"@) && c.program == "go"@ && {
                ||| c.label == "Go vet"@ && c.args == seq!["vet"@, "./..."@]
                ||| c.label == "Go tests"@ && c.args == seq!["test"@, "./..."@]
                ||| c.label == "Go build"@ && c.args == seq!["build"@, "./..."@] && profile
                    == QualityProfile::Full
            }
            ||| d.kinds.contains("make"@) && c.program == "make"@ && {
                ||| c.label == "Make lint"@ && c.args == seq!["lint"@] && d.make_targets.contains(
                    "lint"@,
                )
                ||| c.label == "Make check"@ && c.args == seq!["check"@] && d.make_targets.contains(
                    "check"@,
                )
                ||| c.label == "Make test"@ && c.args == seq!["test"@] && d.make_targets.contains(
                    "test"@,
                )
                ||| c.label == "Make build"@ && c.args == seq!["build"@] && d.make_targets.contains(
                    "build"@,
                ) && profile == QualityProfile::Full
            }
        },
{
    law_plan_is_every_conventional_check(d, profile);
    lemma_checks_contain(d, profile, c);
    lemma_node_commands(d, profile, c);
    lemma_rust_commands(d, profile, c);
    lemma_go_commands(d, profile, c);
    lemma_make_commands(d, profile, c);
}

/// The place of a label among all labels of planned commands.
spec fn label_place(label: Seq<char>) -> int {
    if label == "Node lint"@ {
        0
    } else if label == "Node type check"@ {
        1
    } else if label == "Node tests"@ {
        2
    } else if label == "Node production build"@ {
        3
    } else if label == "Rust fmt check"@ {
        4
    } else if label == "Rust check"@ {
        5
    } else if label == "Rust clippy"@ {
        6
    } else if label == "Rust tests"@ {
        7
    } else if label == "Rust release build"@ {
        8
    } else if label == "Go vet"@ {
        9
    } else if label == "Go tests"@ {
        10
    } else if label == "Go build"@ {
        11
    } else if label == "Make lint"@ {
        12
    } else if label == "Make check"@ {
        13
    } else if label == "Make test"@ {
        14
    } else if label == "Make build"@ {
        15
    } else {
        16
    }
}

proof fn lemma_label_places()
    ensures
        label_place("Node lint"@) == 0,
        label_place("Node type check"@) == 1,
        label_place("Node tests"@) == 2,
        label_place("Node production build"@) == 3,
        label_place("Rust fmt check"@) == 4,
        label_place("Rust check"@) == 5,
        label_place("Rust clippy"@) == 6,
        label_place("Rust tests"@) == 7,
        label_place("Rust release build"@) == 8,
        label_place("Go vet"@) == 9,
        label_place("Go tests"@) == 10,
        label_place("Go build"@) == 11,
        label_place("Make lint"@) == 12,
        label_place("Make check"@) == 13,
        label_place("Make test"@) == 14,
        label_place("Make build"@) == 15,
{
    reveal_strlit("Node lint");
    reveal_strlit("Node type check");
    reveal_strlit("Node tests");
    reveal_strlit("Node production build");
    reveal_strlit("Rust fmt check");
    reveal_strlit("Rust check");
    reveal_strlit("Rust clippy");
    reveal_strlit("Rust tests");
    reveal_strlit("Rust release build");
    reveal_strlit("Go vet");
    reveal_strlit("Go tests");
    reveal_strlit("Go build");
    reveal_strlit("Make lint");
    reveal_strlit("Make check");
    reveal_strlit("Make test");
    reveal_strlit("Make build");
    assert("Node lint"@.len() == 9);
    assert("Node type check"@.len() == 15);
    assert("Node tests"@.len() == 10);
    assert("Node production build"@.len() == 21);
    assert("Rust fmt check"@.len() == 14);
    assert("Rust check"@.len() == 10);
    assert("Rust clippy"@.len() == 11);
    assert("Rust tests"@.len() == 10);
    assert("Rust release build"@.len() == 18);
    assert("Go vet"@.len() == 6);
    assert("Go tests"@.len() == 8);
    assert("Go build"@.len() == 8);
    assert("Make lint"@.len() == 9);
    assert("Make check"@.len() == 10);
    assert("Make test"@.len() == 9);
    assert("Make build"@.len() == 10);
    assert("Node lint"@[0] == 'N' && "Node lint"@[3] == 'e' && "Node lint"@[5] == 'l');
    assert("Node type check"@[0] == 'N' && "Node type check"@[3] == 'e' && "Node type check"@[5] == 't');
    assert("Node tests"@[0] == 'N' && "Node tests"@[3] == 'e' && "Node tests"@[5] == 't');
    assert("Node production build"@[0] == 'N' && "Node production build"@[3] == 'e' && "Node production build"@[5] == 'p');
    assert("Rust fmt check"@[0] == 'R' && "Rust fmt check"@[3] == 't' && "Rust fmt check"@[5] == 'f');
    assert("Rust check"@[0] == 'R' && "Rust check"@[3] == 't' && "Rust check"@[5] == 'c');
    assert("Rust clippy"@[0] == 'R' && "Rust clippy"@[3] == 't' && "Rust clippy"@[5] == 'c');
    assert("Rust tests"@[0] == 'R' && "Rust tests"@[3] == 't' && "Rust tests"@[5] == 't');
    assert("Rust release build"@[0] == 'R' && "Rust release build"@[3] == 't' && "Rust release build"@[5] == 'r');
    assert("Go vet"@[0] == 'G' && "Go vet"@[3] == 'v' && "Go vet"@[5] == 't');
    assert("Go tests"@[0] == 'G' && "Go tests"@[3] == 't' && "Go tests"@[5] == 's');
    assert("Go build"@[0] == 'G' && "Go build"@[3] == 'b' && "Go build"@[5] == 'i');
    assert("Make lint"@[0] == 'M' && "Make lint"@[3] == 'e' && "Make lint"@[5] == 'l');
    assert("Make check"@[0] == 'M' && "Make check"@[3] == 'e' && "Make check"@[5] == 'c');
    assert("Make test"@[0] == 'M' && "Make test"@[3] == 'e' && "Make test"@[5] == 't');
    assert("Make build"@[0] == 'M' && "Make build"@[3] == 'e' && "Make build"@[5] == 'b');
}

proof fn lemma_place_is_rank(d: Detection, profile: QualityProfile, c: Command)
    requires
        quality_plan(d, profile).contains(c),
    ensures
        label_place(c.label) == rank(c.args),
{
    law_planned_commands(d, profile, c);
    lemma_label_places();
    lemma_target_names_differ();
    if c.args.len() == 2 && c.args[0] == "run"@ {
        lemma_script_names(c.args[1]);
        lemma_script_names_differ(c.args[1]);
    }
    lemma_fmt_and_clippy_differ();
}

proof fn lemma_fmt_and_clippy_differ()
    ensures
        "check"@ != "clippy"@,
        "test"@ != "clippy"@,
{
    reveal_strlit("check");
    reveal_strlit("clippy");
    reveal_strlit("test");
    assert("check"@.len() == 5 && "clippy"@.len() == 6 && "test"@.len() == 4);
}

proof fn lemma_labels_have_places(order: Seq<Seq<char>>, label: Seq<char>)
    requires
        order == seq![
            "Node lint"@,
            "Node type check"@,
            "Node tests"@,
            "Node production build"@,
            "Rust fmt check"@,
            "Rust check"@,
            "Rust clippy"@,
            "Rust tests"@,
            "Rust release build"@,
            "Go vet"@,
            "Go tests"@,
            "Go build"@,
            "Make lint"@,
            "Make check"@,
            "Make test"@,
            "Make build"@,
        ],
        0 <= label_place(label) < 16,
    ensures
        order[label_place(label)] == label,
{
}

/// A plan runs the checks of Node first, then those of Rust, of Go and of make;
/// within each, lint and format before types and compilation, before tests, and
/// the build last. No label occurs twice.
pub proof fn law_plans_are_in_order(d: Detection, profile: QualityProfile, i: int, j: int)
    requires
        0 <= i < j < quality_plan(d, profile).len(),
    ensures
        ({
            let order = seq![
                "Node lint"@,
                "Node type check"@,
                "Node tests"@,
                "Node production build"@,
                "Rust fmt check"@,
                "Rust check"@,
                "Rust clippy"@,
                "Rust tests"@,
                "Rust release build"@,
                "Go vet"@,
                "Go tests"@,
                "Go build"@,
                "Make lint"@,
                "Make check"@,
                "Make test"@,
                "Make build"@,
            ];
            exists|a: int, b: int|
                0 <= a < b < 16 && #[trigger] order[a] == quality_plan(d, profile)[i].label
                    && #[trigger] order[b] == quality_plan(d, profile)[j].label
        }),
        quality_plan(d, profile)[i].label != quality_plan(d, profile)[j].label,
{
    let order = seq![
        "Node lint"@,
        "Node type check"@,
        "Node tests"@,
        "Node production build"@,
        "Rust fmt check"@,
        "Rust check"@,
        "Rust clippy"@,
        "Rust tests"@,
        "Rust release build"@,
        "Go vet"@,
        "Go tests"@,
        "Go build"@,
        "Make lint"@,
        "Make check"@,
        "Make test"@,
        "Make build"@,
    ];
    let list = quality_plan(d, profile);
    law_plan_is_every_conventional_check(d, profile);
    lemma_conventional_checks_ranked(d, profile);
    assert(list.contains(list[i]) && list.contains(list[j]));
    lemma_place_is_rank(d, profile, list[i]);
    lemma_place_is_rank(d, profile, list[j]);
    let a = label_place(list[i].label);
    let b = label_place(list[j].label);
    lemma_labels_have_places(order, list[i].label);
    lemma_labels_have_places(order, list[j].label);
    assert(order[a] == list[i].label && order[b] == list[j].label);
}

} // verus!
