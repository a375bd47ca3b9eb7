//! A quality check: the commands of a plan, run one after the other.
use crate::diagnostics;
use crate::diagnostics::DiagnosticSummary;
use crate::environment::Environment;
use crate::execution;
use crate::execution::{ExecutionOutput, ProcessRequest};
use crate::names;
use crate::paths;
use crate::plan;
use crate::plan::{CommandSpec, ProjectDetection, QualityProfile};
use crate::project;
use crate::project::ProjectProbe;
use crate::render;
use crate::resolved::ResolvedPath;
use crate::server;
use crate::server::{ExecServer, PathLookup};
use crate::text;
use vstd::prelude::*;
use vstd::string::*;

verus! {

/// A request to check a project.
#[derive(Debug)]
pub struct QualityArgs {
    /// The directory of the project, relative to the workspace.
    pub cwd: String,
    /// Whether builds are run too.
    pub profile: QualityProfile,
    /// Whether the first failure ends the check.
    pub fail_fast: bool,
    /// How long each command may run.
    pub timeout_ms: Option<u64>,
}

/// One command of a quality check, and its report.
#[derive(Debug)]
pub struct QualityCheckResult {
    pub label: String,
    pub command: String,
    pub result: ExecutionOutput,
}

/// One command of a quality check as plain values.
pub struct Check {
    pub label: Seq<char>,
    pub command: Seq<char>,
    pub result: execution::Report,
}

impl View for QualityCheckResult {
    type V = Check;

    open spec fn view(&self) -> Check {
        Check { label: self.label@, command: self.command@, result: self.result@ }
    }
}

/// The checks of a list, as plain values.
pub open spec fn checks_of(list: Seq<QualityCheckResult>) -> Seq<Check> {
    list.map_values(|c: QualityCheckResult| c@)
}

/// The report of a quality check.
#[derive(Debug)]
pub struct QualityOutput {
    pub cwd: String,
    pub profile: QualityProfile,
    pub detected_kinds: Vec<String>,
    pub passed: bool,
    pub checks_run: usize,
    pub checks_failed: usize,
    pub checks: Vec<QualityCheckResult>,
    pub diagnostics: DiagnosticSummary,
}

/// How many of the checks failed.
pub open spec fn failures(checks: Seq<Check>) -> nat
    decreases checks.len(),
{
    if checks.len() == 0 {
        0
    } else {
        failures(checks.drop_last()) + if checks.last().result.success {
            0nat
        } else {
            1nat
        }
    }
}

/// The diagnostics of all checks together.
pub open spec fn all_diagnostics(checks: Seq<Check>) -> diagnostics::Summary
    decreases checks.len(),
{
    if checks.len() == 0 {
        diagnostics::empty_summary()
    } else {
        diagnostics::merged(
            all_diagnostics(checks.drop_last()),
            checks.last().result.diagnostics,
        )
    }
}

/// A quality check in progress.
#[derive(Debug)]
pub struct QualityRun {
    cwd: String,
    profile: QualityProfile,
    fail_fast: bool,
    detected_kinds: Vec<String>,
    plan: Vec<CommandSpec>,
    checks: Vec<QualityCheckResult>,
    checks_failed: usize,
    diagnostics: DiagnosticSummary,
}

/// A quality check in progress as plain values: what is to be run, and what was.
pub struct Progress {
    pub cwd: Seq<char>,
    pub profile: QualityProfile,
    pub fail_fast: bool,
    pub kinds: Seq<Seq<char>>,
    pub plan: Seq<plan::Command>,
    pub checks: Seq<Check>,
}

impl View for QualityRun {
    type V = Progress;

    closed spec fn view(&self) -> Progress {
        Progress {
            cwd: self.cwd@,
            profile: self.profile,
            fail_fast: self.fail_fast,
            kinds: names::texts(self.detected_kinds@),
            plan: plan::commands(self.plan@),
            checks: checks_of(self.checks@),
        }
    }
}

impl Progress {
    /// The checks are those of the plan so far, in its order; where the first
    /// failure ends the check, none but the last one failed.
    pub open spec fn in_order(self) -> bool {
        &&& self.checks.len() <= self.plan.len()
        &&& forall|k: int|
            0 <= k < self.checks.len() ==> (#[trigger] self.checks[k]).label == self.plan[k].label
                && self.checks[k].command == self.plan[k].line()
        &&& self.fail_fast ==> forall|k: int|
            0 <= k < self.checks.len() - 1 ==> (#[trigger] self.checks[k]).result.success
    }

    /// The check has ended: everything was run, or something failed and that
    /// ends it.
    pub open spec fn ended(self) -> bool {
        self.checks.len() >= self.plan.len() || self.fail_fast && failures(self.checks) > 0
    }

    /// The progress after one more report.
    pub open spec fn after(self, result: execution::Report) -> Progress {
        let command = self.plan[self.checks.len() as int];
        Progress {
            checks: self.checks.push(
                Check { label: command.label, command: command.line(), result },
            ),
            ..self
        }
    }
}

/// What is said of a directory without a project.
pub open spec fn no_project_message(cwd: Seq<char>) -> Seq<char> {
    server::quoting(
        "no supported project markers found in `"@,
        cwd,
        "`; use workspace_execute for an explicit command"@,
    )
}

/// What is said of a project without checks.
pub open spec fn no_checks_message(kinds: Seq<Seq<char>>) -> Seq<char> {
    server::quoting(
        "project was detected ("@,
        text::join_with(kinds, ", "@),
        ") but no conventional quality checks could be inferred; use workspace_execute for explicit commands"@,
    )
}

/// Why a project cannot be checked, if it cannot.
pub open spec fn check_problem(d: plan::Detection, profile: QualityProfile) -> Option<Seq<char>> {
    if d.kinds.len() == 0 {
        Some(no_project_message(d.cwd))
    } else if plan::quality_plan(d, profile).len() == 0 {
        Some(no_checks_message(d.kinds))
    } else {
        None
    }
}

/// The check of a project before anything was run.
pub open spec fn initial_progress(
    d: plan::Detection,
    profile: QualityProfile,
    fail_fast: bool,
) -> Progress {
    Progress {
        cwd: d.cwd,
        profile,
        fail_fast,
        kinds: d.kinds,
        plan: plan::quality_plan(d, profile),
        checks: seq![],
    }
}

impl QualityRun {
    /// The counts and diagnostics are those of the checks, and the checks
    /// those of the plan.
    pub closed spec fn wf(&self) -> bool {
        &&& self@.in_order()
        &&& self.checks_failed == failures(self@.checks)
        &&& self.checks_failed <= self.checks@.len()
        &&& self.diagnostics@ == all_diagnostics(self@.checks)
    }

    /// The check of a project, before anything was run.
    pub fn start(detection: ProjectDetection, profile: QualityProfile, fail_fast: bool) -> (r:
        Result<QualityRun, String>)
        ensures
            match r {
                Ok(run) => {
                    &&& check_problem(detection@, profile) is None
                    &&& run.wf()
                    &&& run@ == initial_progress(detection@, profile, fail_fast)
                },
                Err(message) => check_problem(detection@, profile) == Some(message@),
            },
    {
        if detection.kinds.len() == 0 {
            let mut message = "no supported project markers found in `".to_owned();
            message.append(detection.cwd.as_str());
            message.append("`; use workspace_execute for an explicit command");
            return Err(message);
        }
        let plan = plan::build_quality_plan(&detection, profile);
        if plan.len() == 0 {
            let mut message = "project was detected (".to_owned();
            message.append(names::joined(detection.kinds.as_slice(), ", ").as_str());
            message.append(
                ") but no conventional quality checks could be inferred; use workspace_execute for explicit commands",
            );
            return Err(message);
        }
        let run = QualityRun {
            cwd: detection.cwd,
            profile,
            fail_fast,
            detected_kinds: detection.kinds,
            plan,
            checks: Vec::new(),
            checks_failed: 0,
            diagnostics: DiagnosticSummary::default(),
        };
        assert(run@.checks == Seq::<Check>::empty());
        Ok(run)
    }

    /// The next command to run, while the check has not ended.
    pub fn next(&self) -> (r: Option<&CommandSpec>)
        requires
            self.wf(),
        ensures
            match r {
                Some(command) => !self@.ended() && command@ == self@.plan[
                    self@.checks.len() as int
                ],
                None => self@.ended(),
            },
    {
        let n = self.checks.len();
        if n < self.plan.len() && !(self.fail_fast && self.checks_failed > 0) {
            Some(&self.plan[n])
        } else {
            None
        }
    }

    /// The diagnostics so far.
    pub fn diagnostics(&self) -> (r: &DiagnosticSummary)
        requires
            self.wf(),
        ensures
            r@ == all_diagnostics(self@.checks),
    {
        &self.diagnostics
    }

    /// Records the report of the command that `next` gave.
    pub fn record(&mut self, result: ExecutionOutput)
        requires
            old(self).wf(),
            !old(self)@.ended(),
            diagnostics::mergeable(
                all_diagnostics(old(self)@.checks),
                result@.diagnostics,
            ),
        ensures
            final(self).wf(),
            final(self)@ == old(self)@.after(result@),
    {
        let ghost was = self@;
        let n = self.checks.len();
        assert(was.plan.len() == self.plan.len());
        assert(self.checks_failed <= n && n < self.plan.len());
        diagnostics::merge_diagnostics(&mut self.diagnostics, &result.diagnostics);
        if !result.success {
            self.checks_failed += 1;
        }
        let label = self.plan[n].label.clone();
        let command = render::render_command(
            self.plan[n].program.as_str(),
            self.plan[n].args.as_slice(),
        );
        let check = QualityCheckResult { label, command, result };
        let ghost new = check@;
        self.checks.push(check);
        proof {
            let now = self@;
            assert(now.checks == was.checks.push(new));
            assert(now.checks.drop_last() == was.checks);
            assert(now.plan[n as int] == self.plan@[n as int]@);
            assert(now == was.after(result@));
            lemma_no_failures(was.checks);
            assert forall|k: int| 0 <= k < now.checks.len() implies (
            #[trigger] now.checks[k]).label == now.plan[k].label && now.checks[k].command
                == now.plan[k].line() by {
                if k < n {
                    assert(now.checks[k] == was.checks[k]);
                }
            }
        }
    }

    /// The report of a check that has ended.
    pub fn finish(self) -> (r: QualityOutput)
        requires
            self.wf(),
            self@.ended(),
        ensures
            r.cwd@ == self@.cwd,
            r.profile == self@.profile,
            names::texts(r.detected_kinds@) == self@.kinds,
            checks_of(r.checks@) == self@.checks,
            r.checks_run == self@.checks.len(),
            r.checks_failed == failures(self@.checks),
            r.passed == (failures(self@.checks) == 0),
            r.diagnostics@ == all_diagnostics(self@.checks),
            r.diagnostics.error_lines == checks_of(r.checks@).fold_left(
                0int,
                |n: int, c: Check| n + c.result.diagnostics.error_lines,
            ),
            r.diagnostics.warning_lines == checks_of(r.checks@).fold_left(
                0int,
                |n: int, c: Check| n + c.result.diagnostics.warning_lines,
            ),
            r.diagnostics.failure_lines == checks_of(r.checks@).fold_left(
                0int,
                |n: int, c: Check| n + c.result.diagnostics.failure_lines,
            ),
            r.checks_run <= self@.plan.len(),
            forall|k: int|
                0 <= k < r.checks_run ==> (#[trigger] checks_of(r.checks@)[k]).label
                    == self@.plan[k].label && checks_of(r.checks@)[k].command
                    == self@.plan[k].line(),
            !self@.fail_fast ==> r.checks_run == self@.plan.len(),
            self@.fail_fast && r.checks_run < self@.plan.len() ==> r.checks_failed == 1
                && r.checks_run > 0 && !checks_of(r.checks@).last().result.success,
    {
        proof {
            law_aggregate_counts_every_check(self@.checks);
            if self@.fail_fast {
                law_impatient_check_stops_at_the_first_failure(self@);
            }
        }
        let checks_run = self.checks.len();
        QualityOutput {
            cwd: self.cwd,
            profile: self.profile,
            detected_kinds: self.detected_kinds,
            passed: self.checks_failed == 0,
            checks_run,
            checks_failed: self.checks_failed,
            checks: self.checks,
            diagnostics: self.diagnostics,
        }
    }
}

proof fn lemma_no_failures(checks: Seq<Check>)
    ensures
        failures(checks) <= checks.len(),
        failures(checks) == 0 <==> forall|k: int|
            0 <= k < checks.len() ==> (#[trigger] checks[k]).result.success,
    decreases checks.len(),
{
    if checks.len() != 0 {
        let rest = checks.drop_last();
        lemma_no_failures(rest);
        assert forall|k: int| 0 <= k < rest.len() implies #[trigger] rest[k] == checks[k] by {}
        assert(checks[checks.len() - 1] == checks.last());
        if failures(checks) == 0 {
            assert forall|k: int| 0 <= k < checks.len() implies (
            #[trigger] checks[k]).result.success by {
                if k < rest.len() {
                    assert(rest[k].result.success);
                }
            }
        }
        if forall|k: int| 0 <= k < checks.len() ==> (#[trigger] checks[k]).result.success {
            assert forall|k: int| 0 <= k < rest.len() implies (
            #[trigger] rest[k]).result.success by {
                assert(checks[k].result.success);
            }
        }
    }
}

/// The process of one command of a quality check: no input, no variables.
pub fn check_process(
    command: &CommandSpec,
    program: String,
    cwd: ResolvedPath,
    timeout_ms: u64,
) -> (r: ProcessRequest)
    ensures
        r@ == (execution::Process {
            program: program@,
            args: command@.args,
            cwd: cwd@,
            timeout_ms,
            stdin: None,
            env: seq![],
        }),
{
    ProcessRequest {
        program,
        args: names::copied(command.args.as_slice()),
        cwd,
        timeout_ms,
        stdin: None,
        env: Environment::new(),
    }
}

// ---------------------------------------------------------------------------
// Requests
// ---------------------------------------------------------------------------

/// A quality check that was accepted: what is to be run, where, and how long
/// each command may take.
#[derive(Debug)]
pub struct AcceptedCheck {
    pub run: QualityRun,
    pub cwd: ResolvedPath,
    pub timeout_ms: u64,
}

/// The result is the check that a request starts, or why it is refused: what is
/// wrong with the project, then with its plan, then with the directory when it
/// is looked up `again`, then with the time limit.
pub open spec fn is_check_admission(
    server: ExecServer,
    args: QualityArgs,
    detected: Result<plan::Detection, Seq<char>>,
    again: server::Lookup,
    r: Result<AcceptedCheck, String>,
) -> bool {
    match detected {
        Err(e) => r matches Err(message) && message@ == e,
        Ok(d) => match check_problem(d, args.profile) {
            Some(e) => r matches Err(message) && message@ == e,
            None => match server::directory_check(server.workspace_root@, args.cwd@, again) {
                Err(e) => r matches Err(message) && message@ == e,
                Ok(cwd) => match server::timeout_check(
                    server.default_timeout_ms,
                    server.max_timeout_ms,
                    args.timeout_ms,
                ) {
                    Err(e) => r matches Err(message) && message@ == e,
                    Ok(timeout_ms) => r matches Ok(check) && check.run.wf() && check.run@
                        == initial_progress(d, args.profile, args.fail_fast) && check.cwd@ == cwd
                        && check.timeout_ms == timeout_ms,
                },
            },
        },
    }
}

impl ExecServer {
    /// The check that a request starts, or why it is refused. `directory` is
    /// what looking up the directory of the project gave, `probe` what was found
    /// there, and `again` what looking it up gave once more before the first
    /// command.
    pub fn quality_check(
        &self,
        args: &QualityArgs,
        directory: PathLookup,
        probe: &ProjectProbe,
        again: PathLookup,
    ) -> (r: Result<AcceptedCheck, String>)
        ensures
            exists|detected: Result<plan::Detection, Seq<char>>| #[trigger]
                project::is_detection_result(
                    self.workspace_root@,
                    args.cwd@,
                    directory@,
                    *probe,
                    detected,
                ) && is_check_admission(*self, *args, detected, again@, r),
    {
        let detected = self.detect_project(args.cwd.as_str(), directory, probe);
        let ghost found = project::told_detection(detected);
        assert(project::is_detection_result(
            self.workspace_root@,
            args.cwd@,
            directory@,
            *probe,
            found,
        ));
        let detection = match detected {
            Err(e) => {
                return Err(e);
            },
            Ok(detection) => detection,
        };
        let run = match QualityRun::start(detection, args.profile, args.fail_fast) {
            Err(e) => {
                return Err(e);
            },
            Ok(run) => run,
        };
        let cwd = match self.resolve_cwd(Some(args.cwd.as_str()), again) {
            Err(e) => {
                return Err(e);
            },
            Ok(cwd) => cwd,
        };
        match self.validated_timeout(args.timeout_ms) {
            Err(e) => Err(e),
            Ok(timeout_ms) => Ok(AcceptedCheck { run, cwd, timeout_ms }),
        }
    }
}

impl AcceptedCheck {
    /// The next command to start, while the check has not ended, or why it is
    /// refused. `executable` is what looking up the place of
    /// `executable_to_look_up` of its program gave; it is read only where there
    /// is one.
    pub fn next_process(&self, server: &ExecServer, executable: &PathLookup) -> (r: Result<
        Option<ProcessRequest>,
        String,
    >)
        requires
            self.run.wf(),
        ensures
            if self.run@.ended() {
                r matches Ok(process) && process is None
            } else {
                let command = self.run@.plan[self.run@.checks.len() as int];
                match server::executable_check(
                    server.workspace_root@,
                    command.program,
                    executable@,
                ) {
                    Err(e) => r matches Err(message) && message@ == e,
                    Ok(program) => r matches Ok(process) && process is Some && process->Some_0@
                        == (execution::Process {
                        program,
                        args: command.args,
                        cwd: self.cwd@,
                        timeout_ms: self.timeout_ms,
                        stdin: None,
                        env: seq![],
                    }),
                }
            },
    {
        match self.run.next() {
            None => Ok(None),
            Some(command) => match server.validate_program(command.program.as_str(), executable) {
                Err(e) => Err(e),
                Ok(program) => {
                    let n = self.cwd.depth();
                    assert(self.cwd@.take(n as int) == self.cwd@);
                    Ok(
                        Some(
                            check_process(command, program, self.cwd.ancestor(n), self.timeout_ms),
                        ),
                    )
                },
            },
        }
    }
}

// ---------------------------------------------------------------------------
// What holds of every quality check
// ---------------------------------------------------------------------------

/// A check in progress has run the commands of its plan so far, in their order,
/// and stopped where it should.
pub proof fn law_runs_are_in_order(run: QualityRun)
    requires
        run.wf(),
    ensures
        run@.in_order(),
{
}

/// A check passes if every command that was run succeeded.
pub proof fn law_passed_means_no_failure(checks: Seq<Check>)
    ensures
        failures(checks) == 0 <==> forall|k: int|
            0 <= k < checks.len() ==> (#[trigger] checks[k]).result.success,
        failures(checks) <= checks.len(),
{
    lemma_no_failures(checks);
}

/// A check that does not stop at the first failure ends only when the whole
/// plan was run.
pub proof fn law_patient_check_runs_everything(progress: Progress)
    requires
        progress.in_order(),
        !progress.fail_fast,
        progress.ended(),
    ensures
        progress.checks.len() == progress.plan.len(),
{
}

/// A check that stops at the first failure has run the whole plan when it ends,
/// or ended with its first and only failure.
pub proof fn law_impatient_check_stops_at_the_first_failure(progress: Progress)
    requires
        progress.in_order(),
        progress.fail_fast,
        progress.ended(),
    ensures
        progress.checks.len() == progress.plan.len() || progress.checks.len() > 0
            && !progress.checks.last().result.success,
        failures(progress.checks) <= 1,
        forall|k: int|
            0 <= k < progress.checks.len() - 1 ==> (#[trigger] progress.checks[k]).result.success,
{
    lemma_no_failures(progress.checks);
    if progress.checks.len() > 0 {
        let rest = progress.checks.drop_last();
        assert forall|k: int| 0 <= k < rest.len() implies (#[trigger] rest[k]).result.success by {
            assert(progress.checks[k] == rest[k]);
        }
        lemma_no_failures(rest);
    }
}

/// Recording the report of the next command keeps the checks in the order of
/// the plan.
pub proof fn law_recording_keeps_the_order(progress: Progress, result: execution::Report)
    requires
        progress.in_order(),
        !progress.ended(),
    ensures
        progress.after(result).in_order(),
        progress.after(result).plan == progress.plan,
        progress.after(result).checks.drop_last() == progress.checks,
{
    let now = progress.after(result);
    lemma_no_failures(progress.checks);
    assert(now.checks.drop_last() == progress.checks);
    assert forall|k: int| 0 <= k < now.checks.len() implies (#[trigger] now.checks[k]).label
        == now.plan[k].label && now.checks[k].command == now.plan[k].line() by {
        if k < progress.checks.len() {
            assert(now.checks[k] == progress.checks[k]);
        }
    }
    if progress.fail_fast {
        assert forall|k: int| 0 <= k < now.checks.len() - 1 implies (
        #[trigger] now.checks[k]).result.success by {
            assert(now.checks[k] == progress.checks[k]);
        }
    }
}

/// The program is one that the library itself plans with.
pub open spec fn is_conventional_program(name: Seq<char>) -> bool {
    ||| name == "pnpm"@ || name == "yarn"@ || name == "bun"@ || name == "npm"@
    ||| name == "cargo"@ || name == "go"@ || name == "make"@
}

proof fn lemma_blocked_names(name: Seq<char>)
    requires
        server::blocked_programs().contains(name),
    ensures
        name.len() >= 2,
        name.len() == 2 ==> name[0] == 's',
        name.len() == 3 ==> name[0] == 'z' || name[0] == 'k' || name[0] == 'c' || name[0] == 'e',
        name.len() == 4 ==> name[0] != 'y' && name[0] != 'm' && (name[0] == 'p' ==> name[1] == 'w'),
        name.len() != 5,
{
    let list = server::blocked_programs();
    reveal_strlit("sh");
    reveal_strlit("bash");
    reveal_strlit("zsh");
    reveal_strlit("fish");
    reveal_strlit("dash");
    reveal_strlit("ksh");
    reveal_strlit("csh");
    reveal_strlit("tcsh");
    reveal_strlit("powershell");
    reveal_strlit("pwsh");
    reveal_strlit("cmd");
    reveal_strlit("sudo");
    reveal_strlit("su");
    reveal_strlit("doas");
    reveal_strlit("env");
    assert(list[0] == "sh"@);
    assert(list[1] == "bash"@);
    assert(list[2] == "zsh"@);
    assert(list[3] == "fish"@);
    assert(list[4] == "dash"@);
    assert(list[5] == "ksh"@);
    assert(list[6] == "csh"@);
    assert(list[7] == "tcsh"@);
    assert(list[8] == "powershell"@);
    assert(list[9] == "pwsh"@);
    assert(list[10] == "cmd"@);
    assert(list[11] == "sudo"@);
    assert(list[12] == "su"@);
    assert(list[13] == "doas"@);
    assert(list[14] == "env"@);
    assert("sh"@.len() == 2);
    assert("bash"@.len() == 4);
    assert("zsh"@.len() == 3);
    assert("fish"@.len() == 4);
    assert("dash"@.len() == 4);
    assert("ksh"@.len() == 3);
    assert("csh"@.len() == 3);
    assert("tcsh"@.len() == 4);
    assert("powershell"@.len() == 10);
    assert("pwsh"@.len() == 4);
    assert("cmd"@.len() == 3);
    assert("sudo"@.len() == 4);
    assert("su"@.len() == 2);
    assert("doas"@.len() == 4);
    assert("env"@.len() == 3);
    assert("sh"@[0] == 's' && "sh"@[1] == 'h');
    assert("bash"@[0] == 'b' && "bash"@[1] == 'a');
    assert("zsh"@[0] == 'z' && "zsh"@[1] == 's');
    assert("fish"@[0] == 'f' && "fish"@[1] == 'i');
    assert("dash"@[0] == 'd' && "dash"@[1] == 'a');
    assert("ksh"@[0] == 'k' && "ksh"@[1] == 's');
    assert("csh"@[0] == 'c' && "csh"@[1] == 's');
    assert("tcsh"@[0] == 't' && "tcsh"@[1] == 'c');
    assert("powershell"@[0] == 'p' && "powershell"@[1] == 'o');
    assert("pwsh"@[0] == 'p' && "pwsh"@[1] == 'w');
    assert("cmd"@[0] == 'c' && "cmd"@[1] == 'm');
    assert("sudo"@[0] == 's' && "sudo"@[1] == 'u');
    assert("su"@[0] == 's' && "su"@[1] == 'u');
    assert("doas"@[0] == 'd' && "doas"@[1] == 'o');
    assert("env"@[0] == 'e' && "env"@[1] == 'n');
}

proof fn lemma_plain_program(name: Seq<char>)
    requires
        0 < name.len() <= 100,
        forall|i: int| 0 <= i < name.len() ==> 'a' <= #[trigger] name[i] <= 'z',
        !server::blocked_programs().contains(name),
    ensures
        server::program_check(name) == Ok::<server::ProgramName, Seq<char>>(
            server::ProgramName::Named(name),
        ),
{
    let p = |s: Seq<char>| paths::is_step(s);
    assert(vstd::utf8::is_ascii_chars(name));
    vstd::utf8::is_ascii_chars_encode_utf8(name);
    assert(!name.contains('/') && !name.contains('\\'));
    assert(!name.contains('\0') && !name.contains('\r'));
    text::lemma_split_without(name, '/');
    assert(name[0] != '.');
    assert(paths::is_step(name));
    text::lemma_filter_all(seq![name], p);
    assert(paths::steps(name) == seq![name]);
    assert(name != paths::parent_step());
}

proof fn lemma_conventional_program(name: Seq<char>)
    requires
        is_conventional_program(name),
    ensures
        server::program_check(name) == Ok::<server::ProgramName, Seq<char>>(
            server::ProgramName::Named(name),
        ),
{
    reveal_strlit("pnpm");
    reveal_strlit("yarn");
    reveal_strlit("bun");
    reveal_strlit("npm");
    reveal_strlit("cargo");
    reveal_strlit("go");
    reveal_strlit("make");
    if server::blocked_programs().contains(name) {
        lemma_blocked_names(name);
    }
    lemma_plain_program(name);
}

/// The commands of a plan are never refused: where the package manager is one
/// that a lockfile tells, each program of the plan is accepted as it is named.
pub proof fn law_planned_programs_are_accepted(d: plan::Detection, profile: QualityProfile)
    requires
        d.package_manager matches Some(m) ==> m == "pnpm"@ || m == "yarn"@ || m == "bun"@ || m
            == "npm"@,
    ensures
        forall|k: int|
            0 <= k < plan::quality_plan(d, profile).len() ==> server::program_check(
                (#[trigger] plan::quality_plan(d, profile)[k]).program,
            ) == Ok::<server::ProgramName, Seq<char>>(
                server::ProgramName::Named(plan::quality_plan(d, profile)[k].program),
            ),
{
    let list = plan::quality_plan(d, profile);
    plan::law_plan_is_every_conventional_check(d, profile);
    assert forall|k: int| 0 <= k < list.len() implies server::program_check(
        (#[trigger] list[k]).program,
    ) == Ok::<server::ProgramName, Seq<char>>(server::ProgramName::Named(list[k].program)) by {
        assert(list.contains(list[k]));
        plan::lemma_planned_programs(d, profile, list[k]);
        lemma_conventional_program(list[k].program);
    }
}

/// A check of a project that was detected is never refused midway: each of its
/// programs is run as the plan names it, whatever the file system answers.
pub proof fn law_accepted_checks_are_not_refused(
    root: Seq<Seq<u8>>,
    raw: Seq<char>,
    directory: server::Lookup,
    probe: ProjectProbe,
    d: plan::Detection,
    profile: QualityProfile,
    k: int,
    executable: server::Lookup,
)
    requires
        project::is_detection_result(
            root,
            raw,
            directory,
            probe,
            Ok::<plan::Detection, Seq<char>>(d),
        ),
        0 <= k < plan::quality_plan(d, profile).len(),
    ensures
        server::executable_check(
            root,
            plan::quality_plan(d, profile)[k].program,
            executable,
        ) == Ok::<Seq<char>, Seq<char>>(plan::quality_plan(d, profile)[k].program),
{
    let cwd = server::directory_check(root, raw, directory)->Ok_0;
    project::law_manager_is_known(
        project::searched(project::listing_texts(probe.lockfiles@), root, cwd),
    );
    law_planned_programs_are_accepted(d, profile);
}

// ---------------------------------------------------------------------------
// What a report adds up to
// ---------------------------------------------------------------------------

/// The counts of a quality check are the sums of the counts of all checks that
/// were run, whether they succeeded or not.
pub proof fn law_aggregate_counts_every_check(checks: Seq<Check>)
    ensures
        all_diagnostics(checks).error_lines == checks.fold_left(
            0int,
            |n: int, c: Check| n + c.result.diagnostics.error_lines,
        ),
        all_diagnostics(checks).warning_lines == checks.fold_left(
            0int,
            |n: int, c: Check| n + c.result.diagnostics.warning_lines,
        ),
        all_diagnostics(checks).failure_lines == checks.fold_left(
            0int,
            |n: int, c: Check| n + c.result.diagnostics.failure_lines,
        ),
    decreases checks.len(),
{
    if checks.len() != 0 {
        law_aggregate_counts_every_check(checks.drop_last());
    }
}

/// The highlights of a quality check are at most eighty, each once, and each
/// that of a check that was run. Where there are fewer, every highlight of every
/// check that was run is among them, whether the check succeeded or not.
pub proof fn law_aggregate_highlights_every_check(checks: Seq<Check>, k: int, line: Seq<char>)
    requires
        0 <= k < checks.len(),
    ensures
        all_diagnostics(checks).highlights.no_duplicates(),
        all_diagnostics(checks).highlights.len() <= 80,
        all_diagnostics(checks).highlights.len() < 80
            && checks[k].result.diagnostics.highlights.contains(line) ==> all_diagnostics(
            checks,
        ).highlights.contains(line),
        all_diagnostics(checks).highlights.contains(line) ==> exists|j: int|
            0 <= j < checks.len() && (
            #[trigger] checks[j]).result.diagnostics.highlights.contains(line),
    decreases checks.len(),
{
    let rest = checks.drop_last();
    let before = all_diagnostics(rest);
    let last = checks.last().result.diagnostics;
    diagnostics::law_merging_extends(before, last);
    assert(checks[checks.len() - 1] == checks.last());
    if rest.len() > 0 {
        let j = if k < rest.len() {
            k
        } else {
            0
        };
        law_aggregate_highlights_every_check(rest, j, line);
        assert(checks[j] == rest[j]);
        if before.highlights.contains(line) {
            let i = choose|i: int|
                0 <= i < rest.len() && (
                #[trigger] rest[i]).result.diagnostics.highlights.contains(line);
            assert(checks[i] == rest[i]);
        }
    }
    let now = all_diagnostics(checks).highlights;
    if before.highlights.contains(line) {
        let i = choose|i: int| 0 <= i < before.highlights.len() && before.highlights[i] == line;
        assert(now[i] == now.subrange(0, before.highlights.len() as int)[i]);
        assert(now[i] == line);
    }
}

/// Where the diagnostics of each check summarise what it printed, those of the
/// whole check summarise all that was printed, one after the other.
pub proof fn law_aggregate_summarizes_all_that_was_printed(
    checks: Seq<Check>,
    printed: Seq<Seq<Seq<char>>>,
)
    requires
        printed.len() == checks.len(),
        forall|k: int|
            0 <= k < checks.len() ==> (#[trigger] checks[k]).result.diagnostics
                == diagnostics::summary_of(printed[k]),
    ensures
        all_diagnostics(checks) == diagnostics::summary_of(
            printed.fold_left(
                Seq::<Seq<char>>::empty(),
                |a: Seq<Seq<char>>, b: Seq<Seq<char>>| a + b,
            ),
        ),
    decreases checks.len(),
{
    let f = |a: Seq<Seq<char>>, b: Seq<Seq<char>>| a + b;
    let none: Seq<Seq<char>> = Seq::empty();
    if checks.len() == 0 {
        diagnostics::law_summary_grows_line_by_line(none, Seq::<char>::empty());
        assert(diagnostics::summary_of(none).highlights == none);
    } else {
        let rest = checks.drop_last();
        let before = printed.drop_last();
        assert forall|k: int| 0 <= k < rest.len() implies (#[trigger] rest[k]).result.diagnostics
            == diagnostics::summary_of(before[k]) by {
            assert(rest[k] == checks[k]);
        }
        law_aggregate_summarizes_all_that_was_printed(rest, before);
        assert(checks[checks.len() - 1] == checks.last());
        diagnostics::law_merging_is_summarizing_both(before.fold_left(none, f), printed.last());
    }
}

/// The failures of a quality check are the checks that did not succeed.
pub proof fn law_failures_are_the_checks_that_did_not_succeed(checks: Seq<Check>)
    ensures
        failures(checks) == checks.filter(|c: Check| !c.result.success).len(),
    decreases checks.len(),
{
    let p = |c: Check| !c.result.success;
    if checks.len() == 0 {
        reveal(Seq::filter);
    } else {
        let rest = checks.drop_last();
        law_failures_are_the_checks_that_did_not_succeed(rest);
        assert(checks == rest.push(checks.last()));
        text::lemma_filter_push(rest, checks.last(), p);
    }
}

/// A check goes on while commands are left, unless it stops at failures and one
/// of them failed.
pub proof fn law_checks_go_on(progress: Progress)
    requires
        progress.checks.len() < progress.plan.len(),
        !progress.fail_fast || forall|k: int|
            0 <= k < progress.checks.len() ==> (#[trigger] progress.checks[k]).result.success,
    ensures
        !progress.ended(),
{
    lemma_no_failures(progress.checks);
}

/// A report is recorded as it is, behind those before it, under the label and
/// the command line of the command whose turn it is; nothing else changes.
pub proof fn law_reports_are_recorded_as_they_are(progress: Progress, result: execution::Report)
    requires
        progress.checks.len() < progress.plan.len(),
    ensures
        ({
            let now = progress.after(result);
            let n = progress.checks.len() as int;
            &&& now.checks.len() == n + 1
            &&& now.checks.take(n) == progress.checks
            &&& now.checks[n].result == result
            &&& now.checks[n].label == progress.plan[n].label
            &&& now.checks[n].command == render::command_line(
                progress.plan[n].program,
                progress.plan[n].args,
            )
            &&& now.plan == progress.plan && now.cwd == progress.cwd && now.kinds
                == progress.kinds
            &&& now.profile == progress.profile && now.fail_fast == progress.fail_fast
        }),
{
    let now = progress.after(result);
    assert(now.checks.take(progress.checks.len() as int) == progress.checks);
}

/// A project is checked exactly where it has a kind and its plan has a command;
/// the check begins with the whole plan and nothing run.
pub proof fn law_projects_with_a_plan_are_checked(
    d: plan::Detection,
    profile: QualityProfile,
    fail_fast: bool,
)
    ensures
        check_problem(d, profile) is None <==> d.kinds.len() > 0 && plan::quality_plan(
            d,
            profile,
        ).len() > 0,
        d.kinds.len() == 0 ==> check_problem(d, profile) == Some(
            "no supported project markers found in `"@ + d.cwd
                + "`; use workspace_execute for an explicit command"@,
        ),
        d.kinds.len() > 0 && plan::quality_plan(d, profile).len() == 0 ==> check_problem(
            d,
            profile,
        ) == Some(
            "project was detected ("@ + text::join_with(d.kinds, ", "@)
                + ") but no conventional quality checks could be inferred; use workspace_execute for explicit commands"@,
        ),
        ({
            let start = initial_progress(d, profile, fail_fast);
            &&& start.checks.len() == 0 && start.plan == plan::quality_plan(d, profile)
            &&& start.cwd == d.cwd && start.kinds == d.kinds
            &&& start.profile == profile && start.fail_fast == fail_fast
        }),
{
}

/// A request to check a detected project is accepted exactly where the project
/// can be checked, its directory still resolves to one in the workspace, and the
/// time limit is between one and the maximum. The check then begins with the
/// whole plan, in that directory and within that limit.
pub proof fn law_proper_checks_are_accepted(
    server: ExecServer,
    args: QualityArgs,
    d: plan::Detection,
    again: server::Lookup,
    r: Result<AcceptedCheck, String>,
)
    requires
        is_check_admission(server, args, Ok::<plan::Detection, Seq<char>>(d), again, r),
    ensures
        ({
            let limit = match args.timeout_ms {
                Some(ms) => ms,
                None => server.default_timeout_ms,
            };
            &&& r is Ok <==> {
                &&& d.kinds.len() > 0
                &&& plan::quality_plan(d, args.profile).len() > 0
                &&& paths::cleaned_dir(args.cwd@) is Ok
                &&& again matches server::Lookup::Found { path, is_dir, .. } && is_dir
                    && server.workspace_root@.is_prefix_of(path)
                &&& 1 <= limit <= server.max_timeout_ms
            }
            &&& r matches Ok(check) ==> {
                &&& check.run.wf()
                &&& check.run@.plan == plan::quality_plan(d, args.profile)
                &&& check.run@.checks.len() == 0
                &&& check.run@.fail_fast == args.fail_fast && check.run@.profile == args.profile
                &&& check.cwd@ == again->path
                &&& check.timeout_ms == limit
            }
        }),
{
    server::law_working_directories(server.workspace_root@, args.cwd@, again);
}

/// A project that is not detected is not checked, and the request is told why.
pub proof fn law_undetected_projects_are_not_checked(
    server: ExecServer,
    args: QualityArgs,
    e: Seq<char>,
    again: server::Lookup,
    r: Result<AcceptedCheck, String>,
)
    requires
        is_check_admission(server, args, Err::<plan::Detection, Seq<char>>(e), again, r),
    ensures
        r matches Err(message) && message@ == e,
{
}

/// A check has ended once the whole plan was run, and, where it stops at
/// failures, once one of its commands failed.
pub proof fn law_checks_end(progress: Progress, k: int)
    ensures
        progress.checks.len() >= progress.plan.len() ==> progress.ended(),
        progress.fail_fast && 0 <= k < progress.checks.len()
            && !progress.checks[k].result.success ==> progress.ended(),
{
    lemma_no_failures(progress.checks);
}

} // verus!
