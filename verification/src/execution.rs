//! Requests to run one command, and the reports of commands that ran.
use crate::diagnostics;
use crate::diagnostics::DiagnosticSummary;
use crate::environment;
use crate::environment::Environment;
use crate::limits;
use crate::names;
use crate::output;
use crate::paths;
use crate::plan;
use crate::resolved;
use crate::resolved::ResolvedPath;
use crate::server;
use crate::server::{ExecServer, PathLookup};
use crate::text;
use vstd::prelude::*;
use vstd::string::*;
use vstd::utf8::encode_utf8;

verus! {

// ---------------------------------------------------------------------------
// Requests
// ---------------------------------------------------------------------------

/// A request to run one command.
#[derive(Debug)]
pub struct ExecuteArgs {
    /// A name to be found on the search path, or a path relative to the
    /// workspace.
    pub program: String,
    /// The arguments, as they are passed to the program.
    pub args: Vec<String>,
    /// The working directory, relative to the workspace.
    pub cwd: Option<String>,
    /// How long the command may run.
    pub timeout_ms: Option<u64>,
    /// What the command reads from its standard input.
    pub stdin: Option<String>,
    /// The variables that the request sets.
    pub env: Environment,
}

/// A request as plain values.
pub struct Request {
    pub program: Seq<char>,
    pub args: Seq<Seq<char>>,
    pub cwd: Option<Seq<char>>,
    pub timeout_ms: Option<u64>,
    pub stdin: Option<Seq<char>>,
    pub env: Seq<environment::Setting>,
}

impl View for ExecuteArgs {
    type V = Request;

    open spec fn view(&self) -> Request {
        Request {
            program: self.program@,
            args: names::texts(self.args@),
            cwd: plan::optional_text(self.cwd),
            timeout_ms: self.timeout_ms,
            stdin: plan::optional_text(self.stdin),
            env: self.env@,
        }
    }
}

/// Every argument is short enough and free of NUL.
pub open spec fn bounded_arguments(args: Seq<Seq<char>>) -> bool {
    forall|k: int|
        0 <= k < args.len() ==> limits::is_bounded(
            #[trigger] args[k],
            limits::MAX_ARG_BYTES as nat,
        )
}

/// The input is short enough and free of NUL.
pub open spec fn bounded_stdin(stdin: Option<Seq<char>>) -> bool {
    match stdin {
        Some(s) => limits::is_bounded(s, limits::MAX_STDIN_BYTES as nat),
        None => true,
    }
}

/// What is said of an input that is too long or holds NUL.
pub open spec fn stdin_message() -> Seq<char> {
    "stdin must be at most "@ + text::decimal(limits::MAX_STDIN_BYTES as nat)
        + " bytes and must not contain NUL"@
}

/// The check of what a request brings: its arguments, input and variables.
pub open spec fn contents_check(request: Request) -> Result<(), Seq<char>> {
    if request.args.len() > limits::MAX_ARGS {
        Err("too many arguments; maximum is "@ + text::decimal(limits::MAX_ARGS as nat))
    } else if !bounded_arguments(request.args) {
        Err(limits::argument_message())
    } else if !bounded_stdin(request.stdin) {
        Err(stdin_message())
    } else {
        environment::environment_check(request.env)
    }
}

/// Checks what a request brings: its arguments, input and variables.
pub fn check_contents(args: &ExecuteArgs) -> (r: Result<(), String>)
    ensures
        limits::told(r) == contents_check(args@),
{
    let n = args.args.len();
    if n > limits::MAX_ARGS {
        let mut message = "too many arguments; maximum is ".to_owned();
        message.append(text::decimal_text(limits::MAX_ARGS as u64).as_str());
        return Err(message);
    }
    for i in 0..n
        invariant
            n == args.args@.len(),
            n <= limits::MAX_ARGS,
            forall|k: int|
                0 <= k < i ==> limits::is_bounded(
                    #[trigger] args@.args[k],
                    limits::MAX_ARG_BYTES as nat,
                ),
    {
        assert(args@.args[i as int] == args.args@[i as int]@);
        match limits::validate_argument(args.args[i].as_str()) {
            Err(e) => {
                return Err(e);
            },
            Ok(_) => {},
        }
    }
    if let Some(stdin) = &args.stdin {
        if !limits::bounded(stdin.as_str(), limits::MAX_STDIN_BYTES) {
            let mut message = "stdin must be at most ".to_owned();
            message.append(text::decimal_text(limits::MAX_STDIN_BYTES as u64).as_str());
            message.append(" bytes and must not contain NUL");
            return Err(message);
        }
    }
    environment::validate_env(&args.env)
}

/// A command that may be started.
#[derive(Debug)]
pub struct ProcessRequest {
    pub program: String,
    pub args: Vec<String>,
    pub cwd: ResolvedPath,
    pub timeout_ms: u64,
    pub stdin: Option<String>,
    pub env: Environment,
}

/// A command that may be started, as plain values.
pub struct Process {
    pub program: Seq<char>,
    pub args: Seq<Seq<char>>,
    pub cwd: Seq<Seq<u8>>,
    pub timeout_ms: u64,
    pub stdin: Option<Seq<char>>,
    pub env: Seq<environment::Setting>,
}

impl View for ProcessRequest {
    type V = Process;

    open spec fn view(&self) -> Process {
        Process {
            program: self.program@,
            args: names::texts(self.args@),
            cwd: self.cwd@,
            timeout_ms: self.timeout_ms,
            stdin: plan::optional_text(self.stdin),
            env: self.env@,
        }
    }
}

/// A result with the process and message as plain values.
pub open spec fn told_process(r: Result<ProcessRequest, String>) -> Result<Process, Seq<char>> {
    match r {
        Ok(p) => Ok(p@),
        Err(e) => Err(e@),
    }
}

/// The command that a request starts, given what the file system says of its
/// working directory and of its executable, or why it is refused.
pub open spec fn admission(
    server: ExecServer,
    request: Request,
    directory: server::Lookup,
    executable: server::Lookup,
) -> Result<Process, Seq<char>> {
    let root = server.workspace_root@;
    match contents_check(request) {
        Err(e) => Err(e),
        Ok(_) => match server::directory_check(
            root,
            server::named_directory(request.cwd),
            directory,
        ) {
            Err(e) => Err(e),
            Ok(cwd) => match server::executable_check(root, request.program, executable) {
                Err(e) => Err(e),
                Ok(program) => match server::timeout_check(
                    server.default_timeout_ms,
                    server.max_timeout_ms,
                    request.timeout_ms,
                ) {
                    Err(e) => Err(e),
                    Ok(timeout_ms) => Ok(
                        Process {
                            program,
                            args: request.args,
                            cwd,
                            timeout_ms,
                            stdin: request.stdin,
                            env: request.env,
                        },
                    ),
                },
            },
        },
    }
}

fn optional_slice(s: &Option<String>) -> (r: Option<&str>)
    ensures
        server::optional_str(r) == plan::optional_text(*s),
{
    match s {
        Some(t) => Some(t.as_str()),
        None => None,
    }
}

/// The path below the workspace to look up for the working directory of a
/// request.
pub fn directory_to_look_up(args: &ExecuteArgs) -> (r: Result<String, String>)
    ensures
        limits::told_text(r) == match contents_check(args@) {
            Err(e) => Err(e),
            Ok(_) => paths::cleaned_dir(server::named_directory(args@.cwd)),
        },
{
    match check_contents(args) {
        Err(e) => Err(e),
        Ok(_) => server::requested_directory(optional_slice(&args.cwd)),
    }
}

impl ExecServer {
    /// The command that a request starts, or why it is refused. `directory` is
    /// what looking up the `directory_location` of the path of
    /// `directory_to_look_up` gave, and `executable` what looking up the place
    /// of `executable_to_look_up` gave; it is read only where there is one.
    pub fn execute(
        &self,
        args: ExecuteArgs,
        directory: PathLookup,
        executable: &PathLookup,
    ) -> (r: Result<ProcessRequest, String>)
        ensures
            told_process(r) == admission(*self, args@, directory@, executable@),
            r is Ok && server::program_check(args@.program)->Ok_0 is Relative
                ==> output::reads_utf8(resolved::path_bytes(executable@->path)),
    {
        match check_contents(&args) {
            Err(e) => {
                return Err(e);
            },
            Ok(_) => {},
        }
        let cwd = match self.resolve_cwd(optional_slice(&args.cwd), directory) {
            Err(e) => {
                return Err(e);
            },
            Ok(cwd) => cwd,
        };
        let program = match self.validate_program(args.program.as_str(), executable) {
            Err(e) => {
                return Err(e);
            },
            Ok(program) => program,
        };
        let timeout_ms = match self.validated_timeout(args.timeout_ms) {
            Err(e) => {
                return Err(e);
            },
            Ok(timeout_ms) => timeout_ms,
        };
        Ok(
            ProcessRequest {
                program,
                args: args.args,
                cwd,
                timeout_ms,
                stdin: args.stdin,
                env: args.env,
            },
        )
    }
}

/// A command that is started keeps every bound of the server: few and short
/// arguments, a short input, proper variables, a working directory in the
/// workspace, a program that is neither a shell nor reached by an absolute or
/// climbing path, and a time limit within the maximum. Its arguments, input and
/// variables are those of the request.
pub proof fn law_started_commands_keep_the_bounds(
    server: ExecServer,
    request: Request,
    directory: server::Lookup,
    executable: server::Lookup,
)
    requires
        admission(server, request, directory, executable) is Ok,
    ensures
        ({
            let p = admission(server, request, directory, executable)->Ok_0;
            &&& p.args == request.args && p.stdin == request.stdin && p.env == request.env
            &&& p.args.len() <= limits::MAX_ARGS && bounded_arguments(p.args)
            &&& bounded_stdin(p.stdin)
            &&& environment::environment_check(p.env) is Ok
            &&& server::is_inside(server.workspace_root@, p.cwd)
            &&& 0 < p.timeout_ms <= server.max_timeout_ms
            &&& paths::file_name(request.program) matches Some(leaf)
                && !server::blocked_programs().contains(leaf)
            &&& !paths::is_absolute(request.program)
            &&& !paths::steps(request.program).contains(paths::parent_step())
            &&& (p.program == request.program && !request.program.contains('/')
                && !request.program.contains('\\')) || (executable matches server::Lookup::Found {
                path,
                is_file,
                ..
            } && is_file && server::is_inside(server.workspace_root@, path) && p.program
                == output::utf8_lossy(resolved::path_bytes(path)))
        }),
{
    server::law_program_is_admissible(
        server.workspace_root@,
        request.program,
        executable,
    );
}

/// A request that keeps every bound is started, where the file system knows its
/// working directory inside the workspace, and its program is a bare name or
/// the path of a file inside the workspace.
pub proof fn law_proper_requests_are_started(
    server: ExecServer,
    request: Request,
    directory: server::Lookup,
    executable: server::Lookup,
)
    requires
        contents_check(request) is Ok,
        paths::cleaned_dir(server::named_directory(request.cwd)) is Ok,
        directory matches server::Lookup::Found { path, is_dir, .. } && is_dir
            && server::is_inside(server.workspace_root@, path),
        server::program_check(request.program) is Ok,
        server::program_check(request.program)->Ok_0 is Relative ==> (
        executable matches server::Lookup::Found { path, is_file, .. } && is_file
            && server::is_inside(server.workspace_root@, path)),
        server::timeout_check(
            server.default_timeout_ms,
            server.max_timeout_ms,
            request.timeout_ms,
        ) is Ok,
    ensures
        admission(server, request, directory, executable) is Ok,
        ({
            let program = admission(server, request, directory, executable)->Ok_0.program;
            match server::program_check(request.program)->Ok_0 {
                server::ProgramName::Named(_) => program == request.program,
                server::ProgramName::Relative(_) => program == output::utf8_lossy(
                    resolved::path_bytes(executable->path),
                ),
            }
        }),
{
}

// ---------------------------------------------------------------------------
// Reports
// ---------------------------------------------------------------------------

/// How a command ended.
#[derive(Debug)]
pub enum ProcessOutcome {
    /// It could not be started; the error's message.
    SpawnFailed(String),
    /// Its input could not be written; the error's message.
    StdinFailed(String),
    /// Waiting for it failed; the error's message.
    WaitFailed(String),
    /// It ended by itself.
    Completed {
        exit_code: Option<i32>,
        success: bool,
        duration_ms: u128,
        stdout: Vec<u8>,
        stderr: Vec<u8>,
    },
    /// Its time was up.
    TimedOut { duration_ms: u128 },
}

/// The report of a command that ran.
#[derive(Debug)]
pub struct ExecutionOutput {
    pub program: String,
    pub args: Vec<String>,
    pub cwd: String,
    pub exit_code: Option<i32>,
    pub success: bool,
    pub timed_out: bool,
    pub duration_ms: u128,
    pub stdout: String,
    pub stderr: String,
    pub stdout_truncated: bool,
    pub stderr_truncated: bool,
    pub diagnostics: DiagnosticSummary,
}

/// A report as plain values.
pub struct Report {
    pub program: Seq<char>,
    pub args: Seq<Seq<char>>,
    pub cwd: Seq<char>,
    pub exit_code: Option<i32>,
    pub success: bool,
    pub timed_out: bool,
    pub duration_ms: u128,
    pub stdout: Seq<char>,
    pub stderr: Seq<char>,
    pub stdout_truncated: bool,
    pub stderr_truncated: bool,
    pub diagnostics: diagnostics::Summary,
}

impl View for ExecutionOutput {
    type V = Report;

    open spec fn view(&self) -> Report {
        Report {
            program: self.program@,
            args: names::texts(self.args@),
            cwd: self.cwd@,
            exit_code: self.exit_code,
            success: self.success,
            timed_out: self.timed_out,
            duration_ms: self.duration_ms,
            stdout: self.stdout@,
            stderr: self.stderr@,
            stdout_truncated: self.stdout_truncated,
            stderr_truncated: self.stderr_truncated,
            diagnostics: self.diagnostics@,
        }
    }
}

/// What is reported of a command whose time was up.
pub open spec fn timeout_message(timeout_ms: u64) -> Seq<char> {
    "process exceeded timeout of "@ + text::decimal(timeout_ms as nat)
        + " ms; the direct child was terminated"@
}

/// The report of a command that ended by itself, from the texts of its
/// outputs.
pub open spec fn completed_report(
    program: Seq<char>,
    args: Seq<Seq<char>>,
    cwd: Seq<char>,
    exit_code: Option<i32>,
    success: bool,
    duration_ms: u128,
    stdout: (Seq<char>, bool),
    stderr: (Seq<char>, bool),
) -> Report {
    Report {
        program,
        args,
        cwd,
        exit_code,
        success,
        timed_out: false,
        duration_ms,
        stdout: stdout.0,
        stderr: stderr.0,
        stdout_truncated: stdout.1,
        stderr_truncated: stderr.1,
        diagnostics: diagnostics::summary_of(diagnostics::report(stdout.0, stderr.0)),
    }
}

/// The report of a command whose time was up.
pub open spec fn timed_out_report(
    program: Seq<char>,
    args: Seq<Seq<char>>,
    cwd: Seq<char>,
    timeout_ms: u64,
    duration_ms: u128,
) -> Report {
    Report {
        program,
        args,
        cwd,
        exit_code: None,
        success: false,
        timed_out: true,
        duration_ms,
        stdout: seq![],
        stderr: timeout_message(timeout_ms),
        stdout_truncated: false,
        stderr_truncated: false,
        diagnostics: diagnostics::Summary {
            error_lines: 1,
            warning_lines: 0,
            failure_lines: 1,
            highlights: seq![timeout_message(timeout_ms)],
        },
    }
}

/// An output within the bounds of a server.
pub open spec fn reported_output(bytes: Seq<u8>, limit: nat) -> (Seq<char>, bool) {
    (output::bounded_text(bytes, limit), bytes.len() > limit)
}

/// A result with the report and message as plain values.
pub open spec fn told_report(r: Result<ExecutionOutput, String>) -> Result<Report, Seq<char>> {
    match r {
        Ok(o) => Ok(o@),
        Err(e) => Err(e@),
    }
}

/// The report of a command, from how it ended.
pub open spec fn process_report(
    root: Seq<Seq<u8>>,
    max_output_bytes: nat,
    process: Process,
    outcome: ProcessOutcome,
) -> Result<Report, Seq<char>> {
    let cwd = server::relative_text(root, process.cwd);
    match outcome {
        ProcessOutcome::SpawnFailed(e) => Err(
            server::quoting("failed to start `"@, process.program, "`: "@) + e@,
        ),
        ProcessOutcome::StdinFailed(e) => Err("failed to write child stdin: "@ + e@),
        ProcessOutcome::WaitFailed(e) => Err(
            server::quoting("failed while waiting for `"@, process.program, "`: "@) + e@,
        ),
        ProcessOutcome::Completed { exit_code, success, duration_ms, stdout, stderr } => Ok(
            completed_report(
                process.program,
                process.args,
                cwd,
                exit_code,
                success,
                duration_ms,
                reported_output(stdout@, max_output_bytes),
                reported_output(stderr@, max_output_bytes),
            ),
        ),
        ProcessOutcome::TimedOut { duration_ms } => Ok(
            timed_out_report(
                process.program,
                process.args,
                cwd,
                process.timeout_ms,
                duration_ms,
            ),
        ),
    }
}

/// The report of a command that ended by itself, from the texts of its outputs
/// and whether they were cut.
pub fn completed_output(
    program: String,
    args: Vec<String>,
    cwd: String,
    exit_code: Option<i32>,
    success: bool,
    duration_ms: u128,
    stdout: (String, bool),
    stderr: (String, bool),
) -> (r: ExecutionOutput)
    ensures
        r@ == completed_report(
            program@,
            names::texts(args@),
            cwd@,
            exit_code,
            success,
            duration_ms,
            (stdout.0@, stdout.1),
            (stderr.0@, stderr.1),
        ),
{
    let diagnostics = diagnostics::summarize_diagnostics(stdout.0.as_str(), stderr.0.as_str());
    ExecutionOutput {
        program,
        args,
        cwd,
        exit_code,
        success,
        timed_out: false,
        duration_ms,
        stdout: stdout.0,
        stderr: stderr.0,
        stdout_truncated: stdout.1,
        stderr_truncated: stderr.1,
        diagnostics,
    }
}

/// The report of a command whose time was up.
pub fn timed_out_output(
    program: String,
    args: Vec<String>,
    cwd: String,
    timeout_ms: u64,
    duration_ms: u128,
) -> (r: ExecutionOutput)
    ensures
        r@ == timed_out_report(program@, names::texts(args@), cwd@, timeout_ms, duration_ms),
{
    let mut message = "process exceeded timeout of ".to_owned();
    message.append(text::decimal_text(timeout_ms).as_str());
    message.append(" ms; the direct child was terminated");
    let mut highlights: Vec<String> = Vec::new();
    highlights.push(message.clone());
    assert(names::texts(highlights@) == seq![timeout_message(timeout_ms)]);
    ExecutionOutput {
        program,
        args,
        cwd,
        exit_code: None,
        success: false,
        timed_out: true,
        duration_ms,
        stdout: String::new(),
        stderr: message,
        stdout_truncated: false,
        stderr_truncated: false,
        diagnostics: DiagnosticSummary {
            error_lines: 1,
            warning_lines: 0,
            failure_lines: 1,
            highlights,
        },
    }
}

impl ExecServer {
    /// The report of a command, from how it ended.
    pub fn report_process(&self, process: ProcessRequest, outcome: ProcessOutcome) -> (r: Result<
        ExecutionOutput,
        String,
    >)
        ensures
            told_report(r) == process_report(
                self.workspace_root@,
                self.max_output_bytes as nat,
                process@,
                outcome,
            ),
            outcome is Completed ==> (r matches Ok(o) ==> {
                &&& limits::utf8_len(o.stdout@) <= 3 * self.max_output_bytes + 32
                &&& limits::utf8_len(o.stderr@) <= 3 * self.max_output_bytes + 32
            }),
            outcome matches ProcessOutcome::Completed { stdout, stderr, .. } ==> {
                &&& output::reads_utf8(
                    output::kept_bytes(stdout@, self.max_output_bytes as nat),
                )
                &&& output::reads_utf8(
                    output::kept_bytes(stderr@, self.max_output_bytes as nat),
                )
            },
            r is Ok ==> server::reads_relative(self.workspace_root@, process.cwd@),
    {
        let cwd = self.relative_display(&process.cwd);
        match outcome {
            ProcessOutcome::SpawnFailed(e) => {
                let mut message = "failed to start `".to_owned();
                message.append(process.program.as_str());
                message.append("`: ");
                message.append(e.as_str());
                Err(message)
            },
            ProcessOutcome::StdinFailed(e) => {
                let mut message = "failed to write child stdin: ".to_owned();
                message.append(e.as_str());
                Err(message)
            },
            ProcessOutcome::WaitFailed(e) => {
                let mut message = "failed while waiting for `".to_owned();
                message.append(process.program.as_str());
                message.append("`: ");
                message.append(e.as_str());
                Err(message)
            },
            ProcessOutcome::Completed { exit_code, success, duration_ms, stdout, stderr } => {
                let out = output::bounded_utf8(stdout, self.max_output_bytes);
                let err = output::bounded_utf8(stderr, self.max_output_bytes);
                Ok(
                    completed_output(
                        process.program,
                        process.args,
                        cwd,
                        exit_code,
                        success,
                        duration_ms,
                        out,
                        err,
                    ),
                )
            },
            ProcessOutcome::TimedOut { duration_ms } => {
                Ok(
                    timed_out_output(
                        process.program,
                        process.args,
                        cwd,
                        process.timeout_ms,
                        duration_ms,
                    ),
                )
            },
        }
    }
}

/// A command whose time was up is reported as failed and timed out, without an
/// exit code, with one failure, and with what is said of it as the highlight.
pub proof fn law_timeouts_are_failures(
    root: Seq<Seq<u8>>,
    max_output_bytes: nat,
    process: Process,
    duration_ms: u128,
)
    ensures
        process_report(
            root,
            max_output_bytes,
            process,
            ProcessOutcome::TimedOut { duration_ms },
        ) matches Ok(r) && !r.success && r.timed_out && r.exit_code is None
            && r.diagnostics.failure_lines == 1 && r.diagnostics.highlights == seq![r.stderr],
{
}

// ---------------------------------------------------------------------------
// What holds of every request and report
// ---------------------------------------------------------------------------

/// What a request brings passes exactly where it has at most 1024 arguments,
/// each of at most 65536 bytes and without NUL, an input of at most 1048576 bytes
/// without NUL, and proper variables. What is told first is the number of
/// arguments, then the arguments, then the input, then the variables.
pub proof fn law_contents_of_a_request(request: Request)
    ensures
        contents_check(request) is Ok <==> {
            &&& request.args.len() <= 1024
            &&& forall|k: int|
                0 <= k < request.args.len() ==> encode_utf8(#[trigger] request.args[k]).len()
                    <= 65536 && !request.args[k].contains('\0')
            &&& request.stdin matches Some(s) ==> encode_utf8(s).len() <= 1048576 && !s.contains(
                '\0',
            )
            &&& environment::environment_check(request.env) is Ok
        },
        request.args.len() > 1024 ==> contents_check(request) == Err::<(), Seq<char>>(
            "too many arguments; maximum is "@ + text::decimal(1024),
        ),
        request.args.len() <= 1024 && !(forall|k: int|
            0 <= k < request.args.len() ==> encode_utf8(#[trigger] request.args[k]).len() <= 65536
                && !request.args[k].contains('\0')) ==> contents_check(request) == Err::<
            (),
            Seq<char>,
        >(
            "each argument must be at most "@ + text::decimal(65536)
                + " bytes and must not contain NUL"@,
        ),
{
}

/// A request is started exactly where what it brings passes, its directory
/// resolves to one in the workspace, its program is a bare name or resolves to a
/// file in the workspace, and its time limit is between one and the maximum. The
/// command then has the arguments, input and variables of the request as they
/// are.
pub proof fn law_requests_are_started(
    server: ExecServer,
    request: Request,
    directory: server::Lookup,
    executable: server::Lookup,
)
    ensures
        ({
            let root = server.workspace_root@;
            let raw = match request.cwd {
                Some(cwd) => cwd,
                None => seq!['.'],
            };
            let limit = match request.timeout_ms {
                Some(ms) => ms,
                None => server.default_timeout_ms,
            };
            let r = admission(server, request, directory, executable);
            &&& r is Ok <==> {
                &&& contents_check(request) is Ok
                &&& paths::cleaned_dir(raw) is Ok
                &&& (directory matches server::Lookup::Found { path, is_dir, .. } && is_dir
                    && root.is_prefix_of(path))
                &&& server::program_check(request.program) is Ok
                &&& (server::program_check(request.program)->Ok_0 is Relative ==> (
                executable matches server::Lookup::Found { path, is_file, .. } && is_file
                    && root.is_prefix_of(path)))
                &&& 1 <= limit <= server.max_timeout_ms
            }
            &&& r matches Ok(p) ==> {
                &&& p.args == request.args && p.stdin == request.stdin && p.env == request.env
                &&& p.cwd == directory->path
                &&& p.timeout_ms == limit
                &&& server::program_check(request.program)->Ok_0 is Named ==> p.program
                    == request.program
                &&& server::program_check(request.program)->Ok_0 is Relative ==> p.program
                    == output::utf8_lossy(resolved::path_bytes(executable->path))
            }
        }),
{
    let root = server.workspace_root@;
    reveal_strlit(".");
    assert("."@ == seq!['.']);
    server::law_working_directories(root, server::named_directory(request.cwd), directory);
    server::law_executables(root, request.program, executable);
}

/// A command that ended by itself is reported with its exit code, its success and
/// its duration as they are, its outputs each within the limit, and the
/// diagnostics of what is reported of them.
pub proof fn law_completed_commands_are_reported_as_they_ended(
    root: Seq<Seq<u8>>,
    limit: nat,
    process: Process,
    exit_code: Option<i32>,
    success: bool,
    duration_ms: u128,
    stdout: Vec<u8>,
    stderr: Vec<u8>,
)
    ensures
        process_report(
            root,
            limit,
            process,
            ProcessOutcome::Completed { exit_code, success, duration_ms, stdout, stderr },
        ) matches Ok(r) && {
            &&& r.program == process.program && r.args == process.args
            &&& r.cwd == server::relative_text(root, process.cwd)
            &&& r.exit_code == exit_code && r.success == success && r.duration_ms == duration_ms
            &&& !r.timed_out
            &&& r.stdout == output::bounded_text(stdout@, limit)
            &&& r.stderr == output::bounded_text(stderr@, limit)
            &&& r.stdout_truncated == (stdout@.len() > limit)
            &&& r.stderr_truncated == (stderr@.len() > limit)
            &&& r.diagnostics == diagnostics::summary_of(diagnostics::report(r.stdout, r.stderr))
        },
{
}

/// A command whose time was up is reported under its own name, with the limit and
/// how long it ran, as one error and one failure. A command that could not be
/// started, fed or waited for is told by its name and the error.
pub proof fn law_other_ends_are_told(
    root: Seq<Seq<u8>>,
    limit: nat,
    process: Process,
    duration_ms: u128,
    error: String,
)
    ensures
        process_report(root, limit, process, ProcessOutcome::TimedOut { duration_ms }) matches Ok(r)
            && {
            let told = "process exceeded timeout of "@ + text::decimal(process.timeout_ms as nat)
                + " ms; the direct child was terminated"@;
            &&& r.program == process.program && r.args == process.args
            &&& r.cwd == server::relative_text(root, process.cwd)
            &&& r.duration_ms == duration_ms
            &&& r.stdout.len() == 0 && r.stderr == told
            &&& !r.stdout_truncated && !r.stderr_truncated
            &&& r.diagnostics.error_lines == 1 && r.diagnostics.warning_lines == 0
            &&& r.diagnostics.failure_lines == 1 && r.diagnostics.highlights == seq![told]
        },
        process_report(root, limit, process, ProcessOutcome::SpawnFailed(error)) == Err::<
            Report,
            Seq<char>,
        >("failed to start `"@ + process.program + "`: "@ + error@),
        process_report(root, limit, process, ProcessOutcome::StdinFailed(error)) == Err::<
            Report,
            Seq<char>,
        >("failed to write child stdin: "@ + error@),
        process_report(root, limit, process, ProcessOutcome::WaitFailed(error)) == Err::<
            Report,
            Seq<char>,
        >("failed while waiting for `"@ + process.program + "`: "@ + error@),
{
}

} // verus!
