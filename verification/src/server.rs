//! The server: a workspace, and the bounds within which it runs commands.
use crate::limits;
use crate::names;
use crate::output;
use crate::paths;
use crate::resolved;
use crate::resolved::ResolvedPath;
use crate::text;
use vstd::prelude::*;
use vstd::string::*;
use vstd::utf8::{decode_utf8, encode_utf8, valid_utf8};

verus! {

/// How long a command may run where a request does not say.
pub const DEFAULT_TIMEOUT_MS: u64 = 120000;

/// How long a command may run at most, where the server is not told.
pub const DEFAULT_MAX_TIMEOUT_MS: u64 = 300000;

/// How many bytes of an output are kept, where the server is not told.
pub const DEFAULT_MAX_OUTPUT_BYTES: usize = 2097152;

/// A workspace and the bounds for commands that run in it.
#[derive(Debug)]
pub struct ExecServer {
    pub workspace_root: ResolvedPath,
    pub default_timeout_ms: u64,
    pub max_timeout_ms: u64,
    pub max_output_bytes: usize,
}

/// What looking up a path in the file system gave.
#[derive(Debug)]
pub enum PathLookup {
    /// The path could not be resolved; the error's message.
    Failed(String),
    /// The path it resolves to, and what is there.
    Found { path: ResolvedPath, is_dir: bool, is_file: bool },
}

/// What a lookup gave, as plain values.
pub enum Lookup {
    Failed(Seq<char>),
    Found { path: Seq<Seq<u8>>, is_dir: bool, is_file: bool },
}

impl View for PathLookup {
    type V = Lookup;

    open spec fn view(&self) -> Lookup {
        match self {
            PathLookup::Failed(e) => Lookup::Failed(e@),
            PathLookup::Found { path, is_dir, is_file } => Lookup::Found {
                path: path@,
                is_dir: *is_dir,
                is_file: *is_file,
            },
        }
    }
}

/// A message with a quoted name in it.
pub open spec fn quoting(before: Seq<char>, name: Seq<char>, after: Seq<char>) -> Seq<char> {
    before + name + after
}

fn quote(before: &str, name: &str, after: &str) -> (r: String)
    ensures
        r@ == quoting(before@, name@, after@),
{
    let mut r = before.to_owned();
    r.append(name);
    r.append(after);
    r
}

/// The path lies in the workspace.
pub open spec fn is_inside(root: Seq<Seq<u8>>, path: Seq<Seq<u8>>) -> bool {
    root.is_prefix_of(path)
}

// ---------------------------------------------------------------------------
// The server itself
// ---------------------------------------------------------------------------

/// What is wrong with the bounds of a server, if anything is.
pub open spec fn configuration_problem(
    is_dir: bool,
    default_timeout_ms: u64,
    max_timeout_ms: u64,
) -> Option<Seq<char>> {
    if !is_dir {
        Some("workspace root is not a directory"@)
    } else if max_timeout_ms == 0 {
        Some("max timeout must be greater than zero"@)
    } else if !(0 < default_timeout_ms <= max_timeout_ms) {
        Some("default timeout must be within 1..=max timeout"@)
    } else {
        None
    }
}

/// The check of a time limit that a request names.
pub open spec fn timeout_check(
    default_timeout_ms: u64,
    max_timeout_ms: u64,
    requested: Option<u64>,
) -> Result<u64, Seq<char>> {
    let value = match requested {
        Some(v) => v,
        None => default_timeout_ms,
    };
    if 0 < value <= max_timeout_ms {
        Ok(value)
    } else {
        Err(
            "timeout_ms must be within 1..="@ + text::decimal(max_timeout_ms as nat)
                + " (requested "@ + text::decimal(value as nat) + ")"@,
        )
    }
}

/// The bytes of a path below the workspace, relative to it.
pub open spec fn relative_bytes(root: Seq<Seq<u8>>, path: Seq<Seq<u8>>) -> Seq<u8> {
    text::join(path.skip(root.len() as int), resolved::SEPARATOR)
}

/// A path below the workspace whose bytes are valid UTF-8 is reported as the
/// text that they encode.
pub open spec fn reads_relative(root: Seq<Seq<u8>>, path: Seq<Seq<u8>>) -> bool {
    is_inside(root, path) && path.len() > root.len() ==> output::reads_utf8(
        relative_bytes(root, path),
    )
}

/// A path relative to the workspace, as it is reported: `.` for the workspace
/// itself and for what lies outside.
pub open spec fn relative_text(root: Seq<Seq<u8>>, path: Seq<Seq<u8>>) -> Seq<char> {
    if is_inside(root, path) && path.len() > root.len() {
        output::utf8_lossy(relative_bytes(root, path))
    } else {
        "."@
    }
}

impl ExecServer {
    /// The bounds make sense: there is time to run, the default time is
    /// allowed, and some output is kept.
    pub open spec fn wf(&self) -> bool {
        &&& 0 < self.default_timeout_ms <= self.max_timeout_ms
        &&& self.max_output_bytes > 0
    }

    /// A server for the workspace at `workspace_root`.
    pub fn new(
        workspace_root: ResolvedPath,
        is_dir: bool,
        default_timeout_ms: u64,
        max_timeout_ms: u64,
        max_output_bytes: usize,
    ) -> (r: Result<ExecServer, String>)
        ensures
            match r {
                Ok(server) => {
                    &&& configuration_problem(is_dir, default_timeout_ms, max_timeout_ms) is None
                    &&& server.wf()
                    &&& server.workspace_root == workspace_root
                    &&& server.default_timeout_ms == default_timeout_ms
                    &&& server.max_timeout_ms == max_timeout_ms
                    &&& server.max_output_bytes == if max_output_bytes == 0 {
                        1
                    } else {
                        max_output_bytes
                    }
                },
                Err(message) => configuration_problem(
                    is_dir,
                    default_timeout_ms,
                    max_timeout_ms,
                ) == Some(message@),
            },
    {
        if !is_dir {
            return Err("workspace root is not a directory".to_owned());
        }
        if max_timeout_ms == 0 {
            return Err("max timeout must be greater than zero".to_owned());
        }
        if !(default_timeout_ms > 0 && default_timeout_ms <= max_timeout_ms) {
            return Err("default timeout must be within 1..=max timeout".to_owned());
        }
        let kept: usize = if max_output_bytes == 0 {
            1
        } else {
            max_output_bytes
        };
        Ok(
            ExecServer {
                workspace_root,
                default_timeout_ms,
                max_timeout_ms,
                max_output_bytes: kept,
            },
        )
    }

    /// The time limit of a request: its own, or the default, within the
    /// maximum.
    pub fn validated_timeout(&self, requested: Option<u64>) -> (r: Result<u64, String>)
        ensures
            limits::told(r) == timeout_check(
                self.default_timeout_ms,
                self.max_timeout_ms,
                requested,
            ),
    {
        let value: u64 = match requested {
            Some(v) => v,
            None => self.default_timeout_ms,
        };
        if value == 0 || value > self.max_timeout_ms {
            let mut message = "timeout_ms must be within 1..=".to_owned();
            message.append(text::decimal_text(self.max_timeout_ms).as_str());
            message.append(" (requested ");
            message.append(text::decimal_text(value).as_str());
            message.append(")");
            return Err(message);
        }
        Ok(value)
    }

    /// A path relative to the workspace, as it is reported.
    pub fn relative_display(&self, path: &ResolvedPath) -> (r: String)
        ensures
            r@ == relative_text(self.workspace_root@, path@),
            is_inside(self.workspace_root@, path@) && path@.len() > self.workspace_root@.len()
                && valid_utf8(relative_bytes(self.workspace_root@, path@)) ==> r@ == decode_utf8(
                relative_bytes(self.workspace_root@, path@),
            ),
    {
        let n = self.workspace_root.depth();
        if path.is_within(&self.workspace_root) && path.depth() > n {
            path.display_after(n)
        } else {
            ".".to_owned()
        }
    }
}

/// A server with sensible bounds grants every request that names no time limit
/// the default one.
pub proof fn law_default_timeout_is_granted(server: ExecServer)
    requires
        server.wf(),
    ensures
        timeout_check(server.default_timeout_ms, server.max_timeout_ms, None) == Ok::<
            u64,
            Seq<char>,
        >(server.default_timeout_ms),
{
}

// ---------------------------------------------------------------------------
// Where requests are looked up
// ---------------------------------------------------------------------------

/// Where a path that is relative to the workspace leads.
pub open spec fn location(root: Seq<Seq<u8>>, path: Seq<char>) -> Seq<Seq<u8>> {
    root + resolved::step_names(path)
}

impl ExecServer {
    /// Where the path of a working directory is looked up: below the workspace.
    pub fn directory_location(&self, path: &str) -> (r: ResolvedPath)
        ensures
            r@ == location(self.workspace_root@, path@),
    {
        self.workspace_root.below(path)
    }

    /// Where the path of an executable is looked up: below the workspace,
    /// whatever the working directory is.
    pub fn executable_location(&self, path: &str) -> (r: ResolvedPath)
        ensures
            r@ == location(self.workspace_root@, path@),
    {
        self.workspace_root.below(path)
    }
}

// ---------------------------------------------------------------------------
// Working directories
// ---------------------------------------------------------------------------

/// The directory that a request names, `.` where it names none.
pub open spec fn named_directory(cwd: Option<Seq<char>>) -> Seq<char> {
    match cwd {
        Some(raw) => raw,
        None => "."@,
    }
}

/// The text of an optional string slice.
pub open spec fn optional_str(s: Option<&str>) -> Option<Seq<char>> {
    match s {
        Some(t) => Some(t@),
        None => None,
    }
}

/// The path below the workspace to look up for the directory that a request
/// names.
pub fn requested_directory(cwd: Option<&str>) -> (r: Result<String, String>)
    ensures
        limits::told_text(r) == paths::cleaned_dir(named_directory(optional_str(cwd))),
{
    let raw: &str = match cwd {
        Some(raw) => raw,
        None => ".",
    };
    paths::clean_relative_dir(raw)
}

/// The working directory of a request, given what looking it up gave.
pub open spec fn directory_check(
    root: Seq<Seq<u8>>,
    raw: Seq<char>,
    lookup: Lookup,
) -> Result<Seq<Seq<u8>>, Seq<char>> {
    match paths::cleaned_dir(raw) {
        Err(e) => Err(e),
        Ok(_) => match lookup {
            Lookup::Failed(e) => Err(
                quoting("cannot resolve working directory `"@, raw, "`: "@) + e,
            ),
            Lookup::Found { path, is_dir, .. } => if !is_dir {
                Err(quoting("working directory is not a directory: `"@, raw, "`"@))
            } else if !is_inside(root, path) {
                Err(
                    quoting(
                        "working directory resolves outside the configured workspace: `"@,
                        raw,
                        "`"@,
                    ),
                )
            } else {
                Ok(path)
            },
        },
    }
}

/// A result with its path and message as plain values.
pub open spec fn told_path(r: Result<ResolvedPath, String>) -> Result<Seq<Seq<u8>>, Seq<char>> {
    match r {
        Ok(p) => Ok(p@),
        Err(e) => Err(e@),
    }
}

impl ExecServer {
    /// The working directory of a request: the directory it names, which must
    /// resolve inside the workspace. `lookup` is what looking up the path of
    /// `requested_directory` below the workspace gave.
    pub fn resolve_cwd(&self, cwd: Option<&str>, lookup: PathLookup) -> (r: Result<
        ResolvedPath,
        String,
    >)
        ensures
            told_path(r) == directory_check(
                self.workspace_root@,
                named_directory(optional_str(cwd)),
                lookup@,
            ),
    {
        let raw: &str = match cwd {
            Some(raw) => raw,
            None => ".",
        };
        match paths::clean_relative_dir(raw) {
            Err(e) => {
                return Err(e);
            },
            Ok(_) => {},
        }
        match lookup {
            PathLookup::Failed(e) => {
                let mut message = quote("cannot resolve working directory `", raw, "`: ");
                message.append(e.as_str());
                Err(message)
            },
            PathLookup::Found { path, is_dir, is_file: _ } => {
                if !is_dir {
                    return Err(quote("working directory is not a directory: `", raw, "`"));
                }
                if !path.is_within(&self.workspace_root) {
                    return Err(
                        quote(
                            "working directory resolves outside the configured workspace: `",
                            raw,
                            "`",
                        ),
                    );
                }
                Ok(path)
            },
        }
    }
}

/// A working directory that was accepted lies in the workspace, whatever the
/// file system answered.
pub proof fn law_working_directory_is_inside(
    root: Seq<Seq<u8>>,
    raw: Seq<char>,
    lookup: Lookup,
)
    requires
        directory_check(root, raw, lookup) is Ok,
    ensures
        is_inside(root, directory_check(root, raw, lookup)->Ok_0),
        paths::cleaned_dir(raw) is Ok,
{
}

// ---------------------------------------------------------------------------
// Programs
// ---------------------------------------------------------------------------

/// The programs that are never run directly: shells, and programs that change
/// the user or the environment.
pub open spec fn blocked_programs() -> Seq<Seq<char>> {
    seq![
        "sh"@,
        "bash"@,
        "zsh"@,
        "fish"@,
        "dash"@,
        "ksh"@,
        "csh"@,
        "tcsh"@,
        "powershell"@,
        "pwsh"@,
        "cmd"@,
        "sudo"@,
        "su"@,
        "doas"@,
        "env"@,
    ]
}

/// How a program is named: by a name to be found on the search path, or by a
/// path relative to the workspace.
#[derive(Debug)]
pub enum ProgramRequest {
    Named(String),
    Relative(String),
}

/// How a program is named, as plain text.
pub enum ProgramName {
    Named(Seq<char>),
    Relative(Seq<char>),
}

impl View for ProgramRequest {
    type V = ProgramName;

    open spec fn view(&self) -> ProgramName {
        match self {
            ProgramRequest::Named(n) => ProgramName::Named(n@),
            ProgramRequest::Relative(p) => ProgramName::Relative(p@),
        }
    }
}

/// What is said of a blocked program.
pub open spec fn blocked_message(leaf: Seq<char>) -> Seq<char> {
    quoting(
        "direct shell/privilege program `"@,
        leaf,
        "` is blocked; invoke a concrete development tool with an argument vector instead"@,
    )
}

/// How a request names its program, or why it is refused.
pub open spec fn program_check(program: Seq<char>) -> Result<ProgramName, Seq<char>> {
    match limits::line_text_check("program"@, program, limits::MAX_PATH_BYTES as nat) {
        Err(e) => Err(e),
        Ok(_) => if program[0] == '-' {
            Err("program must not start with '-'"@)
        } else {
            match paths::file_name(program) {
                None => Err("program must be valid UTF-8"@),
                Some(leaf) => if blocked_programs().contains(leaf) {
                    Err(blocked_message(leaf))
                } else if paths::is_absolute(program) {
                    Err("absolute executable paths are not allowed"@)
                } else if program.contains('/') || program.contains('\\') {
                    match paths::cleaned_path(program) {
                        Ok(path) => Ok(ProgramName::Relative(path)),
                        Err(e) => Err(e),
                    }
                } else {
                    Ok(ProgramName::Named(program))
                },
            }
        },
    }
}

/// A result with the program and message as plain text.
pub open spec fn told_program(r: Result<ProgramRequest, String>) -> Result<
    ProgramName,
    Seq<char>,
> {
    match r {
        Ok(p) => Ok(p@),
        Err(e) => Err(e@),
    }
}

fn is_blocked(leaf: &str) -> (r: bool)
    ensures
        r == blocked_programs().contains(leaf@),
{
    let blocked: [&str; 15] = [
        "sh",
        "bash",
        "zsh",
        "fish",
        "dash",
        "ksh",
        "csh",
        "tcsh",
        "powershell",
        "pwsh",
        "cmd",
        "sudo",
        "su",
        "doas",
        "env",
    ];
    assert(names::str_texts(blocked@) == blocked_programs());
    names::has_str(&blocked, leaf)
}

/// How a request names its program. Shells, absolute paths and paths that
/// climb are refused.
pub fn requested_program(program: &str) -> (r: Result<ProgramRequest, String>)
    ensures
        told_program(r) == program_check(program@),
{
    match limits::validate_nonempty_text("program", program, limits::MAX_PATH_BYTES) {
        Err(e) => {
            return Err(e);
        },
        Ok(_) => {},
    }
    let chars = text::chars_of(program);
    if chars[0] == '-' {
        return Err("program must not start with '-'".to_owned());
    }
    match paths::file_name_of(program) {
        None => {
            return Err("program must be valid UTF-8".to_owned());
        },
        Some(leaf) => {
            if is_blocked(leaf.as_str()) {
                return Err(
                    quote(
                        "direct shell/privilege program `",
                        leaf.as_str(),
                        "` is blocked; invoke a concrete development tool with an argument vector instead",
                    ),
                );
            }
        },
    }
    if paths::absolute(program) {
        return Err("absolute executable paths are not allowed".to_owned());
    }
    if text::has_char(chars.as_slice(), '/') || text::has_char(chars.as_slice(), '\\') {
        return match paths::clean_relative_path(program) {
            Ok(path) => Ok(ProgramRequest::Relative(path)),
            Err(e) => Err(e),
        };
    }
    Ok(ProgramRequest::Named(program.to_owned()))
}

impl ExecServer {
    /// Where the executable of a request is looked up, where the program is
    /// named by a path.
    pub fn executable_to_look_up(&self, program: &str) -> (r: Result<Option<ResolvedPath>, String>)
        ensures
            match (r, program_check(program@)) {
                (Ok(None), Ok(ProgramName::Named(_))) => true,
                (Ok(Some(place)), Ok(ProgramName::Relative(path))) => place@ == location(
                    self.workspace_root@,
                    path,
                ),
                (Err(message), Err(e)) => message@ == e,
                _ => false,
            },
    {
        match requested_program(program) {
            Err(e) => Err(e),
            Ok(ProgramRequest::Named(_)) => Ok(None),
            Ok(ProgramRequest::Relative(path)) => Ok(Some(self.executable_location(path.as_str()))),
        }
    }
}

/// An executable that is named by a path is sought below the workspace, along
/// the steps of that path, and never in a place outside it.
pub proof fn law_executables_are_sought_in_the_workspace(root: Seq<Seq<u8>>, program: Seq<char>)
    requires
        program_check(program) is Ok,
        program_check(program)->Ok_0 is Relative,
    ensures
        ({
            let path = program_check(program)->Ok_0->Relative_0;
            &&& location(root, path) == root + resolved::step_names(program)
            &&& is_inside(root, location(root, path))
            &&& location(root, path).len() > root.len()
            &&& !paths::steps(path).contains(paths::parent_step())
        }),
{
    paths::law_cleaned_path_leads_down(program);
    let path = program_check(program)->Ok_0->Relative_0;
    assert(location(root, path).subrange(0, root.len() as int) == root);
}

/// A directory that is named by a path is sought in the workspace.
pub proof fn law_directories_are_sought_in_the_workspace(root: Seq<Seq<u8>>, raw: Seq<char>)
    requires
        paths::cleaned_dir(raw) is Ok,
    ensures
        location(root, paths::cleaned_dir(raw)->Ok_0) == root + resolved::step_names(raw),
        is_inside(root, location(root, paths::cleaned_dir(raw)->Ok_0)),
{
    if raw != seq!['.'] {
        paths::law_cleaned_path_leads_down(raw);
    }
    let path = paths::cleaned_dir(raw)->Ok_0;
    assert(location(root, path).subrange(0, root.len() as int) == root);
}

/// The executable of a request, given what looking it up gave where it is named
/// by a path.
pub open spec fn executable_check(
    root: Seq<Seq<u8>>,
    program: Seq<char>,
    lookup: Lookup,
) -> Result<Seq<char>, Seq<char>> {
    match program_check(program) {
        Err(e) => Err(e),
        Ok(ProgramName::Named(name)) => Ok(name),
        Ok(ProgramName::Relative(_)) => match lookup {
            Lookup::Failed(e) => Err(
                quoting("cannot resolve executable `"@, program, "`: "@) + e,
            ),
            Lookup::Found { path, is_file, .. } => if !is_inside(root, path) {
                Err(
                    quoting(
                        "executable resolves outside the configured workspace: `"@,
                        program,
                        "`"@,
                    ),
                )
            } else if !is_file {
                Err(quoting("executable is not a file: `"@, program, "`"@))
            } else {
                Ok(output::utf8_lossy(resolved::path_bytes(path)))
            },
        },
    }
}

impl ExecServer {
    /// The executable of a request: its name, or the file in the workspace that
    /// its path resolves to. `lookup` is what looking up the place of
    /// `executable_to_look_up` gave; it is read only where there is one.
    pub fn validate_program(&self, program: &str, lookup: &PathLookup) -> (r: Result<
        String,
        String,
    >)
        ensures
            limits::told_text(r) == executable_check(self.workspace_root@, program@, lookup@),
            r is Ok && program_check(program@)->Ok_0 is Relative ==> output::reads_utf8(
                resolved::path_bytes(lookup@->path),
            ),
    {
        match requested_program(program) {
            Err(e) => Err(e),
            Ok(ProgramRequest::Named(name)) => Ok(name),
            Ok(ProgramRequest::Relative(_)) => match lookup {
                PathLookup::Failed(e) => {
                    let mut message = quote("cannot resolve executable `", program, "`: ");
                    message.append(e.as_str());
                    Err(message)
                },
                PathLookup::Found { path, is_dir: _, is_file } => {
                    if !path.is_within(&self.workspace_root) {
                        return Err(
                            quote(
                                "executable resolves outside the configured workspace: `",
                                program,
                                "`",
                            ),
                        );
                    }
                    if !*is_file {
                        return Err(quote("executable is not a file: `", program, "`"));
                    }
                    Ok(path.display())
                },
            },
        }
    }
}

/// A program that was accepted is a bare name that is not blocked, or a file in
/// the workspace, reached by a path that is relative and never climbs and whose
/// file name is not blocked.
pub proof fn law_program_is_admissible(root: Seq<Seq<u8>>, program: Seq<char>, lookup: Lookup)
    requires
        executable_check(root, program, lookup) is Ok,
    ensures
        paths::file_name(program) matches Some(leaf) && !blocked_programs().contains(leaf),
        program.len() != 0 && program[0] != '-',
        !paths::is_absolute(program),
        !paths::steps(program).contains(paths::parent_step()),
        ({
            ||| executable_check(root, program, lookup)->Ok_0 == program && !program.contains('/')
                && !program.contains('\\')
            ||| lookup matches Lookup::Found { path, is_file, .. } && is_file && is_inside(
                root,
                path,
            ) && executable_check(root, program, lookup)->Ok_0 == output::utf8_lossy(
                resolved::path_bytes(path),
            )
        }),
{
    match program_check(program)->Ok_0 {
        ProgramName::Named(_) => {
            text::lemma_split_without(program, '/');
            let p = |s: Seq<char>| paths::is_step(s);
            text::lemma_filter_contains(
                text::split(program, '/'),
                p,
                paths::parent_step(),
            );
            if paths::steps(program).contains(paths::parent_step()) {
                assert(text::split(program, '/')[0] == program);
                assert(program == paths::parent_step());
                reveal(Seq::filter);
                text::lemma_filter_all(text::split(program, '/'), p);
                assert(paths::steps(program).last() == paths::parent_step());
            }
        },
        ProgramName::Relative(_) => {
            paths::law_cleaned_path_leads_down(program);
        },
    }
}

// ---------------------------------------------------------------------------
// What holds of every request
// ---------------------------------------------------------------------------

/// The programs that are never run directly are these fifteen, and no others.
pub proof fn law_blocked_programs(name: Seq<char>)
    ensures
        blocked_programs().contains(name) <==> {
            ||| name == "sh"@ || name == "bash"@ || name == "zsh"@ || name == "fish"@
            ||| name == "dash"@ || name == "ksh"@ || name == "csh"@ || name == "tcsh"@
            ||| name == "powershell"@ || name == "pwsh"@ || name == "cmd"@
            ||| name == "sudo"@ || name == "su"@ || name == "doas"@ || name == "env"@
        },
{
    let list = blocked_programs();
    assert(list[0] == "sh"@ && list[1] == "bash"@ && list[2] == "zsh"@ && list[3] == "fish"@);
    assert(list[4] == "dash"@ && list[5] == "ksh"@ && list[6] == "csh"@ && list[7] == "tcsh"@);
    assert(list[8] == "powershell"@ && list[9] == "pwsh"@ && list[10] == "cmd"@);
    assert(list[11] == "sudo"@ && list[12] == "su"@ && list[13] == "doas"@ && list[14] == "env"@);
}

/// A program without separators is accepted, as it is named, exactly where it is
/// not empty, takes at most 4096 bytes, holds neither NUL nor CR, does not begin
/// with a hyphen, is neither `.` nor `..`, and is not blocked. What else its name
/// holds does not matter.
pub proof fn law_bare_programs_are_accepted(program: Seq<char>)
    requires
        forall|i: int|
            0 <= i < program.len() ==> #[trigger] program[i] != '/' && program[i] != '\\',
    ensures
        program_check(program) is Ok <==> {
            &&& program.len() > 0 && encode_utf8(program).len() <= 4096
            &&& forall|i: int|
                0 <= i < program.len() ==> #[trigger] program[i] != '\0' && program[i] != '\r'
            &&& program[0] != '-'
            &&& program != seq!['.'] && program != seq!['.', '.']
            &&& !blocked_programs().contains(program)
        },
        program_check(program) matches Ok(name) ==> name == ProgramName::Named(program),
{
    limits::law_line_texts("program"@, program, 4096);
    assert(!program.contains('/') && !program.contains('\\'));
    paths::law_segments_are_steps(program);
    if program.len() > 0 && program != seq!['.'] {
        assert(paths::steps(program).last() == program);
    }
}

/// A program with a separator in it is accepted exactly where it is a proper
/// text, begins with neither a hyphen nor a separator, has no step to a parent,
/// and its file name is not blocked; it then is sought along its steps.
pub proof fn law_relative_programs_are_accepted(program: Seq<char>)
    requires
        program.contains('/') || program.contains('\\'),
    ensures
        program_check(program) is Ok <==> {
            &&& encode_utf8(program).len() <= 4096
            &&& forall|i: int|
                0 <= i < program.len() ==> #[trigger] program[i] != '\0' && program[i] != '\r'
            &&& program[0] != '-' && program[0] != '/'
            &&& paths::steps(program).len() > 0
            &&& forall|k: int|
                0 <= k < paths::steps(program).len() ==> #[trigger] paths::steps(program)[k]
                    != seq!['.', '.']
            &&& !blocked_programs().contains(paths::steps(program).last())
        },
        program_check(program) matches Ok(name) ==> name == ProgramName::Relative(
            text::join(paths::steps(program), '/'),
        ),
{
    limits::law_line_texts("program"@, program, 4096);
    limits::law_line_texts("path"@, program, 4096);
    paths::law_paths_are_accepted(program);
    let list = paths::steps(program);
    if list.len() > 0 {
        assert(list[list.len() - 1] == list.last());
    }
}

/// A program that is refused is told why: by its text first, then for a hyphen
/// in front, for having no file name, for being blocked, for where it starts,
/// and for its steps.
pub proof fn law_refused_programs_are_told_why(program: Seq<char>)
    ensures
        ({
            let refused = |e: Seq<char>| program_check(program) == Err::<ProgramName, Seq<char>>(e);
            match limits::line_text_check("program"@, program, 4096) {
                Err(e) => refused(e),
                Ok(_) => {
                    &&& program[0] == '-' ==> refused("program must not start with '-'"@)
                    &&& program[0] != '-' ==> match paths::file_name(program) {
                        None => refused("program must be valid UTF-8"@),
                        Some(leaf) => {
                            let blocked = blocked_programs().contains(leaf);
                            &&& blocked ==> refused(
                                "direct shell/privilege program `"@ + leaf
                                    + "` is blocked; invoke a concrete development tool with an argument vector instead"@,
                            )
                            &&& !blocked && program[0] == '/' ==> refused(
                                "absolute executable paths are not allowed"@,
                            )
                            &&& !blocked && program[0] != '/' && (program.contains('/')
                                || program.contains('\\')) && paths::cleaned_path(
                                program,
                            ) is Err ==> refused(paths::cleaned_path(program)->Err_0)
                        },
                    }
                },
            }
        }),
{
    limits::law_line_texts("program"@, program, 4096);
}

/// The executable of a request that names a path is accepted exactly where the
/// path is, and resolves to a file in the workspace; it is then run as it
/// resolved. One that is named is run as it is named, whatever the file system
/// says.
pub proof fn law_executables(root: Seq<Seq<u8>>, program: Seq<char>, lookup: Lookup)
    ensures
        program_check(program) matches Ok(ProgramName::Named(name)) ==> executable_check(
            root,
            program,
            lookup,
        ) == Ok::<Seq<char>, Seq<char>>(name),
        program_check(program) matches Err(e) ==> executable_check(root, program, lookup) == Err::<
            Seq<char>,
            Seq<char>,
        >(e),
        program_check(program) is Ok && program_check(program)->Ok_0 is Relative ==> match lookup {
            Lookup::Failed(e) => executable_check(root, program, lookup) == Err::<
                Seq<char>,
                Seq<char>,
            >("cannot resolve executable `"@ + program + "`: "@ + e),
            Lookup::Found { path, is_file, .. } => {
                &&& executable_check(root, program, lookup) is Ok <==> root.is_prefix_of(path)
                    && is_file
                &&& executable_check(root, program, lookup) matches Ok(text) ==> text
                    == output::utf8_lossy(resolved::path_bytes(path))
                &&& !root.is_prefix_of(path) ==> executable_check(root, program, lookup) == Err::<
                    Seq<char>,
                    Seq<char>,
                >("executable resolves outside the configured workspace: `"@ + program + "`"@)
                &&& root.is_prefix_of(path) && !is_file ==> executable_check(root, program, lookup)
                    == Err::<Seq<char>, Seq<char>>("executable is not a file: `"@ + program + "`"@)
            },
        },
{
}

/// A working directory is accepted exactly where its path is, and it resolves to
/// a directory that the workspace is a prefix of; it is then what it resolved
/// to.
pub proof fn law_working_directories(root: Seq<Seq<u8>>, raw: Seq<char>, lookup: Lookup)
    ensures
        directory_check(root, raw, lookup) is Ok <==> paths::cleaned_dir(raw) is Ok && (
        lookup matches Lookup::Found { path, is_dir, .. } && is_dir && root.is_prefix_of(path)),
        directory_check(root, raw, lookup) matches Ok(cwd) ==> cwd == lookup->path,
        paths::cleaned_dir(raw) matches Err(e) ==> directory_check(root, raw, lookup) == Err::<
            Seq<Seq<u8>>,
            Seq<char>,
        >(e),
        paths::cleaned_dir(raw) is Ok ==> match lookup {
            Lookup::Failed(e) => directory_check(root, raw, lookup) == Err::<
                Seq<Seq<u8>>,
                Seq<char>,
            >("cannot resolve working directory `"@ + raw + "`: "@ + e),
            Lookup::Found { path, is_dir, .. } => {
                &&& !is_dir ==> directory_check(root, raw, lookup) == Err::<
                    Seq<Seq<u8>>,
                    Seq<char>,
                >("working directory is not a directory: `"@ + raw + "`"@)
                &&& is_dir && !root.is_prefix_of(path) ==> directory_check(root, raw, lookup)
                    == Err::<Seq<Seq<u8>>, Seq<char>>(
                    "working directory resolves outside the configured workspace: `"@ + raw + "`"@,
                )
            },
        },
        named_directory(None) == seq!['.'],
        named_directory(Some(raw)) == raw,
{
    reveal_strlit(".");
    assert("."@ == seq!['.']);
}

/// A time limit is granted exactly where it lies between one and the maximum,
/// and as it was asked for; the default stands for one that was not asked for.
pub proof fn law_time_limits(default_timeout_ms: u64, max_timeout_ms: u64, requested: u64)
    ensures
        timeout_check(default_timeout_ms, max_timeout_ms, Some(requested)) is Ok <==> 1
            <= requested <= max_timeout_ms,
        timeout_check(default_timeout_ms, max_timeout_ms, Some(requested)) matches Ok(granted)
            ==> granted == requested,
        timeout_check(default_timeout_ms, max_timeout_ms, Some(requested)) matches Err(e) ==> e
            == "timeout_ms must be within 1..="@ + text::decimal(max_timeout_ms as nat)
            + " (requested "@ + text::decimal(requested as nat) + ")"@,
        timeout_check(default_timeout_ms, max_timeout_ms, None) == timeout_check(
            default_timeout_ms,
            max_timeout_ms,
            Some(default_timeout_ms),
        ),
{
}

/// A server is made exactly where the workspace is a directory and the default
/// time is at least one and within the maximum.
pub proof fn law_servers_have_sensible_bounds(
    is_dir: bool,
    default_timeout_ms: u64,
    max_timeout_ms: u64,
)
    ensures
        configuration_problem(is_dir, default_timeout_ms, max_timeout_ms) is None <==> is_dir && 1
            <= default_timeout_ms <= max_timeout_ms,
{
}

/// A path is reported by the names that lead to it from the workspace, with a
/// separator between each two; the workspace itself and what lies elsewhere is
/// reported as a dot.
pub proof fn law_paths_are_reported_from_the_workspace(
    root: Seq<Seq<u8>>,
    below: Seq<Seq<u8>>,
    elsewhere: Seq<Seq<u8>>,
)
    ensures
        below.len() > 0 ==> relative_text(root, root + below) == output::utf8_lossy(
            text::join(below, 47u8),
        ),
        relative_text(root, root) == seq!['.'],
        !root.is_prefix_of(elsewhere) ==> relative_text(root, elsewhere) == seq!['.'],
{
    reveal_strlit(".");
    assert("."@ == seq!['.']);
    let path = root + below;
    assert(path.subrange(0, root.len() as int) == root);
    assert(path.skip(root.len() as int) == below);
}

/// A path leads below the workspace by one name for each of its steps: the bytes
/// of the step.
pub proof fn law_paths_lead_below_the_workspace(root: Seq<Seq<u8>>, path: Seq<char>, k: int)
    requires
        0 <= k < paths::steps(path).len(),
    ensures
        location(root, path).len() == root.len() + paths::steps(path).len(),
        root.is_prefix_of(location(root, path)),
        location(root, path)[root.len() + k] == encode_utf8(paths::steps(path)[k]),
{
    assert(location(root, path).subrange(0, root.len() as int) == root);
}

/// A server that is not told otherwise lets a command run for two minutes where
/// the request does not say, for five at most, and keeps two mebibytes of each
/// output; these defaults make sense together.
pub proof fn law_default_bounds()
    ensures
        DEFAULT_TIMEOUT_MS == 2 * 60 * 1000,
        DEFAULT_MAX_TIMEOUT_MS == 5 * 60 * 1000,
        DEFAULT_MAX_OUTPUT_BYTES == 2 * 1024 * 1024,
        configuration_problem(true, DEFAULT_TIMEOUT_MS, DEFAULT_MAX_TIMEOUT_MS) is None,
{
}

} // verus!
