use rust_mcp_exec::environment::{child_environment, validate_env, Assignment, Environment};
use rust_mcp_exec::execution::{
    check_contents, directory_to_look_up, ExecuteArgs, ProcessOutcome, ProcessRequest,
};
use rust_mcp_exec::limits::{bounded, byte_len, validate_argument, validate_nonempty_text};
use rust_mcp_exec::output::{bounded_utf8, mark_truncation};
use rust_mcp_exec::paths::{
    absolute, clean_relative_dir, clean_relative_path, file_name_of, step_texts,
};
use rust_mcp_exec::resolved::ResolvedPath;
use rust_mcp_exec::server::{
    requested_directory, requested_program, ExecServer, PathLookup, ProgramRequest,
};
use std::path::{Path, PathBuf};

const SAMPLES: &[&str] = &[
    ".",
    "..",
    "a",
    "a/b",
    "./a",
    "a/./b",
    "a//b/",
    "a/.",
    "../a",
    "a/..",
    "a/../b",
    "/",
    "/a",
    "//a/b",
    "./",
    "././.",
    "a b/c",
    "...",
    ".a/..b",
    "a\\b",
    "\u{e9}/x",
];

fn path(text: &str) -> ResolvedPath {
    ResolvedPath::from_bytes(text.as_bytes())
}

fn server() -> ExecServer {
    ExecServer::new(path("/work/space"), true, 1000, 2000, 10).unwrap()
}

fn found(text: &str, is_dir: bool, is_file: bool) -> PathLookup {
    PathLookup::Found { path: path(text), is_dir, is_file }
}

fn failed(text: &str) -> PathLookup {
    PathLookup::Failed(text.to_string())
}

fn args(program: &str) -> ExecuteArgs {
    ExecuteArgs {
        program: program.to_string(),
        args: vec![],
        cwd: None,
        timeout_ms: None,
        stdin: None,
        env: Environment::new(),
    }
}

#[test]
fn path_validation_blocks_escape() {
    assert_eq!(PathBuf::from(clean_relative_dir(".").unwrap()), PathBuf::from("."));
    assert_eq!(
        PathBuf::from(clean_relative_path("project/src").unwrap()),
        PathBuf::from("project/src")
    );
    assert!(clean_relative_path("../secret").is_err());
    assert!(clean_relative_path("/etc").is_err());
}

#[test]
fn paths_are_read_as_std_reads_them() {
    for s in SAMPLES {
        let p = Path::new(s);
        assert_eq!(absolute(s), p.is_absolute());
        assert_eq!(
            file_name_of(s),
            p.file_name().map(|n| n.to_str().unwrap().to_string())
        );
        let climbs = p.components().any(|c| matches!(c, std::path::Component::ParentDir));
        let names: PathBuf = p
            .components()
            .filter(|c| matches!(c, std::path::Component::Normal(_)))
            .collect();
        match clean_relative_path(s) {
            Ok(cleaned) => {
                assert!(!p.is_absolute() && !climbs);
                assert_eq!(cleaned, names.to_str().unwrap());
                assert_eq!(clean_relative_path(&cleaned), Ok(cleaned.clone()));
            }
            Err(message) => {
                if p.is_absolute() {
                    assert_eq!(message, "absolute paths are not allowed");
                } else if climbs {
                    assert_eq!(message, "parent traversal (`..`) is not allowed");
                } else {
                    assert_eq!(
                        message,
                        "path must resolve at or below the configured workspace root"
                    );
                    assert_eq!(names, PathBuf::new());
                }
            }
        }
    }
}

#[test]
fn path_texts_are_bounded() {
    let message = Err("path must be non-empty, at most 4096 bytes, and contain neither NUL nor CR"
        .to_string());
    assert_eq!(clean_relative_path(""), message);
    assert_eq!(clean_relative_path("a\0b"), message);
    assert_eq!(clean_relative_path("a\rb"), message);
    assert_eq!(clean_relative_path(&"a".repeat(4097)), message);
    assert_eq!(clean_relative_path(&"\u{e9}".repeat(2049)), message);
    assert_eq!(clean_relative_path(&"a".repeat(4096)), Ok("a".repeat(4096)));
}

#[test]
fn texts_and_arguments_are_bounded() {
    assert_eq!(validate_nonempty_text("x", "a", 1), Ok(()));
    assert_eq!(
        validate_nonempty_text("x", "ab", 1),
        Err("x must be non-empty, at most 1 bytes, and contain neither NUL nor CR".to_string())
    );
    assert_eq!(byte_len("\u{e9}a"), 3);
    assert!(bounded("abc", 3) && !bounded("abc", 2) && !bounded("a\0", 3));
    assert_eq!(validate_argument(""), Ok(()));
    assert_eq!(validate_argument("a\rb"), Ok(()));
    assert_eq!(validate_argument(&"a".repeat(65536)), Ok(()));
    let message =
        Err("each argument must be at most 65536 bytes and must not contain NUL".to_string());
    assert_eq!(validate_argument(&"a".repeat(65537)), message);
    assert_eq!(validate_argument("\0"), message);
}

#[test]
fn resolved_paths_keep_their_names() {
    for s in ["/", "/a", "/a/b c/.d", "/x/y/z"] {
        assert_eq!(path(s).to_bytes(), s.as_bytes().to_vec());
        assert_eq!(path(s).display(), s);
        assert_eq!(path(s).depth(), Path::new(s).components().count() - 1);
    }
    assert_eq!(path("//a/./b/").to_bytes(), b"/a/b".to_vec());
    assert!(path("/a/b").is_within(&path("/a")));
    assert!(path("/a").is_within(&path("/a")));
    assert!(!path("/ab").is_within(&path("/a")));
    assert!(!path("/").is_within(&path("/a")));
    assert_eq!(path("/a/b/c").ancestor(2).display(), "/a/b");
    assert_eq!(path("/a/b/c").display_after(1), "b/c");
    let odd = ResolvedPath::from_bytes(b"/a/\xff/b");
    assert_eq!(odd.display(), "/a/\u{fffd}/b");
}

#[test]
fn server_needs_sensible_bounds() {
    let refused = |is_dir: bool, default: u64, max: u64| {
        ExecServer::new(path("/w"), is_dir, default, max, 5).map(|_| ()).unwrap_err()
    };
    assert_eq!(refused(false, 1, 1), "workspace root is not a directory");
    assert_eq!(refused(true, 1, 0), "max timeout must be greater than zero");
    assert_eq!(refused(true, 0, 1), "default timeout must be within 1..=max timeout");
    assert_eq!(refused(true, 2, 1), "default timeout must be within 1..=max timeout");
    assert_eq!(ExecServer::new(path("/w"), true, 1, 1, 0).unwrap().max_output_bytes, 1);
    let kept = ExecServer::new(path("/w"), true, 3, 4, 5).unwrap();
    assert_eq!(
        (kept.default_timeout_ms, kept.max_timeout_ms, kept.max_output_bytes),
        (3, 4, 5)
    );
}

#[test]
fn timeouts_are_within_the_maximum() {
    let s = server();
    assert_eq!(s.validated_timeout(None), Ok(1000));
    assert_eq!(s.validated_timeout(Some(1)), Ok(1));
    assert_eq!(s.validated_timeout(Some(2000)), Ok(2000));
    assert_eq!(
        s.validated_timeout(Some(0)),
        Err("timeout_ms must be within 1..=2000 (requested 0)".to_string())
    );
    assert_eq!(
        s.validated_timeout(Some(2001)),
        Err("timeout_ms must be within 1..=2000 (requested 2001)".to_string())
    );
}

#[test]
fn paths_are_displayed_relative_to_the_workspace() {
    let s = server();
    assert_eq!(s.relative_display(&path("/work/space")), ".");
    assert_eq!(s.relative_display(&path("/work/space/a/b")), "a/b");
    assert_eq!(s.relative_display(&path("/work")), ".");
    assert_eq!(s.relative_display(&path("/other/space/a")), ".");
    let odd = ResolvedPath::from_bytes(b"/work/space/\xff");
    assert_eq!(s.relative_display(&odd), "\u{fffd}");
}

#[test]
fn working_directories_resolve_inside_the_workspace() {
    let s = server();
    assert_eq!(requested_directory(None), Ok(".".to_string()));
    assert_eq!(requested_directory(Some("a//b")), Ok("a/b".to_string()));
    assert!(requested_directory(Some("..")).is_err());
    let inside = s.resolve_cwd(Some("a"), found("/work/space/a", true, false)).unwrap();
    assert_eq!(inside.display(), "/work/space/a");
    let refused = |cwd: Option<&str>, lookup: PathLookup| {
        s.resolve_cwd(cwd, lookup).map(|_| ()).unwrap_err()
    };
    assert_eq!(
        refused(Some("a"), failed("gone")),
        "cannot resolve working directory `a`: gone"
    );
    assert_eq!(
        refused(None, found("/work/space", false, true)),
        "working directory is not a directory: `.`"
    );
    assert_eq!(
        refused(Some("link"), found("/etc", true, false)),
        "working directory resolves outside the configured workspace: `link`"
    );
    assert_eq!(
        refused(Some("../x"), found("/work/space", true, false)),
        "parent traversal (`..`) is not allowed"
    );
}

#[test]
fn programs_are_names_or_files_in_the_workspace() {
    let s = server();
    assert!(matches!(requested_program("cargo"), Ok(ProgramRequest::Named(n)) if n == "cargo"));
    assert!(matches!(requested_program("./bin//x"), Ok(ProgramRequest::Relative(p)) if p == "bin/x"));
    assert!(matches!(requested_program("a\\b"), Ok(ProgramRequest::Relative(p)) if p == "a\\b"));
    let nothing = failed("");
    assert_eq!(s.validate_program("cargo", &nothing), Ok("cargo".to_string()));
    assert_eq!(
        s.validate_program("bin/x", &found("/work/space/bin/x", false, true)),
        Ok("/work/space/bin/x".to_string())
    );
    let refused = |program: &str, lookup: &PathLookup| s.validate_program(program, lookup).unwrap_err();
    assert_eq!(refused("bin/x", &failed("gone")), "cannot resolve executable `bin/x`: gone");
    assert_eq!(
        refused("bin/x", &found("/bin/x", false, true)),
        "executable resolves outside the configured workspace: `bin/x`"
    );
    assert_eq!(
        refused("bin/x", &found("/work/space/bin/x", true, false)),
        "executable is not a file: `bin/x`"
    );
    assert_eq!(refused("-x", &nothing), "program must not start with '-'");
    assert_eq!(refused(".", &nothing), "program must be valid UTF-8");
    assert_eq!(refused("a/..", &nothing), "program must be valid UTF-8");
    assert_eq!(refused("/usr/x", &nothing), "absolute executable paths are not allowed");
    assert_eq!(refused("../x", &nothing), "parent traversal (`..`) is not allowed");
    assert_eq!(
        refused("", &nothing),
        "program must be non-empty, at most 4096 bytes, and contain neither NUL nor CR"
    );
    for shell in [
        "sh", "bash", "zsh", "fish", "dash", "ksh", "csh", "tcsh", "powershell", "pwsh", "cmd",
        "sudo", "su", "doas", "env",
    ] {
        let message = format!(
            "direct shell/privilege program `{shell}` is blocked; invoke a concrete development tool with an argument vector instead"
        );
        assert_eq!(refused(shell, &nothing), message);
        assert_eq!(refused(&format!("/bin/{shell}"), &nothing), message);
        assert_eq!(refused(&format!("x/{shell}/."), &nothing), message);
    }
}

#[test]
fn variables_are_kept_in_order() {
    let mut env = Environment::new();
    env.set("B".to_string(), "1".to_string());
    env.set("A".to_string(), "2".to_string());
    env.set("B".to_string(), "3".to_string());
    assert_eq!(env.len(), 2);
    assert_eq!((env.get(0).name.as_str(), env.get(0).value.as_str()), ("A", "2"));
    assert_eq!((env.get(1).name.as_str(), env.get(1).value.as_str()), ("B", "3"));
}

#[test]
fn variables_of_a_request_are_checked() {
    let one = |name: &str, value: &str| {
        let mut env = Environment::new();
        env.set(name.to_string(), value.to_string());
        validate_env(&env)
    };
    assert_eq!(validate_env(&Environment::new()), Ok(()));
    assert_eq!(one("_A9", ""), Ok(()));
    for bad in ["", "9A", "A-B", "A B", "\u{e9}", &"A".repeat(257)] {
        assert_eq!(one(bad, "x"), Err(format!("invalid environment variable name `{bad}`")));
    }
    assert_eq!(one(&"A".repeat(256), "x"), Ok(()));
    let message = Err("invalid value for environment variable `A`".to_string());
    assert_eq!(one("A", "\0"), message);
    assert_eq!(one("A", &"x".repeat(65537)), message);
    let mut env = Environment::new();
    for i in 0..128 {
        env.set(format!("V{i}"), "x".to_string());
    }
    assert_eq!(validate_env(&env), Ok(()));
    env.set("1".to_string(), "x".to_string());
    assert_eq!(
        validate_env(&env),
        Err("at most 128 explicit environment variables are allowed".to_string())
    );
    let mut two = Environment::new();
    two.set("Z-".to_string(), "x".to_string());
    two.set("A".to_string(), "\0".to_string());
    assert_eq!(
        validate_env(&two),
        Err("invalid value for environment variable `A`".to_string())
    );
}

#[test]
fn processes_get_a_restricted_environment() {
    let own = |name: &str, value: &[u8]| Assignment {
        name: name.to_string(),
        value: value.to_vec(),
    };
    let inherited = vec![
        own("SECRET", b"no"),
        own("LC_TIME", b"C"),
        own("PATH", b"/bin\xff"),
        own("PAGER", b"less"),
        own("HOME", b"/root"),
    ];
    let mut explicit = Environment::new();
    explicit.set("NO_COLOR".to_string(), "0".to_string());
    explicit.set("HOME".to_string(), "/tmp".to_string());
    let made = child_environment(&inherited, &explicit);
    let list: Vec<(String, Vec<u8>)> = made.into_iter().map(|a| (a.name, a.value)).collect();
    let pair = |name: &str, value: &[u8]| (name.to_string(), value.to_vec());
    assert_eq!(
        list,
        vec![
            pair("PATH", b"/bin\xff"),
            pair("HOME", b"/root"),
            pair("LC_TIME", b"C"),
            pair("HOME", b"/tmp"),
            pair("NO_COLOR", b"0"),
            pair("PAGER", b"cat"),
            pair("GIT_PAGER", b"cat"),
            pair("NO_COLOR", b"1"),
        ]
    );
}

#[test]
fn contents_of_a_request_are_checked() {
    assert_eq!(check_contents(&args("x")), Ok(()));
    let mut many = args("x");
    many.args = vec!["a".to_string(); 1025];
    assert_eq!(
        check_contents(&many),
        Err("too many arguments; maximum is 1024".to_string())
    );
    many.args.pop();
    assert_eq!(check_contents(&many), Ok(()));
    let mut odd = args("x");
    odd.args = vec!["a".to_string(), "\0".to_string()];
    assert_eq!(
        check_contents(&odd),
        Err("each argument must be at most 65536 bytes and must not contain NUL".to_string())
    );
    let message = Err("stdin must be at most 1048576 bytes and must not contain NUL".to_string());
    let mut input = args("x");
    input.stdin = Some("\0".to_string());
    assert_eq!(check_contents(&input), message);
    input.stdin = Some("a".repeat(1048577));
    assert_eq!(check_contents(&input), message);
    input.stdin = Some("a".repeat(1048576));
    assert_eq!(check_contents(&input), Ok(()));
    input.env.set("1".to_string(), "".to_string());
    assert_eq!(
        check_contents(&input),
        Err("invalid environment variable name `1`".to_string())
    );
}

#[test]
fn lookups_of_a_request() {
    let mut request = args("tools/run");
    request.cwd = Some("a/./b".to_string());
    assert_eq!(directory_to_look_up(&request), Ok("a/b".to_string()));
    let s = server();
    assert_eq!(s.directory_location("a/b").display(), "/work/space/a/b");
    assert_eq!(s.directory_location(".").display(), "/work/space");
    let place = s.executable_to_look_up(&request.program).unwrap().unwrap();
    assert_eq!(place.display(), "/work/space/tools/run");
    assert!(place.is_within(&s.workspace_root));
    assert!(s.executable_to_look_up("make").unwrap().is_none());
    assert!(s.executable_to_look_up("bash").is_err());
    assert_eq!(
        s.executable_to_look_up("a/../b").map(|_| ()),
        Err("parent traversal (`..`) is not allowed".to_string())
    );
    request.stdin = Some("\0".to_string());
    assert!(directory_to_look_up(&request).is_err());
}

#[test]
fn proper_requests_are_started() {
    let s = server();
    let mut request = args("cargo");
    request.args = vec!["test".to_string()];
    request.stdin = Some("in".to_string());
    request.timeout_ms = Some(7);
    request.cwd = Some("a".to_string());
    request.env.set("A".to_string(), "b".to_string());
    let p = s
        .execute(request, found("/work/space/a", true, false), &failed(""))
        .unwrap();
    assert_eq!(p.program, "cargo");
    assert_eq!(p.args, vec!["test".to_string()]);
    assert_eq!(p.cwd.display(), "/work/space/a");
    assert_eq!(p.timeout_ms, 7);
    assert_eq!(p.stdin, Some("in".to_string()));
    assert_eq!(p.env.len(), 1);
    let refused = |request: ExecuteArgs, dir: PathLookup| {
        s.execute(request, dir, &failed("")).map(|_| ()).unwrap_err()
    };
    assert_eq!(
        refused(args("cargo"), found("/etc", true, false)),
        "working directory resolves outside the configured workspace: `.`"
    );
    assert!(refused(args("sudo"), found("/work/space", true, false)).contains("`sudo` is blocked"));
    let mut slow = args("cargo");
    slow.timeout_ms = Some(9999);
    assert_eq!(
        refused(slow, found("/work/space", true, false)),
        "timeout_ms must be within 1..=2000 (requested 9999)"
    );
}

#[test]
fn executables_start_from_the_workspace() {
    let s = server();
    assert_eq!(s.executable_location("./tools//\u{e9}.bin").display(), "/work/space/tools/\u{e9}.bin");
    assert_eq!(step_texts("./tools//\u{e9}.bin"), vec!["tools".to_string(), "\u{e9}.bin".to_string()]);
    let mut request = args("tools/run");
    request.cwd = Some("deep/down".to_string());
    let p = s
        .execute(
            request,
            found("/work/space/deep/down", true, false),
            &found("/work/space/tools/run", false, true),
        )
        .unwrap();
    assert_eq!(p.program, "/work/space/tools/run");
    assert_eq!(p.cwd.display(), "/work/space/deep/down");
}

fn process() -> ProcessRequest {
    ProcessRequest {
        program: "tool".to_string(),
        args: vec!["x".to_string()],
        cwd: path("/work/space/a"),
        timeout_ms: 42,
        stdin: None,
        env: Environment::new(),
    }
}

#[test]
fn outputs_are_bounded() {
    assert_eq!(bounded_utf8(b"abc".to_vec(), 3), ("abc".to_string(), false));
    assert_eq!(
        bounded_utf8(b"abcd".to_vec(), 3),
        ("abc\n[output truncated by MCP Exec]\n".to_string(), true)
    );
    assert_eq!(bounded_utf8(b"a\xffb".to_vec(), 9), ("a\u{fffd}b".to_string(), false));
    assert_eq!(
        bounded_utf8("\u{e9}\u{e9}".as_bytes().to_vec(), 3),
        ("\u{e9}\u{fffd}\n[output truncated by MCP Exec]\n".to_string(), true)
    );
    let (worst, cut) = bounded_utf8(vec![0xff; 11], 10);
    assert!(cut);
    assert_eq!(worst.len(), 3 * 10 + 32);
    assert_eq!(mark_truncation("x".to_string(), false), "x");
    assert_eq!(
        mark_truncation("x".to_string(), true),
        "x\n[output truncated by MCP Exec]\n"
    );
}

#[test]
fn completed_commands_are_reported() {
    let done = ProcessOutcome::Completed {
        exit_code: Some(2),
        success: false,
        duration_ms: 5,
        stdout: b"error: a\nmore".to_vec(),
        stderr: b"warn: b".to_vec(),
    };
    let r = server().report_process(process(), done).unwrap();
    assert_eq!((r.program.as_str(), r.cwd.as_str()), ("tool", "a"));
    assert_eq!(r.args, vec!["x".to_string()]);
    assert_eq!((r.exit_code, r.success, r.timed_out, r.duration_ms), (Some(2), false, false, 5));
    assert_eq!(r.stdout, "error: a\nm\n[output truncated by MCP Exec]\n");
    assert_eq!(r.stderr, "warn: b");
    assert_eq!((r.stdout_truncated, r.stderr_truncated), (true, false));
    assert_eq!((r.diagnostics.error_lines, r.diagnostics.warning_lines), (1, 1));
    assert_eq!(
        r.diagnostics.highlights,
        vec!["error: a".to_string(), "warn: b".to_string()]
    );
}

#[test]
fn commands_that_did_not_complete_are_reported() {
    let s = server();
    let message = "process exceeded timeout of 42 ms; the direct child was terminated";
    let r = s.report_process(process(), ProcessOutcome::TimedOut { duration_ms: 43 }).unwrap();
    assert_eq!((r.exit_code, r.success, r.timed_out, r.duration_ms), (None, false, true, 43));
    assert_eq!((r.stdout.as_str(), r.stderr.as_str()), ("", message));
    assert_eq!((r.stdout_truncated, r.stderr_truncated), (false, false));
    assert_eq!(
        (r.diagnostics.error_lines, r.diagnostics.warning_lines, r.diagnostics.failure_lines),
        (1, 0, 1)
    );
    assert_eq!(r.diagnostics.highlights, vec![message.to_string()]);
    let refused = |outcome: ProcessOutcome| s.report_process(process(), outcome).map(|_| ()).unwrap_err();
    assert_eq!(
        refused(ProcessOutcome::SpawnFailed("no".to_string())),
        "failed to start `tool`: no"
    );
    assert_eq!(
        refused(ProcessOutcome::StdinFailed("no".to_string())),
        "failed to write child stdin: no"
    );
    assert_eq!(
        refused(ProcessOutcome::WaitFailed("no".to_string())),
        "failed while waiting for `tool`: no"
    );
}
