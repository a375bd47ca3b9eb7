use rust_mcp_exec::diagnostics::{
    can_merge, merge_diagnostics, summarize_diagnostics, DiagnosticSummary,
};
use rust_mcp_exec::environment::Environment;
use rust_mcp_exec::execution::{ExecutionOutput, ProcessOutcome, ProcessRequest};
use rust_mcp_exec::manifest::{
    manifest_info, read_node_manifest, sorted_names, ManifestSections,
};
use rust_mcp_exec::plan::{
    build_quality_plan, dedupe_plan, first_script, package_script_spec, CommandSpec,
    ProjectDetection, QualityProfile,
};
use rust_mcp_exec::project::{
    assemble_detection, lockfile_names, makefile_name, marker_names, ProjectProbe,
};
use rust_mcp_exec::quality::{check_process, QualityArgs, QualityRun};
use rust_mcp_exec::render::{render_command, shell_display_token};
use rust_mcp_exec::resolved::ResolvedPath;
use rust_mcp_exec::server::{ExecServer, PathLookup};

fn strings(list: &[&str]) -> Vec<String> {
    list.iter().map(|s| s.to_string()).collect()
}

fn path(text: &str) -> ResolvedPath {
    ResolvedPath::from_bytes(text.as_bytes())
}

fn server() -> ExecServer {
    ExecServer::new(path("/w"), true, 1000, 2000, 1000).unwrap()
}

fn detection(kinds: &[&str], scripts: &[&str], targets: &[&str]) -> ProjectDetection {
    ProjectDetection {
        cwd: "app".to_string(),
        kinds: strings(kinds),
        package_manager: None,
        node_scripts: strings(scripts),
        make_targets: strings(targets),
        markers: vec![],
        recommended_checks: vec![],
    }
}

fn lines(plan: &[CommandSpec]) -> Vec<String> {
    plan.iter()
        .map(|c| format!("{}: {}", c.label, render_command(&c.program, &c.args)))
        .collect()
}

fn result(success: bool, stdout: &str) -> ExecutionOutput {
    let process = ProcessRequest {
        program: "tool".to_string(),
        args: vec![],
        cwd: path("/w"),
        timeout_ms: 1,
        stdin: None,
        env: Environment::new(),
    };
    let outcome = ProcessOutcome::Completed {
        exit_code: Some(if success { 0 } else { 1 }),
        success,
        duration_ms: 1,
        stdout: stdout.as_bytes().to_vec(),
        stderr: vec![],
    };
    server().report_process(process, outcome).unwrap()
}

#[test]
fn diagnostic_summary_extracts_common_failures() {
    let result = summarize_diagnostics(
        "warning: unused value\nerror[E0308]: mismatch\n",
        "FAIL test_x\n",
    );
    assert_eq!(result.warning_lines, 1);
    assert_eq!(result.error_lines, 1);
    assert_eq!(result.failure_lines, 1);
    assert_eq!(result.highlights.len(), 3);
}

#[test]
fn package_script_uses_explicit_run() {
    assert_eq!(
        package_script_spec("pnpm", "lint", "lint").args,
        vec!["run".to_owned(), "lint".to_owned()]
    );
    assert_eq!(
        package_script_spec("npm", "test", "test").args,
        vec!["run".to_owned(), "test".to_owned()]
    );
}

#[test]
fn render_command_is_unambiguous() {
    assert_eq!(
        render_command("cargo", &["test".into(), "--all-features".into()]),
        "cargo test --all-features"
    );
    assert_eq!(
        render_command("tool", &["two words".into()]),
        "tool 'two words'"
    );
}

#[test]
fn tokens_are_quoted_where_needed() {
    assert_eq!(shell_display_token(""), "''");
    assert_eq!(shell_display_token("aZ09_@%+=:,./-"), "aZ09_@%+=:,./-");
    assert_eq!(shell_display_token("it's"), "'it'\\''s'");
    assert_eq!(shell_display_token("\u{e9}"), "'\u{e9}'");
    assert_eq!(shell_display_token("a*b"), "'a*b'");
    let words = ["", "a", "a b", "'", "a'", "'\\''", "' '", "\\"];
    let mut seen: Vec<(String, Vec<String>)> = vec![];
    for x in words {
        for y in words {
            let one = strings(&[x, y]);
            let line = render_command("p", &one);
            assert!(seen.iter().all(|s| s.0 != line));
            seen.push((line, one));
        }
    }
}

#[test]
fn diagnostics_classify_lines() {
    let count = |line: &str| {
        let s = summarize_diagnostics(line, "");
        (s.error_lines, s.warning_lines, s.failure_lines)
    };
    for line in ["ERROR", "thread panicked", "Exception", "Traceback (most", "x TS2304", "ts6133"] {
        assert_eq!(count(line), (1, 0, 0));
    }
    for line in ["a Warning b", "WARN: x"] {
        assert_eq!(count(line), (0, 1, 0));
    }
    for line in ["it failed", "Failure", "FAIL", "fail x", "FAIL\tx", "xfail: y", "\u{2716} z", "not ok 1"] {
        assert_eq!(count(line), (0, 0, 1));
    }
    for line in ["", "  ", "fine", "failx", "warn x", "a fail b"] {
        assert_eq!(count(line), (0, 0, 0));
    }
    assert_eq!(count("error: warning failed"), (1, 1, 1));
}

#[test]
fn highlights_are_distinct_and_limited() {
    let s = summarize_diagnostics("  error a \nerror a\nok\nerror b", "error a\r\nfailed");
    assert_eq!(s.highlights, strings(&["error a", "error b", "failed"]));
    assert_eq!((s.error_lines, s.failure_lines), (4, 1));
    let many: String = (0..100).map(|i| format!("error {i}\n")).collect();
    let t = summarize_diagnostics(&many, "");
    assert_eq!(t.error_lines, 100);
    assert_eq!(t.highlights.len(), 80);
    assert_eq!(t.highlights[79], "error 79");
    let none = DiagnosticSummary::default();
    assert_eq!((none.error_lines, none.highlights.len()), (0, 0));
}

#[test]
fn merging_adds_counts_and_new_highlights() {
    let mut a = summarize_diagnostics("error a\nwarning b", "");
    let b = summarize_diagnostics("warning b\nerror c", "failed");
    assert!(can_merge(&a, &b));
    merge_diagnostics(&mut a, &b);
    assert_eq!((a.error_lines, a.warning_lines, a.failure_lines), (2, 2, 1));
    assert_eq!(a.highlights, strings(&["error a", "warning b", "error c", "failed"]));
    let mut nothing = DiagnosticSummary::default();
    merge_diagnostics(&mut nothing, &a);
    assert_eq!(nothing.highlights, a.highlights);
    let many: String = (0..79).map(|i| format!("error {i}\n")).collect();
    let mut full = summarize_diagnostics(&many, "");
    merge_diagnostics(&mut full, &a);
    assert_eq!(full.highlights.len(), 80);
    assert_eq!(full.highlights[79], "error a");
    let mut huge = DiagnosticSummary::default();
    huge.error_lines = usize::MAX;
    assert!(!can_merge(&huge, &a));
}

#[test]
fn merging_keeps_what_is_over_the_limit() {
    let mut over = DiagnosticSummary::default();
    over.highlights = (0..90).map(|i| format!("error {i}")).collect();
    let more = summarize_diagnostics("error x", "");
    merge_diagnostics(&mut over, &more);
    assert_eq!(over.highlights.len(), 90);
    assert_eq!(over.error_lines, 1);
}

#[test]
fn first_candidate_that_is_declared() {
    let scripts = strings(&["test:ci", "test", "lint:check"]);
    assert_eq!(first_script(&scripts, &["test", "test:unit", "test:ci"]), Some("test"));
    assert_eq!(first_script(&scripts, &["lint", "lint:check"]), Some("lint:check"));
    assert_eq!(first_script(&scripts, &["build"]), None);
    assert_eq!(first_script(&scripts, &[]), None);
}

#[test]
fn repeated_commands_are_dropped() {
    let c = |label: &str, args: &[&str]| CommandSpec {
        label: label.to_string(),
        program: "p".to_string(),
        args: strings(args),
    };
    let plan = vec![c("a", &["x"]), c("b", &["x", ""]), c("c", &["x"]), c("d", &["x "])];
    let labels: Vec<String> = dedupe_plan(plan).into_iter().map(|s| s.label).collect();
    assert_eq!(labels, strings(&["a", "b", "d"]));
}

#[test]
fn fast_plans() {
    let rust = build_quality_plan(&detection(&["rust"], &[], &[]), QualityProfile::Fast);
    assert_eq!(
        lines(&rust),
        strings(&[
            "Rust fmt check: cargo fmt --all -- --check",
            "Rust check: cargo check --all-targets --all-features",
            "Rust clippy: cargo clippy --all-targets --all-features -- -D warnings",
            "Rust tests: cargo test --all-targets --all-features",
        ])
    );
    let go = build_quality_plan(&detection(&["go"], &[], &[]), QualityProfile::Fast);
    assert_eq!(lines(&go), strings(&["Go vet: go vet ./...", "Go tests: go test ./..."]));
    let make = detection(&["make"], &["lint"], &["build", "test", "lint", "other"]);
    assert_eq!(
        lines(&build_quality_plan(&make, QualityProfile::Fast)),
        strings(&["Make lint: make lint", "Make test: make test"])
    );
    let mut node = detection(&["node"], &["build", "check:types", "lint", "test:ci"], &["lint"]);
    assert_eq!(
        lines(&build_quality_plan(&node, QualityProfile::Fast)),
        strings(&[
            "Node lint: npm run lint",
            "Node type check: npm run check:types",
            "Node tests: npm run test:ci",
        ])
    );
    node.package_manager = Some("pnpm".to_string());
    assert_eq!(
        lines(&build_quality_plan(&node, QualityProfile::Fast))[0],
        "Node lint: pnpm run lint"
    );
    assert!(build_quality_plan(&detection(&[], &["lint"], &["lint"]), QualityProfile::Full).is_empty());
}

#[test]
fn full_plans_add_the_builds() {
    let all = detection(
        &["go", "make", "node", "rust"],
        &["build", "lint", "test", "typecheck"],
        &["build", "check", "lint", "test"],
    );
    let fast = lines(&build_quality_plan(&all, QualityProfile::Fast));
    let full = lines(&build_quality_plan(&all, QualityProfile::Full));
    let builds = strings(&[
        "Node production build: npm run build",
        "Rust release build: cargo build --release --all-features",
        "Go build: go build ./...",
        "Make build: make build",
    ]);
    assert_eq!(fast.len(), 12);
    let without: Vec<String> = full.iter().filter(|l| !builds.contains(l)).cloned().collect();
    assert_eq!(without, fast);
    let added: Vec<String> = full.iter().filter(|l| builds.contains(l)).cloned().collect();
    assert_eq!(added, builds);
    assert_eq!(QualityProfile::default(), QualityProfile::Fast);
    for program in ["npm", "pnpm", "yarn", "bun", "cargo", "go", "make"] {
        let nothing = PathLookup::Failed(String::new());
        assert_eq!(server().validate_program(program, &nothing), Ok(program.to_string()));
    }
}

#[test]
fn manifests_are_read() {
    let text = r#"{"name":"x","scripts":{"test":"t","build":"b","a":1},"devDependencies":{"next":"1"},"peerDependencies":["vue"],"dependencies":null}"#;
    let info = read_node_manifest("p", &Ok(text.to_string())).unwrap();
    assert_eq!(info.scripts, strings(&["a", "build", "test"]));
    assert!(info.has_next);
    assert!(!info.has_vue);
    let vue = read_node_manifest("p", &Ok(r#"{"peerDependencies":{"vue":"3"}}"#.to_string())).unwrap();
    assert!(vue.has_vue && !vue.has_next);
    assert_eq!(vue.scripts, strings(&[]));
    let list = read_node_manifest("p", &Ok("[1]".to_string())).unwrap();
    assert!(list.scripts.is_empty() && !list.has_next && !list.has_vue);
    let odd = read_node_manifest("p", &Ok(r#"{"scripts":["a"]}"#.to_string())).unwrap();
    assert!(odd.scripts.is_empty());
}

#[test]
fn manifests_that_cannot_be_read() {
    let refused = |contents: Result<String, String>| {
        read_node_manifest("/w/package.json", &contents).map(|_| ()).unwrap_err()
    };
    assert_eq!(refused(Err("denied".to_string())), "cannot read /w/package.json: denied");
    let expected = serde_json::from_str::<serde_json::Value>("{").unwrap_err();
    assert_eq!(refused(Ok("{".to_string())), format!("invalid /w/package.json: {expected}"));
}

#[test]
fn manifest_sections_tell_scripts_and_frameworks() {
    let sections = ManifestSections {
        scripts: strings(&["z", "a"]),
        dependencies: strings(&["vue"]),
        dev_dependencies: strings(&[]),
        peer_dependencies: strings(&["next", "x"]),
    };
    let info = manifest_info(&sections);
    assert_eq!(info.scripts, strings(&["a", "z"]));
    assert!(info.has_next && info.has_vue);
    assert_eq!(sorted_names(&strings(&["b", "a", "b"])), strings(&["a", "b"]));
}

#[test]
fn nearest_lockfile_tells_the_package_manager() {
    let s = server();
    let cwd = path("/w/apps/web");
    let dirs: Vec<String> = s.search_directories(&cwd).iter().map(|d| d.display()).collect();
    assert_eq!(dirs, strings(&["/w/apps/web", "/w/apps", "/w"]));
    let outside: Vec<String> =
        s.search_directories(&path("/x/y")).iter().map(|d| d.display()).collect();
    assert_eq!(outside, strings(&["/x/y"]));
    let manager = |listings: &[&[&str]]| {
        let list: Vec<Vec<String>> = listings.iter().map(|l| strings(l)).collect();
        s.detect_package_manager(&cwd, &list)
    };
    assert_eq!(manager(&[&[], &[], &["pnpm-lock.yaml"]]), "pnpm");
    assert_eq!(manager(&[&[], &["yarn.lock"], &["pnpm-lock.yaml"]]), "yarn");
    assert_eq!(manager(&[&["bun.lockb"]]), "bun");
    assert_eq!(manager(&[&["bun.lock", "package-lock.json"]]), "bun");
    assert_eq!(manager(&[&["package-lock.json"], &["yarn.lock"]]), "npm");
    assert_eq!(manager(&[&["package-lock.json", "yarn.lock", "pnpm-lock.yaml"]]), "pnpm");
    assert_eq!(manager(&[]), "npm");
    assert_eq!(manager(&[&[], &[], &[], &["yarn.lock"]]), "npm");
    assert_eq!(lockfile_names().len(), 5);
}

fn dir(text: &str) -> PathLookup {
    PathLookup::Found { path: path(text), is_dir: true, is_file: false }
}

fn probe(files: &[&str]) -> ProjectProbe {
    ProjectProbe {
        files: strings(files),
        lockfiles: vec![strings(&[]), strings(&["yarn.lock"])],
        manifest_path: "/w/app/package.json".to_string(),
        manifest: Ok(r#"{"scripts":{"lint":"x"},"dependencies":{"next":"1","vue":"2"}}"#.to_string()),
        makefile_path: "/w/app/makefile".to_string(),
        makefile: Ok("test:\ncheck:\n".to_string()),
    }
}

#[test]
fn projects_are_detected() {
    let s = server();
    let files = marker_names();
    let all: Vec<&str> = files.iter().map(|f| f.as_str()).collect();
    let d = s.detect_project("app", dir("/w/app"), &probe(&all)).unwrap();
    assert_eq!(d.cwd, "app");
    assert_eq!(d.kinds, strings(&["go", "make", "nextjs", "node", "rust", "vue"]));
    assert_eq!(d.package_manager, Some("yarn".to_string()));
    assert_eq!(d.node_scripts, strings(&["lint"]));
    assert_eq!(d.make_targets, strings(&["check", "test"]));
    assert_eq!(d.markers, strings(&["Cargo.toml", "go.mod", "Makefile", "package.json"]));
    assert_eq!(
        lines(&d.recommended_checks),
        lines(&build_quality_plan(&d, QualityProfile::Fast))
    );
    assert_eq!(d.recommended_checks.len(), 9);
    let none = s.detect_project(".", dir("/w"), &probe(&[])).unwrap();
    assert_eq!(none.cwd, ".");
    assert!(none.kinds.is_empty() && none.markers.is_empty() && none.make_targets.is_empty());
    assert_eq!(none.package_manager, None);
    let gnu = s.describe_project(&path("/w"), &probe(&["GNUmakefile", "makefile"])).unwrap();
    assert_eq!(gnu.markers, strings(&["makefile"]));
    assert_eq!(makefile_name(&strings(&["x", "GNUmakefile"])), Some("GNUmakefile".to_string()));
    assert_eq!(makefile_name(&strings(&["x"])), None);
}

#[test]
fn projects_whose_files_cannot_be_read() {
    let s = server();
    let mut bad = probe(&["package.json", "makefile"]);
    bad.makefile = Err("locked".to_string());
    let refused =
        |p: &ProjectProbe| s.detect_project("app", dir("/w/app"), p).map(|_| ()).unwrap_err();
    assert_eq!(refused(&bad), "cannot read /w/app/makefile: locked");
    bad.manifest = Err("denied".to_string());
    assert_eq!(refused(&bad), "cannot read /w/app/package.json: denied");
    bad.manifest = Ok("nope".to_string());
    assert!(refused(&bad).starts_with("invalid /w/app/package.json: "));
    bad.files = strings(&["Cargo.toml"]);
    assert!(s.detect_project("app", dir("/w/app"), &bad).is_ok());
    bad.files = strings(&["package.json"]);
    assert_eq!(
        s.detect_project("../app", dir("/w/app"), &bad).map(|_| ()),
        Err("parent traversal (`..`) is not allowed".to_string())
    );
    assert_eq!(
        s.detect_project("app", dir("/x"), &bad).map(|_| ()),
        Err("working directory resolves outside the configured workspace: `app`".to_string())
    );
}

#[test]
fn detections_are_assembled_from_facts() {
    let d = assemble_detection("x".to_string(), &strings(&["go.mod"]), None, strings(&["t"]));
    assert_eq!(d.kinds, strings(&["go"]));
    assert_eq!(d.markers, strings(&["go.mod"]));
    assert_eq!(d.make_targets, strings(&["t"]));
    assert_eq!(d.recommended_checks.len(), 2);
}

#[test]
fn quality_checks_need_a_project() {
    let refused = |d: ProjectDetection| {
        QualityRun::start(d, QualityProfile::Full, false).map(|_| ()).unwrap_err()
    };
    assert_eq!(
        refused(detection(&[], &[], &[])),
        "no supported project markers found in `app`; use workspace_execute for an explicit command"
    );
    assert_eq!(
        refused(detection(&["make", "node"], &[], &[])),
        "project was detected (make, node) but no conventional quality checks could be inferred; use workspace_execute for explicit commands"
    );
}

#[test]
fn patient_checks_run_everything() {
    let mut run =
        QualityRun::start(detection(&["go"], &[], &[]), QualityProfile::Full, false).unwrap();
    let mut labels = vec![];
    while let Some(command) = run.next() {
        labels.push(command.label.clone());
        let r = result(labels.len() == 3, "error x");
        assert!(can_merge(run.diagnostics(), &r.diagnostics));
        run.record(r);
    }
    assert_eq!(labels, strings(&["Go vet", "Go tests", "Go build"]));
    let out = run.finish();
    assert_eq!(out.cwd, "app");
    assert_eq!(out.profile, QualityProfile::Full);
    assert_eq!(out.detected_kinds, strings(&["go"]));
    assert_eq!((out.passed, out.checks_run, out.checks_failed), (false, 3, 2));
    assert_eq!(out.checks[1].label, "Go tests");
    assert_eq!(out.checks[1].command, "go test ./...");
    assert!(!out.checks[1].result.success && out.checks[2].result.success);
    assert_eq!(out.diagnostics.error_lines, 3);
    assert_eq!(out.diagnostics.highlights, strings(&["error x"]));
}

#[test]
fn impatient_checks_stop_at_the_first_failure() {
    let mut run =
        QualityRun::start(detection(&["rust"], &[], &[]), QualityProfile::Fast, true).unwrap();
    run.record(result(true, ""));
    assert!(run.next().is_some());
    run.record(result(false, "failed"));
    assert!(run.next().is_none());
    let out = run.finish();
    assert_eq!((out.passed, out.checks_run, out.checks_failed), (false, 2, 1));
    let mut good =
        QualityRun::start(detection(&["go"], &[], &[]), QualityProfile::Fast, true).unwrap();
    good.record(result(true, ""));
    good.record(result(true, ""));
    assert!(good.next().is_none());
    let passed = good.finish();
    assert_eq!((passed.passed, passed.checks_run, passed.checks_failed), (true, 2, 0));
}

#[test]
fn processes_of_checks_have_no_input() {
    let c = CommandSpec {
        label: "l".to_string(),
        program: "go".to_string(),
        args: strings(&["vet"]),
    };
    let p = check_process(&c, "go".to_string(), path("/w/a"), 5);
    assert_eq!((p.program.as_str(), p.args.clone(), p.timeout_ms), ("go", strings(&["vet"]), 5));
    assert_eq!(p.cwd.display(), "/w/a");
    assert!(p.stdin.is_none() && p.env.len() == 0);
}

#[test]
fn the_same_findings_give_the_same_detection() {
    let s = server();
    let found = || {
        let all = ["package.json", "Makefile", "go.mod"];
        format!("{:?}", s.detect_project("app", dir("/w/app"), &probe(&all)))
    };
    assert_eq!(found(), found());
    let mut other = probe(&["go.mod", "package.json", "Makefile"]);
    other.makefile = Ok("check test:\n".to_string());
    other.manifest =
        Ok(r#"{"devDependencies":{"vue":"2"},"scripts":{"lint":"y"},"dependencies":{"next":"1"}}"#.to_string());
    assert_eq!(format!("{:?}", s.detect_project("app", dir("/w/app"), &other)), found());
}

fn request(timeout_ms: Option<u64>) -> QualityArgs {
    QualityArgs {
        cwd: "app".to_string(),
        profile: QualityProfile::Full,
        fail_fast: true,
        timeout_ms,
    }
}

#[test]
fn quality_checks_are_accepted_and_run() {
    let s = server();
    let nothing = PathLookup::Failed(String::new());
    let mut check = s
        .quality_check(&request(Some(7)), dir("/w/app"), &probe(&["go.mod"]), dir("/w/app"))
        .unwrap();
    assert_eq!(check.timeout_ms, 7);
    assert_eq!(check.cwd.display(), "/w/app");
    let first = check.next_process(&s, &nothing).unwrap().unwrap();
    assert_eq!((first.program.as_str(), first.timeout_ms), ("go", 7));
    assert_eq!(first.args, strings(&["vet", "./..."]));
    assert_eq!(first.cwd.display(), "/w/app");
    assert!(first.stdin.is_none() && first.env.len() == 0);
    check.run.record(result(true, ""));
    let second = check.next_process(&s, &nothing).unwrap().unwrap();
    assert_eq!(second.args, strings(&["test", "./..."]));
    check.run.record(result(false, "FAIL"));
    assert!(check.next_process(&s, &nothing).unwrap().is_none());
    let out = check.run.finish();
    assert_eq!((out.passed, out.checks_run, out.checks_failed), (false, 2, 1));
    assert_eq!(out.profile, QualityProfile::Full);
}

#[test]
fn quality_checks_are_refused_in_order() {
    let s = server();
    let gone = || PathLookup::Failed("gone".to_string());
    let refused = |args: QualityArgs, first: PathLookup, p: &ProjectProbe, again: PathLookup| {
        s.quality_check(&args, first, p, again).map(|_| ()).unwrap_err()
    };
    let mut bad = probe(&["package.json"]);
    bad.manifest = Err("denied".to_string());
    assert_eq!(
        refused(request(Some(0)), gone(), &bad, gone()),
        "cannot resolve working directory `app`: gone"
    );
    assert_eq!(
        refused(request(Some(0)), dir("/w/app"), &bad, gone()),
        "cannot read /w/app/package.json: denied"
    );
    assert!(refused(request(Some(0)), dir("/w/app"), &probe(&[]), gone())
        .starts_with("no supported project markers found in `app`"));
    let mut empty = probe(&["Makefile"]);
    empty.makefile = Ok(String::new());
    assert!(refused(request(Some(0)), dir("/w/app"), &empty, gone())
        .starts_with("project was detected (make)"));
    assert_eq!(
        refused(request(Some(0)), dir("/w/app"), &probe(&["go.mod"]), gone()),
        "cannot resolve working directory `app`: gone"
    );
    assert_eq!(
        refused(request(Some(0)), dir("/w/app"), &probe(&["go.mod"]), dir("/w/app")),
        "timeout_ms must be within 1..=2000 (requested 0)"
    );
}

#[test]
fn merging_is_summarizing_both() {
    let first: String = (0..60).map(|i| format!("error {i}\n")).collect();
    let second: String = (40..140).map(|i| format!("failed error {i}\nerror {i}\n")).collect();
    let mut a = summarize_diagnostics(&first, "");
    let b = summarize_diagnostics(&second, "");
    let both = summarize_diagnostics(&first, &second);
    merge_diagnostics(&mut a, &b);
    assert_eq!(a.highlights, both.highlights);
    assert_eq!(
        (a.error_lines, a.warning_lines, a.failure_lines),
        (both.error_lines, both.warning_lines, both.failure_lines)
    );
    let swapped = summarize_diagnostics(&format!("{first}{second}"), "");
    assert_eq!(swapped.highlights, both.highlights);
    assert_eq!(swapped.error_lines, both.error_lines);
}

#[test]
fn assignments_plan_nothing() {
    let mut p = probe(&["Makefile"]);
    p.makefile = Ok("test:=x\nlint ?= y\ncheck:\n".to_string());
    let d = server().detect_project("app", dir("/w/app"), &p).unwrap();
    assert_eq!(d.make_targets, strings(&["check"]));
    assert_eq!(lines(&d.recommended_checks), strings(&["Make check: make check"]));
}
