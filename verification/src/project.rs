//! What kind of project a directory holds.
use crate::makefile;
use crate::manifest;
use crate::manifest::NodeManifestInfo;
use crate::names;
use crate::plan;
use crate::plan::{ProjectDetection, QualityProfile};
use crate::resolved::ResolvedPath;
use crate::server;
use crate::server::{ExecServer, PathLookup};
use crate::text;
use vstd::prelude::*;
use vstd::string::*;

verus! {

// ---------------------------------------------------------------------------
// Package managers
// ---------------------------------------------------------------------------

/// The texts of a list of lists of strings.
pub open spec fn listing_texts(list: Seq<Vec<String>>) -> Seq<Seq<Seq<char>>> {
    list.map_values(|files: Vec<String>| names::texts(files@))
}

/// The directories in which lockfiles are searched: from the given one up to
/// the workspace, or the given one alone where it lies outside.
pub open spec fn search_path(root: Seq<Seq<u8>>, cwd: Seq<Seq<u8>>) -> Seq<Seq<Seq<u8>>> {
    if server::is_inside(root, cwd) {
        Seq::new((cwd.len() - root.len() + 1) as nat, |i: int| cwd.take(cwd.len() - i))
    } else {
        seq![cwd]
    }
}

/// The package manager whose lockfile is among the files of a directory.
pub open spec fn lockfile_manager(files: Seq<Seq<char>>) -> Option<Seq<char>> {
    if files.contains("pnpm-lock.yaml"@) {
        Some("pnpm"@)
    } else if files.contains("yarn.lock"@) {
        Some("yarn"@)
    } else if files.contains("bun.lockb"@) || files.contains("bun.lock"@) {
        Some("bun"@)
    } else if files.contains("package-lock.json"@) {
        Some("npm"@)
    } else {
        None
    }
}

/// The package manager of the first directory that has a lockfile, and `npm`
/// where none has.
pub open spec fn nearest_manager(listings: Seq<Seq<Seq<char>>>) -> Seq<char>
    decreases listings.len(),
{
    if listings.len() == 0 {
        "npm"@
    } else {
        match lockfile_manager(listings[0]) {
            Some(manager) => manager,
            None => nearest_manager(listings.drop_first()),
        }
    }
}

/// The listings of the directories that are searched; what lies beyond them is
/// ignored.
pub open spec fn searched(
    listings: Seq<Seq<Seq<char>>>,
    root: Seq<Seq<u8>>,
    cwd: Seq<Seq<u8>>,
) -> Seq<Seq<Seq<char>>> {
    let n = search_path(root, cwd).len();
    if listings.len() <= n {
        listings
    } else {
        listings.take(n as int)
    }
}

/// The lockfiles that tell a package manager.
pub open spec fn lockfiles() -> Seq<Seq<char>> {
    seq![
        "pnpm-lock.yaml"@,
        "yarn.lock"@,
        "bun.lockb"@,
        "bun.lock"@,
        "package-lock.json"@,
    ]
}

/// The names of the lockfiles to look for.
pub fn lockfile_names() -> (r: Vec<String>)
    ensures
        names::texts(r@) == lockfiles(),
{
    let mut r: Vec<String> = Vec::new();
    r.push("pnpm-lock.yaml".to_owned());
    r.push("yarn.lock".to_owned());
    r.push("bun.lockb".to_owned());
    r.push("bun.lock".to_owned());
    r.push("package-lock.json".to_owned());
    assert(names::texts(r@) == lockfiles());
    r
}

fn manager_of_files(files: &Vec<String>) -> (r: Option<String>)
    ensures
        plan::optional_text(r) == lockfile_manager(names::texts(files@)),
{
    let files = files.as_slice();
    if names::has_name(files, "pnpm-lock.yaml") {
        return Some("pnpm".to_owned());
    }
    if names::has_name(files, "yarn.lock") {
        return Some("yarn".to_owned());
    }
    if names::has_name(files, "bun.lockb") || names::has_name(files, "bun.lock") {
        return Some("bun".to_owned());
    }
    if names::has_name(files, "package-lock.json") {
        return Some("npm".to_owned());
    }
    None
}

/// The paths of a list of resolved paths.
pub open spec fn path_views(list: Seq<ResolvedPath>) -> Seq<Seq<Seq<u8>>> {
    list.map_values(|p: ResolvedPath| p@)
}

impl ExecServer {
    /// The directories in which the lockfiles of a project are searched, the
    /// nearest first.
    pub fn search_directories(&self, cwd: &ResolvedPath) -> (r: Vec<ResolvedPath>)
        ensures
            path_views(r@) == search_path(self.workspace_root@, cwd@),
    {
        let mut r: Vec<ResolvedPath> = Vec::new();
        let n = cwd.depth();
        if !cwd.is_within(&self.workspace_root) {
            r.push(cwd.ancestor(n));
            assert(cwd@.take(n as int) == cwd@);
            assert(path_views(r@) == search_path(self.workspace_root@, cwd@));
            return r;
        }
        let m = self.workspace_root.depth();
        let steps: usize = n - m;
        r.push(cwd.ancestor(n));
        for i in 0..steps
            invariant
                n == cwd@.len(),
                m == self.workspace_root@.len(),
                m <= n,
                steps == n - m,
                r@.len() == i + 1,
                forall|k: int| 0 <= k <= i ==> (#[trigger] r@[k])@ == cwd@.take(n - k),
        {
            r.push(cwd.ancestor(n - i - 1));
        }
        assert(path_views(r@) == search_path(self.workspace_root@, cwd@));
        r
    }

    /// The package manager of the project in `cwd`: that of the nearest
    /// lockfile in it or a directory above it, up to the workspace. `listings`
    /// holds, for each of the `search_directories`, the names of the lockfiles
    /// that are files there.
    pub fn detect_package_manager(&self, cwd: &ResolvedPath, listings: &Vec<Vec<String>>) -> (r:
        String)
        ensures
            r@ == nearest_manager(
                searched(listing_texts(listings@), self.workspace_root@, cwd@),
            ),
    {
        let total: usize = if cwd.is_within(&self.workspace_root) {
            cwd.depth() - self.workspace_root.depth()
        } else {
            0
        };
        let ghost all = searched(listing_texts(listings@), self.workspace_root@, cwd@);
        let mut i: usize = 0;
        assert(all.skip(0) == all);
        while i < listings.len() && i <= total
            invariant
                total + 1 == search_path(self.workspace_root@, cwd@).len(),
                all == searched(listing_texts(listings@), self.workspace_root@, cwd@),
                i <= all.len(),
                i <= listings@.len(),
                nearest_manager(all) == nearest_manager(all.skip(i as int)),
            decreases listings.len() - i,
        {
            assert(all[i as int] == names::texts(listings@[i as int]@));
            match manager_of_files(&listings[i]) {
                Some(manager) => {
                    return manager;
                },
                None => {},
            }
            assert(all.skip(i as int).drop_first() == all.skip(i + 1));
            i += 1;
        }
        assert(all.skip(i as int).len() == 0);
        "npm".to_owned()
    }
}

/// A directory without a lockfile does not matter: the search goes on above
/// it. The first directory that has one decides, whatever lies above it.
pub proof fn law_nearest_lockfile_decides(
    below: Seq<Seq<Seq<char>>>,
    files: Seq<Seq<char>>,
    above: Seq<Seq<Seq<char>>>,
)
    requires
        forall|k: int| 0 <= k < below.len() ==> lockfile_manager(#[trigger] below[k]) is None,
        lockfile_manager(files) is Some,
    ensures
        nearest_manager(below + seq![files] + above) == lockfile_manager(files)->Some_0,
    decreases below.len(),
{
    let all = below + seq![files] + above;
    if below.len() == 0 {
        assert(all[0] == files);
    } else {
        let rest = below.drop_first();
        assert(all[0] == below[0]);
        assert(all.drop_first() == rest + seq![files] + above);
        assert forall|k: int| 0 <= k < rest.len() implies lockfile_manager(
            #[trigger] rest[k],
        ) is None by {
            assert(rest[k] == below[k + 1]);
        }
        law_nearest_lockfile_decides(rest, files, above);
    }
}

/// The package manager of a project is always one of the known ones.
pub proof fn law_manager_is_known(listings: Seq<Seq<Seq<char>>>)
    ensures
        nearest_manager(listings) == "pnpm"@ || nearest_manager(listings) == "yarn"@
            || nearest_manager(listings) == "bun"@ || nearest_manager(listings) == "npm"@,
    decreases listings.len(),
{
    if listings.len() != 0 {
        law_manager_is_known(listings.drop_first());
    }
}

/// Every directory that is searched lies in the workspace and on the way to
/// the project, and the workspace itself is the last one.
pub proof fn law_search_stays_inside(root: Seq<Seq<u8>>, cwd: Seq<Seq<u8>>)
    requires
        server::is_inside(root, cwd),
    ensures
        search_path(root, cwd).first() == cwd,
        search_path(root, cwd).last() == root,
        forall|k: int|
            0 <= k < search_path(root, cwd).len() ==> server::is_inside(
                root,
                #[trigger] search_path(root, cwd)[k],
            ) && search_path(root, cwd)[k].is_prefix_of(cwd),
{
    assert(cwd.take(cwd.len() as int) == cwd);
    assert(cwd.take(root.len() as int) == root);
    assert forall|k: int| 0 <= k < search_path(root, cwd).len() implies server::is_inside(
        root,
        #[trigger] search_path(root, cwd)[k],
    ) && search_path(root, cwd)[k].is_prefix_of(cwd) by {
        let dir = cwd.take(cwd.len() - k);
        assert(dir.subrange(0, root.len() as int) == cwd.subrange(0, root.len() as int));
    }
}

// ---------------------------------------------------------------------------
// Project kinds
// ---------------------------------------------------------------------------

/// The names that a makefile may have, the preferred first.
pub open spec fn makefile_names() -> Seq<Seq<char>> {
    seq!["Makefile"@, "makefile"@, "GNUmakefile"@]
}

/// The makefile among the files of a directory.
pub open spec fn makefile_in(files: Seq<Seq<char>>) -> Option<Seq<char>> {
    plan::first_present(files, makefile_names())
}

/// The files that mark a project.
pub open spec fn marker_files() -> Seq<Seq<char>> {
    seq![
        "Cargo.toml"@,
        "go.mod"@,
        "Makefile"@,
        "makefile"@,
        "GNUmakefile"@,
        "package.json"@,
    ]
}

/// The names of the marker files to look for.
pub fn marker_names() -> (r: Vec<String>)
    ensures
        names::texts(r@) == marker_files(),
{
    let mut r: Vec<String> = Vec::new();
    r.push("Cargo.toml".to_owned());
    r.push("go.mod".to_owned());
    r.push("Makefile".to_owned());
    r.push("makefile".to_owned());
    r.push("GNUmakefile".to_owned());
    r.push("package.json".to_owned());
    assert(names::texts(r@) == marker_files());
    r
}

/// The makefile among the files of a directory.
pub fn makefile_name(files: &Vec<String>) -> (r: Option<String>)
    ensures
        plan::optional_text(r) == makefile_in(names::texts(files@)),
{
    let wanted: [&str; 3] = ["Makefile", "makefile", "GNUmakefile"];
    assert(names::str_texts(wanted@) == makefile_names());
    match plan::first_script(files.as_slice(), &wanted) {
        Some(name) => Some(name.to_owned()),
        None => None,
    }
}

/// What was found in a Node project.
#[derive(Debug)]
pub struct NodeProject {
    pub manifest: NodeManifestInfo,
    pub package_manager: String,
}

/// `kind` is a kind of the project with the given files and, where it is a
/// Node project, manifest.
pub open spec fn is_kind(
    files: Seq<Seq<char>>,
    node: Option<NodeProject>,
    kind: Seq<char>,
) -> bool {
    ||| kind == "rust"@ && files.contains("Cargo.toml"@)
    ||| kind == "go"@ && files.contains("go.mod"@)
    ||| kind == "make"@ && makefile_in(files) is Some
    ||| node matches Some(project) && {
        ||| kind == "node"@
        ||| kind == "nextjs"@ && project.manifest.has_next
        ||| kind == "vue"@ && project.manifest.has_vue
    }
}

/// `name`, where it is among the files.
pub open spec fn marker(files: Seq<Seq<char>>, name: Seq<char>) -> Seq<Seq<char>> {
    if files.contains(name) {
        seq![name]
    } else {
        seq![]
    }
}

/// The files that mark the project, in the order in which they are reported.
pub open spec fn markers_of(files: Seq<Seq<char>>, node: Option<NodeProject>) -> Seq<Seq<char>> {
    marker(files, "Cargo.toml"@) + marker(files, "go.mod"@) + (match makefile_in(files) {
        Some(name) => seq![name],
        None => seq![],
    }) + (if node is Some {
        seq!["package.json"@]
    } else {
        seq![]
    })
}

/// The detection is that of the project with the given files, Node project and
/// make targets.
pub open spec fn is_detection(
    d: plan::Detection,
    cwd: Seq<char>,
    files: Seq<Seq<char>>,
    node: Option<NodeProject>,
    targets: Seq<Seq<char>>,
) -> bool {
    &&& d.cwd == cwd
    &&& names::strictly_sorted(d.kinds)
    &&& forall|kind: Seq<char>| #[trigger] d.kinds.contains(kind) <==> is_kind(files, node, kind)
    &&& d.markers == markers_of(files, node)
    &&& d.make_targets == targets
    &&& match node {
        Some(project) => {
            &&& d.package_manager == Some(project.package_manager@)
            &&& d.node_scripts == names::texts(project.manifest.scripts@)
        },
        None => {
            &&& d.package_manager is None
            &&& d.node_scripts.len() == 0
        },
    }
    &&& d.recommended_checks == plan::quality_plan(d, QualityProfile::Fast)
}

/// The detection of a project, from what was found in its directory.
pub fn assemble_detection(
    cwd: String,
    files: &Vec<String>,
    node: Option<NodeProject>,
    make_targets: Vec<String>,
) -> (r: ProjectDetection)
    ensures
        is_detection(
            r@,
            cwd@,
            names::texts(files@),
            node,
            names::texts(make_targets@),
        ),
{
    let ghost found = names::texts(files@);
    let ghost project = node;
    let mut kinds = names::NameSet::new();
    let mut markers: Vec<String> = Vec::new();
    if names::has_name(files.as_slice(), "Cargo.toml") {
        kinds.insert("rust".to_owned());
        markers.push("Cargo.toml".to_owned());
    }
    if names::has_name(files.as_slice(), "go.mod") {
        kinds.insert("go".to_owned());
        markers.push("go.mod".to_owned());
    }
    assert(names::texts(markers@) == marker(found, "Cargo.toml"@) + marker(found, "go.mod"@));
    if let Some(name) = makefile_name(files) {
        kinds.insert("make".to_owned());
        let ghost was = markers@;
        let ghost text = name@;
        markers.push(name);
        assert(names::texts(markers@) == names::texts(was).push(text));
    }
    let mut package_manager: Option<String> = None;
    let mut node_scripts: Vec<String> = Vec::new();
    if let Some(p) = node {
        kinds.insert("node".to_owned());
        let ghost was = markers@;
        markers.push("package.json".to_owned());
        assert(names::texts(markers@) == names::texts(was).push("package.json"@));
        if p.manifest.has_next {
            kinds.insert("nextjs".to_owned());
        }
        if p.manifest.has_vue {
            kinds.insert("vue".to_owned());
        }
        package_manager = Some(p.package_manager);
        node_scripts = p.manifest.scripts;
    }
    assert(names::texts(markers@) == markers_of(found, project));
    let mut detection = ProjectDetection {
        cwd,
        kinds: kinds.into_names(),
        package_manager,
        node_scripts,
        make_targets,
        markers,
        recommended_checks: Vec::new(),
    };
    let ghost before = detection@;
    let checks = plan::build_quality_plan(&detection, QualityProfile::Fast);
    detection.recommended_checks = checks;
    proof {
        plan::law_plan_depends_on_the_project(before, detection@, QualityProfile::Fast);
    }
    detection
}

// ---------------------------------------------------------------------------
// Detection
// ---------------------------------------------------------------------------

/// What was found by looking at a project's directory.
#[derive(Debug)]
pub struct ProjectProbe {
    /// Those of the marker files that are files in the directory.
    pub files: Vec<String>,
    /// For each directory that is searched for lockfiles, those that are
    /// files there.
    pub lockfiles: Vec<Vec<String>>,
    /// The path of the manifest, for messages.
    pub manifest_path: String,
    /// What reading the manifest gave; read only where there is one.
    pub manifest: Result<String, String>,
    /// The path of the makefile, for messages.
    pub makefile_path: String,
    /// What reading the makefile gave; read only where there is one.
    pub makefile: Result<String, String>,
}

impl ProjectProbe {
    /// The directory has a manifest.
    pub open spec fn has_manifest(&self) -> bool {
        names::texts(self.files@).contains("package.json"@)
    }

    /// The directory has a makefile.
    pub open spec fn has_makefile(&self) -> bool {
        makefile_in(names::texts(self.files@)) is Some
    }

    /// What is wrong with the manifest, if there is one.
    pub open spec fn manifest_problem(&self) -> Option<Seq<char>> {
        if !self.has_manifest() {
            None
        } else {
            match self.manifest {
                Err(e) => Some(makefile::unreadable(self.manifest_path@, e@)),
                Ok(text) => match manifest::json_parse(text@) {
                    Err(e) => Some(manifest::invalid_manifest(self.manifest_path@, e)),
                    Ok(_) => None,
                },
            }
        }
    }

    /// What is wrong with the makefile, if there is one.
    pub open spec fn makefile_problem(&self) -> Option<Seq<char>> {
        if !self.has_makefile() {
            None
        } else {
            match self.makefile {
                Err(e) => Some(makefile::unreadable(self.makefile_path@, e@)),
                Ok(_) => None,
            }
        }
    }

    /// The first thing that is wrong with the files of the project.
    pub open spec fn problem(&self) -> Option<Seq<char>> {
        match self.manifest_problem() {
            Some(e) => Some(e),
            None => self.makefile_problem(),
        }
    }

    /// The Node project is that of the manifest, with the package manager of
    /// the nearest lockfile.
    pub open spec fn is_node_project(
        &self,
        root: Seq<Seq<u8>>,
        cwd: Seq<Seq<u8>>,
        node: Option<NodeProject>,
    ) -> bool {
        match node {
            None => !self.has_manifest(),
            Some(project) => {
                &&& self.has_manifest()
                &&& self.manifest matches Ok(text) && manifest::json_parse(text@) matches Ok(json)
                    && manifest::describes(project.manifest, json)
                &&& project.package_manager@ == nearest_manager(
                    searched(listing_texts(self.lockfiles@), root, cwd),
                )
            },
        }
    }

    /// The targets are those of the makefile, and none where there is none.
    pub open spec fn are_targets(&self, targets: Seq<Seq<char>>) -> bool {
        if self.has_makefile() {
            self.makefile matches Ok(text) && makefile::lists_targets(targets, text@)
        } else {
            targets.len() == 0
        }
    }
}

/// The detection is that of the project that was looked at.
pub open spec fn detects(
    root: Seq<Seq<u8>>,
    cwd: Seq<Seq<u8>>,
    probe: ProjectProbe,
    d: plan::Detection,
) -> bool {
    exists|node: Option<NodeProject>| #[trigger]
        probe.is_node_project(root, cwd, node) && probe.are_targets(d.make_targets)
            && is_detection(
            d,
            server::relative_text(root, cwd),
            names::texts(probe.files@),
            node,
            d.make_targets,
        )
}

/// A result with the detection and message as plain values.
pub open spec fn told_detection(r: Result<ProjectDetection, String>) -> Result<
    plan::Detection,
    Seq<char>,
> {
    match r {
        Ok(d) => Ok(d@),
        Err(e) => Err(e@),
    }
}

/// The result is the detection of the project in the directory that a request
/// names, or why there is none: first what is wrong with the directory, then
/// what is wrong with the files in it.
pub open spec fn is_detection_result(
    root: Seq<Seq<u8>>,
    raw: Seq<char>,
    directory: server::Lookup,
    probe: ProjectProbe,
    r: Result<plan::Detection, Seq<char>>,
) -> bool {
    match server::directory_check(root, raw, directory) {
        Err(e) => r == Err::<plan::Detection, Seq<char>>(e),
        Ok(cwd) => match probe.problem() {
            Some(e) => r == Err::<plan::Detection, Seq<char>>(e),
            None => r matches Ok(d) && detects(root, cwd, probe, d),
        },
    }
}

impl ExecServer {
    /// What kind of project the directory that a request names holds, and which
    /// checks are conventional for it. `directory` is what looking up the path
    /// of `requested_directory` below the workspace gave, and `probe` what was
    /// found there.
    pub fn detect_project(
        &self,
        cwd_raw: &str,
        directory: PathLookup,
        probe: &ProjectProbe,
    ) -> (r: Result<ProjectDetection, String>)
        ensures
            is_detection_result(
                self.workspace_root@,
                cwd_raw@,
                directory@,
                *probe,
                told_detection(r),
            ),
            r is Ok ==> server::reads_relative(self.workspace_root@, directory@->path),
    {
        match self.resolve_cwd(Some(cwd_raw), directory) {
            Err(e) => Err(e),
            Ok(cwd) => self.describe_project(&cwd, probe),
        }
    }

    /// What kind of project `cwd` holds, and which checks are conventional for
    /// it.
    pub fn describe_project(&self, cwd: &ResolvedPath, probe: &ProjectProbe) -> (r: Result<
        ProjectDetection,
        String,
    >)
        ensures
            match r {
                Err(message) => probe.problem() == Some(message@),
                Ok(detection) => probe.problem() is None && detects(
                    self.workspace_root@,
                    cwd@,
                    *probe,
                    detection@,
                ),
            },
            r is Ok ==> server::reads_relative(self.workspace_root@, cwd@),
    {
        let mut node: Option<NodeProject> = None;
        if names::has_name(probe.files.as_slice(), "package.json") {
            match manifest::read_node_manifest(probe.manifest_path.as_str(), &probe.manifest) {
                Err(e) => {
                    return Err(e);
                },
                Ok(info) => {
                    node = Some(
                        NodeProject {
                            manifest: info,
                            package_manager: self.detect_package_manager(cwd, &probe.lockfiles),
                        },
                    );
                },
            }
        }
        let mut targets: Vec<String> = Vec::new();
        if makefile_name(&probe.files).is_some() {
            match makefile::read_make_targets(probe.makefile_path.as_str(), &probe.makefile) {
                Err(e) => {
                    return Err(e);
                },
                Ok(list) => {
                    targets = list;
                },
            }
        }
        assert(probe.is_node_project(self.workspace_root@, cwd@, node));
        assert(probe.are_targets(names::texts(targets@)));
        let detection = assemble_detection(
            self.relative_display(cwd),
            &probe.files,
            node,
            targets,
        );
        Ok(detection)
    }
}

proof fn lemma_manifest_is_determined(
    a: NodeManifestInfo,
    b: NodeManifestInfo,
    json: manifest::Json,
)
    requires
        manifest::describes(a, json),
        manifest::describes(b, json),
    ensures
        names::texts(a.scripts@) == names::texts(b.scripts@),
        a.has_next == b.has_next,
        a.has_vue == b.has_vue,
{
    let x = names::texts(a.scripts@);
    let y = names::texts(b.scripts@);
    assert forall|t: Seq<char>| x.contains(t) <==> y.contains(t) by {
        assert(x.contains(t) <==> manifest::section_declares(json, "scripts"@, t));
        assert(y.contains(t) <==> manifest::section_declares(json, "scripts"@, t));
    }
    names::law_sorted_list_is_unique(x, y);
}

proof fn lemma_kinds_are_determined(
    a: Seq<Seq<char>>,
    b: Seq<Seq<char>>,
    files: Seq<Seq<char>>,
    node: Option<NodeProject>,
    other: Option<NodeProject>,
)
    requires
        names::strictly_sorted(a),
        names::strictly_sorted(b),
        forall|kind: Seq<char>| #[trigger] a.contains(kind) <==> is_kind(files, node, kind),
        forall|kind: Seq<char>| #[trigger] b.contains(kind) <==> is_kind(files, other, kind),
        node is Some <==> other is Some,
        node matches Some(p) ==> p.manifest.has_next == other->Some_0.manifest.has_next
            && p.manifest.has_vue == other->Some_0.manifest.has_vue,
    ensures
        a == b,
{
    assert forall|t: Seq<char>| a.contains(t) <==> b.contains(t) by {
        assert(is_kind(files, node, t) <==> is_kind(files, other, t));
    }
    names::law_sorted_list_is_unique(a, b);
}

/// What was found in a directory fixes what is detected: the same findings
/// never give two different answers.
pub proof fn law_detection_is_determined(
    root: Seq<Seq<u8>>,
    raw: Seq<char>,
    directory: server::Lookup,
    probe: ProjectProbe,
    a: Result<plan::Detection, Seq<char>>,
    b: Result<plan::Detection, Seq<char>>,
)
    requires
        is_detection_result(root, raw, directory, probe, a),
        is_detection_result(root, raw, directory, probe, b),
    ensures
        a == b,
{
    if server::directory_check(root, raw, directory) is Ok && probe.problem() is None {
        let cwd = server::directory_check(root, raw, directory)->Ok_0;
        let x = a->Ok_0;
        let y = b->Ok_0;
        let files = names::texts(probe.files@);
        let here = server::relative_text(root, cwd);
        let m = choose|node: Option<NodeProject>| #[trigger]
            probe.is_node_project(root, cwd, node) && probe.are_targets(x.make_targets)
                && is_detection(x, here, files, node, x.make_targets);
        let n = choose|node: Option<NodeProject>| #[trigger]
            probe.is_node_project(root, cwd, node) && probe.are_targets(y.make_targets)
                && is_detection(y, here, files, node, y.make_targets);
        if m is Some {
            let json = manifest::json_parse(probe.manifest->Ok_0@)->Ok_0;
            lemma_manifest_is_determined(m->Some_0.manifest, n->Some_0.manifest, json);
        }
        lemma_kinds_are_determined(x.kinds, y.kinds, files, m, n);
        if probe.has_makefile() {
            let makefile = probe.makefile->Ok_0@;
            assert forall|t: Seq<char>| x.make_targets.contains(t) <==> y.make_targets.contains(
                t,
            ) by {
                assert(x.make_targets.contains(t) <==> makefile::declares_target(makefile, t));
                assert(y.make_targets.contains(t) <==> makefile::declares_target(makefile, t));
            }
            names::law_sorted_list_is_unique(x.make_targets, y.make_targets);
        }
        assert(x.make_targets == y.make_targets);
        assert(x.node_scripts == y.node_scripts);
        plan::law_plan_depends_on_the_project(x, y, QualityProfile::Fast);
    }
}

// ---------------------------------------------------------------------------
// What is searched, and what is detected
// ---------------------------------------------------------------------------

/// Every directory that lies in the workspace and on the way to the project is
/// searched, the deepest first: each next one is the parent of the one before,
/// and none is left out, however deep the project lies.
pub proof fn law_every_directory_on_the_way_is_searched(
    root: Seq<Seq<u8>>,
    cwd: Seq<Seq<u8>>,
    directory: Seq<Seq<u8>>,
)
    requires
        root.is_prefix_of(cwd),
    ensures
        search_path(root, cwd).len() == cwd.len() - root.len() + 1,
        search_path(root, cwd)[0] == cwd,
        forall|k: int|
            0 <= k < search_path(root, cwd).len() - 1 ==> search_path(root, cwd)[k + 1] == (
            #[trigger] search_path(root, cwd)[k]).drop_last(),
        root.is_prefix_of(directory) && directory.is_prefix_of(cwd) ==> search_path(root, cwd)[
            cwd.len() - directory.len()
        ] == directory && search_path(root, cwd).contains(directory),
{
    let path = search_path(root, cwd);
    assert(cwd.take(cwd.len() as int) == cwd);
    assert forall|k: int| 0 <= k < path.len() - 1 implies path[k + 1] == (
    #[trigger] path[k]).drop_last() by {
        assert(path[k] == cwd.take(cwd.len() - k));
        assert(path[k + 1] == cwd.take(cwd.len() - k - 1));
        assert(cwd.take(cwd.len() - k).drop_last() == cwd.take(cwd.len() - k - 1));
    }
    if root.is_prefix_of(directory) && directory.is_prefix_of(cwd) {
        let k = cwd.len() - directory.len();
        assert(path[k] == cwd.take(directory.len() as int));
        assert(cwd.take(directory.len() as int) == directory);
    }
}

/// A project outside the workspace is searched by itself.
pub proof fn law_outside_the_workspace_one_directory_is_searched(
    root: Seq<Seq<u8>>,
    cwd: Seq<Seq<u8>>,
)
    requires
        !root.is_prefix_of(cwd),
    ensures
        search_path(root, cwd) == seq![cwd],
{
}

/// Of several lockfiles in one directory that of pnpm decides, then that of
/// yarn, then either one of bun, then that of npm; other files do not matter.
pub proof fn law_lockfiles_tell_the_manager(files: Seq<Seq<char>>)
    ensures
        files.contains("pnpm-lock.yaml"@) ==> lockfile_manager(files) == Some("pnpm"@),
        !files.contains("pnpm-lock.yaml"@) && files.contains("yarn.lock"@) ==> lockfile_manager(
            files,
        ) == Some("yarn"@),
        !files.contains("pnpm-lock.yaml"@) && !files.contains("yarn.lock"@) && (files.contains(
            "bun.lockb"@,
        ) || files.contains("bun.lock"@)) ==> lockfile_manager(files) == Some("bun"@),
        !files.contains("pnpm-lock.yaml"@) && !files.contains("yarn.lock"@) && !files.contains(
            "bun.lockb"@,
        ) && !files.contains("bun.lock"@) && files.contains("package-lock.json"@)
            ==> lockfile_manager(files) == Some("npm"@),
        lockfile_manager(files) is None <==> !files.contains("pnpm-lock.yaml"@) && !files.contains(
            "yarn.lock"@,
        ) && !files.contains("bun.lockb"@) && !files.contains("bun.lock"@) && !files.contains(
            "package-lock.json"@,
        ),
{
}

proof fn lemma_no_lockfile(listings: Seq<Seq<Seq<char>>>)
    requires
        forall|j: int| 0 <= j < listings.len() ==> lockfile_manager(#[trigger] listings[j]) is None,
    ensures
        nearest_manager(listings) == "npm"@,
    decreases listings.len(),
{
    if listings.len() != 0 {
        let rest = listings.drop_first();
        assert forall|j: int| 0 <= j < rest.len() implies lockfile_manager(
            #[trigger] rest[j],
        ) is None by {
            assert(rest[j] == listings[j + 1]);
        }
        assert(lockfile_manager(listings[0]) is None);
        lemma_no_lockfile(rest);
    }
}

/// The package manager of a project is that of the lockfile in the nearest
/// directory that has one: whichever directory between the project and the
/// workspace that is, where those below it have none. Where none has, it is npm.
pub proof fn law_ancestor_lockfiles_are_found(
    root: Seq<Seq<u8>>,
    cwd: Seq<Seq<u8>>,
    listings: Seq<Seq<Seq<char>>>,
    directory: Seq<Seq<u8>>,
)
    requires
        root.is_prefix_of(cwd),
        listings.len() == cwd.len() - root.len() + 1,
        root.is_prefix_of(directory),
        directory.is_prefix_of(cwd),
        forall|j: int|
            0 <= j < cwd.len() - directory.len() ==> lockfile_manager(#[trigger] listings[j]) is None,
    ensures
        ({
            let files = listings[cwd.len() - directory.len()];
            lockfile_manager(files) matches Some(manager) ==> nearest_manager(
                searched(listings, root, cwd),
            ) == manager
        }),
        (forall|j: int|
            0 <= j < listings.len() ==> lockfile_manager(#[trigger] listings[j]) is None)
            ==> nearest_manager(searched(listings, root, cwd)) == "npm"@,
{
    law_every_directory_on_the_way_is_searched(root, cwd, directory);
    let k = cwd.len() - directory.len();
    let files = listings[k];
    assert(searched(listings, root, cwd) == listings);
    if lockfile_manager(files) is Some {
        let below = listings.take(k);
        let above = listings.skip(k + 1);
        assert(listings == below + seq![files] + above);
        law_nearest_lockfile_decides(below, files, above);
    }
    if forall|j: int|
        0 <= j < listings.len() ==> lockfile_manager(#[trigger] listings[j]) is None {
        lemma_no_lockfile(listings);
    }
}

/// Lockfiles beyond the workspace do not matter, and a directory without a
/// listing has none.
pub proof fn law_only_the_way_to_the_workspace_matters(
    root: Seq<Seq<u8>>,
    cwd: Seq<Seq<u8>>,
    listings: Seq<Seq<Seq<char>>>,
    beyond: Seq<Seq<Seq<char>>>,
)
    requires
        root.is_prefix_of(cwd),
        listings.len() == cwd.len() - root.len() + 1,
    ensures
        searched(listings + beyond, root, cwd) == listings,
        searched(listings, root, cwd) == listings,
{
    law_every_directory_on_the_way_is_searched(root, cwd, cwd);
    assert((listings + beyond).take(listings.len() as int) == listings);
    if beyond.len() == 0 {
        assert(listings + beyond == listings);
    }
}

proof fn lemma_kind_names_differ()
    ensures
        "rust"@ != "go"@,
        "rust"@ != "make"@,
        "rust"@ != "node"@,
        "rust"@ != "nextjs"@,
        "rust"@ != "vue"@,
        "go"@ != "make"@,
        "go"@ != "node"@,
        "go"@ != "nextjs"@,
        "go"@ != "vue"@,
        "make"@ != "node"@,
        "make"@ != "nextjs"@,
        "make"@ != "vue"@,
        "node"@ != "nextjs"@,
        "node"@ != "vue"@,
        "nextjs"@ != "vue"@,
{
    reveal_strlit("rust");
    reveal_strlit("go");
    reveal_strlit("make");
    reveal_strlit("node");
    reveal_strlit("nextjs");
    reveal_strlit("vue");
    assert("rust"@.len() == 4 && "go"@.len() == 2 && "make"@.len() == 4 && "node"@.len() == 4);
    assert("nextjs"@.len() == 6 && "vue"@.len() == 3);
    assert("rust"@[0] == 'r' && "make"@[0] == 'm' && "node"@[0] == 'n');
}

proof fn lemma_makefile_in(files: Seq<Seq<char>>)
    ensures
        makefile_in(files) == if files.contains("Makefile"@) {
            Some("Makefile"@)
        } else if files.contains("makefile"@) {
            Some("makefile"@)
        } else if files.contains("GNUmakefile"@) {
            Some("GNUmakefile"@)
        } else {
            None
        },
{
    let list = makefile_names();
    let rest = list.drop_first();
    let last = rest.drop_first();
    assert(list[0] == "Makefile"@ && rest[0] == "makefile"@ && last[0] == "GNUmakefile"@);
    assert(last.drop_first().len() == 0);
    reveal_with_fuel(plan::first_present, 4);
}

/// The kinds of a project are told by its files: a `Cargo.toml` makes it a Rust
/// project, a `go.mod` one in Go, a makefile under any of its names one with
/// make, and a `package.json` a Node project. It has no other kinds but those of
/// its frameworks, which only a Node project has.
pub proof fn law_files_tell_the_kinds(
    root: Seq<Seq<u8>>,
    cwd: Seq<Seq<u8>>,
    probe: ProjectProbe,
    d: plan::Detection,
    kind: Seq<char>,
)
    requires
        detects(root, cwd, probe, d),
    ensures
        ({
            let files = names::texts(probe.files@);
            &&& d.kinds.contains("rust"@) <==> files.contains("Cargo.toml"@)
            &&& d.kinds.contains("go"@) <==> files.contains("go.mod"@)
            &&& d.kinds.contains("make"@) <==> files.contains("Makefile"@) || files.contains(
                "makefile"@,
            ) || files.contains("GNUmakefile"@)
            &&& d.kinds.contains("node"@) <==> files.contains("package.json"@)
            &&& d.kinds.contains("nextjs"@) || d.kinds.contains("vue"@) ==> d.kinds.contains(
                "node"@,
            )
            &&& d.kinds.contains(kind) ==> kind == "rust"@ || kind == "go"@ || kind == "make"@
                || kind == "node"@ || kind == "nextjs"@ || kind == "vue"@
            &&& names::strictly_sorted(d.kinds)
        }),
{
    let files = names::texts(probe.files@);
    let here = server::relative_text(root, cwd);
    let node = choose|node: Option<NodeProject>| #[trigger]
        probe.is_node_project(root, cwd, node) && probe.are_targets(d.make_targets)
            && is_detection(d, here, files, node, d.make_targets);
    lemma_kind_names_differ();
    lemma_makefile_in(files);
    assert(d.kinds.contains("rust"@) <==> is_kind(files, node, "rust"@));
    assert(d.kinds.contains("go"@) <==> is_kind(files, node, "go"@));
    assert(d.kinds.contains("make"@) <==> is_kind(files, node, "make"@));
    assert(d.kinds.contains("node"@) <==> is_kind(files, node, "node"@));
    assert(d.kinds.contains("nextjs"@) <==> is_kind(files, node, "nextjs"@));
    assert(d.kinds.contains("vue"@) <==> is_kind(files, node, "vue"@));
    assert(d.kinds.contains(kind) <==> is_kind(files, node, kind));
}

/// The manifest of a Node project tells its frameworks and scripts: `nextjs` is
/// among the kinds exactly where one of its dependency sections is an object with
/// the package `next`, `vue` exactly where one has the package `vue`, and a script
/// is listed exactly where it is a field of the object `scripts`.
pub proof fn law_manifests_tell_frameworks_and_scripts(
    root: Seq<Seq<u8>>,
    cwd: Seq<Seq<u8>>,
    probe: ProjectProbe,
    d: plan::Detection,
    json: manifest::Json,
    script: Seq<char>,
)
    requires
        detects(root, cwd, probe, d),
        names::texts(probe.files@).contains("package.json"@),
        probe.manifest matches Ok(text) && manifest::json_parse(text@) == Ok::<
            manifest::Json,
            Seq<char>,
        >(json),
    ensures
        ({
            let declared = |section: Seq<char>, name: Seq<char>|
                json is Object && json->Object_0.contains_key(section)
                    && json->Object_0[section] is Object
                    && json->Object_0[section]->Object_0.contains_key(name);
            &&& d.kinds.contains("nextjs"@) <==> declared("dependencies"@, "next"@) || declared(
                "devDependencies"@,
                "next"@,
            ) || declared("peerDependencies"@, "next"@)
            &&& d.kinds.contains("vue"@) <==> declared("dependencies"@, "vue"@) || declared(
                "devDependencies"@,
                "vue"@,
            ) || declared("peerDependencies"@, "vue"@)
            &&& d.node_scripts.contains(script) <==> declared("scripts"@, script)
            &&& names::strictly_sorted(d.node_scripts)
        }),
        d.package_manager == Some(
            nearest_manager(searched(listing_texts(probe.lockfiles@), root, cwd)),
        ),
{
    let files = names::texts(probe.files@);
    let here = server::relative_text(root, cwd);
    let node = choose|node: Option<NodeProject>| #[trigger]
        probe.is_node_project(root, cwd, node) && probe.are_targets(d.make_targets)
            && is_detection(d, here, files, node, d.make_targets);
    lemma_kind_names_differ();
    assert(d.kinds.contains("nextjs"@) <==> is_kind(files, node, "nextjs"@));
    assert(d.kinds.contains("vue"@) <==> is_kind(files, node, "vue"@));
    let info = node->Some_0.manifest;
    assert(manifest::describes(info, json));
    assert(names::texts(info.scripts@).contains(script) <==> manifest::section_declares(
        json,
        "scripts"@,
        script,
    ));
}

/// A directory without a manifest has no scripts, no package manager and no
/// frameworks; one without a makefile has no targets. The targets of a makefile
/// are those that it declares.
pub proof fn law_missing_files_tell_nothing(
    root: Seq<Seq<u8>>,
    cwd: Seq<Seq<u8>>,
    probe: ProjectProbe,
    d: plan::Detection,
    target: Seq<char>,
)
    requires
        detects(root, cwd, probe, d),
    ensures
        ({
            let files = names::texts(probe.files@);
            let has_makefile = files.contains("Makefile"@) || files.contains("makefile"@)
                || files.contains("GNUmakefile"@);
            &&& !files.contains("package.json"@) ==> d.node_scripts.len() == 0
                && d.package_manager is None
            &&& !has_makefile ==> d.make_targets.len() == 0
            &&& has_makefile ==> (probe.makefile matches Ok(text) && (d.make_targets.contains(
                target,
            ) <==> makefile::declares_target(text@, target)))
            &&& names::strictly_sorted(d.make_targets)
        }),
{
    let files = names::texts(probe.files@);
    lemma_makefile_in(files);
    if probe.has_makefile() {
        let text = probe.makefile->Ok_0@;
        assert(d.make_targets.contains(target) <==> makefile::declares_target(text, target));
    }
}

/// The markers of a project are the files that tell its kinds, in a fixed order,
/// and its recommended checks are its fast plan. Its directory is reported as it
/// lies in the workspace.
pub proof fn law_markers_are_the_files_that_tell(
    root: Seq<Seq<u8>>,
    cwd: Seq<Seq<u8>>,
    probe: ProjectProbe,
    d: plan::Detection,
)
    requires
        detects(root, cwd, probe, d),
    ensures
        ({
            let files = names::texts(probe.files@);
            let one = |name: Seq<char>|
                if files.contains(name) {
                    seq![name]
                } else {
                    Seq::<Seq<char>>::empty()
                };
            d.markers == one("Cargo.toml"@) + one("go.mod"@) + (if files.contains("Makefile"@) {
                seq!["Makefile"@]
            } else if files.contains("makefile"@) {
                seq!["makefile"@]
            } else {
                one("GNUmakefile"@)
            }) + one("package.json"@)
        }),
        d.recommended_checks == plan::quality_plan(d, QualityProfile::Fast),
        d.cwd == server::relative_text(root, cwd),
{
    let files = names::texts(probe.files@);
    lemma_makefile_in(files);
}

/// A project is detected exactly where its directory is accepted, and its
/// manifest and makefile, where it has them, can be read, and the manifest is
/// JSON. What is told first is the directory, then the manifest, then the
/// makefile.
pub proof fn law_readable_projects_are_detected(
    root: Seq<Seq<u8>>,
    raw: Seq<char>,
    directory: server::Lookup,
    probe: ProjectProbe,
    r: Result<plan::Detection, Seq<char>>,
)
    requires
        is_detection_result(root, raw, directory, probe, r),
    ensures
        ({
            let files = names::texts(probe.files@);
            let has_manifest = files.contains("package.json"@);
            let has_makefile = files.contains("Makefile"@) || files.contains("makefile"@)
                || files.contains("GNUmakefile"@);
            let refused = |e: Seq<char>| r == Err::<plan::Detection, Seq<char>>(e);
            match server::directory_check(root, raw, directory) {
                Err(e) => refused(e),
                Ok(cwd) => {
                    if has_manifest && probe.manifest is Err {
                        refused(
                            "cannot read "@ + probe.manifest_path@ + ": "@
                                + probe.manifest->Err_0@,
                        )
                    } else if has_manifest && manifest::json_parse(probe.manifest->Ok_0@) is Err {
                        refused(
                            "invalid "@ + probe.manifest_path@ + ": "@ + manifest::json_parse(
                                probe.manifest->Ok_0@,
                            )->Err_0,
                        )
                    } else if has_makefile && probe.makefile is Err {
                        refused(
                            "cannot read "@ + probe.makefile_path@ + ": "@
                                + probe.makefile->Err_0@,
                        )
                    } else {
                        r matches Ok(d) && detects(root, cwd, probe, d)
                    }
                },
            }
        }),
{
    lemma_makefile_in(names::texts(probe.files@));
}

/// The files that are looked for are all those that tell something, and no
/// others.
pub proof fn law_files_that_are_looked_for(name: Seq<char>)
    ensures
        lockfiles().contains(name) <==> name == "pnpm-lock.yaml"@ || name == "yarn.lock"@ || name
            == "bun.lockb"@ || name == "bun.lock"@ || name == "package-lock.json"@,
        marker_files().contains(name) <==> name == "Cargo.toml"@ || name == "go.mod"@ || name
            == "Makefile"@ || name == "makefile"@ || name == "GNUmakefile"@ || name
            == "package.json"@,
{
    let a = lockfiles();
    let b = marker_files();
    assert(a[0] == "pnpm-lock.yaml"@ && a[1] == "yarn.lock"@ && a[2] == "bun.lockb"@);
    assert(a[3] == "bun.lock"@ && a[4] == "package-lock.json"@);
    assert(b[0] == "Cargo.toml"@ && b[1] == "go.mod"@ && b[2] == "Makefile"@);
    assert(b[3] == "makefile"@ && b[4] == "GNUmakefile"@ && b[5] == "package.json"@);
}

/// Of several makefiles in one directory `Makefile` is read, then `makefile`,
/// then `GNUmakefile`; other files are no makefiles.
pub proof fn law_one_makefile_is_read(files: Seq<Seq<char>>)
    ensures
        files.contains("Makefile"@) ==> makefile_in(files) == Some("Makefile"@),
        !files.contains("Makefile"@) && files.contains("makefile"@) ==> makefile_in(files) == Some(
            "makefile"@,
        ),
        !files.contains("Makefile"@) && !files.contains("makefile"@) && files.contains(
            "GNUmakefile"@,
        ) ==> makefile_in(files) == Some("GNUmakefile"@),
        makefile_in(files) is None <==> !files.contains("Makefile"@) && !files.contains(
            "makefile"@,
        ) && !files.contains("GNUmakefile"@),
{
    lemma_makefile_in(files);
}

} // verus!
