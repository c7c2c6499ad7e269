//! Sigil project configuration and layout.
//!
//! A `sigil.json` file marks the project root and declares the project's
//! name and version; `src/` and `tests/` are the canonical source
//! directories and `.local/` the output directory.

use crate::json::{json_string, json_string_array, json_quoted, json_string_array_text, push_text, strings_view};
use crate::paths::{
    opt_text,
    ends_with, file_name, has_suffix, join, parent, path_file_name, path_join, path_parent,
};
use vstd::prelude::*;

verus! {

/// The diagnostic code of a project with executables but no `src/main.sigil`.
pub const PROJECT_MAIN_REQUIRED: &'static str = "SIGIL-CLI-PROJECT-MAIN-REQUIRED";

/// The diagnostic code of every other project configuration failure.
pub const UNEXPECTED: &'static str = "SIGIL-CLI-UNEXPECTED";

/// The name of the file that marks a project root.
pub const CONFIG_FILE_NAME: &'static str = "sigil.json";

/// Effective project layout used by the compiler: `src/`, `tests/` and
/// `.local/` are fixed.
#[derive(Debug)]
pub struct ProjectLayout {
    pub src: String,
    pub tests: String,
    pub out: String,
}

/// A project: its root directory and its layout.
#[derive(Debug)]
pub struct ProjectConfig {
    pub root: String,
    pub layout: ProjectLayout,
}

#[verifier::external_type_specification]
#[verifier::external_body]
pub struct ExIoError(std::io::Error);

/// Why a project configuration could not be loaded or is not acceptable.
#[derive(Debug)]
pub enum ProjectConfigError {
    /// `sigil.json`, or a directory of the project, could not be read.
    Io { path: String, source: std::io::Error },
    /// `sigil.json` is not a valid configuration.
    Invalid { path: String, message: String },
    /// The project has executable sources under `src/` but no `src/main.sigil`.
    MissingProjectMain { root: String, main_path: String, executable_sources: Vec<String> },
}

/// The fields of `sigil.json`, both required.
#[derive(Debug)]
pub struct RawProjectConfig {
    pub name: String,
    pub version: String,
}

fn default_src() -> (r: String)
    ensures
        r@ == "src"@,
{
    String::from_str("src")
}

fn default_tests() -> (r: String)
    ensures
        r@ == "tests"@,
{
    String::from_str("tests")
}

fn default_out() -> (r: String)
    ensures
        r@ == ".local"@,
{
    String::from_str(".local")
}

impl ProjectLayout {
    /// The canonical layout writing its output to `out`.
    fn canonical(out: String) -> (r: Self)
        ensures
            r.src@ == "src"@,
            r.tests@ == "tests"@,
            r.out@ == out@,
    {
        Self { src: default_src(), tests: default_tests(), out }
    }

    /// An equal copy.
    pub fn duplicate(&self) -> (r: Self)
        ensures
            r.src@ == self.src@,
            r.tests@ == self.tests@,
            r.out@ == self.out@,
    {
        Self { src: self.src.clone(), tests: self.tests.clone(), out: self.out.clone() }
    }
}

impl Default for ProjectLayout {
    /// `src/`, `tests/` and `.local/`.
    fn default() -> (r: Self)
        ensures
            r.src@ == "src"@,
            r.tests@ == "tests"@,
            r.out@ == ".local"@,
    {
        Self::canonical(default_out())
    }
}

/// `sigil.json` at `path` is not a valid configuration, for `message`.
fn invalid_config(path: String, message: String) -> (r: ProjectConfigError)
    ensures
        r matches ProjectConfigError::Invalid { path: p, message: m } && p@ == path@ && m@ == message@,
{
    ProjectConfigError::Invalid { path, message }
}

/// The text of an I/O error, as its `Display` shows it.
#[verifier::external_body]
fn io_error_text(error: &std::io::Error) -> String {
    error.to_string()
}

/// The text of `ProjectConfigError::message` for the variants that carry no
/// I/O error.
pub open spec fn config_error_text(e: ProjectConfigError) -> Seq<char> {
    match e {
        ProjectConfigError::Io { path, .. } => "failed to read sigil.json at "@ + path@,
        ProjectConfigError::Invalid { path, message } => "invalid sigil.json at "@ + path@ + ": "@
            + message@,
        ProjectConfigError::MissingProjectMain { .. } => PROJECT_MAIN_REQUIRED@
            + ": project has executable source under src/ but is missing src/main.sigil"@,
    }
}

/// The JSON object of `ProjectConfigError::details`, keys in sorted order.
pub open spec fn config_error_details(e: ProjectConfigError) -> Seq<char> {
    match e {
        ProjectConfigError::Io { path, .. } => "{\"path\":"@ + json_quoted(path@) + "}"@,
        ProjectConfigError::Invalid { path, message } => "{\"message\":"@ + json_quoted(message@)
            + ",\"path\":"@ + json_quoted(path@) + "}"@,
        ProjectConfigError::MissingProjectMain { root, main_path, executable_sources } =>
            "{\"executableSources\":"@ + json_string_array_text(strings_view(executable_sources@))
            + ",\"missingPath\":"@ + json_quoted(main_path@) + ",\"projectRoot\":"@ + json_quoted(
            root@,
        ) + "}"@,
    }
}

impl ProjectConfigError {
    /// The diagnostic code.
    pub fn code(&self) -> (r: &'static str)
        ensures
            r@ == (if self is MissingProjectMain {
                PROJECT_MAIN_REQUIRED@
            } else {
                UNEXPECTED@
            }),
    {
        match self {
            ProjectConfigError::MissingProjectMain { .. } => PROJECT_MAIN_REQUIRED,
            _ => UNEXPECTED,
        }
    }

    /// The human-readable message. For an I/O failure the text of the I/O
    /// error follows the path, after a colon.
    pub fn message(&self) -> (r: String)
        ensures
            self is Io ==> (config_error_text(*self) + ": "@).is_prefix_of(r@),
            !(self is Io) ==> r@ == config_error_text(*self),
    {
        match self {
            ProjectConfigError::Io { path, source } => {
                let mut text = String::from_str("failed to read sigil.json at ");
                push_text(&mut text, path);
                text.append(": ");
                let ghost head = text@;
                let detail = io_error_text(source);
                push_text(&mut text, &detail);
                proof {
                    assert(head =~= config_error_text(*self) + ": "@);
                    assert(text@.subrange(0, head.len() as int) =~= head);
                    assert(head.is_prefix_of(text@));
                }
                text
            },
            ProjectConfigError::Invalid { path, message } => {
                let mut text = String::from_str("invalid sigil.json at ");
                push_text(&mut text, path);
                text.append(": ");
                push_text(&mut text, message);
                proof {
                    assert(text@ =~= config_error_text(*self));
                }
                text
            },
            ProjectConfigError::MissingProjectMain { .. } => {
                let text = String::from_str(PROJECT_MAIN_REQUIRED).concat(
                    ": project has executable source under src/ but is missing src/main.sigil",
                );
                text
            },
        }
    }

    /// The details of the failure as a JSON object: the path for a failed
    /// read, the path and message for an invalid file, and the project root,
    /// the missing main file and the executable sources for a missing main.
    pub fn details(&self) -> (r: String)
        ensures
            r@ == config_error_details(*self),
    {
        match self {
            ProjectConfigError::Io { path, .. } => {
                let mut text = String::from_str("{\"path\":");
                push_text(&mut text, &json_string(path.as_str()));
                text.append("}");
                proof {
                    assert(text@ =~= config_error_details(*self));
                }
                text
            },
            ProjectConfigError::Invalid { path, message } => {
                let mut text = String::from_str("{\"message\":");
                push_text(&mut text, &json_string(message.as_str()));
                text.append(",\"path\":");
                push_text(&mut text, &json_string(path.as_str()));
                text.append("}");
                proof {
                    assert(text@ =~= config_error_details(*self));
                }
                text
            },
            ProjectConfigError::MissingProjectMain { root, main_path, executable_sources } => {
                let mut text = String::from_str("{\"executableSources\":");
                push_text(&mut text, &json_string_array(executable_sources));
                text.append(",\"missingPath\":");
                push_text(&mut text, &json_string(main_path.as_str()));
                text.append(",\"projectRoot\":");
                push_text(&mut text, &json_string(root.as_str()));
                text.append("}");
                proof {
                    assert(text@ =~= config_error_details(*self));
                }
                text
            },
        }
    }
}

/// A path names an executable Sigil source: its file name ends in `.sigil`
/// but not in `.lib.sigil`.
pub open spec fn is_executable_source_path(path: Seq<char>) -> bool {
    match path_file_name(path) {
        Some(name) => has_suffix(name, ".sigil"@) && !has_suffix(name, ".lib.sigil"@),
        None => false,
    }
}

/// Whether the file at `path` is an executable Sigil source (a library
/// source ends in `.lib.sigil`).
pub fn is_project_executable_source(path: &String) -> (r: bool)
    ensures
        r == is_executable_source_path(path@),
{
    match file_name(path) {
        Some(name) => ends_with(name.as_str(), ".sigil") && !ends_with(name.as_str(), ".lib.sigil"),
        None => false,
    }
}

/// The executable sources among `files`, in their order.
pub open spec fn executable_sources_of(files: Seq<Seq<char>>) -> Seq<Seq<char>> {
    files.filter(|p: Seq<char>| is_executable_source_path(p))
}

/// The executable sources among `files`, in their order.
pub fn collect_project_executable_sources(files: &Vec<String>) -> (r: Vec<String>)
    ensures
        strings_view(r@) == executable_sources_of(strings_view(files@)),
{
    let ghost fv = strings_view(files@);
    let mut out: Vec<String> = Vec::new();
    let mut i: usize = 0;
    while i < files.len()
        invariant
            i <= files.len(),
            fv == strings_view(files@),
            strings_view(out@) == executable_sources_of(fv.take(i as int)),
        decreases files.len() - i,
    {
        proof {
            let pre = fv.take(i + 1);
            assert(pre.drop_last() =~= fv.take(i as int));
            assert(pre.last() == files@[i as int]@);
            reveal(Seq::filter);
        }
        if is_project_executable_source(&files[i]) {
            let ghost before = strings_view(out@);
            out.push(files[i].clone());
            proof {
                assert(strings_view(out@) =~= before.push(files@[i as int]@));
            }
        } else {
            proof {
                assert(strings_view(out@) =~= executable_sources_of(fv.take(i + 1)));
            }
        }
        i += 1;
    }
    proof {
        assert(fv.take(files@.len() as int) =~= fv);
    }
    out
}

/// What `str::trim` returns: the text without its leading and trailing
/// white space.
pub uninterp spec fn trimmed(text: Seq<char>) -> Seq<char>;

/// `str::trim`, as a string.
#[verifier::external_body]
fn trim(text: &String) -> (r: String)
    ensures
        r@ == trimmed(text@),
{
    text.trim().to_string()
}

/// Checks a configuration read from `config_path`: `raw` is what the JSON
/// reader gave, or its error message. The name and the version must not be
/// blank. The project rooted at `root` gets the canonical layout.
pub fn parse_project_config(
    config_path: String,
    root: String,
    raw: Result<RawProjectConfig, String>,
) -> (r: Result<ProjectConfig, ProjectConfigError>)
    ensures
        match raw {
            Err(message) => r matches Err(ProjectConfigError::Invalid { path, message: m })
                && path@ == config_path@ && m@ == message@,
            Ok(fields) => if trimmed(fields.name@).len() == 0 {
                r matches Err(ProjectConfigError::Invalid { path, message: m }) && path@
                    == config_path@ && m@ == "field `name` must be a non-empty string"@
            } else if trimmed(fields.version@).len() == 0 {
                r matches Err(ProjectConfigError::Invalid { path, message: m }) && path@
                    == config_path@ && m@ == "field `version` must be a non-empty string"@
            } else {
                r matches Ok(config) && config.root@ == root@ && config.layout.src@ == "src"@
                    && config.layout.tests@ == "tests"@ && config.layout.out@ == ".local"@
            },
        },
{
    let fields = match raw {
        Ok(fields) => fields,
        Err(message) => {
            return Err(invalid_config(config_path, message));
        },
    };
    let name = trim(&fields.name);
    let version = trim(&fields.version);
    if name.unicode_len() == 0 {
        return Err(
            invalid_config(config_path, String::from_str("field `name` must be a non-empty string")),
        );
    }
    if version.unicode_len() == 0 {
        return Err(
            invalid_config(
                config_path,
                String::from_str("field `version` must be a non-empty string"),
            ),
        );
    }
    Ok(ProjectConfig { root, layout: ProjectLayout::default() })
}

/// The `k`-th directory of the upward walk from `start`: `start` itself,
/// then each parent in turn.
pub open spec fn ancestor(start: Seq<char>, k: nat) -> Option<Seq<char>>
    decreases k,
{
    if k == 0 {
        Some(start)
    } else {
        match ancestor(start, (k - 1) as nat) {
            Some(p) => path_parent(p),
            None => None,
        }
    }
}

/// Where the upward search begins: the directory of a file, or the given
/// directory.
pub open spec fn search_base(start: Seq<char>, start_is_file: bool) -> Option<Seq<char>> {
    if start_is_file {
        path_parent(start)
    } else {
        Some(start)
    }
}

/// The `k`-th directory of the search from `start`.
pub open spec fn search_dir(start: Seq<char>, start_is_file: bool, k: nat) -> Option<Seq<char>> {
    match search_base(start, start_is_file) {
        Some(base) => ancestor(base, k),
        None => None,
    }
}

/// The configuration file of a directory.
pub open spec fn config_file_in(dir: Seq<char>) -> Seq<char> {
    path_join(dir, CONFIG_FILE_NAME@)
}

/// `probe` answered `answer` when asked about `path`.
pub open spec fn probe_said<P: Fn(&String) -> bool>(probe: P, path: Seq<char>, answer: bool) -> bool {
    exists|s: String| s@ == path && #[trigger] call_ensures(probe, (&s,), answer)
}

/// Up to the `k`-th directory of the search, `probe` found no configuration
/// file.
pub open spec fn none_found_before<P: Fn(&String) -> bool>(
    probe: P,
    start: Seq<char>,
    start_is_file: bool,
    k: nat,
) -> bool {
    forall|j: nat|
        j < k ==> match #[trigger] search_dir(start, start_is_file, j) {
            Some(dir) => probe_said(probe, config_file_in(dir), false),
            None => false,
        }
}

/// What the upward search finds: the first directory of the walk whose
/// configuration file the probe reports, or nothing when the walk ends
/// first.
pub open spec fn search_outcome<P: Fn(&String) -> bool>(
    probe: P,
    start: Seq<char>,
    start_is_file: bool,
    r: Option<Seq<char>>,
) -> bool {
    match r {
        Some(root) => exists|k: nat|
            {
                &&& #[trigger] search_dir(start, start_is_file, k) == Some(root)
                &&& probe_said(probe, config_file_in(root), true)
                &&& none_found_before(probe, start, start_is_file, k)
            },
        None => exists|k: nat|
            {
                &&& #[trigger] search_dir(start, start_is_file, k) is None
                &&& none_found_before(probe, start, start_is_file, k)
            },
    }
}

/// The probe never gives two answers about one path: the file system does
/// not change between the questions.
pub open spec fn consistent_probe<P: Fn(&String) -> bool>(probe: P) -> bool {
    forall|path: Seq<char>| !(#[trigger] probe_said(probe, path, true) && probe_said(probe, path, false))
}

/// Searching again from the root a search found, as a directory, finds that
/// same root, as long as the file system does not change in between.
pub proof fn law_search_from_found_root_finds_it<P: Fn(&String) -> bool>(
    probe: P,
    start: Seq<char>,
    start_is_file: bool,
    root: Seq<char>,
    again: Option<Seq<char>>,
)
    requires
        consistent_probe(probe),
        search_outcome(probe, start, start_is_file, Some(root)),
        search_outcome(probe, root, false, again),
    ensures
        again == Some(root),
{
    let k = choose|k: nat|
        {
            &&& #[trigger] search_dir(start, start_is_file, k) == Some(root)
            &&& probe_said(probe, config_file_in(root), true)
            &&& none_found_before(probe, start, start_is_file, k)
        };
    assert(probe_said(probe, config_file_in(root), true));
    assert(search_dir(root, false, 0) == Some(root));
    match again {
        Some(r2) => {
            let k2 = choose|k2: nat|
                {
                    &&& #[trigger] search_dir(root, false, k2) == Some(r2)
                    &&& probe_said(probe, config_file_in(r2), true)
                    &&& none_found_before(probe, root, false, k2)
                };
            if k2 > 0 {
                assert(match search_dir(root, false, 0) {
                    Some(dir) => probe_said(probe, config_file_in(dir), false),
                    None => false,
                });
                assert(!(probe_said(probe, config_file_in(root), true) && probe_said(
                    probe,
                    config_file_in(root),
                    false,
                )));
            }
        },
        None => {
            let k2 = choose|k2: nat|
                {
                    &&& #[trigger] search_dir(root, false, k2) is None
                    &&& none_found_before(probe, root, false, k2)
                };
            assert(k2 > 0);
            assert(match search_dir(root, false, 0) {
                Some(dir) => probe_said(probe, config_file_in(dir), false),
                None => false,
            });
            assert(!(probe_said(probe, config_file_in(root), true) && probe_said(
                probe,
                config_file_in(root),
                false,
            )));
        },
    }
}

/// Finds the project root: the first directory, walking up from
/// `start_path` (or from its directory, when `start_is_file`), that holds a
/// `sigil.json`. `config_exists` tells whether a file exists; it is asked
/// about each directory's `sigil.json` in turn, and the walk stops at the
/// first yes or when there is no parent left.
pub fn find_project_root<P: Fn(&String) -> bool>(
    start_path: &String,
    start_is_file: bool,
    config_exists: P,
) -> (r: Option<String>)
    requires
        forall|p: &String| #[trigger] config_exists.requires((p,)),
    ensures
        search_outcome(config_exists, start_path@, start_is_file, opt_text(r)),
{
    let mut current = if start_is_file {
        match parent(start_path) {
            Some(dir) => dir,
            None => {
                proof {
                    assert(search_dir(start_path@, start_is_file, 0) is None);
                }
                return None;
            },
        }
    } else {
        start_path.clone()
    };
    let ghost base = current@;
    let ghost mut k: nat = 0;
    proof {
        assert(search_base(start_path@, start_is_file) == Some(base));
        assert(search_dir(start_path@, start_is_file, 0) == Some(current@));
    }
    loop
        invariant
            forall|p: &String| #[trigger] config_exists.requires((p,)),
            search_base(start_path@, start_is_file) == Some(base),
            search_dir(start_path@, start_is_file, k) == Some(current@),
            none_found_before(config_exists, start_path@, start_is_file, k),
        decreases current@.len(),
    {
        let config_path = join(&current, CONFIG_FILE_NAME);
        let found = config_exists(&config_path);
        if found {
            proof {
                assert(probe_said(config_exists, config_file_in(current@), true));
            }
            return Some(current);
        }
        proof {
            assert(probe_said(config_exists, config_file_in(current@), false));
        }
        let ghost dir = current@;
        match parent(&current) {
            Some(next) => {
                proof {
                    assert(ancestor(base, k + 1) == path_parent(dir));
                    assert forall|j: nat| j < k + 1 implies match #[trigger] search_dir(
                        start_path@,
                        start_is_file,
                        j,
                    ) {
                        Some(d) => probe_said(config_exists, config_file_in(d), false),
                        None => false,
                    } by {
                        if j < k {
                            assert(none_found_before(config_exists, start_path@, start_is_file, k));
                        }
                    }
                    k = k + 1;
                }
                current = next;
            },
            None => {
                proof {
                    assert(ancestor(base, k + 1) == path_parent(dir));
                    assert(search_dir(start_path@, start_is_file, k + 1) is None);
                    assert forall|j: nat| j < k + 1 implies match #[trigger] search_dir(
                        start_path@,
                        start_is_file,
                        j,
                    ) {
                        Some(d) => probe_said(config_exists, config_file_in(d), false),
                        None => false,
                    } by {
                        if j < k {
                            assert(none_found_before(config_exists, start_path@, start_is_file, k));
                        }
                    }
                }
                return None;
            },
        }
    }
}

/// The source directory of a project.
pub open spec fn source_dir_of(project: ProjectConfig) -> Seq<char> {
    path_join(project.root@, project.layout.src@)
}

/// The default entry point of a project: `main.sigil` in its source
/// directory.
pub open spec fn main_path_of(project: ProjectConfig) -> Seq<char> {
    path_join(source_dir_of(project), "main.sigil"@)
}

/// The source directory of a project: its root joined with the layout's
/// source directory.
pub fn project_source_dir(project: &ProjectConfig) -> (r: String)
    ensures
        r@ == source_dir_of(*project),
{
    join(&project.root, project.layout.src.as_str())
}

/// The default entry point of a project, `src/main.sigil`.
pub fn project_main_path(project: &ProjectConfig) -> (r: String)
    ensures
        r@ == main_path_of(*project),
{
    let src_dir = project_source_dir(project);
    join(&src_dir, "main.sigil")
}

/// A project whose source directory holds executable sources must have
/// `src/main.sigil`. `source_files` are the files found under the source
/// directory, in walk order, and `main_is_file` tells whether the main file
/// exists as a file. Library sources (`.lib.sigil`) need no entry point.
pub fn validate_project_default_entrypoint(
    project: &ProjectConfig,
    source_files: &Vec<String>,
    main_is_file: bool,
) -> (r: Result<(), ProjectConfigError>)
    ensures
        (executable_sources_of(strings_view(source_files@)).len() > 0 && !main_is_file) <==> r is Err,
        match r {
            Err(e) => e matches ProjectConfigError::MissingProjectMain {
                root,
                main_path,
                executable_sources,
            } && root@ == project.root@ && main_path@ == main_path_of(*project)
                && strings_view(executable_sources@) == executable_sources_of(
                strings_view(source_files@),
            ),
            Ok(_) => true,
        },
{
    let main_path = project_main_path(project);
    let executable_sources = collect_project_executable_sources(source_files);
    if executable_sources.len() > 0 && !main_is_file {
        return Err(
            ProjectConfigError::MissingProjectMain {
                root: project.root.clone(),
                main_path,
                executable_sources,
            },
        );
    }
    Ok(())
}

} // verus!
