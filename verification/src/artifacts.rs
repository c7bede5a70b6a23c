use vstd::prelude::*;

use crate::domain::environment::RuntimeEnvironment;
use crate::domain::plan::{handlers_caps, handlers_slots, id_in, plan_workflow, required_matches, CapView, Capability};
use crate::domain::workflow::Workflow;
use crate::loader::validate::{load_error_text, LoadError};
use crate::loader::yaml::{
    environment_load_result, load_environment_yaml, load_workflow_yaml, workflow_load_result,
};
use crate::map::lemma_seq_lt_irreflexive;
use crate::text::{
    chars_of, lemma_rfind_bounds, rfind_char, rfind_char_exec, rsplit_once_char, rsplit_once_exec,
    seq_eq, seq_lt, slice_of, string_of,
};

verus! {

// ---------------------------------------------------------------------------------------
// File names of Unix paths
// ---------------------------------------------------------------------------------------

/// Whether a part of a path between separators names something: it is neither empty nor `.`.
pub open spec fn names_part(s: Seq<char>) -> bool {
    s.len() > 0 && s != seq!['.']
}

/// The last part of a path between `/` separators that names something.
pub open spec fn last_part(p: Seq<char>) -> Option<Seq<char>>
    decreases p.len(),
{
    match rsplit_once_char(p, '/') {
        Some((head, tail)) => if names_part(tail) {
            Some(tail)
        } else {
            proof {
                lemma_rfind_bounds(p, '/');
            }
            last_part(head)
        },
        None => if names_part(p) {
            Some(p)
        } else {
            None
        },
    }
}

/// The file name of a Unix path, as `Path::file_name` gives it: its last component, unless
/// there is none or it is `..`.
pub open spec fn file_name(p: Seq<char>) -> Option<Seq<char>> {
    match last_part(p) {
        Some(n) => if n == seq!['.', '.'] {
            None
        } else {
            Some(n)
        },
        None => None,
    }
}

/// The stem of a Unix path, as `Path::file_stem` gives it: the file name up to its last
/// `.`, or the whole name where it has no `.` but at its start.
pub open spec fn file_stem(p: Seq<char>) -> Option<Seq<char>> {
    match file_name(p) {
        Some(n) => Some(
            match rfind_char(n, '.') {
                Some(i) => if i > 0 {
                    n.subrange(0, i)
                } else {
                    n
                },
                None => n,
            },
        ),
        None => None,
    }
}

/// The extension of a Unix path, as `Path::extension` gives it: what follows the last `.`
/// of the file name, where that `.` is not its first character.
pub open spec fn extension(p: Seq<char>) -> Option<Seq<char>> {
    match file_name(p) {
        Some(n) => match rfind_char(n, '.') {
            Some(i) => if i > 0 {
                Some(n.subrange(i + 1, n.len() as int))
            } else {
                None
            },
            None => None,
        },
        None => None,
    }
}

fn names_part_exec(s: &Vec<char>) -> (r: bool)
    ensures
        r == names_part(s@),
{
    if s.len() == 0 {
        return false;
    }
    if s.len() == 1 && s[0] == '.' {
        assert(s@ =~= seq!['.']);
        return false;
    }
    if s.len() == 1 {
        assert(s@[0] != seq!['.'][0]);
    }
    true
}

fn last_part_exec(p: &Vec<char>) -> (r: Option<Vec<char>>)
    ensures
        match r {
            Some(n) => last_part(p@) == Some(n@),
            None => last_part(p@) is None,
        },
    decreases p@.len(),
{
    match rsplit_once_exec(p, '/') {
        Some((head, tail)) => {
            if names_part_exec(&tail) {
                Some(tail)
            } else {
                proof {
                    lemma_rfind_bounds(p@, '/');
                }
                last_part_exec(&head)
            }
        },
        None => {
            if names_part_exec(p) {
                Some(slice_of(p, 0, p.len()))
            } else {
                None
            }
        },
    }
}

fn file_name_exec(p: &Vec<char>) -> (r: Option<Vec<char>>)
    ensures
        match r {
            Some(n) => file_name(p@) == Some(n@),
            None => file_name(p@) is None,
        },
{
    match last_part_exec(p) {
        Some(n) => {
            if n.len() == 2 && n[0] == '.' && n[1] == '.' {
                assert(n@ =~= seq!['.', '.']);
                None
            } else {
                assert(n@ != seq!['.', '.']) by {
                    if n@.len() == 2 {
                        assert(n@[0] != '.' || n@[1] != '.');
                    }
                }
                Some(n)
            }
        },
        None => None,
    }
}

/// Whether a path names a YAML file: its extension is `yaml` or `yml`.
pub fn is_yaml_path(path: &str) -> (r: bool)
    ensures
        r == (extension(path@) == Some(seq!['y', 'a', 'm', 'l']) || extension(path@) == Some(
            seq!['y', 'm', 'l'],
        )),
{
    let p = chars_of(path);
    let name = match file_name_exec(&p) {
        Some(name) => name,
        None => {
            return false;
        },
    };
    proof {
        lemma_rfind_bounds(name@, '.');
    }
    match rfind_char_exec(&name, '.') {
        Some(i) => {
            if i == 0 {
                return false;
            }
            let ext = slice_of(&name, i + 1, name.len());
            let yaml = vec!['y', 'a', 'm', 'l'];
            let yml = vec!['y', 'm', 'l'];
            assert(yaml@ =~= seq!['y', 'a', 'm', 'l']);
            assert(yml@ =~= seq!['y', 'm', 'l']);
            seq_eq(&ext, &yaml) || seq_eq(&ext, &yml)
        },
        None => false,
    }
}

/// The name of an artifact found at a path: the stem of its file name, else the fallback.
pub fn artifact_name(path: &str, fallback: &str) -> (r: String)
    ensures
        r@ == match file_stem(path@) {
            Some(s) => s,
            None => fallback@,
        },
{
    let p = chars_of(path);
    match file_name_exec(&p) {
        Some(name) => {
            proof {
                lemma_rfind_bounds(name@, '.');
            }
            match rfind_char_exec(&name, '.') {
                Some(i) => {
                    if i > 0 {
                        string_of(&slice_of(&name, 0, i))
                    } else {
                        string_of(&name)
                    }
                },
                None => string_of(&name),
            }
        },
        None => fallback.to_owned(),
    }
}

// ---------------------------------------------------------------------------------------
// Capability counts
// ---------------------------------------------------------------------------------------

/// The distinct capability ids that the effects of the handlers need.
pub open spec fn capability_ids(hs: Seq<crate::domain::workflow::Handler>) -> Set<Seq<char>> {
    handlers_caps(hs).map_values(|c: CapView| c.0).to_set()
}

/// The required capabilities of a plan are as many as the distinct ids the effects need.
proof fn lemma_required_count(req: Seq<Capability>, caps: Seq<CapView>)
    requires
        required_matches(req, caps),
    ensures
        req.len() == caps.map_values(|c: CapView| c.0).to_set().len(),
{
    let ids = req.map_values(|c: Capability| c.id@);
    let need = caps.map_values(|c: CapView| c.0);
    assert(ids.no_duplicates()) by {
        assert forall|i: int, j: int|
            0 <= i < ids.len() && 0 <= j < ids.len() && i != j implies ids[i] != ids[j] by {
            if i < j {
                assert(seq_lt(req[i].id@, req[j].id@));
                lemma_seq_lt_irreflexive(req[i].id@);
            } else {
                assert(seq_lt(req[j].id@, req[i].id@));
                lemma_seq_lt_irreflexive(req[j].id@);
            }
        }
    }
    assert(ids.to_set() =~= need.to_set()) by {
        assert forall|x: Seq<char>| ids.to_set().contains(x) implies need.to_set().contains(x) by {
            let k = choose|k: int| 0 <= k < ids.len() && ids[k] == x;
            assert(crate::domain::plan::cap_in(crate::domain::plan::cap_view(req[k]), caps));
            let q = choose|q: int| 0 <= q < caps.len() && caps[q] == crate::domain::plan::cap_view(req[k]);
            assert(need[q] == x);
        }
        assert forall|x: Seq<char>| need.to_set().contains(x) implies ids.to_set().contains(x) by {
            let q = choose|q: int| 0 <= q < need.len() && need[q] == x;
            assert(id_in(caps[q].0, req));
            let k = choose|k: int| 0 <= k < req.len() && (#[trigger] req[k]).id@ == caps[q].0;
            assert(ids[k] == x);
        }
    }
    ids.unique_seq_to_set();
}

// ---------------------------------------------------------------------------------------
// Summaries of workflow and environment files
// ---------------------------------------------------------------------------------------

/// What a list of workflow files shows of one of them.
#[derive(Debug, Clone)]
pub struct WorkflowSummary {
    pub name: String,
    pub version: String,
    pub path: String,
    pub valid: bool,
    pub validation_error: Option<String>,
    pub seed_event_count: usize,
    pub handler_count: usize,
    pub effect_count: usize,
    pub capability_count: usize,
}

/// What a list of environment files shows of one of them.
#[derive(Debug, Clone)]
pub struct EnvironmentSummary {
    pub name: String,
    pub path: String,
    pub valid: bool,
    pub validation_error: Option<String>,
    pub service_count: usize,
    pub value_count: usize,
    pub secret_count: usize,
}

/// The text of a load outcome's error, where it failed.
pub open spec fn load_outcome<T>(r: Result<T, LoadError>) -> Result<T, Seq<char>> {
    match r {
        Ok(t) => Ok(t),
        Err(e) => Err(load_error_text(e)),
    }
}

/// The summary of the workflow file at `path`, shown at `ui`, that was loaded as `loaded`
/// or failed with that message: its name, version and counts where it loaded, else the
/// stem of the file name, the version `invalid`, the message and no counts.
pub open spec fn describes_workflow(
    s: WorkflowSummary,
    path: Seq<char>,
    ui: Seq<char>,
    loaded: Result<Workflow, Seq<char>>,
) -> bool {
    &&& s.path@ == ui
    &&& match loaded {
        Ok(w) => {
            &&& s.valid
            &&& s.validation_error is None
            &&& s.name@ == w.name@
            &&& s.version@ == w.version@
            &&& s.seed_event_count == w.seed_events@.len()
            &&& s.handler_count == w.handlers@.len()
            &&& s.effect_count == handlers_slots(w.handlers@).len()
            &&& s.capability_count == capability_ids(w.handlers@).len()
        },
        Err(message) => {
            &&& !s.valid
            &&& s.validation_error matches Some(m) && m@ == message
            &&& s.name@ == match file_stem(path) {
                Some(stem) => stem,
                None => "workflow"@,
            }
            &&& s.version@ == "invalid"@
            &&& s.seed_event_count == 0 && s.handler_count == 0
            &&& s.effect_count == 0 && s.capability_count == 0
        },
    }
}

/// The summary of an environment file, in the same way: its name (else the stem of the
/// file name) and the numbers of services, values and secret references where it loaded.
pub open spec fn describes_environment(
    s: EnvironmentSummary,
    path: Seq<char>,
    ui: Seq<char>,
    loaded: Result<RuntimeEnvironment, Seq<char>>,
) -> bool {
    let stem = match file_stem(path) {
        Some(stem) => stem,
        None => "environment"@,
    };
    &&& s.path@ == ui
    &&& match loaded {
        Ok(env) => {
            &&& s.valid
            &&& s.validation_error is None
            &&& s.name@ == match env.name {
                Some(n) => n@,
                None => stem,
            }
            &&& s.service_count == env.services.items().len()
            &&& s.value_count == env.values.items().len()
            &&& s.secret_count == env.secret_refs.items().len()
        },
        Err(message) => {
            &&& !s.valid
            &&& s.validation_error matches Some(m) && m@ == message
            &&& s.name@ == stem
            &&& s.service_count == 0 && s.value_count == 0 && s.secret_count == 0
        },
    }
}

/// The summary of the workflow file at `path`, shown as `ui_path`, from what loading it
/// gave: the workflow, or the message of why it could not be read or loaded.
pub fn workflow_summary(path: &str, ui_path: String, loaded: Result<Workflow, String>) -> (s:
    WorkflowSummary)
    ensures
        describes_workflow(
            s,
            path@,
            ui_path@,
            match loaded {
                Ok(w) => Ok(w),
                Err(e) => Err(e@),
            },
        ),
{
    match loaded {
        Ok(workflow) => {
            let plan = plan_workflow(&workflow);
            proof {
                lemma_required_count(plan.required_capabilities@, handlers_caps(workflow.handlers@));
            }
            WorkflowSummary {
                name: workflow.name,
                version: workflow.version,
                path: ui_path,
                valid: true,
                validation_error: None,
                seed_event_count: workflow.seed_events.len(),
                handler_count: workflow.handlers.len(),
                effect_count: plan.effects.len(),
                capability_count: plan.required_capabilities.len(),
            }
        },
        Err(error) => WorkflowSummary {
            name: artifact_name(path, "workflow"),
            version: "invalid".to_owned(),
            path: ui_path,
            valid: false,
            validation_error: Some(error),
            seed_event_count: 0,
            handler_count: 0,
            effect_count: 0,
            capability_count: 0,
        },
    }
}

/// The summary of the workflow file at `path`, shown as `ui_path`, from its text or the
/// message of why it could not be read: the text is loaded as a workflow, and a load error
/// is shown by its message.
pub fn summarize_workflow(path: &str, ui_path: String, source: Result<String, String>) -> (s:
    WorkflowSummary)
    ensures
        match source {
            Ok(text) => exists|r: Result<Workflow, LoadError>|
                workflow_load_result(text@, r) && #[trigger] describes_workflow(
                    s,
                    path@,
                    ui_path@,
                    load_outcome(r),
                ),
            Err(e) => describes_workflow(s, path@, ui_path@, Err(e@)),
        },
{
    match source {
        Ok(text) => {
            let r = load_workflow_yaml(&text);
            let ghost outcome = r;
            let loaded = match r {
                Ok(w) => Ok(w),
                Err(e) => Err(e.message()),
            };
            let s = workflow_summary(path, ui_path, loaded);
            assert(describes_workflow(s, path@, ui_path@, load_outcome(outcome)));
            s
        },
        Err(error) => workflow_summary(path, ui_path, Err(error)),
    }
}

/// The summary of the environment file at `path`, shown as `ui_path`, from what loading it
/// gave: the environment, or the message of why it could not be read or loaded.
pub fn environment_summary(
    path: &str,
    ui_path: String,
    loaded: Result<RuntimeEnvironment, String>,
) -> (s: EnvironmentSummary)
    ensures
        describes_environment(
            s,
            path@,
            ui_path@,
            match loaded {
                Ok(env) => Ok(env),
                Err(e) => Err(e@),
            },
        ),
{
    match loaded {
        Ok(environment) => {
            let service_count = environment.services.len();
            let value_count = environment.values.len();
            let secret_count = environment.secret_refs.len();
            let name = match environment.name {
                Some(name) => name,
                None => artifact_name(path, "environment"),
            };
            EnvironmentSummary {
                name,
                path: ui_path,
                valid: true,
                validation_error: None,
                service_count,
                value_count,
                secret_count,
            }
        },
        Err(error) => EnvironmentSummary {
            name: artifact_name(path, "environment"),
            path: ui_path,
            valid: false,
            validation_error: Some(error),
            service_count: 0,
            value_count: 0,
            secret_count: 0,
        },
    }
}

/// The summary of the environment file at `path`, shown as `ui_path`, from its text or the
/// message of why it could not be read: the text is loaded as an environment, and a load
/// error is shown by its message.
pub fn summarize_environment(path: &str, ui_path: String, source: Result<String, String>) -> (s:
    EnvironmentSummary)
    ensures
        match source {
            Ok(text) => exists|r: Result<RuntimeEnvironment, LoadError>|
                environment_load_result(text@, r) && #[trigger] describes_environment(
                    s,
                    path@,
                    ui_path@,
                    load_outcome(r),
                ),
            Err(e) => describes_environment(s, path@, ui_path@, Err(e@)),
        },
{
    match source {
        Ok(text) => {
            let r = load_environment_yaml(&text);
            let ghost outcome = r;
            let loaded = match r {
                Ok(env) => Ok(env),
                Err(e) => Err(e.message()),
            };
            let s = environment_summary(path, ui_path, loaded);
            assert(describes_environment(s, path@, ui_path@, load_outcome(outcome)));
            s
        },
        Err(error) => environment_summary(path, ui_path, Err(error)),
    }
}

// ---------------------------------------------------------------------------------------
// Checking a workflow text in an editor
// ---------------------------------------------------------------------------------------

/// Whether a workflow text is valid, and where it is not, whether the YAML or the workflow
/// is at fault, with the message and, for YAML, the place of the error.
#[derive(Debug, Clone)]
pub struct WorkflowValidation {
    pub valid: bool,
    pub kind: Option<&'static str>,
    pub message: String,
    pub line: Option<usize>,
    pub column: Option<usize>,
}

/// The validation that shows a load outcome: valid where it loaded; a `syntax` problem with
/// the parser's message and place where the text did not parse as a workflow; a `semantic`
/// problem with the workflow's problem where it did but is invalid.
pub open spec fn shows_load(v: WorkflowValidation, r: Result<Workflow, LoadError>) -> bool {
    match r {
        Ok(_) => {
            &&& v.valid
            &&& v.kind is None
            &&& v.message@ == "Workflow is valid."@
            &&& v.line is None && v.column is None
        },
        Err(LoadError::Parse(p)) => {
            &&& !v.valid
            &&& v.kind matches Some(k) && k@ == "syntax"@
            &&& v.message@ == p.message@
            &&& match (p.line, p.column) {
                (Some(l), Some(c)) => v.line == Some(l) && v.column == Some(c),
                _ => v.line is None && v.column is None,
            }
        },
        Err(LoadError::Validation(m)) => {
            &&& !v.valid
            &&& v.kind matches Some(k) && k@ == "semantic"@
            &&& v.message@ == m@
            &&& v.line is None && v.column is None
        },
    }
}

/// The validation that shows the outcome of loading a workflow.
pub fn workflow_validation(r: Result<Workflow, LoadError>) -> (v: WorkflowValidation)
    ensures
        shows_load(v, r),
{
    match r {
        Ok(_) => WorkflowValidation {
            valid: true,
            kind: None,
            message: "Workflow is valid.".to_owned(),
            line: None,
            column: None,
        },
        Err(LoadError::Parse(error)) => {
            let location = error.location();
            let (line, column) = match location {
                Some((line, column)) => (Some(line), Some(column)),
                None => (None, None),
            };
            WorkflowValidation {
                valid: false,
                kind: Some("syntax"),
                message: error.message,
                line,
                column,
            }
        },
        Err(LoadError::Validation(message)) => WorkflowValidation {
            valid: false,
            kind: Some("semantic"),
            message,
            line: None,
            column: None,
        },
    }
}

/// Checks a workflow text: loads it and shows the outcome.
pub fn validate_workflow_source(source: String) -> (v: WorkflowValidation)
    ensures
        exists|r: Result<Workflow, LoadError>|
            workflow_load_result(source@, r) && #[trigger] shows_load(v, r),
{
    let r = load_workflow_yaml(&source);
    let ghost outcome = r;
    let v = workflow_validation(r);
    assert(shows_load(v, outcome));
    v
}

} // verus!
