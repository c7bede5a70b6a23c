use vstd::prelude::*;

use super::schema::{decode_environment, decode_workflow, decodes_environment, decodes_workflow};
use super::validate::{
    environment_problem, validate_environment, validate_workflow, workflow_problem, LoadError,
    ParseError,
};
use crate::domain::environment::RuntimeEnvironment;
use crate::domain::workflow::Workflow;
use crate::json::{from_serde, JsonV, JsonValue};

verus! {

/// What `serde_yml` reads a YAML text as: the JSON form of its document, or the text of
/// the error with its line and column where the parser gives them.
pub uninterp spec fn yaml_document(text: Seq<char>) -> Result<JsonV, (Seq<char>, Option<(usize, usize)>)>;

/// `serde_yml::from_str` into a `serde_json::Value`: the document of a YAML text as JSON
/// (scalars as numbers, booleans, null or strings; mappings with text keys), or the
/// error's text and `Error::location` (line and column).
#[verifier::external_body]
fn parse_yaml(text: &str) -> (r: Result<JsonValue, (String, Option<(usize, usize)>)>)
    ensures
        match r {
            Ok(v) => yaml_document(text@) == Ok::<JsonV, (Seq<char>, Option<(usize, usize)>)>(v@),
            Err(e) => yaml_document(text@) == Err::<JsonV, (Seq<char>, Option<(usize, usize)>)>(
                (e.0@, e.1),
            ),
        },
{
    match serde_yml::from_str::<serde_json::Value>(text) {
        Ok(v) => Ok(from_serde(&v)),
        Err(error) => Err(
            (error.to_string(), error.location().map(|at| (at.line(), at.column()))),
        ),
    }
}

/// What loading a workflow from a YAML text gives: the workflow that its document reads
/// as, where that workflow has no problem; else the parse error of the text, a parse error
/// where the document reads as no workflow, or the problem of the workflow it reads as.
pub open spec fn workflow_load_result(input: Seq<char>, r: Result<Workflow, LoadError>) -> bool {
    match r {
        Ok(w) => yaml_document(input) matches Ok(v) && decodes_workflow(v, w)
            && workflow_problem(w) is None,
        Err(e) => match yaml_document(input) {
            Err(m) => e matches LoadError::Parse(p) && p.message@ == m.0 && p.location_is(m.1),
            Ok(v) => (e is Parse && forall|w: Workflow| !decodes_workflow(v, w)) || (
            e matches LoadError::Validation(m) && exists|w: Workflow|
                decodes_workflow(v, w) && #[trigger] workflow_problem(w) == Some(m@)),
        },
    }
}

/// What loading an environment from a YAML text gives, in the same way as for a workflow.
pub open spec fn environment_load_result(
    input: Seq<char>,
    r: Result<RuntimeEnvironment, LoadError>,
) -> bool {
    match r {
        Ok(env) => yaml_document(input) matches Ok(v) && decodes_environment(v, env)
            && environment_problem(env) is None,
        Err(e) => match yaml_document(input) {
            Err(m) => e matches LoadError::Parse(p) && p.message@ == m.0 && p.location_is(m.1),
            Ok(v) => (e is Parse && forall|env: RuntimeEnvironment| !decodes_environment(v, env))
                || (e matches LoadError::Validation(m) && exists|env: RuntimeEnvironment|
                decodes_environment(v, env) && #[trigger] environment_problem(env) == Some(m@)),
        },
    }
}

/// The parse error of a YAML text.
fn yaml_error(message: String, location: Option<(usize, usize)>) -> (r: ParseError)
    ensures
        r.message == message,
        r.location_is(location),
{
    match location {
        Some((line, column)) => ParseError { message, line: Some(line), column: Some(column) },
        None => ParseError { message, line: None, column: None },
    }
}

/// The parse error of a document that is YAML but not of the expected form.
fn form_error(message: String) -> (r: ParseError)
    ensures
        r.message == message,
        r.line is None && r.column is None,
{
    ParseError { message, line: None, column: None }
}

/// Loads a workflow from YAML: parses the text, reads the document, then checks the
/// workflow.
pub fn load_workflow_yaml(input: &str) -> (r: Result<Workflow, LoadError>)
    ensures
        workflow_load_result(input@, r),
{
    let document = match parse_yaml(input) {
        Ok(document) => document,
        Err((message, location)) => {
            return Err(LoadError::Parse(yaml_error(message, location)));
        },
    };
    let workflow = match decode_workflow(&document) {
        Ok(workflow) => workflow,
        Err(message) => {
            return Err(LoadError::Parse(form_error(message)));
        },
    };
    validate_workflow(&workflow)?;
    Ok(workflow)
}

/// Loads an environment from YAML: parses the text, reads the document, then checks the
/// environment.
pub fn load_environment_yaml(input: &str) -> (r: Result<RuntimeEnvironment, LoadError>)
    ensures
        environment_load_result(input@, r),
{
    let document = match parse_yaml(input) {
        Ok(document) => document,
        Err((message, location)) => {
            return Err(LoadError::Parse(yaml_error(message, location)));
        },
    };
    let environment = match decode_environment(&document) {
        Ok(environment) => environment,
        Err(message) => {
            return Err(LoadError::Parse(form_error(message)));
        },
    };
    validate_environment(&environment)?;
    Ok(environment)
}

} // verus!
