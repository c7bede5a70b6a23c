use vstd::prelude::*;

use crate::artifacts::{extension, is_yaml_path};
use crate::domain::workflow::Workflow;
use crate::loader::validate::{load_error_text, LoadError};
use crate::text::{chars_of, str_eq, push_str, seq_eq, strip_prefix, strip_prefix_seq, string_of};

verus! {

/// What a path keeps below a directory, taken whole component by whole component as
/// `Path::strip_prefix` does for canonical paths (absolute, with no separator at the end but
/// for the root `/`): the empty path for the directory itself, the rest after the separator
/// for a path below it, and nothing for a path elsewhere.
pub open spec fn below(dir: Seq<char>, path: Seq<char>) -> Option<Seq<char>> {
    if path == dir {
        Some(Seq::empty())
    } else if dir.len() > 0 && dir.last() == '/' {
        strip_prefix(path, dir)
    } else {
        strip_prefix(path, dir + seq!['/'])
    }
}

/// Whether a YAML file is named by the path.
pub open spec fn yaml_named(path: Seq<char>) -> bool {
    extension(path) == Some(seq!['y', 'a', 'm', 'l']) || extension(path) == Some(seq!['y', 'm', 'l'])
}

/// What `path` keeps below `dir`.
pub fn relative_below(dir: &str, path: &str) -> (r: Option<String>)
    ensures
        match r {
            Some(rest) => below(dir@, path@) == Some(rest@),
            None => below(dir@, path@) is None,
        },
{
    let d = chars_of(dir);
    let p = chars_of(path);
    if seq_eq(&p, &d) {
        return Some(String::new());
    }
    let n = d.len();
    if n > 0 && d[n - 1] == '/' {
        proof {
            assert(d@.last() == d@[n - 1]);
        }
        return match strip_prefix_seq(&p, &d) {
            Some(rest) => Some(string_of(&rest)),
            None => None,
        };
    }
    let mut sep = d.clone();
    sep.push('/');
    proof {
        assert(sep@ =~= d@ + seq!['/']);
    }
    match strip_prefix_seq(&p, &sep) {
        Some(rest) => Some(string_of(&rest)),
        None => None,
    }
}

/// A path as the desktop shows it: relative to the repository root where it lies below it,
/// else as it is.
pub fn path_to_ui(root: &str, path: &str) -> (r: String)
    ensures
        r@ == match below(root@, path@) {
            Some(rest) => rest,
            None => path@,
        },
{
    match relative_below(root, path) {
        Some(rest) => rest,
        None => String::from_str(path),
    }
}

/// The text of the error for an artifact whose canonical path lies outside its directory.
pub open spec fn outside_text(path: Seq<char>, directory: Seq<char>) -> Seq<char> {
    "artifact "@ + path + " resolves outside "@ + directory
}

/// Keeps a discovered artifact, by its canonical path `candidate`, only where it lies within
/// the canonical `directory` it was listed from; `path` is how it was found.
pub fn confine_discovered_path(directory: &str, candidate: &str, path: &str) -> (r: Result<String, String>)
    ensures
        below(directory@, candidate@) is Some <==> r is Ok,
        r matches Ok(c) ==> c@ == candidate@,
        r matches Err(m) ==> m@ == outside_text(path@, directory@),
{
    match relative_below(directory, candidate) {
        Some(_) => Ok(String::from_str(candidate)),
        None => {
            let mut m: Vec<char> = Vec::new();
            push_str(&mut m, "artifact ");
            push_str(&mut m, path);
            push_str(&mut m, " resolves outside ");
            push_str(&mut m, directory);
            proof {
                reveal_strlit("artifact ");
                reveal_strlit(" resolves outside ");
                assert(m@ =~= outside_text(path@, directory@));
            }
            Err(string_of(&m))
        },
    }
}

/// The text of the error for a path outside the repository.
pub open spec fn outside_repository_text() -> Seq<char> {
    "workflow path must stay inside the repository"@
}

/// The text of the error for a workflow source that is not a YAML file of the workflow directory.
pub open spec fn workflow_place_text() -> Seq<char> {
    "workflow source path must be a YAML file in examples/workflows"@
}

/// The text of the error for an environment that is not a YAML file of the environment directory.
pub open spec fn environment_place_text() -> Seq<char> {
    "environment path must be a YAML file in examples/environments"@
}

/// Keeps a path that the desktop was handed, by its canonical form, only where it lies within
/// the canonical repository root.
pub fn check_repo_path(root: &str, candidate: &str) -> (r: Result<String, String>)
    ensures
        below(root@, candidate@) is Some <==> r is Ok,
        r matches Ok(c) ==> c@ == candidate@,
        r matches Err(m) ==> m@ == outside_repository_text(),
{
    match relative_below(root, candidate) {
        Some(_) => Ok(String::from_str(candidate)),
        None => {
            let m = String::from_str("workflow path must stay inside the repository");
            proof {
                reveal_strlit("workflow path must stay inside the repository");
            }
            Err(m)
        },
    }
}

/// Keeps a workflow source path only where it lies within the repository and is a YAML file
/// within the workflow directory; all three paths are canonical.
pub fn check_workflow_path(root: &str, workflow_dir: &str, candidate: &str) -> (r: Result<String, String>)
    ensures
        r is Ok <==> (below(root@, candidate@) is Some && below(workflow_dir@, candidate@) is Some
            && yaml_named(candidate@)),
        r matches Ok(c) ==> c@ == candidate@,
        r matches Err(m) ==> m@ == if below(root@, candidate@) is None {
            outside_repository_text()
        } else {
            workflow_place_text()
        },
{
    let kept = match check_repo_path(root, candidate) {
        Ok(c) => c,
        Err(m) => {
            return Err(m);
        },
    };
    if relative_below(workflow_dir, candidate).is_none() || !is_yaml_path(candidate) {
        let m = String::from_str("workflow source path must be a YAML file in examples/workflows");
        proof {
            reveal_strlit("workflow source path must be a YAML file in examples/workflows");
        }
        return Err(m);
    }
    Ok(kept)
}

/// Keeps an environment path only where it lies within the repository and is a YAML file
/// within the environment directory; all three paths are canonical.
pub fn check_environment_path(root: &str, environment_dir: &str, candidate: &str) -> (r: Result<String, String>)
    ensures
        r is Ok <==> (below(root@, candidate@) is Some && below(environment_dir@, candidate@) is Some
            && yaml_named(candidate@)),
        r matches Ok(c) ==> c@ == candidate@,
        r matches Err(m) ==> m@ == if below(root@, candidate@) is None {
            outside_repository_text()
        } else {
            environment_place_text()
        },
{
    let kept = match check_repo_path(root, candidate) {
        Ok(c) => c,
        Err(m) => {
            return Err(m);
        },
    };
    if relative_below(environment_dir, candidate).is_none() || !is_yaml_path(candidate) {
        let m = String::from_str("environment path must be a YAML file in examples/environments");
        proof {
            reveal_strlit("environment path must be a YAML file in examples/environments");
        }
        return Err(m);
    }
    Ok(kept)
}


/// The text of the error for a workflow file that changed since the editor loaded it.
pub open spec fn changed_on_disk_text() -> Seq<char> {
    "workflow changed on disk since it was loaded; reload before saving"@
}

/// Decides whether the editor may save a workflow source: the new source must load as a
/// workflow (`loaded` is what loading it gave), and the file must still hold what the editor
/// loaded (`current_source`, read from disk, against `expected_source`). Reading and writing
/// the file stay with the caller.
pub fn guard_workflow_save(
    loaded: Result<Workflow, LoadError>,
    current_source: &str,
    expected_source: &str,
) -> (r: Result<(), String>)
    ensures
        match loaded {
            Err(e) => r matches Err(m) && m@ == load_error_text(e),
            Ok(_) => if current_source@ == expected_source@ {
                r is Ok
            } else {
                r matches Err(m) && m@ == changed_on_disk_text()
            },
        },
{
    match loaded {
        Err(e) => Err(e.message()),
        Ok(_) => {
            if str_eq(current_source, expected_source) {
                Ok(())
            } else {
                let m = String::from_str("workflow changed on disk since it was loaded; reload before saving");
                proof {
                    reveal_strlit("workflow changed on disk since it was loaded; reload before saving");
                }
                Err(m)
            }
        },
    }
}

} // verus!
