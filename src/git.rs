use vstd::prelude::*;
use crate::error::ScaffoldError;
use crate::paths::ends_with_char;

verus! {

#[verifier::external_type_specification]
#[verifier::external_body]
pub struct ExGitError(git2::Error);

/// `dir` joined with one more component, as a path on a POSIX system joins them.
pub open spec fn join_component(dir: Seq<char>, c: Seq<char>) -> Seq<char> {
    if dir.len() == 0 {
        c
    } else if dir.last() == '/' {
        dir + c
    } else {
        dir + seq!['/'] + c
    }
}

/// The name of the directory that a new project `name` is written into.
pub open spec fn output_dir_spec(name: Seq<char>) -> Seq<char> {
    "dragonruby-"@ + name + "-drgtk"@
}

/// The name of the directory that a new project `name` is written into.
pub fn output_dir_name(name: &str) -> (r: String)
    ensures
        r@ == output_dir_spec(name@),
{
    String::from_str("dragonruby-").concat(name).concat("-drgtk")
}

/// `dir` joined with the component `c`.
pub fn join_path(dir: &str, c: &str) -> (r: String)
    ensures
        r@ == join_component(dir@, c@),
{
    if dir.unicode_len() == 0 {
        String::from_str(c)
    } else if ends_with_char(dir, '/') {
        String::from_str(dir).concat(c)
    } else {
        let r = String::from_str(dir).concat("/").concat(c);
        proof {
            reveal_strlit("/");
        }
        assert(r@ =~= dir@ + seq!['/'] + c@);
        r
    }
}

/// The project directory inside an output directory, where the repository is made.
pub fn project_repository_path(directory: &str) -> (r: String)
    ensures
        r@ == join_component(directory@, "mygame"@),
{
    join_path(directory, "mygame")
}

/// Relies on git2's `Repository::init`: creates a repository at `path`; whether it
/// succeeds depends on the disk.
#[verifier::external_body]
fn git_init(path: &str) -> (r: Result<(), git2::Error>)
{
    git2::Repository::init(path).map(|_| ())
}

/// Relies on the `Display` impl of git2's `Error`: a readable cause.
#[verifier::external_body]
fn git_error_text(e: &git2::Error) -> (r: String)
{
    e.to_string()
}

/// Creates a version-control repository in the project directory of `directory`.
/// Its failure is reported as an initialisation error.
pub fn initialize_git(directory: &str) -> (r: Result<(), ScaffoldError>)
    ensures
        r is Err ==> r->Err_0 is GitInit,
{
    let path = project_repository_path(directory);
    match git_init(path.as_str()) {
        Ok(()) => Ok(()),
        Err(e) => Err(ScaffoldError::GitInit(git_error_text(&e))),
    }
}

} // verus!
