//! The decisions of the `init` command: which recipe, where the project goes,
//! and whether that place may be used.
use vstd::prelude::*;

verus! {

/// The arguments of the `init` command.
pub struct InitArgs {
    /// Template recipe to use for the new project.
    pub template: Option<String>,
    /// Directory where to create the new project.
    pub directory: Option<String>,
}

/// The subcommands of the program.
pub enum Commands {
    /// List installed templates.
    List,
    /// Open the templates directory in an editor.
    Edit { editor: Option<String> },
    /// Create a new project from a template.
    Init(InitArgs),
}

/// Why `init` cannot go on.
#[derive(Debug, Clone, Copy, PartialEq, Eq, Structural)]
pub enum InitError {
    /// No template recipe was named.
    MissingTemplate,
    /// No project directory was given or entered.
    MissingDirectory,
    /// The project directory exists and holds entries.
    DirectoryNotEmpty,
    /// The project path exists and is not a directory.
    NotADirectory,
    /// The project directory has no final segment to name the project by.
    InvalidDirectory,
}

/// What `init` works from once its arguments are checked: the recipe's name,
/// and the project directory where one was given (else it is asked for).
pub struct InitRequest {
    pub template: String,
    pub directory: Option<String>,
}

/// Checks the arguments of `init`: a template recipe must be named.
pub fn run(args: &InitArgs) -> (r: Result<InitRequest, InitError>)
    ensures
        args.template is None <==> r is Err,
        r is Err ==> r matches Err(InitError::MissingTemplate),
        r matches Ok(q) ==> Some(q.template@) == (match args.template {
            Some(t) => Some(t@),
            None => None::<Seq<char>>,
        }) && (match (q.directory, args.directory) {
            (Some(a), Some(b)) => a@ == b@,
            (None, None) => true,
            _ => false,
        }),
{
    match &args.template {
        None => Err(InitError::MissingTemplate),
        Some(t) => {
            let directory = match &args.directory {
                Some(d) => Some(d.clone()),
                None => None,
            };
            Ok(InitRequest { template: t.clone(), directory })
        },
    }
}

/// The position of the first recipe called `name`, among the recipes' names
/// in the order they were loaded.
pub fn find_recipe(names: &Vec<String>, name: &String) -> (r: Option<usize>)
    ensures
        r matches Some(i) ==> i < names@.len() && names@[i as int]@ == name@ && forall|j: int|
            0 <= j < i ==> names@[j]@ != name@,
        r is None ==> forall|j: int| 0 <= j < names@.len() ==> names@[j]@ != name@,
{
    let mut i: usize = 0;
    while i < names.len()
        invariant
            i <= names@.len(),
            forall|j: int| 0 <= j < i ==> names@[j]@ != name@,
        decreases names@.len() - i,
    {
        if names[i] == *name {
            return Some(i);
        }
        i = i + 1;
    }
    None
}

/// The project directory: the one given, else the answer to the prompt.
pub fn resolve_directory(given: Option<String>, answer: Option<String>) -> (r: Result<
    String,
    InitError,
>)
    ensures
        given is None && answer is None <==> r is Err,
        r is Err ==> r matches Err(InitError::MissingDirectory),
        r matches Ok(d) ==> (match given {
            Some(g) => d == g,
            None => Some(d) == answer,
        }),
{
    match given {
        Some(g) => Ok(g),
        None => match answer {
            Some(a) => Ok(a),
            None => Err(InitError::MissingDirectory),
        },
    }
}

/// What to do before cloning into the project directory.
#[derive(Debug, Clone, Copy, PartialEq, Eq, Structural)]
pub enum DirectoryAction {
    /// The directory exists and is empty: clone into it.
    UseExisting,
    /// Nothing is there yet: create its parent, then clone.
    CreateParent,
}

/// Whether the project directory may be used: an empty directory may, a
/// directory with entries or a path that is not a directory may not, and a
/// path that does not exist yet needs its parent created.
pub fn ensure_directory_available(is_dir: bool, has_entries: bool, exists: bool) -> (r: Result<
    DirectoryAction,
    InitError,
>)
    ensures
        r == (if is_dir {
            if has_entries {
                Err(InitError::DirectoryNotEmpty)
            } else {
                Ok(DirectoryAction::UseExisting)
            }
        } else if exists {
            Err(InitError::NotADirectory)
        } else {
            Ok(DirectoryAction::CreateParent)
        }),
{
    if is_dir {
        if has_entries {
            return Err(InitError::DirectoryNotEmpty);
        }
        return Ok(DirectoryAction::UseExisting);
    }
    if exists {
        return Err(InitError::NotADirectory);
    }
    Ok(DirectoryAction::CreateParent)
}

} // verus!
