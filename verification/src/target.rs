//! The target of an analysis: a path on this machine, or a reference to a
//! remote repository.

use vstd::prelude::*;
use vstd::string::StringExecFns;

verus! {

/// A compiled regular expression of the crate `regex`.
#[verifier::external_type_specification]
#[verifier::external_body]
pub struct ExRegex(regex::Regex);

/// The error of the crate `regex`.
#[verifier::external_type_specification]
#[verifier::external_body]
pub struct ExRegexError(regex::Error);

/// The regular expression that a pattern compiles to, if it compiles.
pub uninterp spec fn compiled(pattern: Seq<char>) -> Option<regex::Regex>;

/// Whether the regular expression matches somewhere in the text.
pub uninterp spec fn has_match(regex: regex::Regex, text: Seq<char>) -> bool;

/// `regex::Regex::new`: the regular expression that the pattern compiles to,
/// or the error where it does not compile.
#[verifier::external_body]
fn regex_new(pattern: &str) -> (r: Result<regex::Regex, regex::Error>)
    ensures
        r.is_ok() == compiled(pattern@).is_some(),
        r matches Ok(regex) ==> compiled(pattern@) == Some(regex),
{
    regex::Regex::new(pattern)
}

/// `regex::Regex::is_match`: whether the regular expression matches anywhere
/// in the text.
#[verifier::external_body]
fn regex_is_match(regex: &regex::Regex, text: &str) -> (r: bool)
    ensures
        r == has_match(*regex, text@),
{
    regex.is_match(text)
}

/// `std::path::Path::exists`: whether the path points at something that is
/// there. The answer depends on the machine, so nothing is promised of it.
#[verifier::external_body]
fn path_exists(path: &str) -> (exists: bool) {
    std::path::Path::new(path).exists()
}

/// The shape of a reference to a remote repository, as a regular expression:
/// a scheme among `git`, `ssh`, `http` and `https`, or a user at a host, each
/// of the two made of word characters, dots and hyphens; a colon, with or
/// without two slashes; a path; the suffix `.git`; and at most one slash
/// after it.
pub const REMOTE_REPOSITORY: &'static str =
    r"((git|ssh|http(s)?)|([\w\.\-]+@[\w\.\-]+))(:(//)?)([\w\.@:/\-~]+)(\.git)(/)?";

/// Whether the text holds a reference to a remote repository.
pub open spec fn is_remote_shape(text: Seq<char>) -> bool {
    match compiled(REMOTE_REPOSITORY@) {
        Some(regex) => has_match(regex, text),
        None => false,
    }
}

/// Why a target could not be resolved.
#[derive(Debug, PartialEq, Eq, PartialOrd, Ord)]
pub enum TargetPathError {
    /// The text is no reference to a remote repository, and no path that
    /// exists on this machine.
    LocalPathDoesNotExist(String),
}

/// The text of a `TargetPathError`.
pub enum Unresolved {
    LocalPathDoesNotExist(Seq<char>),
}

impl View for TargetPathError {
    type V = Unresolved;

    open spec fn view(&self) -> Unresolved {
        match self {
            TargetPathError::LocalPathDoesNotExist(path) => Unresolved::LocalPathDoesNotExist(
                path@,
            ),
        }
    }
}

impl TargetPathError {
    /// The error in words.
    pub fn message(&self) -> (text: String)
        ensures
            self@ matches Unresolved::LocalPathDoesNotExist(path) && text@ == "Local path `"@
                + path + "` does not exist."@,
    {
        match self {
            TargetPathError::LocalPathDoesNotExist(path) => {
                let mut text = "Local path `".to_owned();
                text.append(path.as_str());
                text.append("` does not exist.");
                text
            },
        }
    }
}

/// A target: either a path on this machine or a reference to a remote
/// repository.
#[derive(Debug, Clone, PartialEq, Eq, PartialOrd, Ord)]
pub enum TargetPath {
    /// A path on this machine.
    Path(String),
    /// A reference to a remote repository.
    RemoteRepository(String),
}

/// The text of a `TargetPath`.
pub enum Resolved {
    Path(Seq<char>),
    RemoteRepository(Seq<char>),
}

impl View for TargetPath {
    type V = Resolved;

    open spec fn view(&self) -> Resolved {
        match self {
            TargetPath::Path(path) => Resolved::Path(path@),
            TargetPath::RemoteRepository(reference) => Resolved::RemoteRepository(reference@),
        }
    }
}

/// What a text resolves to, given whether it has the shape of a reference to
/// a remote repository and whether it is a path that exists. The shape is
/// looked at first, and a text that has it is a remote repository whatever
/// exists.
pub open spec fn resolution(text: Seq<char>, remote: bool, exists: bool) -> Result<
    Resolved,
    Unresolved,
> {
    if remote {
        Ok(Resolved::RemoteRepository(text))
    } else if exists {
        Ok(Resolved::Path(text))
    } else {
        Err(Unresolved::LocalPathDoesNotExist(text))
    }
}

/// What a result of resolving says.
pub open spec fn resolved(result: Result<TargetPath, TargetPathError>) -> Result<
    Resolved,
    Unresolved,
> {
    match result {
        Ok(target) => Ok(target@),
        Err(error) => Err(error@),
    }
}

/// Whether the text holds a reference to a remote repository.
pub fn is_remote_reference(text: &str) -> (r: bool)
    ensures
        r == is_remote_shape(text@),
{
    match regex_new(REMOTE_REPOSITORY) {
        Ok(regex) => regex_is_match(&regex, text),
        Err(_) => false,
    }
}

impl TargetPath {
    /// The target that a text stands for, given what is known of it.
    pub fn classify(target_path: String, remote: bool, exists: bool) -> (r: Result<
        TargetPath,
        TargetPathError,
    >)
        ensures
            resolved(r) == resolution(target_path@, remote, exists),
    {
        if remote {
            Ok(TargetPath::RemoteRepository(target_path))
        } else if exists {
            Ok(TargetPath::Path(target_path))
        } else {
            Err(TargetPathError::LocalPathDoesNotExist(target_path))
        }
    }

    /// The target that a text stands for. A text with the shape of a
    /// reference to a remote repository is one, as it stands. Any other text
    /// is taken as a path: it is looked for on this machine, and is the target
    /// where it exists.
    pub fn new(target_path: String) -> (r: Result<TargetPath, TargetPathError>)
        ensures
            is_remote_shape(target_path@) ==> resolved(r) == Ok::<Resolved, Unresolved>(
                Resolved::RemoteRepository(target_path@),
            ),
            !is_remote_shape(target_path@) ==> resolved(r) == Ok::<Resolved, Unresolved>(
                Resolved::Path(target_path@),
            ) || resolved(r) == Err::<Resolved, Unresolved>(
                Unresolved::LocalPathDoesNotExist(target_path@),
            ),
    {
        if is_remote_reference(target_path.as_str()) {
            TargetPath::classify(target_path, true, false)
        } else {
            let exists = path_exists(target_path.as_str());
            TargetPath::classify(target_path, false, exists)
        }
    }

    /// Whether the target is a path on this machine.
    pub fn is_local(&self) -> (r: bool)
        ensures
            r == (self@ is Path),
    {
        match self {
            TargetPath::Path(_) => true,
            TargetPath::RemoteRepository(_) => false,
        }
    }

    /// Whether the target is a reference to a remote repository.
    pub fn is_remote(&self) -> (r: bool)
        ensures
            r == (self@ is RemoteRepository),
    {
        !self.is_local()
    }
}

/// A target that lies on this machine.
#[derive(Debug)]
pub struct Target {
    /// The path of the target.
    pub path: String,
}

} // verus!
