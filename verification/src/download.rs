//! Where the sources of a target lie on this machine, and whether they have
//! to be fetched first.

use crate::command::{CommandLine, Invocation};
use crate::target::{Resolved, TargetPath};
use crate::text::{
    from_chars, lemma_split_by_nonempty, split, split_by, strip_suffix, to_chars, views,
    without_suffix,
};
use vstd::prelude::*;

verus! {

/// The name of the directory that holds a repository: the last segment of
/// the reference, a slash at its end aside, without the suffix `.git` where
/// the segment ends in it.
pub open spec fn repository_name(git_url: Seq<char>) -> Seq<char> {
    without_suffix(split_by(without_suffix(git_url, "/"@), "/"@).last(), ".git"@)
}

/// The command that fetches a repository.
pub open spec fn clone_command(git_url: Seq<char>) -> Invocation {
    Invocation { program: "git"@, arguments: seq!["clone"@, git_url] }
}

/// Where the sources lie, and the command that has to be run before they do.
#[derive(Debug)]
pub struct Download {
    /// The directory of the sources. For a remote repository it is a name
    /// in the directory that the caller works in.
    pub directory: String,
    /// The command that fetches the sources, where they are not there yet.
    pub command: Option<CommandLine>,
}

/// The text of a `Download`.
pub struct Fetch {
    pub directory: Seq<char>,
    pub command: Option<Invocation>,
}

impl View for Download {
    type V = Fetch;

    open spec fn view(&self) -> Fetch {
        Fetch { directory: self.directory@, command: self.command.deep_view() }
    }
}

/// Where a repository lies and how it gets there: in the directory named
/// after it, fetched only where that directory does not exist yet.
pub open spec fn fetch_of(git_url: Seq<char>, exists: bool) -> Fetch {
    Fetch {
        directory: repository_name(git_url),
        command: if exists {
            None
        } else {
            Some(clone_command(git_url))
        },
    }
}

/// The directory in which the sources of a target lie: the path itself, or
/// the directory named after the repository.
pub open spec fn directory(target: Resolved) -> Seq<char> {
    match target {
        Resolved::Path(path) => path,
        Resolved::RemoteRepository(reference) => repository_name(reference),
    }
}

/// Where a target lies and how it gets there: a path lies where it says and
/// needs nothing, a remote repository is fetched where its directory does not
/// exist yet.
pub open spec fn materialized(target: Resolved, exists: bool) -> Fetch {
    match target {
        Resolved::Path(path) => Fetch { directory: path, command: None },
        Resolved::RemoteRepository(reference) => fetch_of(reference, exists),
    }
}

/// The name of the directory that holds the repository of this reference.
pub fn create_path_from_repo_name(git_url: &str) -> (name: String)
    ensures
        name@ == repository_name(git_url@),
{
    let text = to_chars(git_url);
    let slash = to_chars("/");
    let suffix = to_chars(".git");
    let path = strip_suffix(text.as_slice(), slash.as_slice());
    let segments = split(path, slash.as_slice());
    proof {
        lemma_split_by_nonempty(path@, slash@);
    }
    let last = segments[segments.len() - 1];
    assert(views(segments@).last() == last@);
    from_chars(strip_suffix(last, suffix.as_slice()))
}

/// Plans the download of a repository, given whether its directory exists
/// already: a repository that is there is used as it is.
pub fn download_from_git(git_url: &str, exists: bool) -> (download: Download)
    ensures
        download@ == fetch_of(git_url@, exists),
{
    let directory = create_path_from_repo_name(git_url);
    if exists {
        Download { directory, command: None }
    } else {
        let mut arguments: Vec<String> = Vec::new();
        arguments.push("clone".to_owned());
        arguments.push(git_url.to_owned());
        assert(arguments.deep_view() =~= seq!["clone"@, git_url@]);
        Download {
            directory,
            command: Some(CommandLine { program: "git".to_owned(), arguments }),
        }
    }
}

/// The directory in which the sources of a target lie. Whether it exists is
/// what `materialize` asks for.
pub fn directory_of(target: &TargetPath) -> (name: String)
    ensures
        name@ == directory(target@),
{
    match target {
        TargetPath::Path(path) => path.clone(),
        TargetPath::RemoteRepository(reference) => create_path_from_repo_name(reference.as_str()),
    }
}

/// Plans how a target comes to lie on this machine, given whether its
/// directory exists already. A path is handed back as it is.
pub fn materialize(target: &TargetPath, exists: bool) -> (download: Download)
    ensures
        download@ == materialized(target@, exists),
        download@.directory == directory(target@),
{
    match target {
        TargetPath::Path(path) => Download { directory: path.clone(), command: None },
        TargetPath::RemoteRepository(reference) => download_from_git(reference.as_str(), exists),
    }
}

/// Materializing a remote repository twice gives the same directory both
/// times, and once the directory exists nothing is fetched.
pub proof fn lemma_materialize_idempotent(reference: Seq<char>, exists: bool)
    ensures
        materialized(Resolved::RemoteRepository(reference), exists).directory == materialized(
            Resolved::RemoteRepository(reference),
            true,
        ).directory,
        materialized(Resolved::RemoteRepository(reference), true).command is None,
{
}

} // verus!
