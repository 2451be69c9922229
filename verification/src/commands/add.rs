//! Adding a repository to the configuration.
use vstd::prelude::*;

use crate::cli::AddArgs;
use crate::config::{Config, RepositoryConfig};
use crate::git::clone::{clone_path_of, get_clone_path, UrlError};
use crate::utils::keyed::{insert_entry, inserted, last_index_of, rfind_char};
use crate::utils::text::{chars_from, chars_of, string_from_chars};

verus! {

/// Why a repository could not be added.
#[derive(Clone, Copy, Debug, PartialEq, Eq, Structural)]
pub enum AddError {
    /// No name was given, and the URL holds no `/` behind which one could
    /// be found.
    MissingName,
    /// No path was given, and none could be taken from the URL.
    Url(UrlError),
}

/// The name under which a repository is added: the name that was given, or
/// what stands behind the last `/` of the URL.
///
/// The name only tells apart the pairs of URL and branch in the
/// configuration.
pub open spec fn name_of_args(args: AddArgs) -> Option<Seq<char>> {
    match args.name {
        Some(name) => Some(name@),
        None => if last_index_of(args.url@, '/') >= 0 {
            Some(args.url@.skip(last_index_of(args.url@, '/') + 1))
        } else {
            None
        },
    }
}

/// Whether `repo` is the configuration that `args` asks for, with `path` as
/// the path of its clone.
pub open spec fn describes(repo: RepositoryConfig, args: AddArgs, path: Seq<char>) -> bool {
    &&& repo.path@ == path
    &&& repo.url == args.url
    &&& repo.reference == args.branch
    &&& repo.remote_username == args.remote_username
    &&& repo.ssh_private_key == args.ssh_private_key
    &&& repo.ssh_public_key == args.ssh_public_key
    &&& repo.ssh_passphrase == args.ssh_passphrase
    &&& repo.https_password == args.https_password
}

/// The path of the clone that `args` asks for: the path that was given, or
/// the one in the data directory that the URL names.
pub open spec fn clone_path_of_args(args: AddArgs, data_dir: Seq<char>) -> Result<
    Seq<char>,
    UrlError,
> {
    match args.path {
        Some(path) => Ok(path@),
        None => clone_path_of(data_dir, args.url@),
    }
}

fn clone_text(text: &Option<String>) -> (out: Option<String>)
    ensures
        out == *text,
{
    match text {
        Some(t) => Some(t.clone()),
        None => None,
    }
}

/// The name under which the repository is added.
pub fn repository_name(args: &AddArgs) -> (name: Result<String, AddError>)
    ensures
        name is Ok == name_of_args(*args) is Some,
        name matches Ok(n) ==> n@ == name_of_args(*args)->0,
        name matches Err(e) ==> e == AddError::MissingName,
{
    match &args.name {
        Some(name) => Ok(name.clone()),
        None => {
            let url = chars_of(args.url.as_str());
            match rfind_char(&url, '/') {
                Some(i) => Ok(string_from_chars(&chars_from(&url, i + 1))),
                None => Err(AddError::MissingName),
            }
        },
    }
}

/// The configuration of the repository that `args` asks for.
pub fn args_to_config(args: &AddArgs, data_dir: &str) -> (out: Result<RepositoryConfig, UrlError>)
    ensures
        out is Ok == clone_path_of_args(*args, data_dir@) is Ok,
        out matches Ok(repo) ==> describes(repo, *args, clone_path_of_args(*args, data_dir@)->Ok_0),
        out matches Err(e) ==> e == clone_path_of_args(*args, data_dir@)->Err_0,
{
    let path = match &args.path {
        Some(path) => path.clone(),
        None => match get_clone_path(data_dir, args.url.as_str()) {
            Ok(path) => path,
            Err(e) => {
                return Err(e);
            },
        },
    };
    Ok(
        RepositoryConfig {
            path,
            url: args.url.clone(),
            reference: clone_text(&args.branch),
            remote_username: clone_text(&args.remote_username),
            ssh_private_key: clone_text(&args.ssh_private_key),
            ssh_public_key: clone_text(&args.ssh_public_key),
            ssh_passphrase: clone_text(&args.ssh_passphrase),
            https_password: clone_text(&args.https_password),
        },
    )
}

/// Adds to the configuration the repository that `args` asks for, under its
/// name. A repository that was there under the name is replaced.
///
/// Cloning is not done here. The program clones before it calls this, unless
/// it was asked to skip it, so that a clone that fails leaves the
/// configuration as it was.
pub fn add(args: &AddArgs, config: &mut Config, data_dir: &str) -> (out: Result<(), AddError>)
    ensures
        final(config).rules == old(config).rules,
        old(config).wf() ==> final(config).wf(),
        name_of_args(*args) is None ==> out == Err::<(), AddError>(AddError::MissingName)
            && final(config).repositories == old(config).repositories,
        name_of_args(*args) is Some && clone_path_of_args(*args, data_dir@) is Err ==> out == Err::<
            (),
            AddError,
        >(AddError::Url(clone_path_of_args(*args, data_dir@)->Err_0))
            && final(config).repositories == old(config).repositories,
        name_of_args(*args) is Some && clone_path_of_args(*args, data_dir@) is Ok ==> out is Ok
            && exists|name: String, repo: RepositoryConfig|
            name@ == name_of_args(*args)->0 && describes(
                repo,
                *args,
                clone_path_of_args(*args, data_dir@)->Ok_0,
            ) && final(config).repositories@ == inserted(old(config).repositories@, name, repo),
{
    let name = match repository_name(args) {
        Ok(name) => name,
        Err(e) => {
            return Err(e);
        },
    };
    let repo_config = match args_to_config(args, data_dir) {
        Ok(repo_config) => repo_config,
        Err(e) => {
            return Err(AddError::Url(e));
        },
    };
    insert_entry(&mut config.repositories, name, repo_config);
    Ok(())
}

} // verus!
