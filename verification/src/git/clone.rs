//! Where the clone of a URL lies in the data directory.
use vstd::prelude::*;

use crate::config::RepositoryConfig;
use crate::git::object::ObjectId;
use crate::utils::text::{
    bytes_occur_at, chars_from, chars_occur_at, chars_of, find_chars, first_occurrence,
    join_chars, joined, occurs_at, push_all, str_eq, string_from_chars,
};
use vstd::string::*;

verus! {

/// Why no path could be taken from a clone URL.
#[derive(Clone, Copy, Debug, PartialEq, Eq, Structural)]
pub enum UrlError {
    /// The URL names a known protocol and holds no `/` behind it.
    MissingSlash,
    /// The URL holds `://` behind a protocol that is not known.
    UnsupportedProtocol,
    /// The URL names no protocol and holds no `:`.
    MissingColon,
}

impl UrlError {
    /// The error in words.
    pub fn message(&self) -> (text: &'static str)
        ensures
            text@ == match self {
                UrlError::MissingSlash => "Failed to find '/' separator in URL"@,
                UrlError::UnsupportedProtocol => "Found unsupported protocol from URL"@,
                UrlError::MissingColon => "Failed to find ':' separator in URL"@,
            },
    {
        match self {
            UrlError::MissingSlash => "Failed to find '/' separator in URL",
            UrlError::UnsupportedProtocol => "Found unsupported protocol from URL",
            UrlError::MissingColon => "Failed to find ':' separator in URL",
        }
    }
}

/// The known protocol that a URL begins with, if it begins with one. The
/// known protocols are `ssh://`, `git://`, `http://`, `https://`, `ftp://`,
/// `ftps://` and `file://`.
pub open spec fn protocol_of(url: Seq<char>) -> Option<Seq<char>> {
    if occurs_at(url, "ssh://"@, 0) {
        Some("ssh://"@)
    } else if occurs_at(url, "git://"@, 0) {
        Some("git://"@)
    } else if occurs_at(url, "http://"@, 0) {
        Some("http://"@)
    } else if occurs_at(url, "https://"@, 0) {
        Some("https://"@)
    } else if occurs_at(url, "ftp://"@, 0) {
        Some("ftp://"@)
    } else if occurs_at(url, "ftps://"@, 0) {
        Some("ftps://"@)
    } else if occurs_at(url, "file://"@, 0) {
        Some("file://"@)
    } else {
        None
    }
}

/// What `text` holds behind the first occurrence of `sep`, if `sep` occurs.
pub open spec fn after_first(text: Seq<char>, sep: Seq<char>) -> Option<Seq<char>> {
    if first_occurrence(text, sep, 0) < text.len() {
        Some(text.skip(first_occurrence(text, sep, 0) + 1))
    } else {
        None
    }
}

/// The path that a clone URL names.
///
/// Behind a known protocol the path is what follows the first `/`: with
/// `ssh://git@example.com/path.git` it is `path.git`. A URL with `://` and no
/// known protocol is refused. Any other URL is taken to be of the form
/// `git@github.com:Notgnoshi/herostratus.git`, where the path follows the
/// first `:`.
pub open spec fn path_of_url(url: Seq<char>) -> Result<Seq<char>, UrlError> {
    if let Some(protocol) = protocol_of(url) {
        match after_first(url.skip(protocol.len() as int), seq!['/']) {
            Some(path) => Ok(path),
            None => Err(UrlError::MissingSlash),
        }
    } else if first_occurrence(url, "://"@, 0) < url.len() {
        Err(UrlError::UnsupportedProtocol)
    } else {
        match after_first(url, seq![':']) {
            Some(path) => Ok(path),
            None => Err(UrlError::MissingColon),
        }
    }
}

/// The length of `protocol` where `url` begins with it.
fn protocol_prefix(url: &Vec<char>, protocol: &str) -> (len: Option<usize>)
    ensures
        len is Some == occurs_at(url@, protocol@, 0),
        len matches Some(n) ==> n == protocol@.len() && n <= url@.len(),
{
    let p = chars_of(protocol);
    if chars_occur_at(url, &p, 0) {
        Some(p.len())
    } else {
        None
    }
}

/// The length of the known protocol that `url` begins with.
fn known_protocol(url: &Vec<char>) -> (len: Option<usize>)
    ensures
        len is Some == protocol_of(url@) is Some,
        len matches Some(n) ==> n == protocol_of(url@)->0.len() && n <= url@.len(),
{
    if let Some(len) = protocol_prefix(url, "ssh://") {
        return Some(len);
    }
    if let Some(len) = protocol_prefix(url, "git://") {
        return Some(len);
    }
    if let Some(len) = protocol_prefix(url, "http://") {
        return Some(len);
    }
    if let Some(len) = protocol_prefix(url, "https://") {
        return Some(len);
    }
    if let Some(len) = protocol_prefix(url, "ftp://") {
        return Some(len);
    }
    if let Some(len) = protocol_prefix(url, "ftps://") {
        return Some(len);
    }
    protocol_prefix(url, "file://")
}

/// What `text` holds behind the first `sep`, if it holds one.
fn rest_after(text: &Vec<char>, sep: char) -> (rest: Option<Vec<char>>)
    ensures
        rest is Some == after_first(text@, seq![sep]) is Some,
        rest is Some ==> rest->0@ == after_first(text@, seq![sep])->0,
{
    let mut pattern: Vec<char> = Vec::new();
    pattern.push(sep);
    assert(pattern@ =~= seq![sep]);
    match find_chars(text, &pattern) {
        Some(idx) => {
            let len = text.len();
            assert(idx < len);
            Some(chars_from(text, idx + 1))
        },
        None => None,
    }
}

/// The path that a clone URL names, as characters.
pub fn parse_path_chars(url: &Vec<char>) -> (path: Result<Vec<char>, UrlError>)
    ensures
        path is Ok == path_of_url(url@) is Ok,
        path matches Ok(p) ==> p@ == path_of_url(url@)->Ok_0,
        path matches Err(e) ==> e == path_of_url(url@)->Err_0,
{
    if let Some(len) = known_protocol(url) {
        let rest = chars_from(url, len);
        return match rest_after(&rest, '/') {
            Some(path) => Ok(path),
            None => Err(UrlError::MissingSlash),
        };
    }
    if find_chars(url, &chars_of("://")).is_some() {
        return Err(UrlError::UnsupportedProtocol);
    }
    // Without a protocol the URL is most likely of the other form that SSH takes, in which the
    // path begins behind the ':'.

    match rest_after(url, ':') {
        Some(path) => Ok(path),
        None => Err(UrlError::MissingColon),
    }
}

/// Parses from a clone URL the path that tells clones apart on disk.
///
/// ```text
/// ssh://git@example.com/path.git           => path.git
/// git@github.com:Notgnoshi/herostratus.git => Notgnoshi/herostratus.git
/// https://example.com/foo                  => foo
/// domain:path                              => path
/// ```
pub fn parse_path_from_url(url: &str) -> (path: Result<String, UrlError>)
    ensures
        path is Ok == path_of_url(url@) is Ok,
        path matches Ok(p) ==> p@ == path_of_url(url@)->Ok_0,
        path matches Err(e) ==> e == path_of_url(url@)->Err_0,
{
    match parse_path_chars(&chars_of(url)) {
        Ok(path) => Ok(string_from_chars(&path)),
        Err(e) => Err(e),
    }
}

/// Where the clone of `url` lies under the data directory `data_dir`: in its
/// directory `git`, at the path that the URL names.
pub open spec fn clone_path_of(data_dir: Seq<char>, url: Seq<char>) -> Result<Seq<char>, UrlError> {
    match path_of_url(url) {
        Ok(path) => Ok(joined(joined(data_dir, "git"@), path)),
        Err(e) => Err(e),
    }
}

/// The path to clone the given URL into, in the data directory.
pub fn get_clone_path(data_dir: &str, url: &str) -> (path: Result<String, UrlError>)
    ensures
        path is Ok == clone_path_of(data_dir@, url@) is Ok,
        path matches Ok(p) ==> p@ == clone_path_of(data_dir@, url@)->Ok_0,
        path matches Err(e) ==> e == clone_path_of(data_dir@, url@)->Err_0,
{
    match parse_path_chars(&chars_of(url)) {
        Ok(path) => {
            let git = join_chars(&chars_of(data_dir), &chars_of("git"));
            Ok(string_from_chars(&join_chars(&git, &path)))
        },
        Err(e) => Err(e),
    }
}

/// What to do where a repository is to be cloned to a path.
#[derive(Clone, Copy, Debug, PartialEq, Eq, Structural)]
pub enum ClonePlan {
    /// Nothing is at the path: clone.
    Clone,
    /// Something is at the path and is to be overwritten: remove what the
    /// path holds, then clone.
    RemoveThenClone,
    /// Something is at the path and is to be kept: see which remote it has,
    /// and go on as [`existing_clone_plan`] says.
    InspectExisting,
}

/// What to do where a repository is to be cloned to a path at which a
/// repository lies already.
#[derive(Clone, Copy, Debug, PartialEq, Eq, Structural)]
pub enum ExistingClonePlan {
    /// The repository at the path has the URL as its remote: pull.
    Pull,
    /// The repository at the path has no remote URL: fail.
    MissingRemoteUrl,
    /// The repository at the path has another remote: fail. Two URLs of one
    /// repository, one for HTTPS and one for SSH, count as two remotes.
    DifferentRemote,
}

/// What to do where a repository is to be cloned to a path, given whether
/// something is at the path and whether it may be overwritten.
pub fn clone_plan(path_exists: bool, force: bool) -> (plan: ClonePlan)
    ensures
        plan == if !path_exists {
            ClonePlan::Clone
        } else if force {
            ClonePlan::RemoveThenClone
        } else {
            ClonePlan::InspectExisting
        },
{
    if !path_exists {
        ClonePlan::Clone
    } else if force {
        ClonePlan::RemoveThenClone
    } else {
        ClonePlan::InspectExisting
    }
}

/// What to do with the repository that lies where `url` is to be cloned to,
/// given the URL of its remote.
pub fn existing_clone_plan(existing_url: Option<&str>, url: &str) -> (plan: ExistingClonePlan)
    ensures
        plan == match existing_url {
            None => ExistingClonePlan::MissingRemoteUrl,
            Some(existing) => if existing@ == url@ {
                ExistingClonePlan::Pull
            } else {
                ExistingClonePlan::DifferentRemote
            },
        },
{
    match existing_url {
        None => ExistingClonePlan::MissingRemoteUrl,
        Some(existing) => if str_eq(existing, url) {
            ExistingClonePlan::Pull
        } else {
            ExistingClonePlan::DifferentRemote
        },
    }
}

/// The refspec that fetches the branch `branch` to the branch of the same
/// name.
pub open spec fn branch_refspec(branch: Seq<char>) -> Seq<char> {
    "+refs/heads/"@ + branch + ":refs/heads/"@ + branch
}

/// The refspecs with which a repository is fetched: that of the `HEAD` of
/// the remote, and that of the branch of the configuration where it names
/// one. Nothing else is fetched.
pub fn fetch_refspecs(branch: Option<&str>) -> (refspecs: Vec<String>)
    ensures
        refspecs@.len() == if branch is Some {
            2int
        } else {
            1int
        },
        refspecs@[0]@ == "+HEAD:refs/remotes/origin/HEAD"@,
        branch matches Some(b) ==> refspecs@[1]@ == branch_refspec(b@),
{
    let mut refspecs: Vec<String> = Vec::new();
    refspecs.push("+HEAD:refs/remotes/origin/HEAD".to_owned());
    if let Some(branch) = branch {
        let name = chars_of(branch);
        let mut spec: Vec<char> = Vec::new();
        push_all(&mut spec, &chars_of("+refs/heads/"));
        push_all(&mut spec, &name);
        push_all(&mut spec, &chars_of(":refs/heads/"));
        push_all(&mut spec, &name);
        assert(spec@ =~= branch_refspec(branch@));
        refspecs.push(string_from_chars(&spec));
    }
    refspecs
}

/// The kind of a reference that a remote offers.
#[derive(Clone, Copy, Debug, PartialEq, Eq, Structural)]
pub enum RemoteRefKind {
    /// A reference that names another reference.
    Symbolic,
    /// A reference that names an object.
    Direct,
    /// A tag, with the object that it names in the end.
    Peeled,
    /// A reference that names a reference that does not exist yet.
    Unborn,
}

/// What to do with a reference that a remote offers, after a fetch.
#[derive(Clone, Copy, Debug, PartialEq, Eq, Structural)]
pub enum SyncAction {
    /// Point the reference that it names at the object, and the reference
    /// itself at that reference.
    SyncSymbolic,
    /// Point the reference at the object.
    SyncDirect,
    /// Leave the reference alone.
    Skip,
}

/// Whether `name` ends with `suffix`.
pub open spec fn ends_with(name: Seq<u8>, suffix: Seq<u8>) -> bool {
    suffix.len() <= name.len() && occurs_at(name, suffix, name.len() - suffix.len())
}

/// What to do with a reference that a remote offers, where the reference
/// `local_ref_name` was fetched.
///
/// A reference is synced where its full name ends with the name that was
/// fetched; a symbolic reference also where it is `HEAD`. A reference that
/// is unborn is never synced.
pub open spec fn synced(
    kind: RemoteRefKind,
    full_ref_name: Seq<u8>,
    local_ref_name: Seq<u8>,
) -> SyncAction {
    match kind {
        RemoteRefKind::Symbolic => if ends_with(full_ref_name, local_ref_name) || full_ref_name
            == "HEAD".spec_bytes() {
            SyncAction::SyncSymbolic
        } else {
            SyncAction::Skip
        },
        RemoteRefKind::Direct | RemoteRefKind::Peeled => if ends_with(
            full_ref_name,
            local_ref_name,
        ) {
            SyncAction::SyncDirect
        } else {
            SyncAction::Skip
        },
        RemoteRefKind::Unborn => SyncAction::Skip,
    }
}

/// Whether `name` ends with `suffix`.
fn bytes_end_with(name: &[u8], suffix: &[u8]) -> (r: bool)
    ensures
        r == ends_with(name@, suffix@),
{
    if suffix.len() > name.len() {
        return false;
    }
    bytes_occur_at(name, suffix, name.len() - suffix.len())
}

/// Whether two byte strings are the same.
fn bytes_eq(a: &[u8], b: &[u8]) -> (r: bool)
    ensures
        r == (a@ == b@),
{
    if a.len() != b.len() {
        return false;
    }
    let r = bytes_occur_at(a, b, 0);
    proof {
        assert(a@.subrange(0, a@.len() as int) =~= a@);
    }
    r
}

/// What to do with a reference that a remote offers, where the reference
/// `local_ref_name` was fetched.
pub fn sync_action(kind: RemoteRefKind, full_ref_name: &[u8], local_ref_name: &str) -> (action:
    SyncAction)
    ensures
        action == synced(kind, full_ref_name@, local_ref_name.spec_bytes()),
{
    match kind {
        RemoteRefKind::Symbolic => if bytes_end_with(full_ref_name, local_ref_name.as_bytes())
            || bytes_eq(full_ref_name, "HEAD".as_bytes()) {
            SyncAction::SyncSymbolic
        } else {
            SyncAction::Skip
        },
        RemoteRefKind::Direct | RemoteRefKind::Peeled => if bytes_end_with(
            full_ref_name,
            local_ref_name.as_bytes(),
        ) {
            SyncAction::SyncDirect
        } else {
            SyncAction::Skip
        },
        RemoteRefKind::Unborn => SyncAction::Skip,
    }
}

/// How many of the commits come before the first that is `base`: all of
/// them where none is.
pub open spec fn commits_before(walk: Seq<ObjectId>, base: ObjectId) -> nat
    decreases walk.len(),
{
    if walk.len() == 0 || walk[0] == base {
        0
    } else {
        1 + commits_before(walk.skip(1), base)
    }
}

/// How many commits a pull brought: none where the reference is where it
/// was, else the commits that the reference reaches now and did not reach
/// before.
pub open spec fn commits_between(
    walk: Seq<ObjectId>,
    base: Option<ObjectId>,
    head: ObjectId,
) -> nat {
    match base {
        Some(b) => if b == head {
            0
        } else {
            commits_before(walk, b)
        },
        None => walk.len(),
    }
}

/// Counts the commits between two revisions. `walk` holds the commits that
/// `head` reaches, newest first; `base` is where the reference was before,
/// if it was there.
pub fn count_commits_between(
    walk: &Vec<ObjectId>,
    base: Option<ObjectId>,
    head: ObjectId,
) -> (count: usize)
    ensures
        count == commits_between(walk@, base, head),
{
    let before = match base {
        Some(before) => before,
        None => {
            return walk.len();
        },
    };
    if before == head {
        return 0;
    }
    let mut i: usize = 0;
    assert(walk@.skip(0) =~= walk@);
    while i < walk.len() && !(walk[i] == before)
        invariant
            i <= walk@.len(),
            commits_before(walk@, before) == i + commits_before(walk@.skip(i as int), before),
        decreases walk@.len() - i,
    {
        assert(walk@.skip(i as int).skip(1) =~= walk@.skip(i + 1));
        i += 1;
    }
    assert(commits_before(walk@.skip(i as int), before) == 0) by {
        if i < walk@.len() {
            assert(walk@.skip(i as int)[0] == walk@[i as int]);
        }
    };
    i
}

/// How to authenticate with the remote of a repository.
#[derive(Clone, Copy, Debug, PartialEq, Eq, Structural)]
pub enum CredentialKind {
    /// With the user name and the password of the configuration.
    UserPassword,
    /// With what the credential helper of Git knows of the user name.
    CredentialHelper,
    /// With the SSH key of the configuration.
    SshKey,
    /// With what the SSH agent holds for the user name.
    SshAgent,
    /// With whatever the transport does without being told.
    Default,
}

/// The name to authenticate as: that of the configuration, else the one
/// that the URL gives, else `git`.
pub open spec fn username_of(config: RepositoryConfig, parsed_username: Option<&str>) -> Seq<char> {
    match config.remote_username {
        Some(name) => name@,
        None => match parsed_username {
            Some(name) => name@,
            None => "git"@,
        },
    }
}

/// How to authenticate with the remote of a repository.
///
/// An HTTPS URL takes the password of the configuration, or the credential
/// helper where there is none. An SSH URL, and any URL with an `@`, takes
/// the private key of the configuration, or the SSH agent where there is
/// none.
pub open spec fn credential_kind_of(config: RepositoryConfig) -> CredentialKind {
    if occurs_at(config.url@, "https://"@, 0) {
        if config.https_password is Some {
            CredentialKind::UserPassword
        } else {
            CredentialKind::CredentialHelper
        }
    } else if occurs_at(config.url@, "ssh://"@, 0) || first_occurrence(config.url@, seq!['@'], 0)
        < config.url@.len() {
        if config.ssh_private_key is Some {
            CredentialKind::SshKey
        } else {
            CredentialKind::SshAgent
        }
    } else {
        CredentialKind::Default
    }
}

/// How to authenticate with the remote of a repository, and as whom.
/// `parsed_username` is the user name that the URL gives, if it gives one.
pub fn clone_credentials(config: &RepositoryConfig, parsed_username: Option<&str>) -> (out: (
    CredentialKind,
    String,
))
    ensures
        out.0 == credential_kind_of(*config),
        out.1@ == username_of(*config, parsed_username),
{
    let username = match &config.remote_username {
        Some(name) => name.clone(),
        None => match parsed_username {
            Some(name) => name.to_owned(),
            None => "git".to_owned(),
        },
    };
    let url = chars_of(config.url.as_str());
    let mut at: Vec<char> = Vec::new();
    at.push('@');
    assert(at@ =~= seq!['@']);
    let kind = if chars_occur_at(&url, &chars_of("https://"), 0) {
        if config.https_password.is_some() {
            CredentialKind::UserPassword
        } else {
            CredentialKind::CredentialHelper
        }
    } else if chars_occur_at(&url, &chars_of("ssh://"), 0) || find_chars(&url, &at).is_some() {
        if config.ssh_private_key.is_some() {
            CredentialKind::SshKey
        } else {
            CredentialKind::SshAgent
        }
    } else {
        CredentialKind::Default
    };
    (kind, username)
}

} // verus!
