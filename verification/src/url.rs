//! Remote source locator: normalizes a remote URL and derives the
//! deterministic local clone path for a named remote.
use vstd::prelude::*;

use crate::text::{after_last_slash, concat3, spec_after_last_slash, strip_suffix_string};

verus! {

/// Mathematical content of a [`URL`].
#[verifier::ext_equal]
pub ghost struct URLView {
    pub name: Seq<char>,
    pub url_string: Seq<char>,
    pub path_string: Seq<char>,
    pub repo_name: Seq<char>,
}

/// This struct will make sure our URLs are of the
/// correct format and will also check correctness
/// of associated fields
#[derive(Debug, PartialEq, Eq)]
pub struct URL {
    /// the url name in case of remote
    pub name: String,
    /// the url string
    pub url_string: String,
    /// the local path associated with the url
    pub path_string: String,
    /// the repo name associated with the url
    pub repo_name: String,
}

impl View for URL {
    type V = URLView;

    open spec fn view(&self) -> URLView {
        URLView {
            name: self.name@,
            url_string: self.url_string@,
            path_string: self.path_string@,
            repo_name: self.repo_name@,
        }
    }
}

impl Clone for URL {
    fn clone(&self) -> (r: Self)
        ensures
            r@ == self@,
    {
        URL {
            name: self.name.clone(),
            url_string: self.url_string.clone(),
            path_string: self.path_string.clone(),
            repo_name: self.repo_name.clone(),
        }
    }
}

/// `s` without a final `.git`, when it carries one.
pub open spec fn spec_remove_dot_git(s: Seq<char>) -> Seq<char> {
    if s.len() >= ".git"@.len() && s.subrange(s.len() - ".git"@.len(), s.len() as int) == ".git"@ {
        s.subrange(0, s.len() - ".git"@.len())
    } else {
        s
    }
}

/// `s` without a final `/`, when it carries one.
pub open spec fn spec_remove_trailing_slash(s: Seq<char>) -> Seq<char> {
    if s.len() >= "/"@.len() && s.subrange(s.len() - "/"@.len(), s.len() as int) == "/"@ {
        s.subrange(0, s.len() - "/"@.len())
    } else {
        s
    }
}

/// The normal form of a remote URL: no trailing `/`, no `.git`.
pub open spec fn spec_normalize_url(s: Seq<char>) -> Seq<char> {
    spec_remove_dot_git(spec_remove_trailing_slash(s))
}

/// The repository name carried by a URL: the segment after the last `/`,
/// without a final `.git`.
pub open spec fn spec_repo_name_from_url(s: Seq<char>) -> Seq<char> {
    spec_remove_dot_git(spec_after_last_slash(s))
}

/// Handle git HTTP links
pub fn remove_dot_git_from_url(url: &str) -> (r: String)
    ensures
        r@ == spec_remove_dot_git(url@),
{
    proof {
        reveal_strlit(".git");
    }
    match strip_suffix_string(url, ".git") {
        Some(s) => s,
        None => url.to_owned(),
    }
}

/// Handle URLs with a trailing "/"
pub fn remove_trailing_slash_from_url(url: &str) -> (r: String)
    ensures
        r@ == spec_remove_trailing_slash(url@),
{
    proof {
        reveal_strlit("/");
    }
    match strip_suffix_string(url, "/") {
        Some(s) => s,
        None => url.to_owned(),
    }
}

/// Handle non-compliant URLs
pub fn handle_incorrect_url(url: &str) -> (r: String)
    ensures
        r@ == spec_normalize_url(url@),
{
    let trimmed = remove_trailing_slash_from_url(url);
    remove_dot_git_from_url(trimmed.as_str())
}

/// Get repo_name field from the URL
pub fn get_repo_name_from_url(url: &str) -> (r: String)
    ensures
        r@ == spec_repo_name_from_url(url@),
{
    let tail = after_last_slash(url);
    remove_dot_git_from_url(tail.as_str())
}

impl URL {
    /// Build a new URL and initialize its fields
    pub fn new(local_path: &str, url: &str, remote_name: &str) -> (r: Self)
        ensures
            r.name@ == remote_name@,
            r.url_string@ == spec_normalize_url(url@),
            r.path_string@ == local_path@ + "/repositories/"@ + remote_name@,
            r.repo_name@ == spec_repo_name_from_url(url@),
    {
        URL {
            name: remote_name.to_owned(),
            url_string: handle_incorrect_url(url),
            path_string: concat3(local_path, "/repositories/", remote_name),
            repo_name: get_repo_name_from_url(url),
        }
    }
}

} // verus!
