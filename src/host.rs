//! Decisions around the host: exit statuses, the target of `cd`, and the
//! prompt line.

use vstd::prelude::*;
use crate::command::home_word;

verus! {

/// Errors that the interpreter reports for a line.
#[derive(Debug, PartialEq, Eq)]
pub enum ShellError {
    /// `cd ~` while the host reports no home directory.
    HomeNotFound,
    /// A process could not be started.
    LaunchFailed { stage: usize, program: String, detail: String },
    /// A command ran and ended with a failing status; `None` when it was
    /// ended by a signal.
    CommandFailed { code: Option<i32> },
}

/// Turns the exit status of a finished command into the line's outcome.
pub fn check_exit(success: bool, code: Option<i32>) -> (r: Result<(), ShellError>)
    ensures
        success ==> r is Ok,
        !success ==> (r matches Err(ShellError::CommandFailed { code: c }) && c == code),
{
    if success {
        Ok(())
    } else {
        Err(ShellError::CommandFailed { code })
    }
}

/// Relies on dirs::home_dir: the user's home directory, if the host reports
/// one, read as text (characters that are not UTF-8 are replaced).
#[verifier::external_body]
fn home_dir() -> (r: Option<String>) {
    match dirs::home_dir() {
        Some(p) => Some(p.to_string_lossy().into_owned()),
        None => None,
    }
}

/// The directory that `cd path` goes to, given the home directory that the
/// host reported.
pub fn resolve_dir_with(path: &str, home: Option<String>) -> (r: Result<String, ShellError>)
    ensures
        path@ == home_word() ==> match home {
            Some(h) => r matches Ok(d) && d@ == h@,
            None => r matches Err(ShellError::HomeNotFound),
        },
        path@ != home_word() ==> (r matches Ok(d) && d@ == path@),
{
    proof {
        reveal_strlit("~");
    }
    let tilde = String::from_str("~");
    assert(tilde@ =~= home_word());
    let p = String::from_str(path);
    if p == tilde {
        match home {
            Some(h) => Ok(h),
            None => Err(ShellError::HomeNotFound),
        }
    } else {
        Ok(p)
    }
}

/// The directory that `cd path` goes to: `~` is the home directory that the
/// host reports, any other token is taken as a path.
pub fn resolve_dir(path: &str) -> (r: Result<String, ShellError>)
    ensures
        path@ != home_word() ==> (r matches Ok(d) && d@ == path@),
        path@ == home_word() ==> (r is Ok || r matches Err(ShellError::HomeNotFound)),
{
    proof {
        reveal_strlit("~");
    }
    let tilde = String::from_str("~");
    assert(tilde@ =~= home_word());
    let p = String::from_str(path);
    if p == tilde {
        resolve_dir_with(path, home_dir())
    } else {
        resolve_dir_with(path, None)
    }
}

/// The host name shown when the host does not report one.
pub open spec fn unknown_host() -> Seq<char> {
    seq!['u', 'n', 'k', 'n', 'o', 'w', 'n']
}

/// The prompt `<user>@<host>:<cwd> $ `.
pub open spec fn prompt_text(user: Seq<char>, host: Option<Seq<char>>, cwd: Seq<char>) -> Seq<char> {
    let h = match host {
        Some(h) => h,
        None => unknown_host(),
    };
    user + seq!['@'] + h + seq![':'] + cwd + seq![' ', '$', ' ']
}

/// The characters of an optional string.
pub open spec fn view_opt(o: Option<String>) -> Option<Seq<char>> {
    match o {
        Some(s) => Some(s@),
        None => None,
    }
}

/// Formats the prompt from the user name, the host name if known, and the
/// working directory.
pub fn render_prompt(user: &str, host: Option<String>, cwd: &str) -> (r: String)
    ensures
        r@ == prompt_text(user@, view_opt(host), cwd@),
{
    proof {
        reveal_strlit("@");
        reveal_strlit(":");
        reveal_strlit(" $ ");
        reveal_strlit("unknown");
    }
    let h = match host {
        Some(h) => h,
        None => String::from_str("unknown"),
    };
    let mut r = String::from_str(user);
    r.append("@");
    r.append(h.as_str());
    r.append(":");
    r.append(cwd);
    r.append(" $ ");
    assert(r@ =~= prompt_text(user@, view_opt(host), cwd@));
    r
}

/// Relies on whoami::username: the name of the user running the interpreter.
#[verifier::external_body]
fn user_name() -> (r: String) {
    whoami::username()
}

/// Relies on whoami::fallible::hostname: the host's name, or `None` where the
/// host fails to report one.
#[verifier::external_body]
fn host_name() -> (r: Option<String>) {
    whoami::fallible::hostname().ok()
}

/// The prompt for the working directory `cwd`, with the user and host names
/// that the host reports.
pub fn prompt(cwd: &str) -> (r: String)
    ensures
        exists|u: Seq<char>, h: Option<Seq<char>>| r@ == prompt_text(u, h, cwd@),
{
    let user = user_name();
    let host = host_name();
    let ghost h = view_opt(host);
    let r = render_prompt(user.as_str(), host, cwd);
    assert(r@ == prompt_text(user@, h, cwd@));
    r
}

} // verus!
