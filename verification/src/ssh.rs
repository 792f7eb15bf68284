//! Where the quota report is fetched from, and what a fetch may decide
//! without touching the network.

use vstd::prelude::*;
use vstd::string::StringExecFns;

verus! {

/// Why a fetch gave no report.
#[derive(Debug, Clone, Copy, PartialEq, Eq, Structural)]
pub enum FetchError {
    /// The host could not be reached.
    Connect,
    /// The session could not be set up or the handshake failed.
    Handshake,
    /// The key was refused, or the session is not authenticated after it.
    Authentication,
    /// The channel could not be opened.
    Channel,
    /// The command could not be started.
    Execute,
    /// The command's output could not be read, or it did not close.
    Read,
    /// The command ended with this status, which is not zero.
    ExitStatus(i32),
}

/// Anything that can fetch the text of a quota report.
pub trait RsyncFetcher: Send + Sync {
    fn fetch_quota(&self) -> Result<String, FetchError>;
}

/// The account, host and key with which the report is fetched over SSH.
pub struct SshFetcher {
    username: String,
    host: String,
    ssh_key_path: String,
}

/// A fetcher's settings as plain values.
pub struct SshFetcherView {
    pub username: Seq<char>,
    pub host: Seq<char>,
    pub ssh_key_path: Seq<char>,
}

impl View for SshFetcher {
    type V = SshFetcherView;

    closed spec fn view(&self) -> SshFetcherView {
        SshFetcherView {
            username: self.username@,
            host: self.host@,
            ssh_key_path: self.ssh_key_path@,
        }
    }
}

impl SshFetcher {
    pub fn new(username: String, host: String, ssh_key_path: String) -> (r: Self)
        ensures
            r@ == (SshFetcherView {
                username: username@,
                host: host@,
                ssh_key_path: ssh_key_path@,
            }),
    {
        Self { username, host, ssh_key_path }
    }

    /// The account to log in as.
    pub fn username(&self) -> (r: &str)
        ensures
            r@ == self@.username,
    {
        self.username.as_str()
    }

    /// The host to connect to.
    pub fn host(&self) -> (r: &str)
        ensures
            r@ == self@.host,
    {
        self.host.as_str()
    }

    /// The file that holds the private key.
    pub fn ssh_key_path(&self) -> (r: &str)
        ensures
            r@ == self@.ssh_key_path,
    {
        self.ssh_key_path.as_str()
    }

    /// The address to connect to: the host, at the SSH port.
    pub fn address(&self) -> (r: String)
        ensures
            r@ == self@.host + ":22"@,
    {
        let mut out = String::from_str(self.host.as_str());
        out.append(":22");
        out
    }
}

/// What a fetch returns once the key was offered: it goes on only in a
/// session that is authenticated.
pub fn check_authenticated(authenticated: bool) -> (r: Result<(), FetchError>)
    ensures
        authenticated ==> r == Ok::<(), FetchError>(()),
        !authenticated ==> r == Err::<(), FetchError>(FetchError::Authentication),
{
    if authenticated {
        Ok(())
    } else {
        Err(FetchError::Authentication)
    }
}

/// What a fetch returns once the command has ended: its output where the exit
/// status is zero, the status as a failure where it is not.
pub fn check_exit_status(output: String, exit_status: i32) -> (r: Result<String, FetchError>)
    ensures
        exit_status == 0 ==> r == Ok::<String, FetchError>(output),
        exit_status != 0 ==> r == Err::<String, FetchError>(FetchError::ExitStatus(exit_status)),
{
    if exit_status == 0 {
        Ok(output)
    } else {
        Err(FetchError::ExitStatus(exit_status))
    }
}

} // verus!
