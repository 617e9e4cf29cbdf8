//! The Arch packaging tools: whether they are installed, and what their failures mean.
use vstd::prelude::*;

verus! {

/// What can go wrong with the Arch packaging tools.
#[derive(Debug)]
pub enum Error {
    /// `makepkg` could not be started in `dir`.
    RunMakepkg { dir: String, message: String },
    /// `makepkg --printsrcinfo` exited unsuccessfully in `dir`.
    MakepkgFailed { dir: String, status: String },
    /// `.SRCINFO` could not be written to `path`.
    WriteSrcinfo { path: String, message: String },
    /// Whether `command` is installed could not be checked.
    CheckCommand { command: String, message: String },
    /// `command` is not installed.
    MissingCommand { command: String },
    /// `command` could not be started in `dir`.
    RunCommand { command: String, dir: String, message: String },
    /// `command` exited unsuccessfully in `dir`.
    CommandFailed { command: String, dir: String, status: String },
}

/// What looking a command up in `PATH` (with `command -v`) found.
#[derive(Debug)]
pub enum CommandProbe {
    /// The command is installed.
    Found,
    /// The lookup ran and did not find the command.
    NotFound,
    /// The lookup itself could not be run.
    Unavailable { message: String },
}

/// `r` is what the lookup of `command` means for the update: it may go on only when the
/// command was found; otherwise the error names the command (and carries the reason the
/// lookup could not run).
pub open spec fn command_check(command: Seq<char>, probe: CommandProbe, r: Result<(), Error>) -> bool {
    match probe {
        CommandProbe::Found => r is Ok,
        CommandProbe::NotFound => r matches Err(Error::MissingCommand { command: c }) && c@ == command,
        CommandProbe::Unavailable { message } => r matches Err(
            Error::CheckCommand { command: c, message: m },
        ) && c@ == command && m == message,
    }
}

/// What the lookup of `command` means for the update.
pub fn require_command(command: &str, probe: CommandProbe) -> (r: Result<(), Error>)
    ensures
        command_check(command@, probe, r),
{
    let name = String::from_str(command);
    match probe {
        CommandProbe::Found => Ok(()),
        CommandProbe::NotFound => Err(Error::MissingCommand { command: name }),
        CommandProbe::Unavailable { message } => Err(Error::CheckCommand { command: name, message }),
    }
}

/// Whether both required tools are installed, given what looking up `updpkgsums` and
/// `makepkg` found; the first one missing decides the error.
pub fn verify_tools(updpkgsums: CommandProbe, makepkg: CommandProbe) -> (r: Result<(), Error>)
    ensures
        if updpkgsums is Found {
            command_check("makepkg"@, makepkg, r)
        } else {
            command_check("updpkgsums"@, updpkgsums, r)
        },
{
    require_command("updpkgsums", updpkgsums)?;
    require_command("makepkg", makepkg)
}

} // verus!
