//! The commands the tool accepts, and which operation each one runs.

use vstd::prelude::*;

use crate::profile::BinError;

verus! {

/// A parsed command line.
pub struct Cli {
    /// The subcommand, if any.
    pub sub_command: Option<SubCommands>,
    /// Files or directories to send to the bin.
    pub input_files: Vec<String>,
}

/// The subcommands.
#[derive(Debug, Clone, Copy, PartialEq, Eq, Structural)]
pub enum SubCommands {
    /// Set the project up.
    Init {},
    /// Tear the project down; `force` allows it while the bin holds entries.
    Destroy { force: bool },
    /// Empty the bin; `yes` skips the confirmation.
    Clear { yes: bool },
    /// Restore the entries of the ledger.
    Undo {},
}

/// The operation a command line asks for.
pub enum Operation {
    /// Set the project up.
    Initialize,
    /// Tear the project down.
    Destroy { force: bool },
    /// Empty the bin.
    Clear { yes: bool },
    /// Restore the ledger's entries.
    Undo,
    /// Send `files` to the bin.
    Send { files: Vec<String> },
}

impl Cli {
    /// The operation this command line asks for: sending the given paths
    /// when there are any, else the subcommand's. Fails with `MissingInput`
    /// when there is neither.
    pub fn operation(self) -> (r: Result<Operation, BinError>)
        ensures
            self.input_files@.len() > 0 ==> (r matches Ok(Operation::Send { files }) && files@
                == self.input_files@),
            self.input_files@.len() == 0 ==> match self.sub_command {
                None => r matches Err(e) && e == BinError::MissingInput,
                Some(SubCommands::Init {  }) => r matches Ok(Operation::Initialize),
                Some(SubCommands::Destroy { force }) => r matches Ok(Operation::Destroy { force: f })
                    && f == force,
                Some(SubCommands::Clear { yes }) => r matches Ok(Operation::Clear { yes: y }) && y
                    == yes,
                Some(SubCommands::Undo {  }) => r matches Ok(Operation::Undo),
            },
    {
        if self.input_files.len() > 0 {
            return Ok(Operation::Send { files: self.input_files });
        }
        match self.sub_command {
            None => Err(BinError::MissingInput),
            Some(SubCommands::Init {  }) => Ok(Operation::Initialize),
            Some(SubCommands::Destroy { force }) => Ok(Operation::Destroy { force }),
            Some(SubCommands::Clear { yes }) => Ok(Operation::Clear { yes }),
            Some(SubCommands::Undo {  }) => Ok(Operation::Undo),
        }
    }
}

} // verus!
