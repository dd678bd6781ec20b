//! Setting a project up and tearing it down.

use vstd::prelude::*;

use crate::profile::{BinError, UserBinProfile};
use crate::registry::{find_registration, registered, registration_line, registration_line_of, lemma_registration_found};

verus! {

impl UserBinProfile {
    /// Decides whether this project may be set up, given the lines of the
    /// startup file. Fails with `AlreadyInitialized` when a project is
    /// registered there; otherwise returns the line that registers this one.
    pub fn initialize_project(&self, startup_lines: &Vec<String>) -> (r: Result<String, BinError>)
        ensures
            registered(startup_lines@) matches Some(p) ==> r matches Err(e) && e matches BinError::AlreadyInitialized { path } && path@ == p,
            registered(startup_lines@) is None ==> (r matches Ok(line) && line@
                == registration_line_of(self.proj_dir@)),
    {
        match find_registration(startup_lines) {
            Some(path) => Err(BinError::AlreadyInitialized { path }),
            None => Ok(registration_line(self.proj_dir.as_str())),
        }
    }

    /// Decides whether this project may be torn down. Fails with
    /// `BinNotEmpty`, naming the pending count, when the bin is not empty
    /// and `force` is not given; otherwise returns the directory to remove.
    pub fn destroy_project(&self, force: bool) -> (r: Result<String, BinError>)
        ensures
            force || self.is_empty ==> (r matches Ok(dir) && dir@ == self.proj_dir@),
            !force && !self.is_empty ==> (r matches Err(e) && e == (BinError::BinNotEmpty {
                pending: self.restore@.len() as usize,
            })),
    {
        if !force && !self.is_empty {
            Err(BinError::BinNotEmpty { pending: self.restore.len() })
        } else {
            Ok(self.proj_dir.clone())
        }
    }
}

/// Once a project was set up, by appending its registration line to the
/// startup file, setting up again from that file fails, with the path of
/// the first project when it holds no double quote.
pub proof fn lemma_initialize_twice_refused(
    first: UserBinProfile,
    lines: Seq<String>,
    line: String,
)
    requires
        registered(lines) is None,
        line@ == registration_line_of(first.proj_dir@),
    ensures
        registered(lines.push(line)) is Some,
        (forall|i: int| 0 <= i < first.proj_dir@.len() ==> first.proj_dir@[i] != '"') ==> registered(
            lines.push(line),
        ) == Some(first.proj_dir@),
{
    lemma_registration_found(lines, line, first.proj_dir@);
}

} // verus!
