//! The bin profile: where the project lives, whether the bin holds anything,
//! and the ledger of pending restores.

use vstd::prelude::*;
use vstd::string::*;

use crate::paths::{join_path, joined};

verus! {

/// Links a file or directory now in the bin to the path it was taken from.
#[derive(Debug, PartialEq, Eq)]
pub struct RestoreLink {
    pub init_path: String,
    pub bin_path: String,
}

/// The persisted state of one bin project.
#[derive(Debug)]
pub struct UserBinProfile {
    /// Home directory the project was set up from.
    pub home: String,
    /// Root of the project: holds the bin directory and the config file.
    pub proj_dir: String,
    /// True when neither the bin nor the ledger holds anything.
    pub is_empty: bool,
    /// Pending restores, oldest first.
    pub restore: Vec<RestoreLink>,
}

/// What can go wrong in a bin operation.
#[derive(Debug, PartialEq, Eq)]
pub enum BinError {
    /// No project is registered, or its config file cannot be found.
    NotInitialized,
    /// A project is already registered at `path`.
    AlreadyInitialized { path: String },
    /// `path` does not name an existing entry with a usable name.
    PathResolution { path: String },
    /// Something already occupies `path` in the bin.
    DestinationConflict { path: String },
    /// Moving `path` into the bin failed.
    Transfer { path: String },
    /// `path` cannot take its entry back: it is occupied or its parent is gone.
    RestoreConflict { path: String },
    /// The bin still holds `pending` restorable entries.
    BinNotEmpty { pending: usize },
    /// A filesystem step failed.
    Io { context: String },
    /// The config file exists but does not describe a valid profile.
    CorruptState { context: String },
    /// Neither paths nor a subcommand were given.
    MissingInput,
}

impl View for RestoreLink {
    type V = (Seq<char>, Seq<char>);

    open spec fn view(&self) -> (Seq<char>, Seq<char>) {
        (self.init_path@, self.bin_path@)
    }
}

impl RestoreLink {
    /// A copy of this link.
    pub fn duplicate(&self) -> (r: RestoreLink)
        ensures
            r@ == self@,
    {
        RestoreLink { init_path: self.init_path.clone(), bin_path: self.bin_path.clone() }
    }
}

/// The views of a sequence of links, in order.
pub open spec fn links_view(links: Seq<RestoreLink>) -> Seq<(Seq<char>, Seq<char>)> {
    links.map_values(|l: RestoreLink| l@)
}

/// No two links of `links` share a bin path.
pub open spec fn unique_bin_paths(links: Seq<RestoreLink>) -> bool {
    forall|i: int, j: int|
        0 <= i < links.len() && 0 <= j < links.len() && i != j ==> links[i].bin_path@
            != links[j].bin_path@
}

/// The directory under the project root that holds the bin's entries.
pub open spec fn bin_dir_of(proj_dir: Seq<char>) -> Seq<char> {
    joined(proj_dir, "bin"@)
}

/// The path of the config file under the project root.
pub open spec fn config_path_of(proj_dir: Seq<char>) -> Seq<char> {
    joined(proj_dir, "config.json"@)
}

impl UserBinProfile {
    /// The ledger as pairs of original path and bin path.
    pub open spec fn ledger(&self) -> Seq<(Seq<char>, Seq<char>)> {
        links_view(self.restore@)
    }

    /// The profile's invariant: ledger entries have distinct bin paths, and a
    /// pending entry means the bin is not empty.
    pub open spec fn consistent(&self) -> bool {
        &&& unique_bin_paths(self.restore@)
        &&& self.restore@.len() > 0 ==> !self.is_empty
    }

    /// Whether some ledger entry sits at bin path `p`.
    pub open spec fn in_ledger(&self, p: Seq<char>) -> bool {
        exists|k: int| 0 <= k < self.restore@.len() && self.restore@[k].bin_path@ == p
    }

    /// A fresh profile for the home directory `home`: the project lives in
    /// `sendToBin` under it, with an empty bin and ledger.
    pub fn constructor(home: String) -> (r: UserBinProfile)
        ensures
            r.home@ == home@,
            r.proj_dir@ == joined(home@, "sendToBin"@),
            r.is_empty,
            r.restore@.len() == 0,
            r.consistent(),
    {
        let proj_dir = join_path(home.as_str(), "sendToBin");
        UserBinProfile { home, proj_dir, is_empty: true, restore: Vec::new() }
    }

    /// The bin directory of this project.
    pub fn bin_dir(&self) -> (r: String)
        ensures
            r@ == bin_dir_of(self.proj_dir@),
    {
        join_path(self.proj_dir.as_str(), "bin")
    }

    /// The config file of this project.
    pub fn config_path(&self) -> (r: String)
        ensures
            r@ == config_path_of(self.proj_dir@),
    {
        join_path(self.proj_dir.as_str(), "config.json")
    }

    /// Whether this profile, as loaded from disk, meets the invariant.
    pub fn is_consistent(&self) -> (r: bool)
        ensures
            r == self.consistent(),
    {
        let n = self.restore.len();
        if n > 0 && self.is_empty {
            return false;
        }
        let mut i: usize = 0;
        while i < n
            invariant
                n == self.restore@.len(),
                i <= n,
                forall|a: int, b: int|
                    0 <= a < i && 0 <= b < n && a != b ==> self.restore@[a].bin_path@
                        != self.restore@[b].bin_path@,
            decreases n - i,
        {
            let mut j: usize = 0;
            while j < n
                invariant
                    n == self.restore@.len(),
                    i < n,
                    j <= n,
                    forall|a: int, b: int|
                        0 <= a < i && 0 <= b < n && a != b ==> self.restore@[a].bin_path@
                            != self.restore@[b].bin_path@,
                    forall|b: int|
                        0 <= b < j && b != i ==> self.restore@[i as int].bin_path@
                            != self.restore@[b].bin_path@,
                decreases n - j,
            {
                if j != i && self.restore[i].bin_path == self.restore[j].bin_path {
                    return false;
                }
                j = j + 1;
            }
            i = i + 1;
        }
        true
    }

    /// This profile, as loaded from disk, when it meets the invariant; else
    /// `CorruptState`.
    pub fn validated(self) -> (r: Result<UserBinProfile, BinError>)
        ensures
            self.consistent() ==> r == Ok::<UserBinProfile, BinError>(self),
            !self.consistent() ==> (r matches Err(e) && e is CorruptState),
    {
        if self.is_consistent() {
            Ok(self)
        } else {
            Err(BinError::CorruptState { context: String::from_str("inconsistent ledger") })
        }
    }

    /// Whether a ledger entry sits at bin path `p`.
    pub fn ledger_holds(&self, p: &String) -> (r: bool)
        ensures
            r == self.in_ledger(p@),
    {
        let mut k: usize = 0;
        while k < self.restore.len()
            invariant
                k <= self.restore@.len(),
                forall|m: int| 0 <= m < k ==> self.restore@[m].bin_path@ != p@,
            decreases self.restore@.len() - k,
        {
            if self.restore[k].bin_path == *p {
                return true;
            }
            k = k + 1;
        }
        false
    }
}

} // verus!
