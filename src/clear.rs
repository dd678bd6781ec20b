//! Clearing the bin: deciding whether to ask, reading the answer, and
//! bringing the profile in line with what is left in the bin.

use vstd::prelude::*;
use vstd::string::*;

use crate::paths::{join_path, joined, list_contains};
use crate::profile::{bin_dir_of, links_view, unique_bin_paths, RestoreLink, UserBinProfile};

verus! {

/// What a clear request leads to.
#[derive(Debug, Clone, Copy, PartialEq, Eq, Structural)]
pub enum ClearStep {
    /// The bin is empty: nothing to do and nothing to ask.
    AlreadyEmpty,
    /// Ask once whether to delete everything in the bin.
    Confirm,
    /// Delete everything in the bin.
    Proceed,
}

/// Whitespace skipped before an answer.
pub open spec fn is_blank(c: char) -> bool {
    c == ' ' || c == '\t' || c == '\n' || c == '\r'
}

/// The first character of `s` that is not whitespace.
pub open spec fn first_visible(s: Seq<char>) -> Option<char>
    decreases s.len(),
{
    if s.len() == 0 {
        None
    } else if is_blank(s[0]) {
        first_visible(s.drop_first())
    } else {
        Some(s[0])
    }
}

/// Whether `bin_path` is the path of one of the bin entries named `names`.
pub open spec fn present(bin_dir: Seq<char>, names: Seq<String>, bin_path: Seq<char>) -> bool {
    exists|k: int| 0 <= k < names.len() && joined(bin_dir, names[k]@) == bin_path
}

/// The ledger entries, in order, whose bin path is still present.
pub open spec fn still_present(
    ledger: Seq<(Seq<char>, Seq<char>)>,
    bin_dir: Seq<char>,
    names: Seq<String>,
) -> Seq<(Seq<char>, Seq<char>)>
    decreases ledger.len(),
{
    if ledger.len() == 0 {
        Seq::empty()
    } else {
        let prev = still_present(ledger.drop_last(), bin_dir, names);
        if present(bin_dir, names, ledger.last().1) {
            prev.push(ledger.last())
        } else {
            prev
        }
    }
}

/// Whether `answer` agrees to a prompt: its first character that is not
/// whitespace is `y`.
pub fn is_affirmative(answer: &str) -> (r: bool)
    ensures
        r == (first_visible(answer@) == Some('y')),
{
    let n = answer.unicode_len();
    let mut i: usize = 0;
    proof {
        assert(answer@.subrange(0, n as int) =~= answer@);
    }
    while i < n && is_blank_char(answer.get_char(i))
        invariant
            i <= n,
            n == answer@.len(),
            first_visible(answer@) == first_visible(answer@.subrange(i as int, n as int)),
        decreases n - i,
    {
        proof {
            assert(answer@.subrange(i as int, n as int).drop_first() =~= answer@.subrange(
                i + 1,
                n as int,
            ));
        }
        i = i + 1;
    }
    i < n && answer.get_char(i) == 'y'
}

/// Whether `c` is whitespace skipped before an answer.
fn is_blank_char(c: char) -> (r: bool)
    ensures
        r == is_blank(c),
{
    c == ' ' || c == '\t' || c == '\n' || c == '\r'
}

impl UserBinProfile {
    /// Decides what a clear request does: nothing when the bin is empty,
    /// otherwise delete at once when `yes` was given, else ask first.
    pub fn bin_clear(&self, yes: bool) -> (r: ClearStep)
        ensures
            self.is_empty ==> r == ClearStep::AlreadyEmpty,
            !self.is_empty && yes ==> r == ClearStep::Proceed,
            !self.is_empty && !yes ==> r == ClearStep::Confirm,
    {
        if self.is_empty {
            ClearStep::AlreadyEmpty
        } else if yes {
            ClearStep::Proceed
        } else {
            ClearStep::Confirm
        }
    }

    /// The paths of the bin entries named `names`.
    pub fn entry_paths(&self, names: &Vec<String>) -> (r: Vec<String>)
        ensures
            r@.len() == names@.len(),
            forall|i: int|
                0 <= i < names@.len() ==> #[trigger] r@[i]@ == joined(
                    bin_dir_of(self.proj_dir@),
                    names@[i]@,
                ),
    {
        let bin_dir = self.bin_dir();
        let mut r: Vec<String> = Vec::new();
        let mut i: usize = 0;
        while i < names.len()
            invariant
                i <= names@.len(),
                r@.len() == i,
                bin_dir@ == bin_dir_of(self.proj_dir@),
                forall|k: int|
                    0 <= k < i ==> #[trigger] r@[k]@ == joined(bin_dir_of(self.proj_dir@), names@[k]@),
            decreases names@.len() - i,
        {
            r.push(join_path(bin_dir.as_str(), names[i].as_str()));
            i = i + 1;
        }
        r
    }

    /// Brings the profile in line with a rescan of the bin, which found the
    /// entries named `names`: the ledger keeps, in order, the entries still
    /// there, and the bin is empty when the rescan found nothing.
    pub fn finish_clear(&mut self, names: &Vec<String>)
        requires
            old(self).consistent(),
        ensures
            final(self).ledger() == still_present(
                old(self).ledger(),
                bin_dir_of(old(self).proj_dir@),
                names@,
            ),
            final(self).is_empty == (names@.len() == 0),
            final(self).home == old(self).home,
            final(self).proj_dir == old(self).proj_dir,
            final(self).consistent(),
    {
        let paths = self.entry_paths(names);
        let ghost bin_dir = bin_dir_of(self.proj_dir@);
        let n = self.restore.len();
        let mut kept: Vec<RestoreLink> = Vec::new();
        let mut i: usize = 0;
        while i < n
            invariant
                n == self.restore@.len(),
                i <= n,
                paths@.len() == names@.len(),
                forall|k: int| 0 <= k < names@.len() ==> #[trigger] paths@[k]@ == joined(bin_dir, names@[k]@),
                unique_bin_paths(self.restore@),
                links_view(kept@) == still_present(
                    links_view(self.restore@.subrange(0, i as int)),
                    bin_dir,
                    names@,
                ),
                forall|k: int|
                    0 <= k < kept@.len() ==> exists|j: int|
                        0 <= j < i && #[trigger] kept@[k]@ == self.restore@[j]@,
                forall|k: int| 0 <= k < kept@.len() ==> present(bin_dir, names@, #[trigger] kept@[k].bin_path@),
                unique_bin_paths(kept@),
            decreases n - i,
        {
            let ghost pre = self.restore@.subrange(0, i as int);
            let ghost post = self.restore@.subrange(0, i + 1);
            proof {
                assert(links_view(post).drop_last() =~= links_view(pre));
            }
            let found = list_contains(&paths, &self.restore[i].bin_path);
            proof {
                if found {
                    let k = choose|k: int| 0 <= k < paths@.len() && paths@[k]@ == self.restore@[i as int].bin_path@;
                    assert(joined(bin_dir, names@[k]@) == self.restore@[i as int].bin_path@);
                }
                if present(bin_dir, names@, self.restore@[i as int].bin_path@) {
                    let k = choose|k: int| 0 <= k < names@.len() && joined(bin_dir, names@[k]@) == self.restore@[i as int].bin_path@;
                    assert(paths@[k]@ == self.restore@[i as int].bin_path@);
                }
                assert(found == present(bin_dir, names@, links_view(post).last().1));
            }
            if found {
                let link = self.restore[i].duplicate();
                proof {
                    assert forall|k: int| 0 <= k < kept@.len() implies kept@[k].bin_path@
                        != link.bin_path@ by {
                        let j = choose|j: int| 0 <= j < i && kept@[k]@ == self.restore@[j]@;
                    }
                }
                kept.push(link);
                proof {
                    assert(links_view(kept@) =~= links_view(kept@.drop_last()).push(link@));
                    assert forall|k: int| 0 <= k < kept@.len() implies exists|j: int|
                        0 <= j < i + 1 && #[trigger] kept@[k]@ == self.restore@[j]@ by {
                        if k < kept@.len() - 1 {
                            assert(kept@[k] == kept@.drop_last()[k]);
                        }
                    }
                }
            }
            i = i + 1;
        }
        proof {
            assert(self.restore@.subrange(0, n as int) =~= self.restore@);
            if kept@.len() > 0 {
                assert(present(bin_dir, names@, kept@[0].bin_path@));
            }
        }
        self.restore = kept;
        self.is_empty = names.len() == 0;
    }
}

} // verus!
