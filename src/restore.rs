//! Undo: taking the ledger's entries back to where they came from.

use vstd::prelude::*;

use crate::profile::{links_view, unique_bin_paths, BinError, RestoreLink, UserBinProfile};
use crate::transfer::{dest_for, moved_links};

verus! {

/// The ledger entries, in order, whose restore did not succeed.
pub open spec fn unrestored(ledger: Seq<(Seq<char>, Seq<char>)>, restored: Seq<bool>) -> Seq<
    (Seq<char>, Seq<char>),
>
    decreases ledger.len(),
{
    if ledger.len() == 0 {
        Seq::empty()
    } else {
        let i = ledger.len() - 1;
        let prev = unrestored(ledger.drop_last(), restored);
        if restored[i] {
            prev
        } else {
            prev.push(ledger[i])
        }
    }
}

impl RestoreLink {
    /// Whether this entry can go back: its original place must have a parent
    /// directory and must be free.
    pub fn restore_check(&self, parent_exists: bool, target_occupied: bool) -> (r: Result<
        (),
        BinError,
    >)
        ensures
            r is Ok <==> parent_exists && !target_occupied,
            r matches Err(e) ==> e matches BinError::RestoreConflict { path } && path@
                == self.init_path@,
    {
        if parent_exists && !target_occupied {
            Ok(())
        } else {
            Err(BinError::RestoreConflict { path: self.init_path.clone() })
        }
    }
}

impl UserBinProfile {
    /// Records the outcome of an undo pass: `restored[i]` tells whether the
    /// `i`-th ledger entry went back. The entries that did not stay in the
    /// ledger, in order; the bin is empty when the rescan `bin_entries` found
    /// nothing there and no entry is pending. Returns how many went back.
    pub fn finish_undo(&mut self, restored: &Vec<bool>, bin_entries: &Vec<String>) -> (r: usize)
        requires
            old(self).consistent(),
            restored@.len() == old(self).restore@.len(),
        ensures
            final(self).ledger() == unrestored(old(self).ledger(), restored@),
            final(self).is_empty == (bin_entries@.len() == 0 && final(self).restore@.len() == 0),
            final(self).home == old(self).home,
            final(self).proj_dir == old(self).proj_dir,
            r == old(self).restore@.len() - final(self).restore@.len(),
            final(self).consistent(),
    {
        let n = self.restore.len();
        let mut kept: Vec<RestoreLink> = Vec::new();
        let mut i: usize = 0;
        while i < n
            invariant
                n == self.restore@.len(),
                restored@.len() == n,
                i <= n,
                unique_bin_paths(self.restore@),
                links_view(kept@) == unrestored(links_view(self.restore@.subrange(0, i as int)), restored@),
                kept@.len() <= i,
                forall|k: int|
                    0 <= k < kept@.len() ==> exists|j: int|
                        0 <= j < i && #[trigger] kept@[k]@ == self.restore@[j]@,
                unique_bin_paths(kept@),
            decreases n - i,
        {
            let ghost pre = self.restore@.subrange(0, i as int);
            let ghost post = self.restore@.subrange(0, i + 1);
            proof {
                assert(links_view(post).drop_last() =~= links_view(pre));
            }
            if !restored[i] {
                let link = self.restore[i].duplicate();
                proof {
                    assert forall|k: int| 0 <= k < kept@.len() implies kept@[k].bin_path@
                        != link.bin_path@ by {
                        let j = choose|j: int| 0 <= j < i && kept@[k]@ == self.restore@[j]@;
                    }
                }
                kept.push(link);
                proof {
                    assert(links_view(kept@) =~= links_view(kept@.drop_last()).push(link@));
                    assert forall|k: int| 0 <= k < kept@.len() implies exists|j: int|
                        0 <= j < i + 1 && #[trigger] kept@[k]@ == self.restore@[j]@ by {
                        if k < kept@.len() - 1 {
                            assert(kept@[k] == kept@.drop_last()[k]);
                        }
                    }
                }
            }
            i = i + 1;
        }
        proof {
            assert(self.restore@.subrange(0, n as int) =~= self.restore@);
        }
        let count = n - kept.len();
        self.restore = kept;
        self.is_empty = bin_entries.len() == 0 && self.restore.len() == 0;
        count
    }
}

/// With every entry restored, `unrestored` keeps nothing.
proof fn lemma_all_restored(ledger: Seq<(Seq<char>, Seq<char>)>, restored: Seq<bool>)
    requires
        restored.len() == ledger.len(),
        forall|i: int| 0 <= i < restored.len() ==> restored[i],
    ensures
        unrestored(ledger, restored).len() == 0,
    decreases ledger.len(),
{
    if ledger.len() > 0 {
        lemma_all_restored(ledger.drop_last(), restored.drop_last());
        lemma_unrestored_prefix(ledger.drop_last(), restored, restored.drop_last());
    }
}

/// `unrestored` reads only the flags of the entries it is given.
proof fn lemma_unrestored_prefix(
    ledger: Seq<(Seq<char>, Seq<char>)>,
    a: Seq<bool>,
    b: Seq<bool>,
)
    requires
        forall|i: int| 0 <= i < ledger.len() ==> a[i] == b[i],
    ensures
        unrestored(ledger, a) == unrestored(ledger, b),
    decreases ledger.len(),
{
    if ledger.len() > 0 {
        lemma_unrestored_prefix(ledger.drop_last(), a, b);
    }
}

/// Each moved entry of a plan is among the moved links.
proof fn lemma_moved_included(plan: Seq<Result<RestoreLink, BinError>>, flags: Seq<bool>)
    ensures
        forall|i: int|
            0 <= i < plan.len() && flags[i] && #[trigger] plan[i] is Ok ==> exists|k: int|
                0 <= k < moved_links(plan, flags).len() && moved_links(plan, flags)[k]
                    == plan[i]->Ok_0,
    decreases plan.len(),
{
    if plan.len() > 0 {
        let prev = plan.drop_last();
        lemma_moved_included(prev, flags);
        let m = moved_links(plan, flags);
        let pm = moved_links(prev, flags);
        assert forall|i: int| 0 <= i < plan.len() && flags[i] && #[trigger] plan[i] is Ok implies exists|
            k: int,
        | 0 <= k < m.len() && m[k] == plan[i]->Ok_0 by {
            if i < plan.len() - 1 {
                assert(prev[i] == plan[i]);
                let k = choose|k: int| 0 <= k < pm.len() && pm[k] == prev[i]->Ok_0;
                assert(m[k] == pm[k]);
            } else {
                assert(m[pm.len() as int] == plan[i]->Ok_0);
            }
        }
    }
}

/// Undo right after a send, with every entry going back: each moved entry
/// is taken from its place in the bin back to its source, and the ledger
/// ends empty; the bin is empty when the rescan finds nothing in it.
pub proof fn lemma_undo_after_send(
    before: UserBinProfile,
    sent: UserBinProfile,
    undone: UserBinProfile,
    sources: Seq<String>,
    entries: Seq<String>,
    plan: Seq<Result<RestoreLink, BinError>>,
    flags: Seq<bool>,
    restored: Seq<bool>,
    rescan: Seq<String>,
)
    requires
        before.is_send_plan(sources, entries, plan),
        flags.len() == plan.len(),
        sent.restore@ == before.restore@ + moved_links(plan, flags),
        restored.len() == sent.restore@.len(),
        forall|i: int| 0 <= i < restored.len() ==> restored[i],
        undone.ledger() == unrestored(sent.ledger(), restored),
        undone.is_empty == (rescan.len() == 0 && undone.restore@.len() == 0),
    ensures
        forall|i: int|
            0 <= i < sources.len() && flags[i] && #[trigger] plan[i] is Ok ==> exists|k: int|
                0 <= k < sent.restore@.len() && sent.ledger()[k] == (
                    sources[i]@,
                    dest_for(before.proj_dir@, sources[i]@),
                ),
        undone.restore@.len() == 0,
        rescan.len() == 0 ==> undone.is_empty,
{
    lemma_all_restored(sent.ledger(), restored);
    assert(undone.ledger().len() == undone.restore@.len());
    lemma_moved_included(plan, flags);
    let m = moved_links(plan, flags);
    let b = before.restore@.len();
    assert forall|i: int| 0 <= i < sources.len() && flags[i] && #[trigger] plan[i] is Ok implies exists|
        k: int,
    | 0 <= k < sent.restore@.len() && sent.ledger()[k] == (
        sources[i]@,
        dest_for(before.proj_dir@, sources[i]@),
    ) by {
        let k = choose|k: int| 0 <= k < m.len() && m[k] == plan[i]->Ok_0;
        assert(sent.restore@[b + k] == m[k]);
        assert(sent.ledger()[b + k] == sent.restore@[b + k]@);
    }
}

} // verus!
