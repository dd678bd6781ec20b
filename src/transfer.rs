//! Sending entries to the bin: choosing each entry's place in the bin, and
//! recording the entries that were moved there.

use vstd::prelude::*;
use vstd::string::*;

use crate::paths::{basename, join_path, joined, last_component, lemma_joined_injective, list_contains};
use crate::profile::{bin_dir_of, unique_bin_paths, BinError, RestoreLink, UserBinProfile};

verus! {

/// Where the entry at `source` goes in the bin of the project at `proj_dir`.
pub open spec fn dest_for(proj_dir: Seq<char>, source: Seq<char>) -> Seq<char> {
    joined(bin_dir_of(proj_dir), last_component(source))
}

/// The links of the planned entries that were moved, in plan order.
pub open spec fn moved_links(plan: Seq<Result<RestoreLink, BinError>>, moved: Seq<bool>) -> Seq<
    RestoreLink,
>
    decreases plan.len(),
{
    if plan.len() == 0 {
        Seq::empty()
    } else {
        let i = plan.len() - 1;
        let prev = moved_links(plan.drop_last(), moved);
        if moved[i] && plan[i] is Ok {
            prev.push(plan[i]->Ok_0)
        } else {
            prev
        }
    }
}

/// How many planned entries were moved.
pub open spec fn moved_count(plan: Seq<Result<RestoreLink, BinError>>, moved: Seq<bool>) -> nat
    decreases plan.len(),
{
    if plan.len() == 0 {
        0
    } else {
        let i = plan.len() - 1;
        moved_count(plan.drop_last(), moved) + if moved[i] && plan[i] is Ok {
            1nat
        } else {
            0nat
        }
    }
}

/// The resolved form of each requested path, when every one resolved;
/// else `PathResolution` naming the first requested path that did not, so
/// that nothing of the batch is moved.
pub fn resolved_sources(files: &Vec<String>, resolved: &Vec<Option<String>>) -> (r: Result<
    Vec<String>,
    BinError,
>)
    requires
        files@.len() == resolved@.len(),
    ensures
        (forall|i: int| 0 <= i < resolved@.len() ==> resolved@[i] is Some) ==> (r matches Ok(v)
            && v@.len() == files@.len() && forall|i: int|
            0 <= i < v@.len() ==> resolved@[i] == Some(#[trigger] v@[i])),
        !(forall|i: int| 0 <= i < resolved@.len() ==> resolved@[i] is Some) ==> (r matches Err(e)
            && exists|i: int|
            0 <= i < files@.len() && resolved@[i] is None && (forall|j: int|
                0 <= j < i ==> resolved@[j] is Some) && (e matches BinError::PathResolution { path } && path@
                == files@[i]@)),
{
    let mut out: Vec<String> = Vec::new();
    let n = files.len();
    let mut i: usize = 0;
    while i < n
        invariant
            n == files@.len(),
            n == resolved@.len(),
            i <= n,
            out@.len() == i,
            forall|k: int| 0 <= k < i ==> resolved@[k] == Some(#[trigger] out@[k]),
        decreases n - i,
    {
        match &resolved[i] {
            Some(p) => out.push(p.clone()),
            None => {
                proof {
                    assert forall|j: int| 0 <= j < i implies resolved@[j] is Some by {
                        assert(resolved@[j] == Some(out@[j]));
                    }
                }
                return Err(BinError::PathResolution { path: files[i].clone() });
            },
        }
        i = i + 1;
    }
    proof {
        assert forall|k: int| 0 <= k < n implies resolved@[k] is Some by {
            assert(resolved@[k] == Some(out@[k]));
        }
    }
    Ok(out)
}

impl UserBinProfile {
    /// Whether the `i`-th source may go to the bin: it has a name, nothing in
    /// the bin or the ledger holds that name, and no earlier source of the
    /// batch has it.
    pub open spec fn accepts(&self, sources: Seq<String>, entries: Seq<String>, i: int) -> bool {
        let name = last_component(sources[i]@);
        &&& name.len() > 0
        &&& forall|k: int| 0 <= k < entries.len() ==> entries[k]@ != name
        &&& !self.in_ledger(dest_for(self.proj_dir@, sources[i]@))
        &&& forall|j: int| 0 <= j < i ==> last_component(sources[j]@) != name
    }

    /// `plan` is what sending `sources` to this bin, while it holds the
    /// entries named `entries`, gives: a link for each accepted source, and
    /// for each other one the error that refuses it.
    pub open spec fn is_send_plan(
        &self,
        sources: Seq<String>,
        entries: Seq<String>,
        plan: Seq<Result<RestoreLink, BinError>>,
    ) -> bool {
        &&& plan.len() == sources.len()
        &&& forall|i: int|
            0 <= i < plan.len() ==> match #[trigger] plan[i] {
                Ok(l) => {
                    &&& self.accepts(sources, entries, i)
                    &&& l@ == (sources[i]@, dest_for(self.proj_dir@, sources[i]@))
                },
                Err(e) => {
                    &&& !self.accepts(sources, entries, i)
                    &&& last_component(sources[i]@).len() == 0 ==> (e matches BinError::PathResolution {
                        path,
                    } && path@ == sources[i]@)
                    &&& last_component(sources[i]@).len() > 0 ==> (e matches BinError::DestinationConflict {
                        path,
                    } && path@ == dest_for(self.proj_dir@, sources[i]@))
                },
            }
    }

    /// Whether `moved` can join the ledger: no link of it has a bin path that
    /// the ledger or an earlier link of it already has.
    pub open spec fn fresh_links(&self, moved: Seq<RestoreLink>) -> bool {
        forall|i: int|
            0 <= i < moved.len() ==> {
                &&& !self.in_ledger(#[trigger] moved[i].bin_path@)
                &&& forall|j: int| 0 <= j < i ==> moved[j].bin_path@ != moved[i].bin_path@
            }
    }

    /// Plans sending the resolved paths `sources` to the bin, which holds
    /// the entries named `bin_entries`. Each source goes to the bin under its
    /// last component; one whose name is taken is refused, as is one with no
    /// name.
    pub fn plan_send(&self, sources: &Vec<String>, bin_entries: &Vec<String>) -> (r: Vec<
        Result<RestoreLink, BinError>,
    >)
        ensures
            self.is_send_plan(sources@, bin_entries@, r@),
    {
        let bin_dir = self.bin_dir();
        let mut plan: Vec<Result<RestoreLink, BinError>> = Vec::new();
        let mut names: Vec<String> = Vec::new();
        let n = sources.len();
        let mut i: usize = 0;
        while i < n
            invariant
                n == sources@.len(),
                i <= n,
                bin_dir@ == bin_dir_of(self.proj_dir@),
                names@.len() == i,
                forall|j: int| 0 <= j < i ==> #[trigger] names@[j]@ == last_component(sources@[j]@),
                self.is_send_plan(sources@.subrange(0, i as int), bin_entries@, plan@),
            decreases n - i,
        {
            let name = basename(sources[i].as_str());
            let dest = join_path(bin_dir.as_str(), name.as_str());
            let named = name.as_str().unicode_len() > 0;
            let taken = list_contains(bin_entries, &name);
            let pending = self.ledger_holds(&dest);
            let repeated = list_contains(&names, &name);
            let ghost pre = sources@.subrange(0, i as int);
            let ghost post = sources@.subrange(0, i + 1);
            proof {
                assert forall|j: int| 0 <= j <= i implies post[j] == sources@[j] by {}
                assert(repeated == exists|j: int| 0 <= j < i && last_component(post[j]@) == name@)
                    by {
                    if repeated {
                        let k = choose|k: int| 0 <= k < names@.len() && names@[k]@ == name@;
                        assert(last_component(post[k]@) == name@);
                    }
                    if exists|j: int| 0 <= j < i && last_component(post[j]@) == name@ {
                        let j = choose|j: int| 0 <= j < i && last_component(post[j]@) == name@;
                        assert(names@[j]@ == last_component(sources@[j]@));
                    }
                }
            }
            let entry = if named && !taken && !pending && !repeated {
                Ok(RestoreLink { init_path: sources[i].clone(), bin_path: dest })
            } else if !named {
                Err(BinError::PathResolution { path: sources[i].clone() })
            } else {
                Err(BinError::DestinationConflict { path: dest })
            };
            plan.push(entry);
            names.push(name);
            proof {
                assert forall|k: int| 0 <= k < i implies #[trigger] plan@[k] == plan@[k] && (
                self.accepts(post, bin_entries@, k) == self.accepts(pre, bin_entries@, k)) by {
                    assert(post[k] == pre[k]);
                    assert forall|j: int| 0 <= j < k implies post[j] == pre[j] by {}
                }
            }
            i = i + 1;
        }
        proof {
            assert(sources@.subrange(0, n as int) =~= sources@);
        }
        plan
    }

    /// Adds the links of the entries that were moved into the bin to the
    /// ledger. Fails, changing nothing, when a link's bin path is already in
    /// the ledger or repeats an earlier link's.
    pub fn record_send(&mut self, moved: Vec<RestoreLink>) -> (r: Result<(), BinError>)
        requires
            old(self).consistent(),
        ensures
            r is Ok <==> old(self).fresh_links(moved@),
            r is Ok ==> {
                &&& final(self).restore@ == old(self).restore@ + moved@
                &&& final(self).is_empty == (final(self).restore@.len() == 0)
                &&& final(self).home == old(self).home
                &&& final(self).proj_dir == old(self).proj_dir
            },
            r matches Err(e) ==> {
                &&& *final(self) == *old(self)
                &&& e matches BinError::DestinationConflict { path } && exists|i: int|
                    0 <= i < moved@.len() && moved@[i].bin_path@ == path@
            },
            final(self).consistent(),
    {
        let n = moved.len();
        let mut i: usize = 0;
        while i < n
            invariant
                n == moved@.len(),
                i <= n,
                self.consistent(),
                forall|a: int|
                    0 <= a < i ==> {
                        &&& !self.in_ledger(#[trigger] moved@[a].bin_path@)
                        &&& forall|b: int| 0 <= b < a ==> moved@[b].bin_path@ != moved@[a].bin_path@
                    },
            decreases n - i,
        {
            if self.ledger_holds(&moved[i].bin_path) {
                return Err(BinError::DestinationConflict { path: moved[i].bin_path.clone() });
            }
            let mut j: usize = 0;
            while j < i
                invariant
                    n == moved@.len(),
                    i < n,
                    self.consistent(),
                    j <= i,
                    forall|b: int| 0 <= b < j ==> moved@[b].bin_path@ != moved@[i as int].bin_path@,
                decreases i - j,
            {
                if moved[j].bin_path == moved[i].bin_path {
                    return Err(BinError::DestinationConflict { path: moved[i].bin_path.clone() });
                }
                j = j + 1;
            }
            i = i + 1;
        }
        let ghost moved_links_given = moved@;
        let mut moved = moved;
        self.restore.append(&mut moved);
        self.is_empty = self.restore.len() == 0;
        proof {
            lemma_fresh_append(*old(self), moved_links_given);
        }
        Ok(())
    }
}

/// Fresh links appended to a consistent ledger keep its bin paths distinct.
proof fn lemma_fresh_append(p: UserBinProfile, moved: Seq<RestoreLink>)
    requires
        p.consistent(),
        p.fresh_links(moved),
    ensures
        unique_bin_paths(p.restore@ + moved),
{
    let before = p.restore@;
    let all = p.restore@ + moved;
    assert forall|a: int, b: int|
        0 <= a < all.len() && 0 <= b < all.len() && a != b implies all[a].bin_path@
        != all[b].bin_path@ by {
        if a >= before.len() && b < before.len() {
            assert(moved[a - before.len()] == all[a]);
            assert(!p.in_ledger(all[a].bin_path@));
        } else if b >= before.len() && a < before.len() {
            assert(moved[b - before.len()] == all[b]);
            assert(!p.in_ledger(all[b].bin_path@));
        } else if a >= before.len() && b >= before.len() {
            assert(moved[a - before.len()] == all[a]);
            assert(moved[b - before.len()] == all[b]);
        }
    }
}

/// Each moved link is the planned link of a moved entry.
proof fn lemma_moved_origin(plan: Seq<Result<RestoreLink, BinError>>, flags: Seq<bool>)
    ensures
        moved_links(plan, flags).len() == moved_count(plan, flags),
        forall|k: int|
            0 <= k < moved_links(plan, flags).len() ==> exists|i: int|
                0 <= i < plan.len() && flags[i] && plan[i] is Ok && #[trigger] moved_links(
                    plan,
                    flags,
                )[k] == plan[i]->Ok_0,
    decreases plan.len(),
{
    if plan.len() > 0 {
        let prev = plan.drop_last();
        lemma_moved_origin(prev, flags);
        assert forall|k: int| 0 <= k < moved_links(prev, flags).len() implies exists|i: int|
            0 <= i < plan.len() && flags[i] && plan[i] is Ok && #[trigger] moved_links(
                prev,
                flags,
            )[k] == plan[i]->Ok_0 by {
            let i = choose|i: int|
                0 <= i < prev.len() && flags[i] && prev[i] is Ok && moved_links(prev, flags)[k]
                    == prev[i]->Ok_0;
            assert(prev[i] == plan[i]);
        }
    }
}

/// The links of the moved entries of a send plan can join the ledger.
proof fn lemma_moved_fresh(
    p: UserBinProfile,
    sources: Seq<String>,
    entries: Seq<String>,
    plan: Seq<Result<RestoreLink, BinError>>,
    flags: Seq<bool>,
)
    requires
        p.is_send_plan(sources, entries, plan),
    ensures
        p.fresh_links(moved_links(plan, flags)),
    decreases plan.len(),
{
    if plan.len() > 0 {
        let last = plan.len() - 1;
        let prev = plan.drop_last();
        let shorter = sources.drop_last();
        assert forall|i: int| 0 <= i < prev.len() implies #[trigger] prev[i] == prev[i] && p.accepts(
            shorter,
            entries,
            i,
        ) == p.accepts(sources, entries, i) by {
            assert(shorter[i] == sources[i]);
            assert forall|j: int| 0 <= j < i implies shorter[j] == sources[j] by {}
        }
        assert(p.is_send_plan(shorter, entries, prev)) by {
            assert forall|i: int| 0 <= i < prev.len() implies shorter[i] == sources[i] by {}
            assert forall|i: int| 0 <= i < prev.len() implies prev[i] == plan[i] by {}
        }
        lemma_moved_fresh(p, shorter, entries, prev, flags);
        lemma_moved_origin(prev, flags);
        if flags[last] && plan[last] is Ok {
            let m = moved_links(plan, flags);
            let pm = moved_links(prev, flags);
            let x = plan[last]->Ok_0;
            assert(m == pm.push(x));
            assert forall|j: int| 0 <= j < last && #[trigger] plan[j] is Ok implies plan[j]->Ok_0.bin_path@
                != x.bin_path@ by {
                if plan[j]->Ok_0.bin_path@ == x.bin_path@ {
                    lemma_joined_injective(
                        bin_dir_of(p.proj_dir@),
                        last_component(sources[j]@),
                        last_component(sources[last]@),
                    );
                }
            }
            assert forall|k: int| 0 <= k < pm.len() implies #[trigger] pm[k].bin_path@
                != x.bin_path@ by {
                let i = choose|i: int|
                    0 <= i < prev.len() && flags[i] && prev[i] is Ok && pm[k] == prev[i]->Ok_0;
                assert(prev[i] == plan[i]);
            }
            assert forall|i: int| 0 <= i < m.len() implies {
                &&& !p.in_ledger(#[trigger] m[i].bin_path@)
                &&& forall|j: int| 0 <= j < i ==> m[j].bin_path@ != m[i].bin_path@
            } by {
                if i < pm.len() {
                    assert(m[i] == pm[i]);
                    assert forall|j: int| 0 <= j < i implies m[j].bin_path@ != m[i].bin_path@ by {
                        assert(m[j] == pm[j]);
                    }
                } else {
                    assert(m[i] == x);
                    assert forall|j: int| 0 <= j < i implies m[j].bin_path@ != m[i].bin_path@ by {
                        assert(m[j] == pm[j]);
                    }
                }
            }
        }
    }
}

/// Sending a batch to the bin and recording the entries that were moved
/// adds exactly one ledger entry per moved entry, each pairing its source
/// with its place in the bin; the recording is accepted, the profile stays
/// consistent, and once anything was moved the bin is not empty.
pub proof fn lemma_send_records_each_move(
    before: UserBinProfile,
    after: UserBinProfile,
    sources: Seq<String>,
    entries: Seq<String>,
    plan: Seq<Result<RestoreLink, BinError>>,
    flags: Seq<bool>,
)
    requires
        before.consistent(),
        before.is_send_plan(sources, entries, plan),
        flags.len() == plan.len(),
        after.restore@ == before.restore@ + moved_links(plan, flags),
        after.is_empty == (after.restore@.len() == 0),
    ensures
        before.fresh_links(moved_links(plan, flags)),
        after.restore@.len() == before.restore@.len() + moved_count(plan, flags),
        moved_count(plan, flags) > 0 ==> !after.is_empty,
        forall|k: int|
            0 <= k < moved_count(plan, flags) ==> exists|i: int|
                0 <= i < sources.len() && flags[i] && #[trigger] after.restore@[before.restore@.len()
                    + k]@ == (sources[i]@, dest_for(before.proj_dir@, sources[i]@)),
        after.consistent(),
{
    lemma_moved_origin(plan, flags);
    lemma_moved_fresh(before, sources, entries, plan, flags);
    lemma_fresh_append(before, moved_links(plan, flags));
    let m = moved_links(plan, flags);
    assert forall|k: int| 0 <= k < moved_count(plan, flags) implies exists|i: int|
        0 <= i < sources.len() && flags[i] && #[trigger] after.restore@[before.restore@.len()
            + k]@ == (sources[i]@, dest_for(before.proj_dir@, sources[i]@)) by {
        assert(after.restore@[before.restore@.len() + k] == m[k]);
        let i = choose|i: int| 0 <= i < plan.len() && flags[i] && plan[i] is Ok && m[k] == plan[i]->Ok_0;
    }
}

} // verus!
