//! Classification of container entries against a removal policy.
//!
//! The inspector hands over each entry's name and uncompressed size; the
//! classification selects the indices of the removable entries and sums
//! their uncompressed sizes. It is pure: no part of it touches the
//! container itself.

use vstd::prelude::*;
use crate::policy::RemovalPolicy;
use crate::policy::removable;
use crate::policy::should_remove_file;

verus! {

/// What inspection reads of one entry: its name bytes and its
/// uncompressed size.
pub struct EntryMeta {
    pub name: Vec<u8>,
    pub uncompressed_size: u64,
}

/// The name and size of each entry, as mathematical values.
pub open spec fn meta_seq(es: Seq<EntryMeta>) -> Seq<(Seq<u8>, nat)> {
    Seq::new(es.len(), |i: int| (es[i].name@, es[i].uncompressed_size as nat))
}

/// How many entries are removable.
pub open spec fn removed_count(es: Seq<(Seq<u8>, nat)>, pres: Seq<Seq<u8>>, exts: Seq<Seq<u8>>) -> nat
    decreases es.len(),
{
    if es.len() == 0 {
        0
    } else {
        removed_count(es.drop_last(), pres, exts) + if removable(es.last().0, pres, exts) {
            1nat
        } else {
            0nat
        }
    }
}

/// The summed uncompressed sizes of the removable entries.
pub open spec fn removed_size_sum(
    es: Seq<(Seq<u8>, nat)>,
    pres: Seq<Seq<u8>>,
    exts: Seq<Seq<u8>>,
) -> nat
    decreases es.len(),
{
    if es.len() == 0 {
        0
    } else {
        removed_size_sum(es.drop_last(), pres, exts) + if removable(es.last().0, pres, exts) {
            es.last().1
        } else {
            0nat
        }
    }
}

/// The indices of the removable entries, in increasing order.
pub open spec fn removed_index_seq(
    es: Seq<(Seq<u8>, nat)>,
    pres: Seq<Seq<u8>>,
    exts: Seq<Seq<u8>>,
) -> Seq<int>
    decreases es.len(),
{
    if es.len() == 0 {
        Seq::empty()
    } else {
        let rest = removed_index_seq(es.drop_last(), pres, exts);
        if removable(es.last().0, pres, exts) {
            rest.push(es.len() - 1)
        } else {
            rest
        }
    }
}

/// The selected indices are exactly the removable entries: they are
/// strictly increasing, each points at a removable entry, there are as
/// many as there are removable entries, and every removable entry's index
/// is among them.
pub proof fn lemma_removed_index_seq_exact(
    ms: Seq<(Seq<u8>, nat)>,
    pres: Seq<Seq<u8>>,
    exts: Seq<Seq<u8>>,
)
    ensures
        forall|t1: int, t2: int|
            0 <= t1 < t2 < removed_index_seq(ms, pres, exts).len() ==> removed_index_seq(
                ms,
                pres,
                exts,
            )[t1] < removed_index_seq(ms, pres, exts)[t2],
        forall|t: int|
            0 <= t < removed_index_seq(ms, pres, exts).len() ==> 0 <= #[trigger] removed_index_seq(
                ms,
                pres,
                exts,
            )[t] < ms.len() && removable(ms[removed_index_seq(ms, pres, exts)[t]].0, pres, exts),
        removed_index_seq(ms, pres, exts).len() == removed_count(ms, pres, exts),
        forall|i: int|
            0 <= i < ms.len() && removable((#[trigger] ms[i]).0, pres, exts) ==> removed_index_seq(
                ms,
                pres,
                exts,
            ).contains(i),
    decreases ms.len(),
{
    if ms.len() > 0 {
        lemma_removed_index_seq_exact(ms.drop_last(), pres, exts);
        let rest = removed_index_seq(ms.drop_last(), pres, exts);
        let ris = removed_index_seq(ms, pres, exts);
        assert(ms.last() == ms[ms.len() - 1]);
        assert forall|i: int|
            0 <= i < ms.len() && removable((#[trigger] ms[i]).0, pres, exts) implies ris.contains(
            i,
        ) by {
            if i < ms.len() - 1 {
                assert(ms.drop_last()[i] == ms[i]);
                let t = choose|t: int| 0 <= t < rest.len() && rest[t] == i;
                assert(ris[t] == i);
            } else {
                assert(ris[rest.len() as int] == i);
            }
        }
        assert forall|t: int| 0 <= t < ris.len() implies 0 <= #[trigger] ris[t] < ms.len()
            && removable(ms[ris[t]].0, pres, exts) by {
            if t < rest.len() {
                assert(ris[t] == rest[t]);
                assert(ms.drop_last()[rest[t]] == ms[rest[t]]);
            }
        }
    }
}

/// When nothing is removable, no bytes are counted as removed either.
pub proof fn lemma_no_removals_no_bytes(
    ms: Seq<(Seq<u8>, nat)>,
    pres: Seq<Seq<u8>>,
    exts: Seq<Seq<u8>>,
)
    requires
        removed_count(ms, pres, exts) == 0,
    ensures
        removed_size_sum(ms, pres, exts) == 0,
    decreases ms.len(),
{
    if ms.len() > 0 {
        lemma_no_removals_no_bytes(ms.drop_last(), pres, exts);
    }
}

/// The computed removal selection: the indices of the entries to leave out
/// of the rebuilt container and the sum of their uncompressed sizes.
pub struct RemovalSet {
    pub indices: Vec<usize>,
    pub removed_bytes: u128,
}

impl RemovalSet {
    /// The selection agrees with the removal rules on the given entries:
    /// its indices are exactly the removable ones, in increasing order,
    /// and the byte total is the sum of their uncompressed sizes.
    pub open spec fn matches(&self, es: Seq<(Seq<u8>, nat)>, pres: Seq<Seq<u8>>, exts: Seq<Seq<u8>>) -> bool {
        &&& self.indices@.map_values(|u: usize| u as int) == removed_index_seq(es, pres, exts)
        &&& self.indices@.len() == removed_count(es, pres, exts)
        &&& self.removed_bytes as nat == removed_size_sum(es, pres, exts)
    }
}

/// Select the removable entries. Pure: deterministic in the entries and
/// the policy, no effect on anything else.
pub fn classify(entries: &Vec<EntryMeta>, policy: &RemovalPolicy) -> (r: RemovalSet)
    ensures
        r.matches(meta_seq(entries@), policy.pres(), policy.exts()),
{
    let ghost ms = meta_seq(entries@);
    let ghost pres = policy.pres();
    let ghost exts = policy.exts();
    let mut indices: Vec<usize> = Vec::new();
    let mut removed_bytes: u128 = 0;
    let mut i: usize = 0;
    while i < entries.len()
        invariant
            i <= entries@.len(),
            indices@.map_values(|u: usize| u as int) == removed_index_seq(ms.take(i as int), pres, exts),
            indices@.len() == removed_count(ms.take(i as int), pres, exts),
            removed_bytes as nat == removed_size_sum(ms.take(i as int), pres, exts),
            removed_bytes as nat <= (i as nat) * 0xffff_ffff_ffff_ffffnat,
        decreases entries@.len() - i,
    {
        let ghost prev = ms.take(i as int);
        proof {
            assert(ms.take(i + 1).drop_last() =~= prev);
            assert(ms.take(i + 1).last() == ms[i as int]);
        }
        let e = &entries[i];
        if should_remove_file(e.name.as_slice(), policy) {
            proof {
                assert(removed_bytes + e.uncompressed_size as u128 <= (i as nat)
                    * 0xffff_ffff_ffff_ffffnat + 0xffff_ffff_ffff_ffffnat);
                assert((i as nat) * 0xffff_ffff_ffff_ffffnat + 0xffff_ffff_ffff_ffffnat == (i as nat
                    + 1) * 0xffff_ffff_ffff_ffffnat) by (nonlinear_arith);
                assert((i as nat + 1) * 0xffff_ffff_ffff_ffffnat <= (usize::MAX as nat)
                    * 0xffff_ffff_ffff_ffffnat) by (nonlinear_arith)
                    requires i as nat + 1 <= usize::MAX as nat;
            }
            indices.push(i);
            removed_bytes = removed_bytes + e.uncompressed_size as u128;
            proof {
                assert(indices@.map_values(|u: usize| u as int) =~= removed_index_seq(
                    ms.take(i + 1),
                    pres,
                    exts,
                ));
            }
        }
        i += 1;
    }
    proof {
        assert(ms.take(entries@.len() as int) =~= ms);
    }
    RemovalSet { indices, removed_bytes }
}

} // verus!
