//! Rebuilding a container without its removable entries.
//!
//! The rebuild reads a container from bytes, classifies its entries, and
//! when anything is removable writes a fresh container holding the kept
//! entries as verbatim raw copies, in their original order. A kept entry
//! whose raw copy fails is dropped and reported, and the rebuild goes on:
//! one bad retained entry does not block the removal of the rest.

use vstd::prelude::*;
use crate::classify::EntryMeta;
use crate::classify::RemovalSet;
use crate::classify::classify;
use crate::classify::meta_seq;
use crate::classify::removed_count;
use crate::classify::removed_size_sum;
use crate::policy::RemovalPolicy;
use crate::policy::removable;
use crate::policy::should_remove_file;
use crate::zipio::EntryModel;
use crate::zipio::container_entries;
use crate::zipio::container_len;
use crate::zipio::copy_entry_raw;
use crate::zipio::entry_meta;
use crate::zipio::entry_readable;
use crate::zipio::finish_writer;
use crate::zipio::finishes;
use crate::zipio::opens;
use crate::zipio::source_of;
use crate::zipio::new_writer;
use crate::zipio::open_container;
use crate::zipio::reader_entries;
use crate::zipio::writer_entries;

verus! {

/// Why a container could not be processed.
#[derive(Debug)]
pub enum ArchiveError {
    /// The bytes do not parse as a container.
    Open,
    /// The record of the entry at `index` could not be read during
    /// inspection; the container is left as it is.
    CorruptEntry { index: usize },
    /// The rebuilt container could not be finalized.
    Finalize,
}

/// What one rebuild produced.
pub struct RebuildOutcome {
    /// The rebuilt container bytes, or nothing when no entry was removable
    /// and the original is to stay untouched byte for byte.
    pub output: Option<Vec<u8>>,
    /// How many entries were removed.
    pub removed_count: usize,
    /// The summed uncompressed sizes of the removed entries.
    pub removed_bytes: u128,
    /// Indices of kept entries whose raw copy failed; they are missing
    /// from the output.
    pub dropped: Vec<usize>,
}

/// The name and uncompressed size of each entry.
pub open spec fn metas_of(es: Seq<EntryModel>) -> Seq<(Seq<u8>, nat)> {
    Seq::new(es.len(), |i: int| (es[i].0, es[i].1))
}

/// The set of original indices a sequence of dropped indices holds.
pub open spec fn dropped_set(d: Seq<usize>) -> Set<int> {
    Set::new(|j: int| exists|t: int| 0 <= t < d.len() && d[t] as int == j)
}

/// The entries a rebuild writes: the entries that are not removable,
/// except those whose index lies in `dropped`, in original order.
pub open spec fn surviving(
    es: Seq<EntryModel>,
    pres: Seq<Seq<u8>>,
    exts: Seq<Seq<u8>>,
    dropped: Set<int>,
) -> Seq<EntryModel>
    decreases es.len(),
{
    if es.len() == 0 {
        Seq::empty()
    } else {
        let rest = surviving(es.drop_last(), pres, exts, dropped);
        if !removable(es.last().0, pres, exts) && !dropped.contains(es.len() - 1) {
            rest.push(es.last())
        } else {
            rest
        }
    }
}

/// The entries that are kept by classification alone: the non-removable
/// ones, in original order.
pub open spec fn kept(es: Seq<EntryModel>, pres: Seq<Seq<u8>>, exts: Seq<Seq<u8>>) -> Seq<
    EntryModel,
> {
    es.filter(|e: EntryModel| !removable(e.0, pres, exts))
}

/// The indices of the kept entries, in increasing order.
pub open spec fn kept_index_seq(es: Seq<EntryModel>, pres: Seq<Seq<u8>>, exts: Seq<Seq<u8>>) -> Seq<
    int,
>
    decreases es.len(),
{
    if es.len() == 0 {
        Seq::empty()
    } else {
        let rest = kept_index_seq(es.drop_last(), pres, exts);
        if !removable(es.last().0, pres, exts) {
            rest.push(es.len() - 1)
        } else {
            rest
        }
    }
}

/// The kept entries are exactly the non-removable ones, byte for byte and
/// in their original relative order: the kept indices are strictly
/// increasing, every index is a non-removable entry's, every non-removable
/// entry's index is among them, and the kept entry at position `t` is the
/// whole original entry at index `kept_index_seq[t]` — name, size and raw
/// record unchanged.
pub proof fn lemma_kept_entries_preserved(
    es: Seq<EntryModel>,
    pres: Seq<Seq<u8>>,
    exts: Seq<Seq<u8>>,
)
    ensures
        forall|t1: int, t2: int|
            0 <= t1 < t2 < kept_index_seq(es, pres, exts).len() ==> kept_index_seq(
                es,
                pres,
                exts,
            )[t1] < kept_index_seq(es, pres, exts)[t2],
        forall|t: int|
            0 <= t < kept_index_seq(es, pres, exts).len() ==> 0 <= #[trigger] kept_index_seq(
                es,
                pres,
                exts,
            )[t] < es.len() && !removable(es[kept_index_seq(es, pres, exts)[t]].0, pres, exts),
        forall|i: int|
            0 <= i < es.len() && !removable((#[trigger] es[i]).0, pres, exts) ==> kept_index_seq(
                es,
                pres,
                exts,
            ).contains(i),
        kept(es, pres, exts).len() == kept_index_seq(es, pres, exts).len(),
        forall|t: int|
            0 <= t < kept_index_seq(es, pres, exts).len() ==> #[trigger] kept(es, pres, exts)[t]
                == es[kept_index_seq(es, pres, exts)[t]],
    decreases es.len(),
{
    reveal(Seq::filter);
    if es.len() > 0 {
        lemma_kept_entries_preserved(es.drop_last(), pres, exts);
        let drop = es.drop_last();
        let rest = kept_index_seq(drop, pres, exts);
        let kis = kept_index_seq(es, pres, exts);
        assert(es.last() == es[es.len() - 1]);
        assert forall|i: int|
            0 <= i < es.len() && !removable((#[trigger] es[i]).0, pres, exts) implies kis.contains(
            i,
        ) by {
            if i < es.len() - 1 {
                assert(drop[i] == es[i]);
                let t = choose|t: int| 0 <= t < rest.len() && rest[t] == i;
                assert(kis[t] == i);
            } else {
                assert(kis[rest.len() as int] == i);
            }
        }
        assert forall|t: int| 0 <= t < kis.len() implies 0 <= #[trigger] kis[t] < es.len()
            && !removable(es[kis[t]].0, pres, exts) by {
            if t < rest.len() {
                assert(kis[t] == rest[t]);
                assert(drop[rest[t]] == es[rest[t]]);
            }
        }
        assert forall|t: int| 0 <= t < kis.len() implies #[trigger] kept(es, pres, exts)[t]
            == es[kis[t]] by {
            if !removable(es.last().0, pres, exts) {
                assert(kept(es, pres, exts) == kept(drop, pres, exts).push(es.last()));
                if t < rest.len() {
                    assert(kept(es, pres, exts)[t] == kept(drop, pres, exts)[t]);
                    assert(drop[rest[t]] == es[rest[t]]);
                }
            } else {
                assert(kept(es, pres, exts) == kept(drop, pres, exts));
                assert(drop[rest[t]] == es[rest[t]]);
            }
        }
    }
}

/// The indices of the entries that classification keeps.
pub open spec fn kept_index_set(es: Seq<EntryModel>, pres: Seq<Seq<u8>>, exts: Seq<Seq<u8>>) -> Set<
    int,
> {
    Set::new(|i: int| 0 <= i < es.len() && !removable(es[i].0, pres, exts))
}

/// The indices of the entries that classification removes.
pub open spec fn removed_index_set(
    es: Seq<EntryModel>,
    pres: Seq<Seq<u8>>,
    exts: Seq<Seq<u8>>,
) -> Set<int> {
    Set::new(|i: int| 0 <= i < es.len() && removable(es[i].0, pres, exts))
}

/// Classification partitions the entries: kept and removed together are
/// all of them, no index is both, and the two counts add up to the whole.
pub proof fn lemma_classification_partitions(
    es: Seq<EntryModel>,
    pres: Seq<Seq<u8>>,
    exts: Seq<Seq<u8>>,
)
    ensures
        kept_index_set(es, pres, exts).union(removed_index_set(es, pres, exts)) == Set::new(
            |i: int| 0 <= i < es.len(),
        ),
        kept_index_set(es, pres, exts).intersect(removed_index_set(es, pres, exts)) == Set::<
            int,
        >::empty(),
        kept(es, pres, exts).len() + removed_count(metas_of(es), pres, exts) == es.len(),
        forall|i: int|
            0 <= i < es.len() ==> (!removable((#[trigger] es[i]).0, pres, exts)
                <==> kept_index_seq(es, pres, exts).contains(i)),
        forall|i: int|
            0 <= i < es.len() ==> (removable((#[trigger] es[i]).0, pres, exts)
                <==> crate::classify::removed_index_seq(metas_of(es), pres, exts).contains(i)),
    decreases es.len(),
{
    assert(kept_index_set(es, pres, exts).union(removed_index_set(es, pres, exts)) =~= Set::new(
        |i: int| 0 <= i < es.len(),
    ));
    assert(kept_index_set(es, pres, exts).intersect(removed_index_set(es, pres, exts)) =~= Set::<
        int,
    >::empty());
    lemma_kept_entries_preserved(es, pres, exts);
    crate::classify::lemma_removed_index_seq_exact(metas_of(es), pres, exts);
    let ms = metas_of(es);
    assert(ms.len() == es.len());
    assert forall|i: int| 0 <= i < es.len() implies (removable((#[trigger] es[i]).0, pres, exts)
        <==> crate::classify::removed_index_seq(ms, pres, exts).contains(i)) by {
        assert(ms[i].0 == es[i].0);
        if crate::classify::removed_index_seq(ms, pres, exts).contains(i) {
            let t = choose|t: int|
                0 <= t < crate::classify::removed_index_seq(ms, pres, exts).len()
                    && crate::classify::removed_index_seq(ms, pres, exts)[t] == i;
            assert(removable(ms[i].0, pres, exts));
        }
    }
    assert forall|i: int| 0 <= i < es.len() implies (!removable((#[trigger] es[i]).0, pres, exts)
        <==> kept_index_seq(es, pres, exts).contains(i)) by {
        if kept_index_seq(es, pres, exts).contains(i) {
            let t = choose|t: int|
                0 <= t < kept_index_seq(es, pres, exts).len() && kept_index_seq(es, pres, exts)[t]
                    == i;
            assert(!removable(es[i].0, pres, exts));
        }
    }
    lemma_count_partition(es, pres, exts);
}

/// Each entry counts once: toward the kept or toward the removed.
proof fn lemma_count_partition(es: Seq<EntryModel>, pres: Seq<Seq<u8>>, exts: Seq<Seq<u8>>)
    ensures
        kept(es, pres, exts).len() + removed_count(metas_of(es), pres, exts) == es.len(),
    decreases es.len(),
{
    reveal(Seq::filter);
    if es.len() > 0 {
        lemma_count_partition(es.drop_last(), pres, exts);
        assert(metas_of(es).drop_last() =~= metas_of(es.drop_last()));
        assert(metas_of(es).last().0 == es.last().0);
    }
}

/// Rebuilding a container that a rebuild produced removes nothing more:
/// of the kept entries none is removable, so they classify to an empty
/// removal set and are all kept again.
pub proof fn lemma_rebuild_idempotent(es: Seq<EntryModel>, pres: Seq<Seq<u8>>, exts: Seq<Seq<u8>>)
    ensures
        removed_count(metas_of(kept(es, pres, exts)), pres, exts) == 0,
        removed_size_sum(metas_of(kept(es, pres, exts)), pres, exts) == 0,
        kept(kept(es, pres, exts), pres, exts) == kept(es, pres, exts),
{
    lemma_surviving_empty_is_kept(es, pres, exts);
    lemma_surviving_not_removable(es, pres, exts, Set::empty());
    let k = kept(es, pres, exts);
    assert forall|j: int| 0 <= j < metas_of(k).len() implies !removable(
        (#[trigger] metas_of(k)[j]).0,
        pres,
        exts,
    ) by {
        assert(metas_of(k)[j].0 == k[j].0);
    }
    lemma_removed_count_zero(metas_of(k), pres, exts);
    lemma_kept_identity(k, pres, exts);
}

/// Entries of which none is removable are all kept, unchanged.
proof fn lemma_kept_identity(s: Seq<EntryModel>, pres: Seq<Seq<u8>>, exts: Seq<Seq<u8>>)
    requires
        forall|i: int| 0 <= i < s.len() ==> !removable((#[trigger] s[i]).0, pres, exts),
    ensures
        kept(s, pres, exts) == s,
    decreases s.len(),
{
    reveal(Seq::filter);
    if s.len() > 0 {
        assert(s.last() == s[s.len() - 1]);
        lemma_kept_identity(s.drop_last(), pres, exts);
        assert(kept(s, pres, exts) =~= s);
    } else {
        assert(kept(s, pres, exts) =~= s);
    }
}

/// Only the dropped indices below the length matter to `surviving`.
proof fn lemma_surviving_same(
    es: Seq<EntryModel>,
    pres: Seq<Seq<u8>>,
    exts: Seq<Seq<u8>>,
    d1: Set<int>,
    d2: Set<int>,
)
    requires
        forall|j: int| 0 <= j < es.len() ==> (d1.contains(j) <==> d2.contains(j)),
    ensures
        surviving(es, pres, exts, d1) == surviving(es, pres, exts, d2),
    decreases es.len(),
{
    if es.len() > 0 {
        lemma_surviving_same(es.drop_last(), pres, exts, d1, d2);
    }
}

/// With nothing dropped, a rebuild writes exactly the kept entries.
pub proof fn lemma_surviving_empty_is_kept(
    es: Seq<EntryModel>,
    pres: Seq<Seq<u8>>,
    exts: Seq<Seq<u8>>,
)
    ensures
        surviving(es, pres, exts, Set::empty()) == kept(es, pres, exts),
    decreases es.len(),
{
    reveal(Seq::filter);
    if es.len() > 0 {
        lemma_surviving_empty_is_kept(es.drop_last(), pres, exts);
    }
}

/// No surviving entry is removable.
proof fn lemma_surviving_not_removable(
    es: Seq<EntryModel>,
    pres: Seq<Seq<u8>>,
    exts: Seq<Seq<u8>>,
    dropped: Set<int>,
)
    ensures
        forall|j: int|
            0 <= j < surviving(es, pres, exts, dropped).len() ==> !removable(
                (#[trigger] surviving(es, pres, exts, dropped)[j]).0,
                pres,
                exts,
            ),
    decreases es.len(),
{
    if es.len() > 0 {
        lemma_surviving_not_removable(es.drop_last(), pres, exts, dropped);
        let s = surviving(es, pres, exts, dropped);
        let rest = surviving(es.drop_last(), pres, exts, dropped);
        assert forall|j: int| 0 <= j < s.len() implies !removable(
            (#[trigger] s[j]).0,
            pres,
            exts,
        ) by {
            if !removable(es.last().0, pres, exts) && !dropped.contains(es.len() - 1) {
                assert(s == rest.push(es.last()));
                if j < rest.len() {
                    assert(s[j] == rest[j]);
                } else {
                    assert(s[j] == es.last());
                }
            } else {
                assert(s == rest);
            }
        }
    }
}

/// Entries of which none is removable classify to an empty removal set.
proof fn lemma_removed_count_zero(ms: Seq<(Seq<u8>, nat)>, pres: Seq<Seq<u8>>, exts: Seq<Seq<u8>>)
    requires
        forall|i: int| 0 <= i < ms.len() ==> !removable((#[trigger] ms[i]).0, pres, exts),
    ensures
        removed_count(ms, pres, exts) == 0,
        removed_size_sum(ms, pres, exts) == 0,
    decreases ms.len(),
{
    if ms.len() > 0 {
        assert(ms.last() == ms[ms.len() - 1]);
        lemma_removed_count_zero(ms.drop_last(), pres, exts);
    }
}

/// Rebuild one container held in `input`.
///
/// On success, the removal counts are exactly those of the removable
/// entries; when nothing is removable the bytes are left alone and no
/// output is produced; otherwise the output parses to the kept entries in
/// original order, each preserved verbatim, except any listed as dropped.
/// No entry of the output is removable, so a second rebuild of the output
/// under the same policy removes nothing.
///
/// Failures are pinned to their causes: the open error comes exactly when
/// the bytes do not parse as a container; the corrupt-entry error comes
/// exactly when the container opens but some record cannot be read, and it
/// carries the first such index; the finalize error can only arise after a
/// container with removable entries was read whole and its rebuilt form
/// would not finish.
pub fn rebuild_container(input: Vec<u8>, policy: &RemovalPolicy) -> (r: Result<
    RebuildOutcome,
    ArchiveError,
>)
    ensures
        ({
            let es = container_entries(input@);
            let pres = policy.pres();
            let exts = policy.exts();
            &&& (r is Ok ==> opens(input@) && (forall|j: int|
                0 <= j < es.len() ==> #[trigger] entry_readable(input@, j)))
            &&& ((r matches Err(ArchiveError::Open)) <==> !opens(input@))
            &&& ((opens(input@) && (exists|j: int|
                0 <= j < es.len() && !(#[trigger] entry_readable(input@, j)))) <==> (
            r matches Err(ArchiveError::CorruptEntry { .. })))
            &&& ((opens(input@) && (forall|j: int|
                0 <= j < es.len() ==> #[trigger] entry_readable(input@, j)) && removed_count(
                metas_of(es),
                pres,
                exts,
            ) == 0) ==> r is Ok)
            &&& match r {
                Ok(out) => {
                    &&& out.removed_count == removed_count(metas_of(es), pres, exts)
                    &&& out.removed_bytes as nat == removed_size_sum(metas_of(es), pres, exts)
                    &&& (out.removed_count == 0 <==> out.output is None)
                    &&& (out.output is None ==> out.dropped@.len() == 0)
                    &&& (out.output matches Some(ob) ==> {
                        &&& opens(ob@)
                        &&& container_entries(ob@) == surviving(
                            es,
                            pres,
                            exts,
                            dropped_set(out.dropped@),
                        )
                        &&& (out.dropped@.len() == 0 ==> container_entries(ob@) == kept(
                            es,
                            pres,
                            exts,
                        ))
                        &&& removed_count(metas_of(container_entries(ob@)), pres, exts) == 0
                        &&& removed_size_sum(metas_of(container_entries(ob@)), pres, exts) == 0
                        &&& forall|t: int|
                            0 <= t < out.dropped@.len() ==> (#[trigger] out.dropped@[t]) < es.len()
                                && !removable(es[out.dropped@[t] as int].0, pres, exts)
                        &&& forall|t1: int, t2: int|
                            0 <= t1 < t2 < out.dropped@.len() ==> out.dropped@[t1]
                                < out.dropped@[t2]
                    })
                },
                Err(e) => {
                    &&& (e matches ArchiveError::CorruptEntry { index } ==> index < es.len()
                        && !entry_readable(input@, index as int) && (forall|j: int|
                        0 <= j < index as int ==> #[trigger] entry_readable(input@, j)))
                    &&& (e is Finalize ==> opens(input@) && removed_count(metas_of(es), pres, exts)
                        > 0 && (exists|d: Set<int>|
                        (forall|k: int|
                            d.contains(k) ==> 0 <= k < es.len() && !removable(
                                es[k].0,
                                pres,
                                exts,
                            )) && !(#[trigger] finishes(surviving(es, pres, exts, d)))))
                },
            }
        }),
{
    let ghost es = container_entries(input@);
    let ghost pres = policy.pres();
    let ghost exts = policy.exts();
    let mut reader = match open_container(input) {
        Ok(a) => a,
        Err(_) => {
            return Err(ArchiveError::Open);
        },
    };
    let n = container_len(&reader);
    let mut metas: Vec<EntryMeta> = Vec::new();
    let mut i: usize = 0;
    while i < n
        invariant
            i <= n,
            reader_entries(reader) == es,
            source_of(reader) == input@,
            metas@.len() == i,
            forall|j: int| 0 <= j < i ==> #[trigger] entry_readable(input@, j),
            forall|j: int|
                0 <= j < i ==> (#[trigger] metas@[j]).name@ == es[j].0
                    && metas@[j].uncompressed_size as nat == es[j].1,
        decreases n - i,
    {
        match entry_meta(&mut reader, i) {
            Ok(m) => {
                metas.push(EntryMeta { name: m.0, uncompressed_size: m.1 });
            },
            Err(_) => {
                proof {
                    assert(!entry_readable(input@, i as int));
                }
                return Err(ArchiveError::CorruptEntry { index: i });
            },
        }
        i += 1;
    }
    proof {
        assert(meta_seq(metas@) =~= metas_of(es));
    }
    let rs: RemovalSet = classify(&metas, policy);
    if rs.indices.is_empty() {
        return Ok(
            RebuildOutcome {
                output: None,
                removed_count: 0,
                removed_bytes: rs.removed_bytes,
                dropped: Vec::new(),
            },
        );
    }
    let mut writer = new_writer();
    let mut dropped: Vec<usize> = Vec::new();
    let mut i: usize = 0;
    while i < n
        invariant
            i <= n,
            reader_entries(reader) == es,
            writer_entries(writer) == surviving(es.take(i as int), pres, exts, dropped_set(dropped@)),
            forall|t: int|
                0 <= t < dropped@.len() ==> (#[trigger] dropped@[t]) < i && !removable(
                    es[dropped@[t] as int].0,
                    pres,
                    exts,
                ),
            forall|t1: int, t2: int|
                0 <= t1 < t2 < dropped@.len() ==> dropped@[t1] < dropped@[t2],
        decreases n - i,
    {
        let ghost prev = es.take(i as int);
        let ghost dset = dropped_set(dropped@);
        proof {
            assert(es.take(i + 1).drop_last() =~= prev);
            assert(es.take(i + 1).last() == es[i as int]);
        }
        if !should_remove_file(metas[i].name.as_slice(), policy) {
            match copy_entry_raw(&mut reader, i, &mut writer) {
                Ok(_) => {
                    proof {
                        assert(!dset.contains(i as int));
                    }
                },
                Err(_) => {
                    let ghost old_dropped = dropped@;
                    dropped.push(i);
                    proof {
                        assert(!dset.contains(i as int));
                        assert(dropped_set(dropped@).contains(i as int)) by {
                            assert(dropped@[old_dropped.len() as int] as int == i as int);
                        }
                        assert(prev.len() == i as int);
                        assert forall|j: int| 0 <= j < prev.len() implies (dset.contains(j)
                            <==> dropped_set(dropped@).contains(j)) by {
                            if dset.contains(j) {
                                let t = choose|t: int|
                                    0 <= t < old_dropped.len() && old_dropped[t] as int == j;
                                assert(dropped@[t] as int == j);
                            }
                            if dropped_set(dropped@).contains(j) {
                                let t = choose|t: int|
                                    0 <= t < dropped@.len() && dropped@[t] as int == j;
                                if t == old_dropped.len() as int {
                                    assert(dropped@[t] as int == i as int);
                                } else {
                                    assert(old_dropped[t] as int == j);
                                }
                            }
                        }
                        lemma_surviving_same(prev, pres, exts, dset, dropped_set(dropped@));
                    }
                },
            }
        }
        i += 1;
    }
    proof {
        assert(es.take(n as int) =~= es);
    }
    let ghost final_entries = writer_entries(writer);
    let ghost final_drops = dropped_set(dropped@);
    let output = match finish_writer(writer) {
        Ok(b) => b,
        Err(_) => {
            proof {
                assert forall|k: int| final_drops.contains(k) implies 0 <= k < es.len()
                    && !removable(es[k].0, pres, exts) by {
                    let t = choose|t: int| 0 <= t < dropped@.len() && dropped@[t] as int == k;
                }
                assert(!finishes(surviving(es, pres, exts, final_drops)));
            }
            return Err(ArchiveError::Finalize);
        },
    };
    proof {
        if dropped@.len() == 0 {
            assert(dropped_set(dropped@) =~= Set::<int>::empty());
            lemma_surviving_empty_is_kept(es, pres, exts);
        }
        lemma_surviving_not_removable(es, pres, exts, dropped_set(dropped@));
        let surv = surviving(es, pres, exts, dropped_set(dropped@));
        assert forall|j: int| 0 <= j < metas_of(surv).len() implies !removable(
            (#[trigger] metas_of(surv)[j]).0,
            pres,
            exts,
        ) by {
            assert(metas_of(surv)[j].0 == surv[j].0);
        }
        lemma_removed_count_zero(metas_of(surv), pres, exts);
    }
    Ok(
        RebuildOutcome {
            output: Some(output),
            removed_count: rs.indices.len(),
            removed_bytes: rs.removed_bytes,
            dropped,
        },
    )
}

} // verus!
