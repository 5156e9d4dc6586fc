//! The dedup policy and the retention sweep: the decision layer that turns
//! store lookups into duplicate-vs-new outcomes, and the periodic pass that
//! trims every known tenant's expired records.
use vstd::prelude::*;
use crate::factory::{SqliteDatabasePoolFactory, lemma_handle_is, spec_chat_ids_of, string_views};
use crate::store::{ForwardRecord, lemma_purge_idempotent};

verus! {

/// What the dedup policy decided for one inbound event.
#[derive(Clone, Copy, PartialEq, Eq, Structural, Debug)]
pub enum DedupOutcome {
    /// A recent record exists: the event is a duplicate and a reply is owed.
    Duplicate,
    /// Nothing was recorded yet: a fresh record was inserted.
    New,
    /// No recent record, but the insert hit an existing key; the conflict
    /// is absorbed as "someone else already recorded it", never surfaced.
    Conflict,
}

/// Process one inbound forwarded message: obtain the chat's store (creating
/// it on first use), check for a recent record of the forwarded id, and
/// either report the duplicate or record the first sighting. An insert
/// conflict against a stale record is absorbed, not surfaced.
pub fn process_forward_message(
    pool_factory: &mut SqliteDatabasePoolFactory,
    chat_id: i64,
    forwarded_message_id: i64,
    sender_id: i64,
    now: u64,
) -> (r: DedupOutcome)
    requires
        old(pool_factory).wf(),
    ensures
        final(pool_factory).wf(),
        final(pool_factory).spec_has_tenant(chat_id),
        final(pool_factory).db_root_path == old(pool_factory).db_root_path,
        final(pool_factory).max_connections_per_db == old(pool_factory).max_connections_per_db,
        final(pool_factory).retention_secs == old(pool_factory).retention_secs,
        final(pool_factory).chat_ids@ == (if old(pool_factory).spec_has_tenant(chat_id) {
            old(pool_factory).chat_ids@
        } else {
            old(pool_factory).chat_ids@.push(chat_id)
        }),
        forall|h: int|
            0 <= h < old(pool_factory).stores@.len() && old(pool_factory).chat_ids@[h] != chat_id
                ==> final(pool_factory).stores@[h] == old(pool_factory).stores@[h],
        ({
            let post = final(pool_factory).spec_store_for(chat_id);
            if old(pool_factory).spec_has_tenant(chat_id) {
                let pre = old(pool_factory).spec_store_for(chat_id);
                &&& (pre.spec_has_recent_forward(forwarded_message_id, now) ==> r
                    == DedupOutcome::Duplicate && post == pre)
                &&& (!pre.spec_has_recent_forward(forwarded_message_id, now)
                    && pre.spec_has_forward(forwarded_message_id) ==> r == DedupOutcome::Conflict
                    && post == pre)
                &&& (!pre.spec_has_forward(forwarded_message_id) ==> r == DedupOutcome::New
                    && post.spec_forwards() == pre.spec_forwards().push(
                    ForwardRecord {
                        message_id: forwarded_message_id,
                        sender_id,
                        seen_at: now,
                    },
                ) && post.spec_links() == pre.spec_links() && post.spec_retention_secs()
                    == pre.spec_retention_secs())
            } else {
                &&& r == DedupOutcome::New
                &&& post.spec_forwards() == Seq::<ForwardRecord>::empty().push(
                    ForwardRecord {
                        message_id: forwarded_message_id,
                        sender_id,
                        seen_at: now,
                    },
                )
                &&& post.spec_links().len() == 0
                &&& post.spec_retention_secs() == old(pool_factory).retention_secs
            }
        }),
{
    let h = pool_factory.create(chat_id);
    proof {
        lemma_handle_is(*pool_factory, chat_id, h as int);
    }
    let recent = pool_factory.store(h).check_forward_message(forwarded_message_id, now);
    if recent {
        proof {
            lemma_handle_is(*old(pool_factory), chat_id, h as int);
        }
        return DedupOutcome::Duplicate;
    }
    let db = &mut pool_factory.stores[h];
    let res = db.add_forwarded_message(forwarded_message_id, sender_id, now);
    proof {
        assert(pool_factory.chat_ids@[h as int] == chat_id);
        lemma_handle_is(*pool_factory, chat_id, h as int);
        if old(pool_factory).spec_has_tenant(chat_id) {
            lemma_handle_is(*old(pool_factory), chat_id, h as int);
        }
    }
    match res {
        Ok(_) => DedupOutcome::New,
        Err(_) => DedupOutcome::Conflict,
    }
}

/// Process one inbound link sighting, in the same shape as forwards: check
/// for a recent record of the normalized URL, report the duplicate or
/// record the first sighting, absorbing an insert conflict.
pub fn process_link_message(
    pool_factory: &mut SqliteDatabasePoolFactory,
    chat_id: i64,
    normalized_url: &str,
    now: u64,
) -> (r: DedupOutcome)
    requires
        old(pool_factory).wf(),
    ensures
        final(pool_factory).wf(),
        final(pool_factory).spec_has_tenant(chat_id),
        final(pool_factory).db_root_path == old(pool_factory).db_root_path,
        final(pool_factory).max_connections_per_db == old(pool_factory).max_connections_per_db,
        final(pool_factory).retention_secs == old(pool_factory).retention_secs,
        final(pool_factory).chat_ids@ == (if old(pool_factory).spec_has_tenant(chat_id) {
            old(pool_factory).chat_ids@
        } else {
            old(pool_factory).chat_ids@.push(chat_id)
        }),
        forall|h: int|
            0 <= h < old(pool_factory).stores@.len() && old(pool_factory).chat_ids@[h] != chat_id
                ==> final(pool_factory).stores@[h] == old(pool_factory).stores@[h],
        ({
            let post = final(pool_factory).spec_store_for(chat_id);
            if old(pool_factory).spec_has_tenant(chat_id) {
                let pre = old(pool_factory).spec_store_for(chat_id);
                &&& (pre.spec_has_recent_link(normalized_url@, now) ==> r
                    == DedupOutcome::Duplicate && post == pre)
                &&& (!pre.spec_has_recent_link(normalized_url@, now) && pre.spec_has_link(
                    normalized_url@,
                ) ==> r == DedupOutcome::Conflict && post == pre)
                &&& (!pre.spec_has_link(normalized_url@) ==> r == DedupOutcome::New
                    && post.spec_links().len() == pre.spec_links().len() + 1
                    && post.spec_links().subrange(0, pre.spec_links().len() as int)
                    == pre.spec_links() && post.spec_links().last().normalized_url@
                    == normalized_url@ && post.spec_links().last().seen_at == now
                    && post.spec_forwards() == pre.spec_forwards() && post.spec_retention_secs()
                    == pre.spec_retention_secs())
            } else {
                &&& r == DedupOutcome::New
                &&& post.spec_links().len() == 1
                &&& post.spec_links().last().normalized_url@ == normalized_url@
                &&& post.spec_links().last().seen_at == now
                &&& post.spec_forwards().len() == 0
                &&& post.spec_retention_secs() == old(pool_factory).retention_secs
            }
        }),
{
    let h = pool_factory.create(chat_id);
    proof {
        lemma_handle_is(*pool_factory, chat_id, h as int);
    }
    let recent = pool_factory.store(h).has_recent_link(normalized_url, now);
    if recent {
        proof {
            lemma_handle_is(*old(pool_factory), chat_id, h as int);
        }
        return DedupOutcome::Duplicate;
    }
    let db = &mut pool_factory.stores[h];
    let res = db.record_link(normalized_url, now);
    proof {
        assert(pool_factory.chat_ids@[h as int] == chat_id);
        lemma_handle_is(*pool_factory, chat_id, h as int);
        if old(pool_factory).spec_has_tenant(chat_id) {
            lemma_handle_is(*old(pool_factory), chat_id, h as int);
        }
    }
    match res {
        Ok(_) => DedupOutcome::New,
        Err(_) => DedupOutcome::Conflict,
    }
}

/// One full retention sweep, from a fresh listing of the storage root:
/// enumerate the tenants on disk, obtain or reuse each tenant's store, and
/// purge its expired records. Tenants the listing does not name are left
/// untouched; tenants first seen in the listing end up cached and empty.
pub fn clean_databases(
    pool_factory: &mut SqliteDatabasePoolFactory,
    entry_names: &Vec<String>,
    now: u64,
)
    requires
        old(pool_factory).wf(),
    ensures
        final(pool_factory).wf(),
        final(pool_factory).db_root_path == old(pool_factory).db_root_path,
        final(pool_factory).max_connections_per_db == old(pool_factory).max_connections_per_db,
        final(pool_factory).retention_secs == old(pool_factory).retention_secs,
        final(pool_factory).chat_ids@.len() >= old(pool_factory).chat_ids@.len(),
        final(pool_factory).chat_ids@.subrange(0, old(pool_factory).chat_ids@.len() as int) == old(pool_factory).chat_ids@,
        forall|id: i64|
            #[trigger] spec_chat_ids_of(string_views(entry_names@)).contains(id) ==> final(pool_factory).spec_has_tenant(id),
        forall|h: int|
            0 <= h < old(pool_factory).stores@.len() ==> (if spec_chat_ids_of(
                string_views(entry_names@),
            ).contains(old(pool_factory).chat_ids@[h]) {
                (#[trigger] final(pool_factory).stores@[h]).spec_purged_from(
                    old(pool_factory).stores@[h],
                    now,
                )
            } else {
                final(pool_factory).stores@[h] == old(pool_factory).stores@[h]
            }),
        forall|h: int|
            old(pool_factory).stores@.len() <= h < final(pool_factory).stores@.len() ==> (
            #[trigger] final(pool_factory).stores@[h]).spec_forwards().len() == 0 && final(pool_factory).stores@[h].spec_links().len() == 0,
{
    let ids = SqliteDatabasePoolFactory::list_existing_chats(entry_names);
    let ghost old_len = old(pool_factory).chat_ids@.len() as int;
    let mut k: usize = 0;
    proof {
        assert(pool_factory.chat_ids@.subrange(0, old_len) =~= old(pool_factory).chat_ids@);
    }
    while k < ids.len()
        invariant
            pool_factory.wf(),
            old_len == old(pool_factory).chat_ids@.len() as int,
            old(pool_factory).wf(),
            ids@ == spec_chat_ids_of(string_views(entry_names@)),
            pool_factory.db_root_path == old(pool_factory).db_root_path,
            pool_factory.max_connections_per_db == old(pool_factory).max_connections_per_db,
            pool_factory.retention_secs == old(pool_factory).retention_secs,
            pool_factory.chat_ids@.len() >= old_len,
            pool_factory.chat_ids@.subrange(0, old_len) == old(pool_factory).chat_ids@,
            k <= ids@.len(),
            forall|j: int| 0 <= j < k ==> pool_factory.spec_has_tenant(#[trigger] ids@[j]),
            forall|h: int|
                0 <= h < old_len ==> (if exists|j: int|
                    0 <= j < k && #[trigger] ids@[j] == old(pool_factory).chat_ids@[h] {
                    (#[trigger] pool_factory.stores@[h]).spec_purged_from(
                        old(pool_factory).stores@[h],
                        now,
                    )
                } else {
                    pool_factory.stores@[h] == old(pool_factory).stores@[h]
                }),
            forall|h: int|
                old_len <= h < pool_factory.stores@.len() ==> (
                #[trigger] pool_factory.stores@[h]).spec_forwards().len() == 0
                    && pool_factory.stores@[h].spec_links().len() == 0,
        decreases ids@.len() - k,
    {
        let ghost snap = *pool_factory;
        let chat_id = ids[k];
        let h = pool_factory.create(chat_id);
        let ghost mid = *pool_factory;
        proof {
            lemma_handle_is(mid, chat_id, h as int);
            assert(mid.chat_ids@.subrange(0, old_len) =~= snap.chat_ids@.subrange(0, old_len));
        }
        let db = &mut pool_factory.stores[h];
        let _removed = db.clean_old_messages(now);
        proof {
            reveal(Seq::filter);
            let now_f = *pool_factory;
            assert(now_f.chat_ids@ == mid.chat_ids@);
            assert(now_f.stores@ == mid.stores@.update(h as int, now_f.stores@[h as int]));
            // the cache before this iteration is a prefix of the cache after `create`
            assert(mid.stores@.subrange(0, snap.stores@.len() as int) == snap.stores@);
            assert forall|i: int| 0 <= i < snap.stores@.len() implies mid.stores@[i]
                == #[trigger] snap.stores@[i] by {
                assert(mid.stores@.subrange(0, snap.stores@.len() as int)[i] == mid.stores@[i]);
            }
            assert forall|i: int| 0 <= i < snap.chat_ids@.len() implies mid.chat_ids@[i]
                == #[trigger] snap.chat_ids@[i] by {
                if snap.spec_has_tenant(chat_id) {
                } else {
                    assert(mid.chat_ids@ == snap.chat_ids@.push(chat_id));
                }
            }
            // the cleaned store
            let cleaned = now_f.stores@[h as int];
            assert(cleaned.spec_purged_from(mid.stores@[h as int], now));
            // well-formedness of the whole cache
            assert forall|i: int| 0 <= i < now_f.stores@.len() implies (
            #[trigger] now_f.stores@[i]).wf() && now_f.stores@[i].spec_retention_secs()
                == now_f.retention_secs by {
                if i != h as int {
                    assert(now_f.stores@[i] == mid.stores@[i]);
                }
            }
            // the processed-prefix invariant for old handles
            assert forall|hh: int| 0 <= hh < old_len implies (if exists|j: int|
                0 <= j < k + 1 && #[trigger] ids@[j] == old(pool_factory).chat_ids@[hh] {
                (#[trigger] now_f.stores@[hh]).spec_purged_from(
                    old(pool_factory).stores@[hh],
                    now,
                )
            } else {
                now_f.stores@[hh] == old(pool_factory).stores@[hh]
            }) by {
                assert(snap.chat_ids@[hh] == old(pool_factory).chat_ids@[hh]);
                assert(old(pool_factory).chat_ids@[hh] == mid.chat_ids@[hh]);
                if hh == h as int {
                    assert(mid.chat_ids@[hh] == chat_id);
                    assert(snap.chat_ids@[hh] == chat_id);
                    assert(snap.spec_has_tenant(chat_id));
                    assert(mid == snap);
                    assert(ids@[k as int] == old(pool_factory).chat_ids@[hh]);
                    assert(exists|j: int|
                        0 <= j < k + 1 && #[trigger] ids@[j] == old(pool_factory).chat_ids@[hh]);
                    assert(now_f.stores@[hh] == cleaned);
                    if exists|j: int|
                        0 <= j < k && #[trigger] ids@[j] == old(pool_factory).chat_ids@[hh] {
                        // already purged earlier in this sweep: purging again changes nothing
                        assert(snap.stores@[hh].spec_purged_from(
                            old(pool_factory).stores@[hh],
                            now,
                        ));
                        assert(mid.stores@[hh] == snap.stores@[hh]);
                        lemma_purge_idempotent(
                            old(pool_factory).stores@[hh],
                            mid.stores@[hh],
                            cleaned,
                            now,
                        );
                        assert(cleaned.spec_purged_from(old(pool_factory).stores@[hh], now));
                    } else {
                        assert(snap.stores@[hh] == old(pool_factory).stores@[hh]);
                        assert(mid.stores@[hh] == old(pool_factory).stores@[hh]);
                        assert(cleaned.spec_purged_from(old(pool_factory).stores@[hh], now));
                    }
                } else {
                    assert(now_f.stores@[hh] == mid.stores@[hh]);
                    assert(mid.stores@[hh] == snap.stores@[hh]);
                    if exists|j: int|
                        0 <= j < k + 1 && #[trigger] ids@[j] == old(pool_factory).chat_ids@[hh] {
                        let j = choose|j: int|
                            0 <= j < k + 1 && #[trigger] ids@[j] == old(pool_factory).chat_ids@[hh];
                        if j == k {
                            // this id names handle h, not hh
                            assert(mid.chat_ids@[hh] == chat_id);
                            crate::factory::lemma_one_store_per_tenant(mid, h as int, hh);
                            assert(false);
                        } else {
                            assert(ids@[j] == old(pool_factory).chat_ids@[hh] && 0 <= j < k);
                            assert(exists|j2: int|
                                0 <= j2 < k && #[trigger] ids@[j2] == old(pool_factory).chat_ids@[hh]);
                            assert(snap.stores@[hh].spec_purged_from(
                                old(pool_factory).stores@[hh],
                                now,
                            ));
                        }
                    } else {
                        assert(!(exists|j: int|
                            0 <= j < k && #[trigger] ids@[j] == old(pool_factory).chat_ids@[hh]));
                        assert(snap.stores@[hh] == old(pool_factory).stores@[hh]);
                    }
                }
            }
            // newly created stores stay empty: purging an empty store keeps it empty
            assert forall|hh: int|
                old_len <= hh < now_f.stores@.len() implies (
            #[trigger] now_f.stores@[hh]).spec_forwards().len() == 0
                && now_f.stores@[hh].spec_links().len() == 0 by {
                if hh == h as int {
                    if hh < snap.stores@.len() {
                        assert(snap.stores@[hh].spec_forwards().len() == 0);
                        assert(snap.stores@[hh].spec_links().len() == 0);
                    } else {
                        assert(mid.stores@.last().spec_is_empty_with(snap.retention_secs));
                    }
                    assert(mid.stores@[hh].spec_forwards() =~= Seq::<ForwardRecord>::empty());
                    assert(mid.stores@[hh].spec_links() =~= Seq::<crate::store::LinkRecord>::empty());
                    assert(cleaned.spec_purged_from(mid.stores@[hh], now));
                    assert(cleaned.spec_forwards() == mid.stores@[hh].spec_forwards().filter(
                        crate::store::keep_forward(mid.stores@[hh].spec_retention_secs(), now),
                    ));
                    assert(cleaned.spec_forwards().len() == 0);
                    assert(cleaned.spec_links().len() == 0);
                } else {
                    assert(now_f.stores@[hh] == mid.stores@[hh]);
                    if hh < snap.stores@.len() {
                        assert(snap.stores@[hh].spec_forwards().len() == 0);
                        assert(snap.stores@[hh].spec_links().len() == 0);
                    } else {
                        assert(mid.stores@.last().spec_is_empty_with(snap.retention_secs));
                        assert(hh == mid.stores@.len() - 1);
                    }
                }
            }
            // every id processed so far names a cached tenant
            assert forall|j: int| 0 <= j < k + 1 implies now_f.spec_has_tenant(
                #[trigger] ids@[j],
            ) by {
                if j == k {
                    assert(now_f.chat_ids@[h as int] == chat_id);
                } else {
                    assert(snap.spec_has_tenant(ids@[j]));
                    let w = choose|w: int|
                        0 <= w < snap.chat_ids@.len() && snap.chat_ids@[w] == ids@[j];
                    assert(now_f.chat_ids@[w] == ids@[j]);
                }
            }
        }
        k += 1;
    }
    proof {
        assert forall|id: i64|
            #[trigger] spec_chat_ids_of(string_views(entry_names@)).contains(id) implies final(pool_factory).spec_has_tenant(id) by {
            let j = choose|j: int| 0 <= j < ids@.len() && ids@[j] == id;
            assert(pool_factory.spec_has_tenant(ids@[j]));
        }
        assert forall|h: int| 0 <= h < old(pool_factory).stores@.len() implies (if spec_chat_ids_of(
            string_views(entry_names@),
        ).contains(old(pool_factory).chat_ids@[h]) {
            (#[trigger] final(pool_factory).stores@[h]).spec_purged_from(
                old(pool_factory).stores@[h],
                now,
            )
        } else {
            final(pool_factory).stores@[h] == old(pool_factory).stores@[h]
        }) by {
            if spec_chat_ids_of(string_views(entry_names@)).contains(
                old(pool_factory).chat_ids@[h],
            ) {
                let j = choose|j: int|
                    0 <= j < ids@.len() && ids@[j] == old(pool_factory).chat_ids@[h];
                assert(exists|j: int|
                    0 <= j < k && #[trigger] ids@[j] == old(pool_factory).chat_ids@[h]);
            } else {
                assert(!(exists|j: int|
                    0 <= j < k && #[trigger] ids@[j] == old(pool_factory).chat_ids@[h]));
            }
        }
    }
}

} // verus!
