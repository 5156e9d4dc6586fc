//! The tenant store factory: maps chat ids to their stores, creates a store
//! lazily on first use, caches it so every later caller gets the same one,
//! and enumerates the tenants present on disk from a directory listing.
use vstd::prelude::*;
use crate::store::ChatDatabase;
use crate::tenant_path::{parse_tenant_entry, spec_is_tenant_entry, spec_tenant_id_of};

verus! {

/// The predicate by which enumeration accepts a directory entry.
pub open spec fn tenant_entry_pred() -> spec_fn(Seq<char>) -> bool {
    |n: Seq<char>| spec_is_tenant_entry(n)
}

/// The views of a sequence of names.
pub open spec fn string_views(names: Seq<String>) -> Seq<Seq<char>> {
    names.map_values(|s: String| s@)
}

/// The chat ids denoted by the valid tenant entries among `names`, in
/// listing order; everything else is skipped.
pub open spec fn spec_chat_ids_of(names: Seq<Seq<char>>) -> Seq<i64> {
    names.filter(tenant_entry_pred()).map_values(|n: Seq<char>| spec_tenant_id_of(n))
}

/// In-memory model of the factory's tenant cache: `chat_ids[h]` owns
/// `stores[h]`, and a handle `h` plays the part of the shared store
/// reference that every caller for that tenant receives. The fields are
/// public so that contracts can speak about them; methods require and
/// preserve `wf`.
pub struct SqliteDatabasePoolFactory {
    pub db_root_path: String,
    pub max_connections_per_db: u32,
    pub retention_secs: u64,
    pub chat_ids: Vec<i64>,
    pub stores: Vec<ChatDatabase>,
}

impl SqliteDatabasePoolFactory {
    /// Well-formedness: one store per cached tenant, tenants unique, every
    /// store well-formed and sharing the process-wide retention window.
    pub open spec fn wf(self) -> bool {
        &&& self.chat_ids@.len() == self.stores@.len()
        &&& forall|i: int, j: int|
            0 <= i < j < self.chat_ids@.len() ==> #[trigger] self.chat_ids@[i]
                != #[trigger] self.chat_ids@[j]
        &&& forall|i: int|
            0 <= i < self.stores@.len() ==> (#[trigger] self.stores@[i]).wf()
        &&& forall|i: int|
            0 <= i < self.stores@.len() ==> (#[trigger] self.stores@[i]).spec_retention_secs()
                == self.retention_secs
    }

    /// This tenant already has a cached store.
    pub open spec fn spec_has_tenant(self, chat_id: i64) -> bool {
        self.chat_ids@.contains(chat_id)
    }

    /// The handle of this tenant's store; meaningful when the tenant is
    /// cached, where well-formedness makes it unique.
    pub open spec fn spec_handle_of(self, chat_id: i64) -> int {
        choose|h: int| 0 <= h < self.chat_ids@.len() && self.chat_ids@[h] == chat_id
    }

    /// This tenant's store; meaningful when the tenant is cached.
    pub open spec fn spec_store_for(self, chat_id: i64) -> ChatDatabase {
        self.stores@[self.spec_handle_of(chat_id)]
    }

    /// A factory with an empty cache over the given storage root,
    /// connection bound and retention window.
    pub fn new(db_root_path: String, max_connections_per_db: u32, retention_secs: u64) -> (r: Self)
        ensures
            r.wf(),
            r.db_root_path == db_root_path,
            r.max_connections_per_db == max_connections_per_db,
            r.retention_secs == retention_secs,
            r.chat_ids@ == Seq::<i64>::empty(),
            r.stores@ == Seq::<ChatDatabase>::empty(),
    {
        SqliteDatabasePoolFactory {
            db_root_path,
            max_connections_per_db,
            retention_secs,
            chat_ids: Vec::new(),
            stores: Vec::new(),
        }
    }

    /// Return the handle of this tenant's store, creating and caching a
    /// fresh empty store on first use. A tenant already cached gets its
    /// existing handle back and the factory is left untouched, so every
    /// caller for one tenant observes the same single store.
    pub fn create(&mut self, chat_id: i64) -> (h: usize)
        requires
            old(self).wf(),
        ensures
            final(self).wf(),
            final(self).db_root_path == old(self).db_root_path,
            final(self).max_connections_per_db == old(self).max_connections_per_db,
            final(self).retention_secs == old(self).retention_secs,
            h < final(self).chat_ids@.len(),
            final(self).chat_ids@[h as int] == chat_id,
            old(self).spec_has_tenant(chat_id) ==> *final(self) == *old(self),
            !old(self).spec_has_tenant(chat_id) ==> final(self).chat_ids@ == old(
                self,
            ).chat_ids@.push(chat_id) && final(self).stores@.len() == old(self).stores@.len() + 1
                && final(self).stores@.subrange(0, old(self).stores@.len() as int) == old(
                self,
            ).stores@ && final(self).stores@.last().spec_is_empty_with(old(self).retention_secs)
                && h == old(self).chat_ids@.len(),
    {
        let mut i: usize = 0;
        while i < self.chat_ids.len()
            invariant
                *self == *old(self),
                old(self).wf(),
                i <= self.chat_ids@.len(),
                forall|k: int| 0 <= k < i ==> #[trigger] self.chat_ids@[k] != chat_id,
            decreases self.chat_ids@.len() - i,
        {
            if self.chat_ids[i] == chat_id {
                return i;
            }
            i += 1;
        }
        let h = self.chat_ids.len();
        self.chat_ids.push(chat_id);
        self.stores.push(ChatDatabase::new(self.retention_secs));
        proof {
            assert(self.stores@.subrange(0, old(self).stores@.len() as int) =~= old(self).stores@);
            assert(!old(self).spec_has_tenant(chat_id));
        }
        h
    }

    /// Read access to a tenant's store through its handle.
    pub fn store(&self, h: usize) -> (r: &ChatDatabase)
        requires
            h < self.stores@.len(),
        ensures
            *r == self.stores@[h as int],
    {
        &self.stores[h]
    }

    /// Whether this tenant already has a cached store.
    pub fn has_tenant(&self, chat_id: i64) -> (r: bool)
        ensures
            r == self.spec_has_tenant(chat_id),
    {
        let mut i: usize = 0;
        while i < self.chat_ids.len()
            invariant
                i <= self.chat_ids@.len(),
                forall|k: int| 0 <= k < i ==> #[trigger] self.chat_ids@[k] != chat_id,
            decreases self.chat_ids@.len() - i,
        {
            if self.chat_ids[i] == chat_id {
                return true;
            }
            i += 1;
        }
        false
    }

    /// How many tenant stores the cache holds.
    pub fn cached_tenant_count(&self) -> (r: usize)
        ensures
            r == self.chat_ids@.len(),
    {
        self.chat_ids.len()
    }

    /// The chat ids present in a listing of the storage root: exactly the
    /// entries named `<chat id>.db`, in listing order; temporary files,
    /// foreign files and unparsable names are skipped. Needs no tenant to
    /// be cached.
    pub fn list_existing_chats(entry_names: &Vec<String>) -> (r: Vec<i64>)
        ensures
            r@ == spec_chat_ids_of(string_views(entry_names@)),
    {
        let mut out: Vec<i64> = Vec::new();
        let mut i: usize = 0;
        proof {
            broadcast use Seq::lemma_filter_push;

            assert(entry_names@.subrange(0, 0) =~= Seq::<String>::empty());
            assert(string_views(entry_names@.subrange(0, 0)) =~= Seq::<Seq<char>>::empty());
            assert(spec_chat_ids_of(string_views(entry_names@.subrange(0, 0))) =~= Seq::<
                i64,
            >::empty());
        }
        while i < entry_names.len()
            invariant
                i <= entry_names@.len(),
                out@ == spec_chat_ids_of(string_views(entry_names@.subrange(0, i as int))),
            decreases entry_names@.len() - i,
        {
            let parsed = parse_tenant_entry(entry_names[i].as_str());
            proof {
                broadcast use Seq::lemma_filter_push;

                let pre = string_views(entry_names@.subrange(0, i as int));
                let nm = entry_names@[i as int]@;
                assert(entry_names@.subrange(0, i + 1) =~= entry_names@.subrange(0, i as int).push(
                    entry_names@[i as int],
                ));
                assert(string_views(entry_names@.subrange(0, i + 1)) =~= pre.push(nm));
                assert(tenant_entry_pred()(nm) == spec_is_tenant_entry(nm));
                if spec_is_tenant_entry(nm) {
                    assert(pre.push(nm).filter(tenant_entry_pred()) == pre.filter(
                        tenant_entry_pred(),
                    ).push(nm));
                    assert(spec_chat_ids_of(pre.push(nm)) =~= spec_chat_ids_of(pre).push(
                        spec_tenant_id_of(nm),
                    ));
                } else {
                    assert(pre.push(nm).filter(tenant_entry_pred()) == pre.filter(
                        tenant_entry_pred(),
                    ));
                }
            }
            if let Some(chat_id) = parsed {
                out.push(chat_id);
            }
            i += 1;
        }
        proof {
            assert(entry_names@.subrange(0, entry_names@.len() as int) =~= entry_names@);
        }
        out
    }
}

/// A handle that names a tenant is the tenant's one handle.
pub proof fn lemma_handle_is(f: SqliteDatabasePoolFactory, chat_id: i64, h: int)
    requires
        f.wf(),
        0 <= h < f.chat_ids@.len(),
        f.chat_ids@[h] == chat_id,
    ensures
        f.spec_has_tenant(chat_id),
        f.spec_handle_of(chat_id) == h,
        f.spec_store_for(chat_id) == f.stores@[h],
{
    assert(f.chat_ids@[h] == chat_id);
    let h2 = f.spec_handle_of(chat_id);
    assert(0 <= h2 < f.chat_ids@.len() && f.chat_ids@[h2] == chat_id);
    lemma_one_store_per_tenant(f, h, h2);
}

/// At most one store exists per tenant: two handles that name the same
/// chat id are the same handle, so all concurrent callers for one tenant
/// share one instance.
pub proof fn lemma_one_store_per_tenant(f: SqliteDatabasePoolFactory, h1: int, h2: int)
    requires
        f.wf(),
        0 <= h1 < f.chat_ids@.len(),
        0 <= h2 < f.chat_ids@.len(),
        f.chat_ids@[h1] == f.chat_ids@[h2],
    ensures
        h1 == h2,
{
}

} // verus!
