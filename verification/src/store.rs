//! A single chat's (tenant's) dedup store: forwarded-message records and
//! seen-link records, checked and purged against a rolling retention window.
use vstd::prelude::*;
use crate::StoreError;

verus! {

/// One forwarded-message sighting. Records are keyed by `message_id` alone:
/// the same content re-forwarded by a different sender still counts as a
/// duplicate. `sender_id` is kept for diagnostics only.
#[derive(Clone, Copy)]
pub struct ForwardRecord {
    pub message_id: i64,
    pub sender_id: i64,
    pub seen_at: u64,
}

/// One seen-link sighting, keyed by the normalized URL text.
pub struct LinkRecord {
    pub normalized_url: String,
    pub seen_at: u64,
}

impl Clone for LinkRecord {
    fn clone(&self) -> (r: Self)
        ensures
            r == *self,
    {
        LinkRecord { normalized_url: self.normalized_url.clone(), seen_at: self.seen_at }
    }
}

/// A record is still inside the retention window at time `now`
/// (times are seconds; the window is anchored at the first sighting).
pub open spec fn recent_at(seen_at: u64, retention_secs: u64, now: u64) -> bool {
    seen_at + retention_secs >= now
}

/// The predicate that `purge` keeps forward records by.
pub open spec fn keep_forward(retention_secs: u64, now: u64) -> spec_fn(ForwardRecord) -> bool {
    |r: ForwardRecord| recent_at(r.seen_at, retention_secs, now)
}

/// The predicate that `purge` keeps link records by.
pub open spec fn keep_link(retention_secs: u64, now: u64) -> spec_fn(LinkRecord) -> bool {
    |r: LinkRecord| recent_at(r.seen_at, retention_secs, now)
}

/// In-memory model of one tenant's persistent store. The fields are public
/// so that contracts can speak about them; executable methods all require
/// and preserve `wf`.
pub struct ChatDatabase {
    pub retention_secs: u64,
    pub forwards: Vec<ForwardRecord>,
    pub links: Vec<LinkRecord>,
}

impl ChatDatabase {
    /// The retention window, in seconds, that this store judges staleness by.
    pub open spec fn spec_retention_secs(self) -> u64 {
        self.retention_secs
    }

    /// All forward records currently held, oldest first.
    pub open spec fn spec_forwards(self) -> Seq<ForwardRecord> {
        self.forwards@
    }

    /// All link records currently held, oldest first.
    pub open spec fn spec_links(self) -> Seq<LinkRecord> {
        self.links@
    }

    /// Well-formedness: message ids and normalized URLs are unique,
    /// mirroring the primary keys of the persisted tables.
    pub open spec fn wf(self) -> bool {
        &&& forall|i: int, j: int|
            0 <= i < j < self.forwards@.len() ==> #[trigger] self.forwards@[i].message_id
                != #[trigger] self.forwards@[j].message_id
        &&& forall|i: int, j: int|
            0 <= i < j < self.links@.len() ==> #[trigger] self.links@[i].normalized_url@
                != #[trigger] self.links@[j].normalized_url@
    }

    /// Some record (recent or stale) carries this message id.
    pub open spec fn spec_has_forward(self, message_id: i64) -> bool {
        exists|i: int|
            0 <= i < self.forwards@.len() && #[trigger] self.forwards@[i].message_id == message_id
    }

    /// Some record inside the retention window carries this message id.
    pub open spec fn spec_has_recent_forward(self, message_id: i64, now: u64) -> bool {
        exists|i: int|
            0 <= i < self.forwards@.len() && #[trigger] self.forwards@[i].message_id == message_id
                && recent_at(self.forwards@[i].seen_at, self.retention_secs, now)
    }

    /// Some record (recent or stale) carries this normalized URL.
    pub open spec fn spec_has_link(self, url: Seq<char>) -> bool {
        exists|i: int|
            0 <= i < self.links@.len() && #[trigger] self.links@[i].normalized_url@ == url
    }

    /// Some record inside the retention window carries this normalized URL.
    pub open spec fn spec_has_recent_link(self, url: Seq<char>, now: u64) -> bool {
        exists|i: int|
            0 <= i < self.links@.len() && #[trigger] self.links@[i].normalized_url@ == url
                && recent_at(self.links@[i].seen_at, self.retention_secs, now)
    }

    /// The store is empty with the given retention window: the state right
    /// after idempotent schema creation for a fresh tenant.
    pub open spec fn spec_is_empty_with(self, retention_secs: u64) -> bool {
        &&& self.retention_secs == retention_secs
        &&& self.forwards@ == Seq::<ForwardRecord>::empty()
        &&& self.links@ == Seq::<LinkRecord>::empty()
    }

    /// `self` is `from` with every record outside the retention window
    /// at `now` removed: the effect of one purge.
    pub open spec fn spec_purged_from(self, from: ChatDatabase, now: u64) -> bool {
        &&& self.retention_secs == from.retention_secs
        &&& self.forwards@ == from.forwards@.filter(
            keep_forward(from.retention_secs, now),
        )
        &&& self.links@ == from.links@.filter(keep_link(from.retention_secs, now))
    }

    /// A fresh, empty store for one tenant.
    pub fn new(retention_secs: u64) -> (r: Self)
        ensures
            r.wf(),
            r.spec_is_empty_with(retention_secs),
    {
        ChatDatabase { retention_secs, forwards: Vec::new(), links: Vec::new() }
    }

    /// True iff a forward record with this id exists and is still inside the
    /// retention window at `now`. Does not delete anything: expiry is the
    /// sweeper's job.
    pub fn check_forward_message(&self, forward_message_id: i64, now: u64) -> (r: bool)
        ensures
            r == self.spec_has_recent_forward(forward_message_id, now),
    {
        let mut i: usize = 0;
        while i < self.forwards.len()
            invariant
                i <= self.forwards@.len(),
                forall|k: int|
                    0 <= k < i ==> !(#[trigger] self.forwards@[k].message_id == forward_message_id
                        && recent_at(self.forwards@[k].seen_at, self.retention_secs, now)),
            decreases self.forwards@.len() - i,
        {
            let rec = &self.forwards[i];
            if rec.message_id == forward_message_id && is_recent(rec.seen_at, self.retention_secs, now) {
                return true;
            }
            i += 1;
        }
        false
    }

    /// True iff any record (recent or stale) carries this id: the model of
    /// the primary-key constraint on inserts.
    fn contains_forward(&self, forward_message_id: i64) -> (r: bool)
        ensures
            r == self.spec_has_forward(forward_message_id),
    {
        let mut i: usize = 0;
        while i < self.forwards.len()
            invariant
                i <= self.forwards@.len(),
                forall|k: int|
                    0 <= k < i ==> #[trigger] self.forwards@[k].message_id != forward_message_id,
            decreases self.forwards@.len() - i,
        {
            if self.forwards[i].message_id == forward_message_id {
                return true;
            }
            i += 1;
        }
        false
    }

    /// Insert a forward record seen at `now`. A second insert for the same id
    /// is rejected with `AlreadyRecorded` (the uniqueness violation of the
    /// persisted primary key) and leaves the store unchanged.
    pub fn add_forwarded_message(
        &mut self,
        forward_message_id: i64,
        sender_id: i64,
        now: u64,
    ) -> (r: Result<(), StoreError>)
        requires
            old(self).wf(),
        ensures
            final(self).wf(),
            final(self).spec_retention_secs() == old(self).spec_retention_secs(),
            final(self).spec_links() == old(self).spec_links(),
            old(self).spec_has_forward(forward_message_id) ==> r == Err::<(), StoreError>(
                StoreError::AlreadyRecorded,
            ) && *final(self) == *old(self),
            !old(self).spec_has_forward(forward_message_id) ==> r == Ok::<(), StoreError>(())
                && final(self).spec_forwards() == old(self).spec_forwards().push(
                ForwardRecord { message_id: forward_message_id, sender_id, seen_at: now },
            ),
    {
        if self.contains_forward(forward_message_id) {
            Err(StoreError::AlreadyRecorded)
        } else {
            self.forwards.push(
                ForwardRecord { message_id: forward_message_id, sender_id, seen_at: now },
            );
            Ok(())
        }
    }

    /// True iff a link record with this normalized URL exists and is still
    /// inside the retention window at `now`.
    pub fn has_recent_link(&self, normalized_url: &str, now: u64) -> (r: bool)
        ensures
            r == self.spec_has_recent_link(normalized_url@, now),
    {
        let needle: String = normalized_url.to_owned();
        let mut i: usize = 0;
        while i < self.links.len()
            invariant
                needle@ == normalized_url@,
                i <= self.links@.len(),
                forall|k: int|
                    0 <= k < i ==> !(#[trigger] self.links@[k].normalized_url@ == normalized_url@
                        && recent_at(self.links@[k].seen_at, self.retention_secs, now)),
            decreases self.links@.len() - i,
        {
            let rec = &self.links[i];
            if rec.normalized_url == needle && is_recent(rec.seen_at, self.retention_secs, now) {
                return true;
            }
            i += 1;
        }
        false
    }

    /// True iff any record (recent or stale) carries this normalized URL.
    fn contains_link(&self, normalized_url: &str) -> (r: bool)
        ensures
            r == self.spec_has_link(normalized_url@),
    {
        let needle: String = normalized_url.to_owned();
        let mut i: usize = 0;
        while i < self.links.len()
            invariant
                needle@ == normalized_url@,
                i <= self.links@.len(),
                forall|k: int|
                    0 <= k < i ==> #[trigger] self.links@[k].normalized_url@ != normalized_url@,
            decreases self.links@.len() - i,
        {
            if self.links[i].normalized_url == needle {
                return true;
            }
            i += 1;
        }
        false
    }

    /// Insert a link record seen at `now`; a second insert for the same URL
    /// is rejected with `AlreadyRecorded` and leaves the store unchanged.
    pub fn record_link(&mut self, normalized_url: &str, now: u64) -> (r: Result<(), StoreError>)
        requires
            old(self).wf(),
        ensures
            final(self).wf(),
            final(self).spec_retention_secs() == old(self).spec_retention_secs(),
            final(self).spec_forwards() == old(self).spec_forwards(),
            old(self).spec_has_link(normalized_url@) ==> r == Err::<(), StoreError>(
                StoreError::AlreadyRecorded,
            ) && *final(self) == *old(self),
            !old(self).spec_has_link(normalized_url@) ==> r == Ok::<(), StoreError>(())
                && final(self).spec_links().len() == old(self).spec_links().len() + 1
                && final(self).spec_links().subrange(0, old(self).spec_links().len() as int)
                == old(self).spec_links()
                && final(self).spec_links().last().normalized_url@ == normalized_url@
                && final(self).spec_links().last().seen_at == now,
    {
        if self.contains_link(normalized_url) {
            Err(StoreError::AlreadyRecorded)
        } else {
            let owned: String = normalized_url.to_owned();
            self.links.push(LinkRecord { normalized_url: owned, seen_at: now });
            proof {
                assert(self.links@.subrange(0, old(self).links@.len() as int) =~= old(
                    self,
                ).links@);
            }
            Ok(())
        }
    }

    /// Delete every record whose first sighting has fallen outside the
    /// retention window at `now`. Returns how many forward and link records
    /// were removed, in that order. Afterwards every surviving record is
    /// recent at `now`, so an immediate second purge removes nothing.
    pub fn clean_old_messages(&mut self, now: u64) -> (removed: (usize, usize))
        requires
            old(self).wf(),
        ensures
            final(self).wf(),
            final(self).spec_purged_from(*old(self), now),
            removed.0 == old(self).spec_forwards().len() - final(self).spec_forwards().len(),
            removed.1 == old(self).spec_links().len() - final(self).spec_links().len(),
            forall|i: int|
                0 <= i < final(self).spec_forwards().len() ==> recent_at(
                    (#[trigger] final(self).spec_forwards()[i]).seen_at,
                    final(self).spec_retention_secs(),
                    now,
                ),
            forall|i: int|
                0 <= i < final(self).spec_links().len() ==> recent_at(
                    (#[trigger] final(self).spec_links()[i]).seen_at,
                    final(self).spec_retention_secs(),
                    now,
                ),
    {
        let retention_secs = self.retention_secs;
        let kept_forwards = filter_recent_forwards(&self.forwards, retention_secs, now);
        let kept_links = filter_recent_links(&self.links, retention_secs, now);
        proof {
            broadcast use Seq::lemma_filter_len, Seq::lemma_filter_pred;

            lemma_filter_distinct_keys(
                self.forwards@,
                keep_forward(retention_secs, now),
                |r: ForwardRecord| r.message_id,
            );
            lemma_filter_distinct_keys(
                self.links@,
                keep_link(retention_secs, now),
                |r: LinkRecord| r.normalized_url@,
            );
        }
        let removed_forwards = self.forwards.len() - kept_forwards.len();
        let removed_links = self.links.len() - kept_links.len();
        self.forwards = kept_forwards;
        self.links = kept_links;
        (removed_forwards, removed_links)
    }
}

/// The executable form of `recent_at`, arranged so that the sum cannot
/// overflow.
fn is_recent(seen_at: u64, retention_secs: u64, now: u64) -> (r: bool)
    ensures
        r == recent_at(seen_at, retention_secs, now),
{
    seen_at >= now || now - seen_at <= retention_secs
}

/// Keep exactly the forward records still inside the retention window.
fn filter_recent_forwards(v: &Vec<ForwardRecord>, retention_secs: u64, now: u64) -> (out: Vec<
    ForwardRecord,
>)
    ensures
        out@ == v@.filter(keep_forward(retention_secs, now)),
{
    let mut out: Vec<ForwardRecord> = Vec::new();
    let mut i: usize = 0;
    proof {
        assert(v@.subrange(0, 0) =~= Seq::<ForwardRecord>::empty());
        reveal(Seq::filter);
    }
    while i < v.len()
        invariant
            i <= v@.len(),
            out@ == v@.subrange(0, i as int).filter(keep_forward(retention_secs, now)),
        decreases v@.len() - i,
    {
        let rec = v[i];
        proof {
            let s = v@.subrange(0, i as int);
            assert(v@.subrange(0, i + 1) =~= s.push(v@[i as int]));
            reveal(Seq::filter);
            assert(s.push(v@[i as int]).drop_last() =~= s);
        }
        if is_recent(rec.seen_at, retention_secs, now) {
            out.push(rec);
        }
        i += 1;
    }
    proof {
        assert(v@.subrange(0, v@.len() as int) =~= v@);
    }
    out
}

/// Keep exactly the link records still inside the retention window.
fn filter_recent_links(v: &Vec<LinkRecord>, retention_secs: u64, now: u64) -> (out: Vec<LinkRecord>)
    ensures
        out@ == v@.filter(keep_link(retention_secs, now)),
{
    let mut out: Vec<LinkRecord> = Vec::new();
    let mut i: usize = 0;
    proof {
        assert(v@.subrange(0, 0) =~= Seq::<LinkRecord>::empty());
        reveal(Seq::filter);
    }
    while i < v.len()
        invariant
            i <= v@.len(),
            out@ == v@.subrange(0, i as int).filter(keep_link(retention_secs, now)),
        decreases v@.len() - i,
    {
        let rec = v[i].clone();
        proof {
            let s = v@.subrange(0, i as int);
            assert(v@.subrange(0, i + 1) =~= s.push(v@[i as int]));
            reveal(Seq::filter);
            assert(s.push(v@[i as int]).drop_last() =~= s);
        }
        if is_recent(rec.seen_at, retention_secs, now) {
            out.push(rec);
        }
        i += 1;
    }
    proof {
        assert(v@.subrange(0, v@.len() as int) =~= v@);
    }
    out
}

/// Purging is idempotent: a second purge at the same time, with no inserts
/// in between, removes nothing.
pub proof fn lemma_purge_idempotent(
    db: ChatDatabase,
    once: ChatDatabase,
    twice: ChatDatabase,
    now: u64,
)
    requires
        once.spec_purged_from(db, now),
        twice.spec_purged_from(once, now),
    ensures
        twice.forwards@ == once.forwards@,
        twice.links@ == once.links@,
{
    broadcast use Seq::lemma_filter_pred;

    lemma_filter_all_kept(once.forwards@, keep_forward(db.retention_secs, now));
    lemma_filter_all_kept(once.links@, keep_link(db.retention_secs, now));
}

/// Recording a forward that was not yet present makes `has_recent_forward`
/// true for that id at every time still inside the retention window; and
/// once the window has elapsed, a single purge removes the record, after
/// which no check finds it at any time.
pub proof fn lemma_record_then_check(
    db: ChatDatabase,
    recorded: ChatDatabase,
    purged: ChatDatabase,
    message_id: i64,
    sender_id: i64,
    now: u64,
    check_time: u64,
    purge_time: u64,
)
    requires
        !db.spec_has_forward(message_id),
        recorded.retention_secs == db.retention_secs,
        recorded.forwards@ == db.forwards@.push(
            ForwardRecord { message_id, sender_id, seen_at: now },
        ),
        purged.spec_purged_from(recorded, purge_time),
    ensures
        recent_at(now, db.retention_secs, check_time) ==> recorded.spec_has_recent_forward(
            message_id,
            check_time,
        ),
        !recent_at(now, db.retention_secs, purge_time) ==> !purged.spec_has_forward(message_id),
        !recent_at(now, db.retention_secs, purge_time) ==> forall|t: u64|
            !purged.spec_has_recent_forward(message_id, t),
{
    let rec = ForwardRecord { message_id, sender_id, seen_at: now };
    let n = db.forwards@.len() as int;
    assert(recorded.forwards@[n] == rec);
    if recent_at(now, db.retention_secs, check_time) {
        assert(recorded.forwards@[n].message_id == message_id && recent_at(
            recorded.forwards@[n].seen_at,
            recorded.retention_secs,
            check_time,
        ));
    }
    if !recent_at(now, db.retention_secs, purge_time) {
        let pred = keep_forward(recorded.retention_secs, purge_time);
        assert forall|i: int|
            0 <= i < purged.forwards@.len() implies #[trigger] purged.forwards@[i].message_id
            != message_id by {
            broadcast use Seq::lemma_filter_pred;

            lemma_filter_subset(recorded.forwards@, pred);
            let x = recorded.forwards@.filter(pred)[i];
            let k = choose|k: int| 0 <= k < recorded.forwards@.len() && recorded.forwards@[k] == x;
            if k == n {
                assert(pred(rec));
            }
        }
    }
}

/// A filter whose predicate holds of every element keeps the sequence as
/// it is.
proof fn lemma_filter_all_kept<A>(s: Seq<A>, pred: spec_fn(A) -> bool)
    requires
        forall|i: int| 0 <= i < s.len() ==> pred(#[trigger] s[i]),
    ensures
        s.filter(pred) == s,
    decreases s.len(),
{
    reveal(Seq::filter);
    if s.len() != 0 {
        let t = s.drop_last();
        assert(forall|i: int| 0 <= i < t.len() ==> pred(#[trigger] t[i]));
        lemma_filter_all_kept(t, pred);
        assert(s[s.len() - 1] == s.last());
        assert(s.filter(pred) =~= s);
    }
}

/// Every element that a filter keeps was already in the sequence.
proof fn lemma_filter_subset<A>(s: Seq<A>, pred: spec_fn(A) -> bool)
    ensures
        forall|i: int|
            0 <= i < s.filter(pred).len() ==> s.contains(#[trigger] s.filter(pred)[i]),
    decreases s.len(),
{
    reveal(Seq::filter);
    if s.len() != 0 {
        let t = s.drop_last();
        lemma_filter_subset(t, pred);
        assert forall|i: int|
            0 <= i < s.filter(pred).len() implies s.contains(#[trigger] s.filter(pred)[i]) by {
            if pred(s.last()) && i == s.filter(pred).len() - 1 {
                assert(s.filter(pred)[i] == s.last());
                assert(s[s.len() - 1] == s.last());
            } else {
                let x = t.filter(pred)[i];
                assert(t.contains(x));
                let k = choose|k: int| 0 <= k < t.len() && t[k] == x;
                assert(s[k] == x);
            }
        }
    }
}

/// Filtering a sequence whose elements carry pairwise-distinct keys keeps
/// the keys pairwise distinct.
proof fn lemma_filter_distinct_keys<A, K>(s: Seq<A>, pred: spec_fn(A) -> bool, key: spec_fn(A) -> K)
    requires
        forall|i: int, j: int| 0 <= i < j < s.len() ==> key(#[trigger] s[i]) != key(#[trigger] s[j]),
    ensures
        forall|i: int, j: int|
            0 <= i < j < s.filter(pred).len() ==> key(#[trigger] s.filter(pred)[i]) != key(
                #[trigger] s.filter(pred)[j],
            ),
    decreases s.len(),
{
    reveal(Seq::filter);
    if s.len() != 0 {
        let t = s.drop_last();
        assert(forall|i: int, j: int|
            0 <= i < j < t.len() ==> key(#[trigger] t[i]) != key(#[trigger] t[j]));
        lemma_filter_distinct_keys(t, pred, key);
        let f = s.filter(pred);
        let ft = t.filter(pred);
        assert forall|i: int, j: int|
            0 <= i < j < f.len() implies key(#[trigger] f[i]) != key(#[trigger] f[j]) by {
            if pred(s.last()) && j == f.len() - 1 {
                assert(f[j] == s.last());
                assert(f[i] == ft[i]);
                lemma_filter_subset(t, pred);
                assert(t.contains(ft[i]));
                let k = choose|k: int| 0 <= k < t.len() && t[k] == ft[i];
                assert(s[k] == ft[i]);
                assert(s[s.len() - 1] == s.last());
                assert(key(s[k]) != key(s[s.len() - 1]));
            } else {
                assert(f[i] == ft[i] && f[j] == ft[j]);
            }
        }
    }
}

} // verus!
