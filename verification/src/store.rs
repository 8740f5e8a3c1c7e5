//! The message store's semantics.
//!
//! The persistent store is relational; this module states what its message
//! operations mean, as verified operations on an in-memory table.  The
//! shell that speaks SQL mirrors these operations statement for statement;
//! what the core proves here — fresh rows, the atomic scheduled-delivery
//! claim, deletion reporting a missing row as not found, expiry — is the
//! behaviour the rest of the library is verified against.
//!
//! Timestamps are `YYYY-MM-DD HH:MM:SS` UTC text, whose lexicographic
//! order is time order.

use vstd::prelude::*;
use crate::error::CoreError;
use crate::models::{clone_opt_string, Message};
use crate::strutil::{clone_string, lex_le, spec_lex_le};

verus! {

/// The fields a caller supplies when persisting a message.
#[derive(Debug)]
pub struct NewMessage {
    pub application_id: Option<i64>,
    pub topic_id: Option<i64>,
    pub user_id: Option<i64>,
    pub title: Option<String>,
    pub message: String,
    pub priority: i32,
    pub tags: Option<String>,
    pub click_url: Option<String>,
    pub icon_url: Option<String>,
    pub actions: Option<String>,
    pub extras: Option<String>,
    pub content_type: Option<String>,
    pub scheduled_for: Option<String>,
}

/// The message table: rows in insertion order, the next fresh id, and the
/// latest clock reading any operation has seen.
pub struct MessageStore {
    pub rows: Vec<Message>,
    pub next_id: i64,
    pub clock: String,
}

/// Whether a row is due for scheduled delivery at `now`: it is scheduled,
/// its moment has come, and nobody has claimed it yet.
pub open spec fn spec_due(m: Message, now: Seq<char>) -> bool {
    &&& m.scheduled_for matches Option::Some(s) && spec_lex_le(s@, now)
    &&& m.delivered_at is None
}

/// A row as the claim leaves it: delivered now.
pub open spec fn spec_deliver(m: Message, now: String) -> Message {
    Message { delivered_at: Option::Some(now), ..m }
}

/// What one sweep returns: the due rows, in table order, each stamped
/// delivered.
pub open spec fn spec_claimed(rows: Seq<Message>, now: String) -> Seq<Message> {
    rows.filter(|m: Message| spec_due(m, now@)).map_values(|m: Message| spec_deliver(m, now))
}

/// The sweep's delivery order: by scheduled moment first, then by id.  An
/// unscheduled row (which a sweep never returns) sorts as an empty moment.
pub open spec fn spec_sched_before(a: Message, b: Message) -> bool {
    let sa = match a.scheduled_for {
        Option::Some(s) => s@,
        Option::None => Seq::<char>::empty(),
    };
    let sb = match b.scheduled_for {
        Option::Some(s) => s@,
        Option::None => Seq::<char>::empty(),
    };
    if sa != sb {
        spec_lex_le(sa, sb)
    } else {
        a.id <= b.id
    }
}

/// The delivery order is total.
proof fn lemma_sched_before_total(a: Message, b: Message)
    ensures
        spec_sched_before(a, b) || spec_sched_before(b, a),
{
    let sa = match a.scheduled_for {
        Option::Some(s) => s@,
        Option::None => Seq::<char>::empty(),
    };
    let sb = match b.scheduled_for {
        Option::Some(s) => s@,
        Option::None => Seq::<char>::empty(),
    };
    crate::strutil::lemma_lex_le_total(sa, sb);
}

/// The delivery order is transitive.
proof fn lemma_sched_before_trans(a: Message, b: Message, c: Message)
    requires
        spec_sched_before(a, b),
        spec_sched_before(b, c),
    ensures
        spec_sched_before(a, c),
{
    let sa = match a.scheduled_for {
        Option::Some(s) => s@,
        Option::None => Seq::<char>::empty(),
    };
    let sb = match b.scheduled_for {
        Option::Some(s) => s@,
        Option::None => Seq::<char>::empty(),
    };
    let sc = match c.scheduled_for {
        Option::Some(s) => s@,
        Option::None => Seq::<char>::empty(),
    };
    if sa != sb && sb != sc {
        lemma_lex_le_trans(sa, sb, sc);
        if sa == sc {
            lemma_lex_le_antisym(sa, sb);
        }
    }
}

/// Lexicographic order is antisymmetric.
proof fn lemma_lex_le_antisym(a: Seq<char>, b: Seq<char>)
    requires
        spec_lex_le(a, b),
        spec_lex_le(b, a),
    ensures
        a == b,
    decreases a.len(),
{
    if a.len() > 0 && b.len() > 0 && a[0] == b[0] {
        lemma_lex_le_antisym(a.drop_first(), b.drop_first());
        assert(a.len() == b.len());
        assert forall|i: int| 0 <= i < a.len() implies a[i] == b[i] by {
            if i > 0 {
                assert(a.drop_first()[i - 1] == b.drop_first()[i - 1]);
            }
        }
        assert(a =~= b);
    } else {
        assert(a.len() == 0 && b.len() == 0);
        assert(a =~= b);
    }
}

/// Decide the delivery order of two rows.
fn sched_before(a: &Message, b: &Message) -> (r: bool)
    ensures
        r == spec_sched_before(*a, *b),
{
    proof {
        reveal_strlit("");
        assert(""@ =~= Seq::<char>::empty());
    }
    let sa: &str = match &a.scheduled_for {
        Some(s) => s.as_str(),
        None => "",
    };
    let sb: &str = match &b.scheduled_for {
        Some(s) => s.as_str(),
        None => "",
    };
    if crate::strutil::str_eq(sa, sb) {
        a.id <= b.id
    } else {
        lex_le(sa, sb)
    }
}

/// Sort rows into delivery order by insertion, keeping the collection.
fn sort_by_schedule(v: Vec<Message>) -> (r: Vec<Message>)
    ensures
        r@.to_multiset() == v@.to_multiset(),
        r@.len() == v@.len(),
        forall|x: int, y: int|
            0 <= x < y < r@.len() ==> spec_sched_before(#[trigger] r@[x], #[trigger] r@[y]),
{
    broadcast use vstd::seq_lib::group_to_multiset_ensures;

    let mut rest = v;
    let mut out: Vec<Message> = Vec::new();
    proof {
        assert(out@.to_multiset().add(rest@.to_multiset()) =~= v@.to_multiset());
    }
    while rest.len() > 0
        invariant
            out@.to_multiset().add(rest@.to_multiset()) == v@.to_multiset(),
            out@.len() + rest@.len() == v@.len(),
            forall|x: int, y: int|
                0 <= x < y < out@.len() ==> spec_sched_before(#[trigger] out@[x], #[trigger] out@[y]),
        decreases rest@.len(),
    {
        broadcast use vstd::seq_lib::group_to_multiset_ensures;

        let ghost rest_before = rest@;
        let ghost out_before = out@;
        let item = rest.remove(0);
        proof {
            assert(rest_before.remove(0) =~= rest@);
        }
        let mut p = out.len();
        while p > 0 && !sched_before(&out[p - 1], &item)
            invariant
                p <= out@.len(),
                out@ == out_before,
                forall|q: int|
                    p <= q < out@.len() ==> !spec_sched_before(#[trigger] out@[q], item),
            decreases p,
        {
            p = p - 1;
        }
        proof {
            assert forall|x: int, y: int|
                0 <= x < y < out@.insert(p as int, item).len() implies spec_sched_before(
                #[trigger] out@.insert(p as int, item)[x],
                #[trigger] out@.insert(p as int, item)[y],
            ) by {
                let w = out@.insert(p as int, item);
                if y < p {
                } else if x >= p + 1 {
                    assert(w[x] == out@[x - 1] && w[y] == out@[y - 1]);
                } else if x < p && y == p {
                    // everything left of the insertion point sorts before the item
                    assert(spec_sched_before(out@[p - 1], item));
                    if x < p - 1 {
                        assert(spec_sched_before(out@[x], out@[p - 1]));
                        lemma_sched_before_trans(out@[x], out@[p - 1], item);
                    }
                    assert(w[x] == out@[x] && w[y] == item);
                } else if x == p && y > p {
                    assert(!spec_sched_before(out@[y - 1], item));
                    lemma_sched_before_total(item, out@[y - 1]);
                    assert(w[x] == item && w[y] == out@[y - 1]);
                } else {
                    // x < p < y: across the insertion point
                    assert(w[x] == out@[x] && w[y] == out@[y - 1]);
                    assert(spec_sched_before(out@[p - 1], item) || p == 0);
                    assert(!spec_sched_before(out@[y - 1], item));
                    lemma_sched_before_total(item, out@[y - 1]);
                    if x < p - 1 {
                        assert(spec_sched_before(out@[x], out@[p - 1]));
                    }
                    assert(x <= y - 1 - 1 + 1);
                    assert(spec_sched_before(out@[x], out@[y - 1]));
                }
            }
        }
        out.insert(p, item);
    }
    proof {
        assert(rest@.to_multiset() =~= Seq::<Message>::empty().to_multiset());
        assert(out@.to_multiset() =~= out@.to_multiset().add(rest@.to_multiset()));
    }
    out
}

/// Whether a row with the given id exists.
pub open spec fn spec_has_id(rows: Seq<Message>, id: i64) -> bool {
    exists|i: int| 0 <= i < rows.len() && (#[trigger] rows[i]).id == id
}

/// Whether a value with an optional expiry is expired at `now`.
pub open spec fn spec_expired(expires_at: Option<String>, now: Seq<char>) -> bool {
    expires_at matches Option::Some(e) && spec_lex_le(e@, now)
}

/// Decide expiry of a stored row or attachment at `now`.
pub fn is_expired(expires_at: &Option<String>, now: &str) -> (r: bool)
    ensures
        r == spec_expired(*expires_at, now@),
{
    match expires_at {
        Some(e) => lex_le(e.as_str(), now),
        None => false,
    }
}

/// Clone a message row.
pub fn clone_message(m: &Message) -> (r: Message)
    ensures
        r == *m,
{
    Message {
        id: m.id,
        application_id: m.application_id,
        topic_id: m.topic_id,
        user_id: m.user_id,
        title: clone_opt_string(&m.title),
        message: clone_string(&m.message),
        priority: m.priority,
        tags: clone_opt_string(&m.tags),
        click_url: clone_opt_string(&m.click_url),
        icon_url: clone_opt_string(&m.icon_url),
        actions: clone_opt_string(&m.actions),
        extras: clone_opt_string(&m.extras),
        content_type: clone_opt_string(&m.content_type),
        scheduled_for: clone_opt_string(&m.scheduled_for),
        delivered_at: clone_opt_string(&m.delivered_at),
        expires_at: clone_opt_string(&m.expires_at),
        created_at: clone_string(&m.created_at),
    }
}

impl MessageStore {
    /// Well-formedness: ids are strictly increasing (hence unique) and
    /// below the next fresh id; every row was created no later than the
    /// clock; and a delivered row was delivered no earlier than it was
    /// created — in particular, an unscheduled row's `delivered_at` is
    /// null or at or after its `created_at`.
    pub open spec fn wf(self) -> bool {
        &&& forall|i: int, j: int|
            0 <= i < j < self.rows@.len() ==> (#[trigger] self.rows@[i]).id < (
            #[trigger] self.rows@[j]).id
        &&& forall|i: int| 0 <= i < self.rows@.len() ==> (#[trigger] self.rows@[i]).id < self.next_id
        &&& forall|i: int|
            0 <= i < self.rows@.len() ==> spec_lex_le(
                (#[trigger] self.rows@[i]).created_at@,
                self.clock@,
            )
        &&& forall|i: int|
            0 <= i < self.rows@.len() ==> ((#[trigger] self.rows@[i]).delivered_at matches
            Option::Some(d) ==> spec_lex_le(self.rows@[i].created_at@, d@))
    }

    /// An empty store.
    pub fn new() -> (r: MessageStore)
        ensures
            r.wf(),
            r.rows@.len() == 0,
            r.next_id == 1,
    {
        MessageStore { rows: Vec::new(), next_id: 1, clock: String::new() }
    }

    /// Persist a message: a fresh id, the given fields, created at `now`,
    /// not yet delivered, no expiry.  The row is appended and returned.
    pub fn create(&mut self, new: NewMessage, now: &String) -> (r: Message)
        requires
            old(self).wf(),
            old(self).next_id < i64::MAX,
            spec_lex_le(old(self).clock@, now@),
        ensures
            final(self).wf(),
            final(self).rows@ == old(self).rows@.push(r),
            final(self).next_id == old(self).next_id + 1,
            final(self).clock@ == now@,
            r.id == old(self).next_id,
            !spec_has_id(old(self).rows@, r.id),
            r.application_id == new.application_id,
            r.topic_id == new.topic_id,
            r.user_id == new.user_id,
            r.title == new.title,
            r.message == new.message,
            r.priority == new.priority,
            r.tags == new.tags,
            r.click_url == new.click_url,
            r.icon_url == new.icon_url,
            r.actions == new.actions,
            r.extras == new.extras,
            r.content_type == new.content_type,
            r.scheduled_for == new.scheduled_for,
            r.delivered_at is None,
            r.expires_at is None,
            r.created_at@ == now@,
    {
        let id = self.next_id;
        let row = Message {
            id,
            application_id: new.application_id,
            topic_id: new.topic_id,
            user_id: new.user_id,
            title: new.title,
            message: new.message,
            priority: new.priority,
            tags: new.tags,
            click_url: new.click_url,
            icon_url: new.icon_url,
            actions: new.actions,
            extras: new.extras,
            content_type: new.content_type,
            scheduled_for: new.scheduled_for,
            delivered_at: None,
            expires_at: None,
            created_at: clone_string(now),
        };
        let copy = clone_message(&row);
        self.rows.push(row);
        self.next_id = id + 1;
        self.clock = clone_string(now);
        proof {
            assert forall|i: int| 0 <= i < self.rows@.len() implies spec_lex_le(
                (#[trigger] self.rows@[i]).created_at@,
                self.clock@,
            ) by {
                if i < self.rows@.len() - 1 {
                    crate::strutil::lemma_lex_le_total(self.rows@[i].created_at@, old(self).clock@);
                    lemma_lex_le_trans(self.rows@[i].created_at@, old(self).clock@, now@);
                } else {
                    lemma_lex_le_refl(now@);
                }
            }
            if spec_has_id(old(self).rows@, copy.id) {
                let i = choose|i: int|
                    0 <= i < old(self).rows@.len() && (#[trigger] old(self).rows@[i]).id == copy.id;
            }
        }
        copy
    }

    /// Find a row by id.
    pub fn find_by_id(&self, id: i64) -> (r: Option<Message>)
        ensures
            r matches Some(m) ==> spec_has_id(self.rows@, id) && exists|i: int|
                0 <= i < self.rows@.len() && self.rows@[i] == m && m.id == id,
            r is None ==> !spec_has_id(self.rows@, id),
    {
        let n = self.rows.len();
        let mut i: usize = 0;
        while i < n
            invariant
                n == self.rows@.len(),
                i <= n,
                forall|j: int| 0 <= j < i ==> (#[trigger] self.rows@[j]).id != id,
            decreases n - i,
        {
            if self.rows[i].id == id {
                return Some(clone_message(&self.rows[i]));
            }
            i = i + 1;
        }
        None
    }

    /// Delete a row by id.  A missing row is reported as not found, never
    /// as anything else; afterwards no row carries the id, so a repeated
    /// delete is owed `NotFound`.
    pub fn delete_by_id(&mut self, id: i64) -> (r: Result<(), CoreError>)
        requires
            old(self).wf(),
        ensures
            final(self).wf(),
            final(self).next_id == old(self).next_id,
            final(self).clock == old(self).clock,
            r is Ok <==> spec_has_id(old(self).rows@, id),
            r matches Err(e) ==> e matches CoreError::NotFound(_),
            !spec_has_id(final(self).rows@, id),
            final(self).rows@ == old(self).rows@.filter(|m: Message| m.id != id),
    {
        let ghost orig = self.rows@;
        let ghost pred = |m: Message| m.id != id;
        let n = self.rows.len();
        let mut out: Vec<Message> = Vec::new();
        let mut found = false;
        proof {
            reveal(Seq::filter);
            assert(orig.subrange(0, 0) =~= Seq::<Message>::empty());
        }
        let mut i: usize = 0;
        while i < n
            invariant
                n == orig.len(),
                self.rows@ == orig,
                i <= n,
                out@ == orig.subrange(0, i as int).filter(pred),
                pred == (|m: Message| m.id != id),
                found <==> spec_has_id(orig.subrange(0, i as int), id),
            decreases n - i,
        {
            let keep = self.rows[i].id != id;
            if keep {
                out.push(clone_message(&self.rows[i]));
            } else {
                found = true;
            }
            i = i + 1;
            proof {
                reveal(Seq::filter);
                assert(orig.subrange(0, i as int).drop_last() =~= orig.subrange(0, i - 1));
                assert(orig.subrange(0, i as int).last() == orig[i - 1]);
                assert(out@ =~= orig.subrange(0, i as int).filter(pred));
                if found {
                    if keep {
                    } else {
                        assert(orig.subrange(0, i as int)[i - 1].id == id);
                    }
                    assert(spec_has_id(orig.subrange(0, i as int), id)) by {
                        if !(orig[i - 1].id == id) {
                            let w = choose|w: int|
                                0 <= w < i - 1 && (#[trigger] orig.subrange(0, i - 1)[w]).id == id;
                            assert(orig.subrange(0, i as int)[w].id == id);
                        }
                    }
                } else {
                    assert(forall|j: int|
                        0 <= j < i ==> (#[trigger] orig.subrange(0, i as int)[j]).id != id);
                }
            }
        }
        proof {
            assert(orig.subrange(0, n as int) =~= orig);
            broadcast use vstd::seq_lib::group_filter_ensures;

        }
        self.rows = out;
        proof {
            assert forall|a: int, b: int| 0 <= a < b < self.rows@.len() implies (
            #[trigger] self.rows@[a]).id < (#[trigger] self.rows@[b]).id by {
                lemma_filter_keeps_order(orig, pred, a, b);
            }
            assert forall|a: int| 0 <= a < self.rows@.len() implies !pred(self.rows@[a])
                || self.rows@[a].id != id by {
            }
            assert(!spec_has_id(self.rows@, id)) by {
                if spec_has_id(self.rows@, id) {
                    let w = choose|w: int|
                        0 <= w < self.rows@.len() && (#[trigger] self.rows@[w]).id == id;
                    assert(pred(self.rows@[w]));
                }
            }
            assert forall|a: int| 0 <= a < self.rows@.len() implies (
            #[trigger] self.rows@[a]).id < self.next_id && spec_lex_le(
                self.rows@[a].created_at@,
                self.clock@,
            ) && (self.rows@[a].delivered_at matches Option::Some(d) ==> spec_lex_le(
                self.rows@[a].created_at@,
                d@,
            )) by {
                lemma_filter_element_from(orig, pred, a);
                let j = choose|j: int| 0 <= j < orig.len() && orig[j] == self.rows@[a];
            }
        }
        if found {
            Ok(())
        } else {
            Err(CoreError::NotFound(String::from_str("Message not found")))
        }
    }

    /// Law: deleting the same id twice reports the second delete as not
    /// found — a repeat delete is a client error, never a server one.
    pub fn delete_twice(&mut self, id: i64) -> (r: Result<(), CoreError>)
        requires
            old(self).wf(),
        ensures
            r matches Err(e) && e matches CoreError::NotFound(_),
    {
        let _first = self.delete_by_id(id);
        self.delete_by_id(id)
    }

    /// The atomic scheduled-delivery claim: stamp every due row delivered
    /// at `now`, in one step, and return exactly those rows as delivered,
    /// ordered by scheduled moment and then by id.  A row returned had
    /// `delivered_at` null before and `now` after; no other row changes,
    /// the clock does not move, and no row is due afterwards, so no second
    /// sweep (or concurrent worker serialized after this one) can claim it
    /// again.
    pub fn claim_due(&mut self, now: &String) -> (r: Vec<Message>)
        requires
            old(self).wf(),
            spec_lex_le(old(self).clock@, now@),
        ensures
            final(self).wf(),
            final(self).next_id == old(self).next_id,
            final(self).clock == old(self).clock,
            final(self).rows@.len() == old(self).rows@.len(),
            r@.to_multiset() == spec_claimed(old(self).rows@, *now).to_multiset(),
            r@.len() == spec_claimed(old(self).rows@, *now).len(),
            forall|x: int|
                0 <= x < r@.len() ==> spec_claimed(old(self).rows@, *now).contains(
                    #[trigger] r@[x],
                ),
            forall|x: int, y: int|
                0 <= x < y < r@.len() ==> spec_sched_before(#[trigger] r@[x], #[trigger] r@[y]),
            forall|i: int|
                0 <= i < old(self).rows@.len() ==> #[trigger] final(self).rows@[i] == (
                if spec_due(old(self).rows@[i], now@) {
                    spec_deliver(old(self).rows@[i], *now)
                } else {
                    old(self).rows@[i]
                }),
            forall|i: int|
                0 <= i < final(self).rows@.len() ==> !spec_due(
                    #[trigger] final(self).rows@[i],
                    now@,
                ),
    {
        let ghost orig = self.rows@;
        let ghost duep = |m: Message| spec_due(m, now@);
        let n = self.rows.len();
        let mut claimed: Vec<Message> = Vec::new();
        proof {
            reveal(Seq::filter);
            assert(orig.subrange(0, 0) =~= Seq::<Message>::empty());
        }
        let mut i: usize = 0;
        while i < n
            invariant
                n == orig.len(),
                n == self.rows@.len(),
                i <= n,
                old(self).wf(),
                orig == old(self).rows@,
                spec_lex_le(old(self).clock@, now@),
                self.next_id == old(self).next_id,
                self.clock == old(self).clock,
                claimed@ == spec_claimed(orig.subrange(0, i as int), *now),
                forall|j: int|
                    0 <= j < i ==> #[trigger] self.rows@[j] == (if spec_due(orig[j], now@) {
                        spec_deliver(orig[j], *now)
                    } else {
                        orig[j]
                    }),
                forall|j: int| i <= j < n ==> #[trigger] self.rows@[j] == orig[j],
            decreases n - i,
        {
            let due = match &self.rows[i].scheduled_for {
                Some(s) => {
                    let sched = lex_le(s.as_str(), now.as_str());
                    let undelivered = match &self.rows[i].delivered_at {
                        Some(_) => false,
                        None => true,
                    };
                    sched && undelivered
                },
                None => false,
            };
            let ghost claimed_before = claimed@;
            if due {
                let mut updated = clone_message(&self.rows[i]);
                updated.delivered_at = Some(clone_string(now));
                let copy = clone_message(&updated);
                self.rows[i] = updated;
                claimed.push(copy);
                proof {
                    assert(self.rows@[i as int] == spec_deliver(orig[i as int], *now));
                    assert(claimed@.drop_last() =~= claimed_before);
                }
            }
            i = i + 1;
            proof {
                reveal(Seq::filter);
                let pre = orig.subrange(0, i - 1);
                let cur = orig.subrange(0, i as int);
                assert(cur.drop_last() =~= pre);
                assert(cur.last() == orig[i - 1]);
                assert(cur.filter(duep) == if duep(orig[i - 1]) {
                    pre.filter(duep).push(orig[i - 1])
                } else {
                    pre.filter(duep)
                });
                assert(claimed@ =~= spec_claimed(cur, *now));
            }
        }
        proof {
            assert(orig.subrange(0, n as int) =~= orig);
            assert forall|j: int| 0 <= j < self.rows@.len() implies !spec_due(
                #[trigger] self.rows@[j],
                now@,
            ) by {
                if spec_due(orig[j], now@) {
                    assert(self.rows@[j] == spec_deliver(orig[j], *now));
                }
            }
            assert forall|j: int| 0 <= j < self.rows@.len() implies spec_lex_le(
                (#[trigger] self.rows@[j]).created_at@,
                self.clock@,
            ) && ((#[trigger] self.rows@[j]).delivered_at matches Option::Some(d) ==> spec_lex_le(
                self.rows@[j].created_at@,
                d@,
            )) by {
                if spec_due(orig[j], now@) {
                    lemma_lex_le_trans(orig[j].created_at@, old(self).clock@, now@);
                }
            }
        }
        let sorted = sort_by_schedule(claimed);
        proof {
            broadcast use vstd::seq_lib::group_to_multiset_ensures;

            assert forall|x: int| 0 <= x < sorted@.len() implies spec_claimed(
                old(self).rows@,
                *now,
            ).contains(#[trigger] sorted@[x]) by {
                assert(sorted@.to_multiset().contains(sorted@[x]));
                assert(spec_claimed(old(self).rows@, *now).to_multiset().contains(sorted@[x]));
            }
        }
        sorted
    }

    /// Stamp an expiry moment onto a row.
    pub fn set_expires_at(&mut self, id: i64, expires_at: &String) -> (r: Result<(), CoreError>)
        requires
            old(self).wf(),
        ensures
            final(self).wf(),
            r is Ok <==> spec_has_id(old(self).rows@, id),
            final(self).rows@.len() == old(self).rows@.len(),
            forall|i: int|
                0 <= i < old(self).rows@.len() ==> #[trigger] final(self).rows@[i] == (
                if old(self).rows@[i].id == id {
                    Message { expires_at: Option::Some(*expires_at), ..old(self).rows@[i] }
                } else {
                    old(self).rows@[i]
                }),
    {
        let ghost orig = self.rows@;
        let n = self.rows.len();
        let mut i: usize = 0;
        while i < n
            invariant
                n == orig.len(),
                n == self.rows@.len(),
                i <= n,
                old(self).wf(),
                orig == old(self).rows@,
                self.next_id == old(self).next_id,
                self.clock == old(self).clock,
                forall|j: int| 0 <= j < n ==> #[trigger] self.rows@[j] == orig[j],
                forall|j: int| 0 <= j < i ==> (#[trigger] orig[j]).id != id,
            decreases n - i,
        {
            if self.rows[i].id == id {
                let mut updated = clone_message(&self.rows[i]);
                updated.expires_at = Some(clone_string(expires_at));
                self.rows[i] = updated;
                proof {
                    assert forall|j: int|
                        0 <= j < n implies #[trigger] self.rows@[j] == (if orig[j].id == id {
                        Message { expires_at: Option::Some(*expires_at), ..orig[j] }
                    } else {
                        orig[j]
                    }) by {
                        if j != i {
                            assert(self.rows@[j] == orig[j]);
                            if orig[j].id == id {
                                if j < i {
                                    assert(orig[j].id < orig[i as int].id);
                                } else {
                                    assert(orig[i as int].id < orig[j].id);
                                }
                            }
                        }
                    }
                }
                return Ok(());
            }
            i = i + 1;
        }
        proof {
            assert(!spec_has_id(orig, id)) by {
                if spec_has_id(orig, id) {
                    let w = choose|w: int| 0 <= w < orig.len() && (#[trigger] orig[w]).id == id;
                }
            }
        }
        Err(CoreError::NotFound(String::from_str("Message not found")))
    }

    /// Remove every expired row, returning how many went.  This is the
    /// expiry reaper's one statement.
    pub fn delete_expired(&mut self, now: &str) -> (r: usize)
        requires
            old(self).wf(),
        ensures
            final(self).wf(),
            final(self).rows@ == old(self).rows@.filter(
                |m: Message| !spec_expired(m.expires_at, now@),
            ),
            r == old(self).rows@.len() - final(self).rows@.len(),
    {
        let ghost orig = self.rows@;
        let ghost pred = |m: Message| !spec_expired(m.expires_at, now@);
        let n = self.rows.len();
        let mut out: Vec<Message> = Vec::new();
        proof {
            reveal(Seq::filter);
            assert(orig.subrange(0, 0) =~= Seq::<Message>::empty());
        }
        let mut i: usize = 0;
        while i < n
            invariant
                n == orig.len(),
                self.rows@ == orig,
                old(self).wf(),
                orig == old(self).rows@,
                self.next_id == old(self).next_id,
                self.clock == old(self).clock,
                i <= n,
                out@ == orig.subrange(0, i as int).filter(pred),
                pred == (|m: Message| !spec_expired(m.expires_at, now@)),
            decreases n - i,
        {
            if !is_expired(&self.rows[i].expires_at, now) {
                out.push(clone_message(&self.rows[i]));
            }
            i = i + 1;
            proof {
                reveal(Seq::filter);
                assert(orig.subrange(0, i as int).drop_last() =~= orig.subrange(0, i - 1));
                assert(orig.subrange(0, i as int).last() == orig[i - 1]);
                assert(out@ =~= orig.subrange(0, i as int).filter(pred));
            }
        }
        proof {
            assert(orig.subrange(0, n as int) =~= orig);
            broadcast use vstd::seq_lib::group_filter_ensures;

            assert forall|a: int, b: int| 0 <= a < b < out@.len() implies (
            #[trigger] out@[a]).id < (#[trigger] out@[b]).id by {
                lemma_filter_keeps_order(orig, pred, a, b);
            }
            assert forall|a: int| 0 <= a < out@.len() implies (#[trigger] out@[a]).id
                < self.next_id && spec_lex_le(out@[a].created_at@, self.clock@) && (
            out@[a].delivered_at matches Option::Some(d) ==> spec_lex_le(
                out@[a].created_at@,
                d@,
            )) by {
                lemma_filter_element_from(orig, pred, a);
                let j = choose|j: int| 0 <= j < orig.len() && orig[j] == out@[a];
            }
        }
        let kept = out.len();
        let removed = n - kept;
        self.rows = out;
        removed
    }
}

/// Which rows a listing selects.
pub enum PageScope {
    /// Rows of one topic.
    Topic(i64),
    /// Rows of one application.
    Application(i64),
    /// Rows of any of a user's applications.
    Applications(Vec<i64>),
}

/// Whether a row falls in a scope.
pub open spec fn spec_in_scope(scope: PageScope, m: Message) -> bool {
    match scope {
        PageScope::Topic(tid) => m.topic_id == Option::Some(tid),
        PageScope::Application(aid) => m.application_id == Option::Some(aid),
        PageScope::Applications(ids) => m.application_id matches Option::Some(aid) && ids@.contains(
            aid,
        ),
    }
}

/// What a page shows: the scope's rows with id beyond `since`, newest
/// first, at most `limit` of them.
pub open spec fn spec_page(rows: Seq<Message>, scope: PageScope, since: i64, limit: int) -> Seq<
    Message,
> {
    let matching = rows.filter(|m: Message| spec_in_scope(scope, m) && m.id > since).reverse();
    matching.take(if limit < matching.len() {
        limit
    } else {
        matching.len() as int
    })
}

fn in_scope(scope: &PageScope, m: &Message) -> (r: bool)
    ensures
        r == spec_in_scope(*scope, *m),
{
    match scope {
        PageScope::Topic(tid) => match m.topic_id {
            Some(t) => t == *tid,
            None => false,
        },
        PageScope::Application(aid) => match m.application_id {
            Some(a) => a == *aid,
            None => false,
        },
        PageScope::Applications(ids) => match m.application_id {
            Some(a) => contains_id(ids, a),
            None => false,
        },
    }
}

/// Whether a list of ids holds the given one.
fn contains_id(ids: &Vec<i64>, a: i64) -> (r: bool)
    ensures
        r == ids@.contains(a),
{
    let n = ids.len();
    let mut i: usize = 0;
    while i < n
        invariant
            n == ids@.len(),
            i <= n,
            forall|j: int| 0 <= j < i ==> ids@[j] != a,
        decreases n - i,
    {
        if ids[i] == a {
            return true;
        }
        i = i + 1;
    }
    proof {
        if ids@.contains(a) {
            let w = choose|w: int| 0 <= w < ids@.len() && ids@[w] == a;
        }
    }
    false
}

impl MessageStore {
    /// Page rows: those in scope with id beyond `since`, newest first, at
    /// most `limit`.
    pub fn page(&self, scope: &PageScope, since: i64, limit: usize) -> (r: Vec<Message>)
        ensures
            r@ == spec_page(self.rows@, *scope, since, limit as int),
            r@.len() <= limit,
    {
        let ghost pred = |m: Message| spec_in_scope(*scope, m) && m.id > since;
        let ghost all = self.rows@;
        let n = self.rows.len();
        let mut out: Vec<Message> = Vec::new();
        let mut i: usize = n;
        proof {
            reveal(Seq::filter);
            assert(all.subrange(n as int, n as int) =~= Seq::<Message>::empty());
            assert(out@ =~= all.subrange(n as int, n as int).filter(pred).reverse());
        }
        while i > 0 && out.len() < limit
            invariant
                n == all.len(),
                all == self.rows@,
                i <= n,
                out@ == all.subrange(i as int, n as int).filter(pred).reverse(),
                out@.len() <= limit,
                pred == (|m: Message| spec_in_scope(*scope, m) && m.id > since),
            decreases i,
        {
            i = i - 1;
            let keep = in_scope(scope, &self.rows[i]) && self.rows[i].id > since;
            let ghost tail = all.subrange(i + 1, n as int);
            let ghost head = all.subrange(i as int, i + 1);
            proof {
                assert(all.subrange(i as int, n as int) =~= head + tail);
                Seq::filter_distributes_over_add(head, tail, pred);
                reveal(Seq::filter);
                assert(head.drop_last() =~= Seq::<Message>::empty());
                assert(head.last() == all[i as int]);
            }
            if keep {
                let ghost out_before = out@;
                out.push(clone_message(&self.rows[i]));
                proof {
                    reveal(Seq::filter);
                    let fa = all.subrange(i as int, n as int).filter(pred);
                    let fb = seq![all[i as int]] + tail.filter(pred);
                    assert(out_before == tail.filter(pred).reverse());
                    assert(head.filter(pred) =~= seq![all[i as int]]);
                    assert(fa =~= fb);
                    assert(fa == fb);
                    assert(out@ == out_before.push(all[i as int]));
                    assert(fb.reverse() =~= out_before.push(all[i as int]));
                    assert(fa.reverse() == fb.reverse());
                    assert(out@ == fa.reverse());
                }
            } else {
                proof {
                    reveal(Seq::filter);
                    assert(!pred(all[i as int]));
                    assert(head.len() == 1);
                    assert(head.last() == all[i as int]);
                    assert(head.drop_last().len() == 0);
                    assert(head.drop_last().filter(pred) =~= Seq::<Message>::empty());
                    assert(head.filter(pred) =~= Seq::<Message>::empty());
                    assert(all.subrange(i as int, n as int).filter(pred) =~= tail.filter(pred));
                    assert(out@ =~= all.subrange(i as int, n as int).filter(pred).reverse());
                }
            }
        }
        proof {
            let matching = all.filter(pred).reverse();
            let seen = all.subrange(i as int, n as int).filter(pred).reverse();
            assert(all =~= all.subrange(0, i as int) + all.subrange(i as int, n as int));
            Seq::filter_distributes_over_add(
                all.subrange(0, i as int),
                all.subrange(i as int, n as int),
                pred,
            );
            assert(matching =~= seen + all.subrange(0, i as int).filter(pred).reverse());
            if i == 0 {
                assert(all.subrange(0, 0).filter(pred).reverse() =~= Seq::<Message>::empty()) by {
                    reveal(Seq::filter);
                }
                assert(out@ =~= matching.take(
                    if (limit as int) < matching.len() {
                        limit as int
                    } else {
                        matching.len() as int
                    },
                ));
            } else {
                assert(out@.len() == limit);
                assert(out@ =~= matching.take(limit as int));
            }
        }
        out
    }

    /// How many rows the store holds.
    pub fn count(&self) -> (r: usize)
        ensures
            r == self.rows@.len(),
    {
        self.rows.len()
    }

    /// How many rows were created at or after `since`.
    pub fn count_since(&self, since: &str) -> (r: usize)
        ensures
            r == self.rows@.filter(
                |m: Message| spec_lex_le(since@, m.created_at@),
            ).len(),
    {
        let ghost pred = |m: Message| spec_lex_le(since@, m.created_at@);
        let ghost all = self.rows@;
        let n = self.rows.len();
        let mut count: usize = 0;
        proof {
            reveal(Seq::filter);
            assert(all.subrange(0, 0) =~= Seq::<Message>::empty());
        }
        let mut i: usize = 0;
        while i < n
            invariant
                n == all.len(),
                all == self.rows@,
                i <= n,
                count == all.subrange(0, i as int).filter(pred).len(),
                count <= i,
                pred == (|m: Message| spec_lex_le(since@, m.created_at@)),
            decreases n - i,
        {
            if lex_le(since, self.rows[i].created_at.as_str()) {
                count = count + 1;
            }
            i = i + 1;
            proof {
                reveal(Seq::filter);
                assert(all.subrange(0, i as int).drop_last() =~= all.subrange(0, i - 1));
                assert(all.subrange(0, i as int).last() == all[i - 1]);
            }
        }
        proof {
            assert(all.subrange(0, n as int) =~= all);
        }
        count
    }

    /// Remove the rows a user's deletion sweeps away: everything published
    /// through one of the user's applications, and every topic message the
    /// user authored.  Topic messages merely readable to the user stay.
    pub fn delete_all_for_user(&mut self, user_id: i64, owned_apps: &Vec<i64>)
        requires
            old(self).wf(),
        ensures
            final(self).wf(),
            final(self).rows@ == old(self).rows@.filter(
                |m: Message|
                    !(spec_in_scope(PageScope::Applications(*owned_apps), m) || (m.user_id
                        == Option::Some(user_id) && m.topic_id is Some)),
            ),
    {
        let ghost pred = |m: Message|
            !(spec_in_scope(PageScope::Applications(*owned_apps), m) || (m.user_id == Option::Some(
                user_id,
            ) && m.topic_id is Some));
        let ghost orig = self.rows@;
        let n = self.rows.len();
        let mut out: Vec<Message> = Vec::new();
        proof {
            reveal(Seq::filter);
            assert(orig.subrange(0, 0) =~= Seq::<Message>::empty());
        }
        let mut i: usize = 0;
        while i < n
            invariant
                n == orig.len(),
                self.rows@ == orig,
                old(self).wf(),
                orig == old(self).rows@,
                self.next_id == old(self).next_id,
                self.clock == old(self).clock,
                i <= n,
                out@ == orig.subrange(0, i as int).filter(pred),
                pred == (|m: Message|
                    !(spec_in_scope(PageScope::Applications(*owned_apps), m) || (m.user_id
                        == Option::Some(user_id) && m.topic_id is Some))),
            decreases n - i,
        {
            let in_apps = match self.rows[i].application_id {
                Some(a) => contains_id(owned_apps, a),
                None => false,
            };
            let topical = match (&self.rows[i].user_id, &self.rows[i].topic_id) {
                (Some(u), Some(_)) => *u == user_id,
                _ => false,
            };
            if !(in_apps || topical) {
                out.push(clone_message(&self.rows[i]));
            }
            i = i + 1;
            proof {
                reveal(Seq::filter);
                assert(orig.subrange(0, i as int).drop_last() =~= orig.subrange(0, i - 1));
                assert(orig.subrange(0, i as int).last() == orig[i - 1]);
                assert(out@ =~= orig.subrange(0, i as int).filter(pred));
            }
        }
        proof {
            assert(orig.subrange(0, n as int) =~= orig);
            assert forall|a: int, b: int| 0 <= a < b < out@.len() implies (
            #[trigger] out@[a]).id < (#[trigger] out@[b]).id by {
                lemma_filter_keeps_order(orig, pred, a, b);
            }
            assert forall|a: int| 0 <= a < out@.len() implies (#[trigger] out@[a]).id
                < self.next_id && spec_lex_le(out@[a].created_at@, self.clock@) && (
            out@[a].delivered_at matches Option::Some(d) ==> spec_lex_le(
                out@[a].created_at@,
                d@,
            )) by {
                lemma_filter_element_from(orig, pred, a);
                let j = choose|j: int| 0 <= j < orig.len() && orig[j] == out@[a];
            }
        }
        self.rows = out;
    }
}

/// Every element of a filtered sequence comes from the source sequence.
proof fn lemma_filter_element_from(s: Seq<Message>, pred: spec_fn(Message) -> bool, i: int)
    requires
        0 <= i < s.filter(pred).len(),
    ensures
        exists|j: int| 0 <= j < s.len() && #[trigger] s[j] == s.filter(pred)[i],
    decreases s.len(),
{
    reveal(Seq::filter);
    broadcast use vstd::seq_lib::group_filter_ensures;

    if s.len() > 0 {
        if pred(s.last()) && i == s.filter(pred).len() - 1 {
            assert(s[s.len() - 1] == s.filter(pred)[i]);
        } else {
            lemma_filter_element_from(s.drop_last(), pred, i);
            let j = choose|j: int|
                0 <= j < s.drop_last().len() && #[trigger] s.drop_last()[j] == s.drop_last().filter(
                    pred,
                )[i];
            assert(s[j] == s.drop_last()[j]);
        }
    }
}

/// A filtered sequence keeps the relative order of what it keeps; with
/// strictly increasing ids that order stays strict.
proof fn lemma_filter_keeps_order(s: Seq<Message>, pred: spec_fn(Message) -> bool, a: int, b: int)
    requires
        forall|i: int, j: int|
            0 <= i < j < s.len() ==> (#[trigger] s[i]).id < (#[trigger] s[j]).id,
        0 <= a < b < s.len(),
    ensures
        s.filter(pred).len() <= s.len(),
        b < s.filter(pred).len() ==> s.filter(pred)[a].id < s.filter(pred)[b].id,
    decreases s.len(),
{
    broadcast use vstd::seq_lib::group_filter_ensures;

    lemma_filter_strict_order(s, pred);
}

/// The ids in a filtered sequence are strictly increasing when they were in
/// the source.
proof fn lemma_filter_strict_order(s: Seq<Message>, pred: spec_fn(Message) -> bool)
    requires
        forall|i: int, j: int|
            0 <= i < j < s.len() ==> (#[trigger] s[i]).id < (#[trigger] s[j]).id,
    ensures
        forall|i: int, j: int|
            0 <= i < j < s.filter(pred).len() ==> (#[trigger] s.filter(pred)[i]).id < (
            #[trigger] s.filter(pred)[j]).id,
    decreases s.len(),
{
    reveal(Seq::filter);
    broadcast use vstd::seq_lib::group_filter_ensures;

    if s.len() > 0 {
        let front = s.drop_last();
        assert(forall|i: int, j: int|
            0 <= i < j < front.len() ==> (#[trigger] front[i]).id < (#[trigger] front[j]).id) by {
            assert(forall|i: int| 0 <= i < front.len() ==> front[i] == s[i]);
        }
        lemma_filter_strict_order(front, pred);
        assert forall|i: int, j: int|
            0 <= i < j < s.filter(pred).len() implies (#[trigger] s.filter(pred)[i]).id < (
        #[trigger] s.filter(pred)[j]).id by {
            if pred(s.last()) {
                assert(s.filter(pred) == front.filter(pred).push(s.last()));
                if j < s.filter(pred).len() - 1 {
                    assert(s.filter(pred)[i] == front.filter(pred)[i]);
                    assert(s.filter(pred)[j] == front.filter(pred)[j]);
                } else {
                    assert(s.filter(pred)[j] == s.last());
                    assert(s.filter(pred)[i] == front.filter(pred)[i]);
                    lemma_filter_element_from(front, pred, i);
                    let w = choose|w: int|
                        0 <= w < front.len() && #[trigger] front[w] == front.filter(pred)[i];
                    assert(s[w] == front[w]);
                    assert(s[w].id < s.last().id);
                }
            } else {
                assert(s.filter(pred) == front.filter(pred));
            }
        }
    }
}

/// Lexicographic order is reflexive.
pub proof fn lemma_lex_le_refl(a: Seq<char>)
    ensures
        spec_lex_le(a, a),
    decreases a.len(),
{
    if a.len() > 0 {
        lemma_lex_le_refl(a.drop_first());
    }
}

/// Lexicographic order is transitive.
pub proof fn lemma_lex_le_trans(a: Seq<char>, b: Seq<char>, c: Seq<char>)
    requires
        spec_lex_le(a, b),
        spec_lex_le(b, c),
    ensures
        spec_lex_le(a, c),
    decreases a.len(),
{
    if a.len() > 0 && b.len() > 0 && c.len() > 0 {
        if a[0] == b[0] && b[0] == c[0] {
            lemma_lex_le_trans(a.drop_first(), b.drop_first(), c.drop_first());
        }
    }
}

/// Law: after one sweep nothing is due, so running the sweep again at the
/// same moment claims nothing — each row is delivered at most once.
pub proof fn lemma_sweep_exactly_once(rows: Seq<Message>, now: String)
    requires
        forall|i: int| 0 <= i < rows.len() ==> !spec_due(#[trigger] rows[i], now@),
    ensures
        spec_claimed(rows, now) =~= Seq::<Message>::empty(),
    decreases rows.len(),
{
    reveal(Seq::filter);
    if rows.len() > 0 {
        let front = rows.drop_last();
        assert(forall|i: int| 0 <= i < front.len() ==> front[i] == rows[i]);
        lemma_sweep_exactly_once(front, now);
        assert(rows.filter(|m: Message| spec_due(m, now@)) =~= Seq::<Message>::empty());
    }
}

} // verus!
