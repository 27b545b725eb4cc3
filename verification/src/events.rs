//! Event fan-out: a registry of live listeners grouped by owning identity,
//! publishing each event to every listener of the addressed identity and
//! pruning listeners whose channel refuses delivery.

use vstd::prelude::*;

use crate::models::Message;
use crate::store::clone_message;

verus! {

/// An event pushed to listeners.
#[derive(Debug)]
pub enum BackendEvent {
    MessageSent(Message),
}

pub fn clone_event(e: &BackendEvent) -> (r: BackendEvent)
    ensures
        r == *e,
{
    match e {
        BackendEvent::MessageSent(m) => BackendEvent::MessageSent(clone_message(m)),
    }
}

#[verifier::external_type_specification]
#[verifier::external_body]
#[verifier::reject_recursive_types(T)]
pub struct ExMpscSender<T>(tokio::sync::mpsc::Sender<T>);

#[verifier::external_type_specification]
#[verifier::external_body]
#[verifier::reject_recursive_types(T)]
pub struct ExMpscReceiver<T>(tokio::sync::mpsc::Receiver<T>);

/// Relies on tokio's bounded mpsc channel constructor, which panics only on
/// a zero capacity or one above its semaphore's permit cap of
/// `usize::MAX >> 3`; the bound demanded here stays far under that cap on
/// every machine.
#[verifier::external_body]
fn channel_pair(capacity: usize) -> (r: (
    tokio::sync::mpsc::Sender<BackendEvent>,
    tokio::sync::mpsc::Receiver<BackendEvent>,
))
    requires
        1 <= capacity <= 0x1000_0000,
{
    tokio::sync::mpsc::channel(capacity)
}

/// Relies on tokio's `Sender::try_send`: delivers without waiting, and
/// reports failure when the channel is full or closed.
#[verifier::external_body]
fn chan_try_send(sender: &tokio::sync::mpsc::Sender<BackendEvent>, event: BackendEvent) -> (r:
    bool) {
    sender.try_send(event).is_ok()
}

/// A live listener: a fresh id, the owning identity, and the channel the
/// events go out on.
pub struct Listener {
    pub id: u64,
    pub user_id: i64,
    pub sender: tokio::sync::mpsc::Sender<BackendEvent>,
}

/// The registry of live listeners. An identity may hold several at once,
/// one per open stream. `published` is the ghost log of every event ever
/// published through the pool, with its addressee, in publish order.
pub struct ListenerPool {
    pub listeners: Vec<Listener>,
    pub next_id: u64,
    pub published: Ghost<Seq<(i64, BackendEvent)>>,
}

/// How many events each listener's channel buffers before deliveries to it
/// start failing.
pub const EVENT_CHANNEL_CAPACITY: usize = 100;

/// The id `id` belongs to a listener of `uid` in `entries`.
pub open spec fn id_owned_by(entries: Seq<(u64, i64)>, id: u64, uid: i64) -> bool {
    exists|q: int| 0 <= q < entries.len() && #[trigger] entries[q] == (id, uid)
}

/// The position of an entry in a registry; meaningful where ids are unique
/// and the entry is present.
pub open spec fn entry_index(entries: Seq<(u64, i64)>, e: (u64, i64)) -> int {
    choose|i: int| 0 <= i < entries.len() && entries[i] == e
}

/// Ids are unique across the entries.
pub open spec fn entry_ids_unique(entries: Seq<(u64, i64)>) -> bool {
    forall|i: int, j: int|
        #![trigger entries[i], entries[j]]
        0 <= i < j < entries.len() ==> entries[i].0 != entries[j].0
}

/// The surviving entries stand in `post` in the same relative order they
/// held in `pre`.
pub open spec fn order_preserved(pre: Seq<(u64, i64)>, post: Seq<(u64, i64)>) -> bool {
    forall|k: int, l: int|
        #![trigger post[k], post[l]]
        0 <= k < l < post.len() ==> entry_index(pre, post[k]) < entry_index(pre, post[l])
}

/// With unique ids, an entry's position is the index it stands at.
pub proof fn lemma_entry_index_is(entries: Seq<(u64, i64)>, i: int)
    requires
        entry_ids_unique(entries),
        0 <= i < entries.len(),
    ensures
        entries.contains(entries[i]),
        entry_index(entries, entries[i]) == i,
{
    assert(entries.contains(entries[i]));
    let j = entry_index(entries, entries[i]);
    if j != i {
        assert(entries[j] == entries[i]);
        if j < i {
            assert(entries[j].0 != entries[i].0);
        } else {
            assert(entries[i].0 != entries[j].0);
        }
        assert(false);
    }
}

/// Under the pool invariant, two entries with the same id are one entry.
pub proof fn lemma_same_id_same_entry(p: ListenerPool, a: int, b: int)
    requires
        p.wf(),
        0 <= a < p.entries().len(),
        0 <= b < p.entries().len(),
        p.entries()[a].0 == p.entries()[b].0,
    ensures
        a == b,
{
    let ea = p.entries()[a];
    let eb = p.entries()[b];
    if a < b {
        assert(!(p.entries()[a].0 == p.entries()[b].0)) by {
            assert(0 <= a < b < p.entries().len());
        }
    } else if b < a {
        assert(!(p.entries()[b].0 == p.entries()[a].0)) by {
            assert(0 <= b < a < p.entries().len());
        }
    }
}

impl ListenerPool {
    /// The registry as (listener id, owning identity) pairs, in registration
    /// order.
    pub open spec fn entries(self) -> Seq<(u64, i64)> {
        Seq::new(self.listeners@.len(), |i: int| (self.listeners@[i].id, self.listeners@[i].user_id))
    }

    /// Listener ids are unique and below the id counter.
    pub open spec fn wf(self) -> bool {
        &&& forall|i: int|
            #![trigger self.entries()[i]]
            0 <= i < self.entries().len() ==> self.entries()[i].0 < self.next_id
        &&& entry_ids_unique(self.entries())
    }

    pub fn new() -> (r: Self)
        ensures
            r.wf(),
            r.entries() =~= Seq::<(u64, i64)>::empty(),
            r.next_id == 0,
            r.published@ =~= Seq::<(i64, BackendEvent)>::empty(),
    {
        Self { listeners: Vec::new(), next_id: 0, published: Ghost(Seq::empty()) }
    }

    /// Registers a new listener for `user_id` and returns its fresh id;
    /// every id handed out is distinct from every earlier one.
    pub fn add_listener(&mut self, user_id: i64, sender: tokio::sync::mpsc::Sender<
        BackendEvent,
    >) -> (id: u64)
        requires
            old(self).wf(),
            old(self).next_id < u64::MAX,
        ensures
            final(self).wf(),
            id == old(self).next_id,
            final(self).next_id == old(self).next_id + 1,
            final(self).entries() =~= old(self).entries().push((id, user_id)),
            final(self).published == old(self).published,
    {
        let id = self.next_id;
        self.next_id = self.next_id + 1;
        let ghost pre = old(self).entries();
        self.listeners.push(Listener { id, user_id, sender });
        proof {
            let last = self.entries().len() - 1;
            assert forall|k: int| 0 <= k < last implies #[trigger] self.entries()[k] == pre[k] by {}
            assert(self.entries()[last] == (id, user_id));
            assert(self.entries() =~= pre.push((id, user_id)));
            assert forall|a: int|
                #![trigger self.entries()[a]]
                0 <= a < self.entries().len() implies self.entries()[a].0 < self.next_id by {
                if a < last {
                    assert(pre[a].0 < old(self).next_id);
                }
            }
            assert forall|a: int, b: int|
                #![trigger self.entries()[a], self.entries()[b]]
                0 <= a < b < self.entries().len() implies self.entries()[a].0
                    != self.entries()[b].0 by {
                if b == last {
                    assert(pre[a].0 < old(self).next_id);
                } else {
                    assert(pre[a] == self.entries()[a]);
                    assert(pre[b] == self.entries()[b]);
                }
            }
        }
        id
    }

    /// Removes the listener with the given id, if present. Idempotent.
    pub fn remove_listener(&mut self, id: u64)
        requires
            old(self).wf(),
        ensures
            final(self).wf(),
            final(self).next_id == old(self).next_id,
            final(self).published == old(self).published,
            forall|k: int|
                #![trigger final(self).entries()[k]]
                0 <= k < final(self).entries().len() ==> final(self).entries()[k].0 != id,
            forall|k: int|
                #![trigger final(self).entries()[k]]
                0 <= k < final(self).entries().len() ==> old(self).entries().contains(
                    final(self).entries()[k],
                ),
            forall|k: int|
                #![trigger old(self).entries()[k]]
                0 <= k < old(self).entries().len() && old(self).entries()[k].0 != id ==> final(self).entries().contains(old(self).entries()[k]),
            order_preserved(old(self).entries(), final(self).entries()),
    {
        let n = self.listeners.len();
        let mut i: usize = 0;
        while i < n
            invariant
                *self == *old(self),
                n == self.listeners@.len(),
                i <= n,
                old(self).wf(),
                forall|j: int|
                    #![trigger self.entries()[j]]
                    0 <= j < i ==> self.entries()[j].0 != id,
            decreases n - i,
        {
            if self.listeners[i].id == id {
                let ghost pre = self.listeners@;
                self.listeners.remove(i);
                proof {
                    pre.remove_ensures(i as int);
                    assert forall|k: int| 0 <= k < self.listeners@.len() implies (
                    #[trigger] self.listeners@[k] == if k < i {
                        pre[k]
                    } else {
                        pre[k + 1]
                    }) by {}
                    assert forall|k: int| 0 <= k < self.entries().len() implies #[trigger] self.entries()[k]
                        == if k < i {
                        old(self).entries()[k]
                    } else {
                        old(self).entries()[k + 1]
                    } by {}
                    assert forall|k: int|
                        #![trigger self.entries()[k]]
                        0 <= k < self.entries().len() implies self.entries()[k].0 != id by {
                        if k >= i {
                            assert(self.entries()[k] == old(self).entries()[k + 1]);
                            if old(self).entries()[k + 1].0 == id {
                                lemma_same_id_same_entry(*old(self), i as int, k + 1);
                            }
                        }
                    }
                    assert forall|k: int|
                        #![trigger self.entries()[k]]
                        0 <= k < self.entries().len() implies old(self).entries().contains(
                        self.entries()[k],
                    ) by {
                        let k0: int = if k < i {
                            k
                        } else {
                            k + 1
                        };
                        assert(old(self).entries()[k0] == self.entries()[k]);
                    }
                    assert forall|k: int|
                        #![trigger old(self).entries()[k]]
                        0 <= k < old(self).entries().len() && old(self).entries()[k].0 != id implies
                        self.entries().contains(old(self).entries()[k]) by {
                        let k0: int = if k < i {
                            k
                        } else {
                            k - 1
                        };
                        assert(k != i);
                        assert(self.entries()[k0] == old(self).entries()[k]);
                    }
                    assert forall|a: int|
                        #![trigger self.entries()[a]]
                        0 <= a < self.entries().len() implies self.entries()[a].0 < self.next_id by {
                        let a0: int = if a < i {
                            a
                        } else {
                            a + 1
                        };
                        assert(self.entries()[a] == old(self).entries()[a0]);
                    }
                    assert forall|a: int, b: int|
                        #![trigger self.entries()[a], self.entries()[b]]
                        0 <= a < b < self.entries().len() implies self.entries()[a].0
                            != self.entries()[b].0 by {
                        let a0: int = if a < i {
                            a
                        } else {
                            a + 1
                        };
                        let b0: int = if b < i {
                            b
                        } else {
                            b + 1
                        };
                        assert(self.entries()[a] == old(self).entries()[a0]);
                        assert(self.entries()[b] == old(self).entries()[b0]);
                        if self.entries()[a].0 == self.entries()[b].0 {
                            lemma_same_id_same_entry(*old(self), a0, b0);
                        }
                    }
                    assert forall|a: int, b: int|
                        #![trigger self.entries()[a], self.entries()[b]]
                        0 <= a < b < self.entries().len() implies entry_index(
                        old(self).entries(),
                        self.entries()[a],
                    ) < entry_index(old(self).entries(), self.entries()[b]) by {
                        let a0: int = if a < i {
                            a
                        } else {
                            a + 1
                        };
                        let b0: int = if b < i {
                            b
                        } else {
                            b + 1
                        };
                        assert(self.entries()[a] == old(self).entries()[a0]);
                        assert(self.entries()[b] == old(self).entries()[b0]);
                        lemma_entry_index_is(old(self).entries(), a0);
                        lemma_entry_index_is(old(self).entries(), b0);
                    }
                }
                return ;
            }
            i += 1;
        }
        proof {
            assert forall|a: int, b: int|
                #![trigger self.entries()[a], self.entries()[b]]
                0 <= a < b < self.entries().len() implies entry_index(
                old(self).entries(),
                self.entries()[a],
            ) < entry_index(old(self).entries(), self.entries()[b]) by {
                lemma_entry_index_is(old(self).entries(), a);
                lemma_entry_index_is(old(self).entries(), b);
            }
        }
    }

    /// Publishes `event` to every listener of `user_id`: each of their
    /// channels gets one delivery attempt, and the listeners whose channel
    /// refused are removed after the pass. Listeners of other identities are
    /// untouched.
    pub fn notify(&mut self, user_id: i64, event: BackendEvent)
        requires
            old(self).wf(),
        ensures
            final(self).wf(),
            final(self).next_id == old(self).next_id,
            // the event is recorded as published to `user_id`, after
            // everything published before
            final(self).published@ =~= old(self).published@.push((user_id, event)),
            // no listener appears out of nowhere
            forall|k: int|
                #![trigger final(self).entries()[k]]
                0 <= k < final(self).entries().len() ==> old(self).entries().contains(
                    final(self).entries()[k],
                ),
            // every listener of another identity survives
            forall|k: int|
                #![trigger old(self).entries()[k]]
                0 <= k < old(self).entries().len() && old(self).entries()[k].1 != user_id
                    ==> final(self).entries().contains(old(self).entries()[k]),
            // and the survivors keep their relative order
            order_preserved(old(self).entries(), final(self).entries()),
    {
        let ghost ev = event;
        let mut dead: Vec<u64> = Vec::new();
        let n = self.listeners.len();
        let mut i: usize = 0;
        while i < n
            invariant
                *self == *old(self),
                n == self.listeners@.len(),
                i <= n,
                old(self).wf(),
                forall|k: int|
                    #![trigger dead@[k]]
                    0 <= k < dead@.len() ==> id_owned_by(old(self).entries(), dead@[k], user_id),
            decreases n - i,
        {
            if self.listeners[i].user_id == user_id {
                let delivered = chan_try_send(&self.listeners[i].sender, clone_event(&event));
                if !delivered {
                    let ghost pre_dead = dead@;
                    dead.push(self.listeners[i].id);
                    proof {
                        assert(self.entries()[i as int] == (dead@.last(), user_id));
                        assert(id_owned_by(old(self).entries(), dead@.last(), user_id));
                        assert forall|k: int|
                            #![trigger dead@[k]]
                            0 <= k < dead@.len() implies id_owned_by(
                            old(self).entries(),
                            dead@[k],
                            user_id,
                        ) by {
                            if k < pre_dead.len() {
                                assert(dead@[k] == pre_dead[k]);
                            } else {
                                assert(dead@[k] == dead@.last());
                            }
                        }
                    }
                }
            }
            i += 1;
        }
        proof {
            assert forall|a: int, b: int|
                #![trigger self.entries()[a], self.entries()[b]]
                0 <= a < b < self.entries().len() implies entry_index(
                old(self).entries(),
                self.entries()[a],
            ) < entry_index(old(self).entries(), self.entries()[b]) by {
                lemma_entry_index_is(old(self).entries(), a);
                lemma_entry_index_is(old(self).entries(), b);
            }
        }
        // prune the listeners whose channel refused delivery
        let m = dead.len();
        let mut k: usize = 0;
        while k < m
            invariant
                m == dead@.len(),
                k <= m,
                old(self).wf(),
                self.wf(),
                self.next_id == old(self).next_id,
                self.published == old(self).published,
                forall|q: int|
                    #![trigger self.entries()[q]]
                    0 <= q < self.entries().len() ==> old(self).entries().contains(
                        self.entries()[q],
                    ),
                forall|q: int|
                    #![trigger old(self).entries()[q]]
                    0 <= q < old(self).entries().len() && old(self).entries()[q].1 != user_id
                        ==> self.entries().contains(old(self).entries()[q]),
                forall|j: int|
                    #![trigger dead@[j]]
                    0 <= j < dead@.len() ==> id_owned_by(old(self).entries(), dead@[j], user_id),
                order_preserved(old(self).entries(), self.entries()),
            decreases m - k,
        {
            let ghost mid = *self;
            let pruned = dead[k];
            self.remove_listener(pruned);
            proof {
                assert forall|q: int|
                    #![trigger self.entries()[q]]
                    0 <= q < self.entries().len() implies old(self).entries().contains(
                    self.entries()[q],
                ) by {
                    assert(mid.entries().contains(self.entries()[q]));
                    let w = choose|w: int|
                        0 <= w < mid.entries().len() && mid.entries()[w] == self.entries()[q];
                    assert(old(self).entries().contains(mid.entries()[w]));
                }
                assert forall|q: int|
                    #![trigger old(self).entries()[q]]
                    0 <= q < old(self).entries().len() && old(self).entries()[q].1 != user_id
                        implies self.entries().contains(old(self).entries()[q]) by {
                    let e = old(self).entries()[q];
                    assert(mid.entries().contains(e));
                    let w = choose|w: int| 0 <= w < mid.entries().len() && mid.entries()[w] == e;
                    // the pruned id belongs to a listener of `user_id`, so it is not e's id
                    assert(id_owned_by(old(self).entries(), dead@[k as int], user_id));
                    let wd = choose|wd: int|
                        0 <= wd < old(self).entries().len() && #[trigger] old(self).entries()[wd] == (pruned, user_id);
                    if e.0 == pruned {
                        lemma_same_id_same_entry(*old(self), wd, q);
                        assert(false);
                    }
                    assert(mid.entries()[w].0 != pruned);
                }
                assert forall|a: int, b: int|
                    #![trigger self.entries()[a], self.entries()[b]]
                    0 <= a < b < self.entries().len() implies entry_index(
                    old(self).entries(),
                    self.entries()[a],
                ) < entry_index(old(self).entries(), self.entries()[b]) by {
                    // place the two survivors in the pre-removal registry
                    assert(mid.entries().contains(self.entries()[a]));
                    assert(mid.entries().contains(self.entries()[b]));
                    let wa = entry_index(mid.entries(), self.entries()[a]);
                    let wb = entry_index(mid.entries(), self.entries()[b]);
                    assert(0 <= wa < mid.entries().len() && mid.entries()[wa]
                        == self.entries()[a]);
                    assert(0 <= wb < mid.entries().len() && mid.entries()[wb]
                        == self.entries()[b]);
                    assert(wa < wb);
                    assert(entry_index(old(self).entries(), mid.entries()[wa]) < entry_index(
                        old(self).entries(),
                        mid.entries()[wb],
                    ));
                }
            }
            k += 1;
        }
        let ghost before = *self;
        self.published = Ghost(self.published@.push((user_id, ev)));
        proof {
            assert(self.entries() =~= before.entries());
            assert(self.entries() == before.entries());
            assert(self.next_id == before.next_id);
        }
    }
}

/// The fan-out service around one listener registry.
pub struct EventService {
    pub pool: ListenerPool,
}

impl EventService {
    pub fn new(pool: ListenerPool) -> (r: Self)
        ensures
            r.pool == pool,
    {
        Self { pool }
    }

    /// Opens a stream for `user_id`: registers a listener whose channel
    /// buffers up to [`EVENT_CHANNEL_CAPACITY`] events, and hands back the
    /// receiving end. The listener lives until its channel refuses a
    /// delivery.
    pub fn get_user_stream(&mut self, user_id: i64) -> (r: tokio::sync::mpsc::Receiver<
        BackendEvent,
    >)
        requires
            old(self).pool.wf(),
            old(self).pool.next_id < u64::MAX,
        ensures
            final(self).pool.wf(),
            final(self).pool.entries() =~= old(self).pool.entries().push(
                (old(self).pool.next_id, user_id),
            ),
            final(self).pool.next_id == old(self).pool.next_id + 1,
    {
        let (sender, receiver) = channel_pair(EVENT_CHANNEL_CAPACITY);
        let _ = self.pool.add_listener(user_id, sender);
        receiver
    }

    /// Publishes an event to every current listener of `user_id`; see
    /// [`ListenerPool::notify`].
    pub fn notify(&mut self, user_id: i64, event: BackendEvent)
        requires
            old(self).pool.wf(),
        ensures
            final(self).pool.wf(),
            final(self).pool.next_id == old(self).pool.next_id,
            final(self).pool.published@ =~= old(self).pool.published@.push((user_id, event)),
            forall|k: int|
                0 <= k < final(self).pool.entries().len() ==> old(self).pool.entries().contains(
                    #[trigger] final(self).pool.entries()[k],
                ),
            forall|k: int|
                0 <= k < old(self).pool.entries().len() && (#[trigger] old(self).pool.entries()[k]).1 != user_id ==> final(self).pool.entries().contains(
                    old(self).pool.entries()[k],
                ),
            order_preserved(old(self).pool.entries(), final(self).pool.entries()),
    {
        self.pool.notify(user_id, event);
    }
}

} // verus!
