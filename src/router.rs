//! The router: which channels and exit-status waiters are live, by id.
//!
//! Each live channel owns the sending end of a bounded queue that feeds its
//! sink; each waiter owns a one-shot slot for the process's exit status. The
//! entries sit in generational arenas, keyed by id through a hash map, so a
//! receiver can remove its own entry by index without touching a newer entry
//! for the same id.
use crate::protocol::{
    ChannelCommand, ChannelData, ExitStatus, Id, ProcessExitStatus, ProcessKind, RemoteCommand, Spawn,
};
use generational_arena::{Arena, Index};
use std::collections::HashMap;
use tokio::sync::{mpsc, oneshot};
use vstd::prelude::*;
use vstd::std_specs::hash::group_hash_axioms;

verus! {

broadcast use group_hash_axioms;

/// `generational_arena::Arena`, opaque: its entries are seen through
/// `channel_slots` and `status_slots`.
#[verifier::external_type_specification]
#[verifier::external_body]
#[verifier::reject_recursive_types(T)]
pub struct ExArena<T>(Arena<T>);

/// `generational_arena::Index`, opaque: compared only for equality.
#[verifier::external_type_specification]
#[verifier::external_body]
pub struct ExIndex(Index);

/// `tokio::sync::mpsc::Sender`, opaque: carried to the caller, which sends on it.
#[verifier::external_type_specification]
#[verifier::external_body]
#[verifier::reject_recursive_types(T)]
pub struct ExMpscSender<T>(mpsc::Sender<T>);

/// `tokio::sync::mpsc::Receiver`, opaque: handed to the channel's sink.
#[verifier::external_type_specification]
#[verifier::external_body]
#[verifier::reject_recursive_types(T)]
pub struct ExMpscReceiver<T>(mpsc::Receiver<T>);

/// `tokio::sync::oneshot::Sender`, opaque: carried to the caller, which fulfils it.
#[verifier::external_type_specification]
#[verifier::external_body]
#[verifier::reject_recursive_types(T)]
pub struct ExOneshotSender<T>(oneshot::Sender<T>);

/// `tokio::sync::oneshot::Receiver`, opaque: handed to the waiter.
#[verifier::external_type_specification]
#[verifier::external_body]
#[verifier::reject_recursive_types(T)]
pub struct ExOneshotReceiver<T>(oneshot::Receiver<T>);

/// `tokio::sync::oneshot::error::RecvError`, opaque: named by the receiver's `Future` impl.
#[verifier::external_type_specification]
#[verifier::external_body]
pub struct ExOneshotRecvError(oneshot::error::RecvError);

/// Live channels: each entry holds the id and the producing end of its queue.
pub type ChannelArena = Arena<(Id, mpsc::Sender<ChannelData>)>;

/// Exit-status waiters: each entry holds the id and the slot to fulfil.
pub type StatusArena = Arena<(Id, oneshot::Sender<ProcessExitStatus>)>;

/// Capacity of each channel's inbound queue.
pub const CHANNEL_CAPACITY: usize = 64;

/// The ids of the entries of a channel arena, by index.
pub uninterp spec fn channel_slots(a: ChannelArena) -> Map<Index, Id>;

/// The ids of the entries of a status arena, by index.
pub uninterp spec fn status_slots(a: StatusArena) -> Map<
    Index,
    Id,
>;

/// Which queue a sender feeds: handles on one queue have the same value.
pub uninterp spec fn sender_queue(s: mpsc::Sender<ChannelData>) -> int;

/// Which queue a receiver drains.
pub uninterp spec fn receiver_queue(r: mpsc::Receiver<ChannelData>) -> int;

/// The bound a queue was made with, seen from its receiver: the queue never
/// holds more values than this.
pub uninterp spec fn queue_bound(r: mpsc::Receiver<ChannelData>) -> nat;

/// Which one-shot slot a sender fulfils.
pub uninterp spec fn slot_of_sender(s: oneshot::Sender<ProcessExitStatus>) -> int;

/// Which one-shot slot a receiver waits on.
pub uninterp spec fn slot_of_receiver(r: oneshot::Receiver<ProcessExitStatus>) -> int;

/// The queue fed by the sender held in each entry of a channel arena.
pub uninterp spec fn channel_slot_queues(a: ChannelArena) -> Map<Index, int>;

/// The slot fulfilled by the sender held in each entry of a status arena.
pub uninterp spec fn status_slot_senders(a: StatusArena) -> Map<Index, int>;

/// Relies on `Arena::new`: an arena with no entries.
#[verifier::external_body]
fn channel_arena_new() -> (r: ChannelArena)
    ensures
        forall|i: Index| !channel_slots(r).contains_key(i),
        forall|i: Index| !channel_slot_queues(r).contains_key(i),
{
    Arena::new()
}

/// Relies on `Arena::insert`: the entry goes in under an index that held no
/// entry, and no other entry changes.
#[verifier::external_body]
fn channel_arena_insert(
    a: &mut ChannelArena,
    id: Id,
    tx: mpsc::Sender<ChannelData>,
) -> (r: Index)
    ensures
        !channel_slots(*old(a)).contains_key(r),
        channel_slots(*final(a)) == channel_slots(*old(a)).insert(r, id),
        channel_slot_queues(*final(a)) == channel_slot_queues(*old(a)).insert(r, sender_queue(tx)),
{
    a.insert((id, tx))
}

/// Relies on `Arena::remove`: the entry at `i`, if any, is taken out and
/// handed back; no other entry changes.
#[verifier::external_body]
fn channel_arena_remove(a: &mut ChannelArena, i: Index) -> (r: Option<
    (Id, mpsc::Sender<ChannelData>),
>)
    ensures
        r.is_some() == channel_slots(*old(a)).contains_key(i),
        r.is_some() ==> r.unwrap().0 == channel_slots(*old(a))[i],
        r.is_some() ==> sender_queue(r.unwrap().1) == channel_slot_queues(*old(a))[i],
        channel_slots(*final(a)) == channel_slots(*old(a)).remove(i),
        channel_slot_queues(*final(a)) == channel_slot_queues(*old(a)).remove(i),
{
    a.remove(i)
}

/// Relies on `Arena::get`: the entry at `i`, if any.
#[verifier::external_body]
fn channel_arena_get(a: &ChannelArena, i: Index) -> (r: Option<&(Id, mpsc::Sender<ChannelData>)>)
    ensures
        r.is_some() == channel_slots(*a).contains_key(i),
        r.is_some() ==> r.unwrap().0 == channel_slots(*a)[i],
        r.is_some() ==> sender_queue(r.unwrap().1) == channel_slot_queues(*a)[i],
{
    a.get(i)
}

/// Relies on `mpsc::Sender::clone`: another handle on the same queue.
#[verifier::external_body]
fn clone_sender(s: &mpsc::Sender<ChannelData>) -> (r: mpsc::Sender<ChannelData>)
    ensures
        sender_queue(r) == sender_queue(*s),
{
    s.clone()
}

/// Relies on `Arena::new`: an arena with no entries.
#[verifier::external_body]
fn status_arena_new() -> (r: StatusArena)
    ensures
        forall|i: Index| !status_slots(r).contains_key(i),
        forall|i: Index| !status_slot_senders(r).contains_key(i),
{
    Arena::new()
}

/// Relies on `Arena::insert`: the entry goes in under an index that held no
/// entry, and no other entry changes.
#[verifier::external_body]
fn status_arena_insert(
    a: &mut StatusArena,
    id: Id,
    tx: oneshot::Sender<ProcessExitStatus>,
) -> (r: Index)
    ensures
        !status_slots(*old(a)).contains_key(r),
        status_slots(*final(a)) == status_slots(*old(a)).insert(r, id),
        status_slot_senders(*final(a)) == status_slot_senders(*old(a)).insert(r, slot_of_sender(tx)),
{
    a.insert((id, tx))
}

/// Relies on `Arena::remove`: the entry at `i`, if any, is taken out and
/// handed back; no other entry changes.
#[verifier::external_body]
fn status_arena_remove(a: &mut StatusArena, i: Index) -> (r:
    Option<(Id, oneshot::Sender<ProcessExitStatus>)>)
    ensures
        r.is_some() == status_slots(*old(a)).contains_key(i),
        r.is_some() ==> r.unwrap().0 == status_slots(*old(a))[i],
        r.is_some() ==> slot_of_sender(r.unwrap().1) == status_slot_senders(*old(a))[i],
        status_slots(*final(a)) == status_slots(*old(a)).remove(i),
        status_slot_senders(*final(a)) == status_slot_senders(*old(a)).remove(i),
{
    a.remove(i)
}

/// Relies on `tokio::sync::mpsc::channel`: two ends of one new queue whose
/// semaphore holds `capacity` permits. It panics on a capacity of 0 or above
/// the semaphore's limit.
#[verifier::external_body]
fn bounded_queue(capacity: usize) -> (r: (mpsc::Sender<ChannelData>, mpsc::Receiver<ChannelData>))
    requires
        0 < capacity <= usize::MAX / 4,
    ensures
        sender_queue(r.0) == receiver_queue(r.1),
        queue_bound(r.1) == capacity,
{
    mpsc::channel(capacity)
}

/// Relies on `tokio::sync::oneshot::channel`: two ends of one new slot.
#[verifier::external_body]
fn one_shot() -> (r: (oneshot::Sender<ProcessExitStatus>, oneshot::Receiver<ProcessExitStatus>))
    ensures
        slot_of_sender(r.0) == slot_of_receiver(r.1),
{
    oneshot::channel()
}

/// The consuming end of a channel's inbound queue. Whoever holds it removes
/// the channel with `Router::remove_channel(index)` when done with it.
pub struct ChannelReceiver {
    pub index: Index,
    pub rx: mpsc::Receiver<ChannelData>,
}

/// The waiting end of an exit-status slot. Whoever holds it removes the slot
/// with `Router::remove_status(index)` when done with it.
pub struct StatusReceiver {
    pub index: Index,
    pub rx: oneshot::Receiver<ProcessExitStatus>,
}

/// The router's state, as the contracts see it.
pub struct RouterView {
    pub kind: ProcessKind,
    pub next_id: nat,
    pub channels: Map<Id, Index>,
    /// The queue that data for each live channel goes to.
    pub queues: Map<Id, int>,
    pub status: Map<Id, Index>,
    /// The slot that each waiter's exit status goes to.
    pub waiters: Map<Id, int>,
}

pub struct Router {
    kind: ProcessKind,
    next_id: u64,
    channel_ids: HashMap<u128, Index>,
    channels: ChannelArena,
    status_ids: HashMap<u128, Index>,
    status_notifiers: StatusArena,
}

/// The map from id to index that `ids` (by id key) and `slots` (by index)
/// both describe, when they agree.
pub open spec fn id_map(ids: Map<u128, Index>) -> Map<Id, Index> {
    Map::new(|id: Id| ids.contains_key(id.spec_key()), |id: Id| ids[id.spec_key()])
}

/// For each id of `ids`, the value that `vals` holds at its index.
pub open spec fn value_map(ids: Map<u128, Index>, vals: Map<Index, int>) -> Map<Id, int> {
    Map::new(|id: Id| ids.contains_key(id.spec_key()), |id: Id| vals[ids[id.spec_key()]])
}

/// `ids` and `slots` are inverse to each other.
pub open spec fn agree(ids: Map<u128, Index>, slots: Map<Index, Id>) -> bool {
    &&& forall|k: u128| #[trigger]
        ids.contains_key(k) ==> slots.contains_key(ids[k]) && slots[ids[k]].spec_key() == k
    &&& forall|i: Index| #[trigger]
        slots.contains_key(i) ==> ids.contains_key(slots[i].spec_key()) && ids[slots[i].spec_key()]
            == i
}

impl View for Router {
    type V = RouterView;

    closed spec fn view(&self) -> RouterView {
        RouterView {
            kind: self.kind,
            next_id: self.next_id as nat,
            channels: id_map(self.channel_ids@),
            queues: value_map(self.channel_ids@, channel_slot_queues(self.channels)),
            status: id_map(self.status_ids@),
            waiters: value_map(self.status_ids@, status_slot_senders(self.status_notifiers)),
        }
    }
}

impl Router {
    pub closed spec fn wf(&self) -> bool {
        &&& agree(self.channel_ids@, channel_slots(self.channels))
        &&& channel_slot_queues(self.channels).dom() == channel_slots(self.channels).dom()
        &&& agree(self.status_ids@, status_slots(self.status_notifiers))
        &&& status_slot_senders(self.status_notifiers).dom() == status_slots(
            self.status_notifiers,
        ).dom()
    }

    /// A router for the side `kind` with no channel and no waiter.
    pub fn new(kind: ProcessKind) -> (r: Router)
        ensures
            r.wf(),
            r@.kind == kind,
            r@.next_id == 0,
            r@.channels == Map::<Id, Index>::empty(),
            r@.queues == Map::<Id, int>::empty(),
            r@.status == Map::<Id, Index>::empty(),
            r@.waiters == Map::<Id, int>::empty(),
    {
        let r = Router {
            kind,
            next_id: 0,
            channel_ids: HashMap::new(),
            channels: channel_arena_new(),
            status_ids: HashMap::new(),
            status_notifiers: status_arena_new(),
        };
        assert(channel_slot_queues(r.channels).dom() =~= channel_slots(r.channels).dom());
        assert(status_slot_senders(r.status_notifiers).dom() =~= status_slots(
            r.status_notifiers,
        ).dom());
        assert(r@.channels =~= Map::<Id, Index>::empty());
        assert(r@.queues =~= Map::<Id, int>::empty());
        assert(r@.status =~= Map::<Id, Index>::empty());
        assert(r@.waiters =~= Map::<Id, int>::empty());
        r
    }

    /// The side this router mints ids for.
    pub fn kind(&self) -> (r: ProcessKind)
        ensures
            r == self@.kind,
    {
        self.kind
    }

    /// Whether another id can be minted.
    pub fn id_available(&self) -> (r: bool)
        ensures
            r == (self@.next_id < u64::MAX),
    {
        self.next_id < u64::MAX
    }

    /// Mints the next id of this router's side.
    pub fn new_id(&mut self) -> (r: Id)
        requires
            old(self)@.next_id < u64::MAX,
        ensures
            r == Id(old(self)@.kind, old(self)@.next_id as u64),
            final(self)@ == (RouterView { next_id: old(self)@.next_id + 1, ..old(self)@ }),
            final(self).wf() == old(self).wf(),
    {
        let id = self.next_id;
        self.next_id = self.next_id + 1;
        Id::new(self.kind, id)
    }

    /// Opens the channel `id`: installs a fresh bounded queue and returns its
    /// consuming end, or `None` if `id` is already live.
    pub fn insert_channel(&mut self, id: Id) -> (r: Option<ChannelReceiver>)
        requires
            old(self).wf(),
        ensures
            final(self).wf(),
            r.is_some() == !old(self)@.channels.contains_key(id),
            r.is_some() ==> final(self)@ == (RouterView {
                channels: old(self)@.channels.insert(id, r.unwrap().index),
                queues: old(self)@.queues.insert(id, receiver_queue(r.unwrap().rx)),
                ..old(self)@
            }),
            r.is_some() ==> queue_bound(r.unwrap().rx) == CHANNEL_CAPACITY,
            r.is_some() ==> forall|k: Id| #[trigger]
                old(self)@.channels.contains_key(k) ==> old(self)@.channels[k] != r.unwrap().index,
            r.is_none() ==> final(self)@ == old(self)@,
    {
        let key = id.key();
        if self.channel_ids.contains_key(&key) {
            return None;
        }
        let (tx, rx) = bounded_queue(CHANNEL_CAPACITY);
        let ghost slots0 = channel_slots(self.channels);
        let ghost ids0 = self.channel_ids@;
        let ghost q = sender_queue(tx);
        let index = channel_arena_insert(&mut self.channels, id, tx);
        self.channel_ids.insert(key, index);
        proof {
            let slots = channel_slots(self.channels);
            let ids = self.channel_ids@;
            assert forall|k: u128| #[trigger] ids.contains_key(k) implies slots.contains_key(ids[k])
                && slots[ids[k]].spec_key() == k by {
                if k != key {
                    assert(ids0.contains_key(k));
                    assert(ids0[k] != index);
                }
            }
            assert forall|i: Index| #[trigger] slots.contains_key(i) implies ids.contains_key(
                slots[i].spec_key(),
            ) && ids[slots[i].spec_key()] == i by {
                if i != index {
                    assert(slots0.contains_key(i));
                }
            }
            assert(self@.channels =~= old(self)@.channels.insert(id, index));
            assert forall|k: Id| #[trigger] old(self)@.channels.contains_key(k)
                implies old(self)@.channels[k] != index by {
                assert(ids0.contains_key(k.spec_key()));
            }
            assert forall|k: Id| #[trigger] self@.queues.contains_key(k) && k != id implies self@.queues[k]
                == old(self)@.queues[k] by {
                crate::protocol::lemma_key_injective(k, id);
                assert(ids0.contains_key(k.spec_key()));
            }
            assert(self@.queues =~= old(self)@.queues.insert(id, q));
        }
        Some(ChannelReceiver { index, rx })
    }

    /// Removes the channel whose queue sits at `index`, if it is still there;
    /// returns its id.
    pub fn remove_channel(&mut self, index: Index) -> (r: Option<Id>)
        requires
            old(self).wf(),
        ensures
            final(self).wf(),
            r.is_some() == exists|id: Id|
                old(self)@.channels.contains_key(id) && old(self)@.channels[id] == index,
            r.is_some() ==> {
                &&& old(self)@.channels.contains_key(r.unwrap())
                &&& old(self)@.channels[r.unwrap()] == index
                &&& final(self)@ == (RouterView {
                    channels: old(self)@.channels.remove(r.unwrap()),
                    queues: old(self)@.queues.remove(r.unwrap()),
                    ..old(self)@
                })
            },
            r.is_none() ==> final(self)@ == old(self)@,
    {
        let ghost slots0 = channel_slots(self.channels);
        let ghost ids0 = self.channel_ids@;
        let removed = channel_arena_remove(&mut self.channels, index);
        match removed {
            None => {
                proof {
                    assert(channel_slots(self.channels) =~= slots0);
                    assert(!channel_slot_queues(old(self).channels).dom().contains(index));
                    assert(channel_slot_queues(self.channels) =~= channel_slot_queues(old(self).channels));
                    assert(self@.queues =~= old(self)@.queues);
                    if exists|id: Id|
                        old(self)@.channels.contains_key(id) && old(self)@.channels[id] == index {
                        let id = choose|id: Id|
                            old(self)@.channels.contains_key(id) && old(self)@.channels[id]
                                == index;
                        assert(ids0.contains_key(id.spec_key()));
                    }
                }
                None
            },
            Some((id, _tx)) => {
                let key = id.key();
                self.channel_ids.remove(&key);
                proof {
                    assert(slots0.contains_key(index));
                    assert(ids0.contains_key(key) && ids0[key] == index);
                    assert(old(self)@.channels.contains_key(id) && old(self)@.channels[id] == index);
                    let slots = channel_slots(self.channels);
                    let ids = self.channel_ids@;
                    assert forall|k: u128| #[trigger] ids.contains_key(k) implies slots.contains_key(
                        ids[k],
                    ) && slots[ids[k]].spec_key() == k by {
                        assert(ids0.contains_key(k));
                    }
                    assert forall|i: Index| #[trigger] slots.contains_key(i) implies ids.contains_key(
                        slots[i].spec_key(),
                    ) && ids[slots[i].spec_key()] == i by {
                        assert(slots0.contains_key(i));
                        crate::protocol::lemma_key_injective(slots0[i], id);
                    }
                    assert(old(self)@.channels.contains_key(id));
                    assert(self@.channels =~= old(self)@.channels.remove(id));
                    assert forall|k: Id| #[trigger] self@.queues.contains_key(k) implies self@.queues[k]
                        == old(self)@.queues[k] by {
                        crate::protocol::lemma_key_injective(k, id);
                        assert(ids0.contains_key(k.spec_key()));
                        assert(slots0.contains_key(ids0[k.spec_key()]));
                    }
                    assert(self@.queues =~= old(self)@.queues.remove(id));
                }
                Some(id)
            },
        }
    }

    /// A handle on the inbound queue of the live channel `id`, if any.
    pub fn get_channel(&self, id: Id) -> (r: Option<mpsc::Sender<ChannelData>>)
        requires
            self.wf(),
        ensures
            r.is_some() == self@.channels.contains_key(id),
            r matches Some(tx) ==> sender_queue(tx) == self@.queues[id],
    {
        let key = id.key();
        match self.channel_ids.get(&key) {
            None => None,
            Some(index) => match channel_arena_get(&self.channels, *index) {
                Some(entry) => Some(clone_sender(&entry.1)),
                None => None,
            },
        }
    }

    /// Installs an exit-status slot for `id` and returns its waiting end, or
    /// `None` if `id` already has one.
    pub fn insert_status_notifier(&mut self, id: Id) -> (r: Option<StatusReceiver>)
        requires
            old(self).wf(),
        ensures
            final(self).wf(),
            r.is_some() == !old(self)@.status.contains_key(id),
            r.is_some() ==> final(self)@ == (RouterView {
                status: old(self)@.status.insert(id, r.unwrap().index),
                waiters: old(self)@.waiters.insert(id, slot_of_receiver(r.unwrap().rx)),
                ..old(self)@
            }),
            r.is_some() ==> forall|k: Id| #[trigger]
                old(self)@.status.contains_key(k) ==> old(self)@.status[k] != r.unwrap().index,
            r.is_none() ==> final(self)@ == old(self)@,
    {
        let key = id.key();
        if self.status_ids.contains_key(&key) {
            return None;
        }
        let (tx, rx) = one_shot();
        let ghost slots0 = status_slots(self.status_notifiers);
        let ghost ids0 = self.status_ids@;
        let ghost q = slot_of_sender(tx);
        let index = status_arena_insert(&mut self.status_notifiers, id, tx);
        self.status_ids.insert(key, index);
        proof {
            let slots = status_slots(self.status_notifiers);
            let ids = self.status_ids@;
            assert forall|k: u128| #[trigger] ids.contains_key(k) implies slots.contains_key(ids[k])
                && slots[ids[k]].spec_key() == k by {
                if k != key {
                    assert(ids0.contains_key(k));
                    assert(ids0[k] != index);
                }
            }
            assert forall|i: Index| #[trigger] slots.contains_key(i) implies ids.contains_key(
                slots[i].spec_key(),
            ) && ids[slots[i].spec_key()] == i by {
                if i != index {
                    assert(slots0.contains_key(i));
                }
            }
            assert(self@.status =~= old(self)@.status.insert(id, index));
            assert forall|k: Id| #[trigger] old(self)@.status.contains_key(k)
                implies old(self)@.status[k] != index by {
                assert(ids0.contains_key(k.spec_key()));
            }
            assert forall|k: Id| #[trigger] self@.waiters.contains_key(k) && k != id implies self@.waiters[k]
                == old(self)@.waiters[k] by {
                crate::protocol::lemma_key_injective(k, id);
                assert(ids0.contains_key(k.spec_key()));
            }
            assert(self@.waiters =~= old(self)@.waiters.insert(id, q));
        }
        Some(StatusReceiver { index, rx })
    }

    /// Removes the exit-status slot at `index`, if it is still there; returns
    /// its id.
    pub fn remove_status(&mut self, index: Index) -> (r: Option<Id>)
        requires
            old(self).wf(),
        ensures
            final(self).wf(),
            r.is_some() == exists|id: Id|
                old(self)@.status.contains_key(id) && old(self)@.status[id] == index,
            r.is_some() ==> {
                &&& old(self)@.status.contains_key(r.unwrap())
                &&& old(self)@.status[r.unwrap()] == index
                &&& final(self)@ == (RouterView {
                    status: old(self)@.status.remove(r.unwrap()),
                    waiters: old(self)@.waiters.remove(r.unwrap()),
                    ..old(self)@
                })
            },
            r.is_none() ==> final(self)@ == old(self)@,
    {
        match self.take_status_at(index) {
            None => None,
            Some((id, _tx)) => Some(id),
        }
    }

    /// Takes out the exit-status slot of `id`, if any, to fulfil it.
    pub fn take_status(&mut self, id: Id) -> (r: Option<oneshot::Sender<ProcessExitStatus>>)
        requires
            old(self).wf(),
        ensures
            final(self).wf(),
            r.is_some() == old(self)@.status.contains_key(id),
            r matches Some(tx) ==> slot_of_sender(tx) == old(self)@.waiters[id],
            final(self)@ == (RouterView {
                status: old(self)@.status.remove(id),
                waiters: old(self)@.waiters.remove(id),
                ..old(self)@
            }),
    {
        let key = id.key();
        let found = self.status_ids.get(&key);
        match found {
            None => {
                assert(!self.status_ids@.contains_key(key));
                assert(!old(self)@.status.contains_key(id));
                assert(old(self)@.status.remove(id) =~= old(self)@.status);
                assert(old(self)@.waiters.remove(id) =~= old(self)@.waiters);
                None
            },
            Some(index) => {
                let index = *index;
                assert(old(self)@.status.contains_key(id) && old(self)@.status[id] == index);
                let r = self.take_status_at(index);
                proof {
                    let other = r.unwrap().0;
                    assert(old(self).status_ids@[other.spec_key()] == index);
                    crate::protocol::lemma_key_injective(other, id);
                }
                match r {
                    None => None,
                    Some((_, tx)) => Some(tx),
                }
            },
        }
    }

    fn take_status_at(&mut self, index: Index) -> (r: Option<
        (Id, oneshot::Sender<ProcessExitStatus>),
    >)
        requires
            old(self).wf(),
        ensures
            final(self).wf(),
            r.is_some() == exists|id: Id|
                old(self)@.status.contains_key(id) && old(self)@.status[id] == index,
            r.is_some() ==> {
                &&& old(self)@.status.contains_key(r.unwrap().0)
                &&& old(self)@.status[r.unwrap().0] == index
                &&& final(self)@ == (RouterView {
                    status: old(self)@.status.remove(r.unwrap().0),
                    waiters: old(self)@.waiters.remove(r.unwrap().0),
                    ..old(self)@
                })
                &&& slot_of_sender(r.unwrap().1) == old(self)@.waiters[r.unwrap().0]
            },
            r.is_none() ==> final(self)@ == old(self)@,
    {
        let ghost slots0 = status_slots(self.status_notifiers);
        let ghost ids0 = self.status_ids@;
        let removed = status_arena_remove(&mut self.status_notifiers, index);
        match removed {
            None => {
                proof {
                    assert(status_slots(self.status_notifiers) =~= slots0);
                    assert(!status_slot_senders(old(self).status_notifiers).dom().contains(index));
                    assert(status_slot_senders(self.status_notifiers) =~= status_slot_senders(
                        old(self).status_notifiers,
                    ));
                    assert(self@.waiters =~= old(self)@.waiters);
                    if exists|id: Id|
                        old(self)@.status.contains_key(id) && old(self)@.status[id] == index {
                        let id = choose|id: Id|
                            old(self)@.status.contains_key(id) && old(self)@.status[id] == index;
                        assert(ids0.contains_key(id.spec_key()));
                    }
                }
                None
            },
            Some((id, tx)) => {
                let key = id.key();
                self.status_ids.remove(&key);
                proof {
                    assert(slots0.contains_key(index));
                    assert(ids0.contains_key(key) && ids0[key] == index);
                    assert(old(self)@.status.contains_key(id) && old(self)@.status[id] == index);
                    let slots = status_slots(self.status_notifiers);
                    let ids = self.status_ids@;
                    assert forall|k: u128| #[trigger] ids.contains_key(k) implies slots.contains_key(
                        ids[k],
                    ) && slots[ids[k]].spec_key() == k by {
                        assert(ids0.contains_key(k));
                    }
                    assert forall|i: Index| #[trigger] slots.contains_key(i) implies ids.contains_key(
                        slots[i].spec_key(),
                    ) && ids[slots[i].spec_key()] == i by {
                        assert(slots0.contains_key(i));
                        crate::protocol::lemma_key_injective(slots0[i], id);
                    }
                    assert(old(self)@.status.contains_key(id));
                    assert(self@.status =~= old(self)@.status.remove(id));
                    assert forall|k: Id| #[trigger] self@.waiters.contains_key(k) implies self@.waiters[k]
                        == old(self)@.waiters[k] by {
                        crate::protocol::lemma_key_injective(k, id);
                        assert(ids0.contains_key(k.spec_key()));
                        assert(slots0.contains_key(ids0[k.spec_key()]));
                    }
                    assert(self@.waiters =~= old(self)@.waiters.remove(id));
                }
                Some((id, tx))
            },
        }
    }
}

/// Exit code reported for a `Spawn` whose id is already live.
pub const SPAWN_REFUSED_CODE: i32 = 127;

/// What the handler does with one frame received from the peer.
pub enum Action {
    /// Apply these environment pairs to this process.
    SetEnv(Vec<(Vec<u8>, Vec<u8>)>),
    /// Start the process endpoint for this request; its channel is open.
    StartProcess(ChannelReceiver, Spawn),
    /// Send this frame back to the peer.
    Reply(RemoteCommand),
    /// Enqueue the data on the channel's queue, waiting for room.
    Deliver(mpsc::Sender<ChannelData>, ChannelData),
    /// Fulfil the waiter with this status.
    Notify(oneshot::Sender<ProcessExitStatus>, ProcessExitStatus),
    /// Nothing to do: the channel or waiter is already gone.
    Discard,
    /// The session is over: stop taking commands.
    Stop,
}

impl Router {
    /// Decides what to do with a frame received from the peer, and updates
    /// the channel and waiter maps accordingly.
    pub fn handle_frame(&mut self, frame: RemoteCommand) -> (r: Action)
        requires
            old(self).wf(),
        ensures
            final(self).wf(),
            match frame {
                RemoteCommand::SetEnv(set_env) => {
                    &&& r == Action::SetEnv(set_env.env_vars)
                    &&& final(self)@ == old(self)@
                },
                RemoteCommand::Spawn(spawn) => if old(self)@.channels.contains_key(spawn.id) {
                    &&& r == Action::Reply(
                        RemoteCommand::ProcessExit(
                            ProcessExitStatus {
                                id: spawn.id,
                                status: ExitStatus::Code(SPAWN_REFUSED_CODE),
                            },
                        ),
                    )
                    &&& final(self)@ == old(self)@
                } else {
                    &&& r matches Action::StartProcess(rx, s)
                    &&& s == spawn
                    &&& final(self)@ == (RouterView {
                        channels: old(self)@.channels.insert(spawn.id, rx.index),
                        queues: old(self)@.queues.insert(spawn.id, receiver_queue(rx.rx)),
                        ..old(self)@
                    })
                    &&& queue_bound(rx.rx) == CHANNEL_CAPACITY
                },
                RemoteCommand::Channel(ChannelCommand { id, data }) => {
                    &&& match routed(old(self)@.channels, frame) {
                        Some((to, d)) => r matches Action::Deliver(tx, e) && (e == d
                            && sender_queue(tx) == old(self)@.queues[to]),
                        None => r == Action::Discard,
                    }
                    &&& final(self)@ == old(self)@
                },
                RemoteCommand::ProcessExit(p) => {
                    &&& if old(self)@.status.contains_key(p.id) {
                        r matches Action::Notify(tx, q) && (q == p && slot_of_sender(tx)
                            == old(self)@.waiters[p.id])
                    } else {
                        r == Action::Discard
                    }
                    &&& final(self)@ == (RouterView {
                        status: old(self)@.status.remove(p.id),
                        waiters: old(self)@.waiters.remove(p.id),
                        ..old(self)@
                    })
                },
                RemoteCommand::Exit => {
                    &&& r == Action::Stop
                    &&& final(self)@ == old(self)@
                },
            },
    {
        match frame {
            RemoteCommand::SetEnv(set_env) => Action::SetEnv(set_env.env_vars),
            RemoteCommand::Spawn(spawn) => {
                let id = spawn.id;
                match self.insert_channel(id) {
                    Some(rx) => Action::StartProcess(rx, spawn),
                    None => Action::Reply(
                        RemoteCommand::ProcessExit(
                            ProcessExitStatus { id, status: ExitStatus::Code(SPAWN_REFUSED_CODE) },
                        ),
                    ),
                }
            },
            RemoteCommand::Channel(ChannelCommand { id, data }) => match self.get_channel(id) {
                Some(tx) => Action::Deliver(tx, data),
                None => Action::Discard,
            },
            RemoteCommand::ProcessExit(p) => match self.take_status(p.id) {
                Some(tx) => Action::Notify(tx, p),
                None => Action::Discard,
            },
            RemoteCommand::Exit => Action::Stop,
        }
    }
}

/// The data that `handle_frame` hands to a queue for `frame`, and the
/// channel it goes to, given the live channels.
pub open spec fn routed(channels: Map<Id, Index>, frame: RemoteCommand) -> Option<(Id, ChannelData)> {
    match frame {
        RemoteCommand::Channel(ChannelCommand { id, data }) => if channels.contains_key(id) {
            Some((id, data))
        } else {
            None
        },
        _ => None,
    }
}

/// The data that the frames `frames` hand to the queue of `id`, in order,
/// while the live channels are `channels`.
pub open spec fn routed_to(channels: Map<Id, Index>, frames: Seq<RemoteCommand>, id: Id) -> Seq<
    ChannelData,
>
    decreases frames.len(),
{
    if frames.len() == 0 {
        seq![]
    } else {
        let rest = routed_to(channels, frames.drop_last(), id);
        match routed(channels, frames.last()) {
            Some((to, data)) => if to == id {
                rest.push(data)
            } else {
                rest
            },
            None => rest,
        }
    }
}

/// The data that the frames `frames` carry for channel `id`, in order.
pub open spec fn sent_on(frames: Seq<RemoteCommand>, id: Id) -> Seq<ChannelData>
    decreases frames.len(),
{
    if frames.len() == 0 {
        seq![]
    } else {
        let rest = sent_on(frames.drop_last(), id);
        match frames.last() {
            RemoteCommand::Channel(ChannelCommand { id: to, data }) => if to == id {
                rest.push(data)
            } else {
                rest
            },
            _ => rest,
        }
    }
}

/// `Channel` frames leave the live channels as they are (see
/// `handle_frame`); so over a run of them, a live channel's queue receives
/// exactly the data sent on it, in the order received.
pub proof fn lemma_channel_order(channels: Map<Id, Index>, frames: Seq<RemoteCommand>, id: Id)
    requires
        channels.contains_key(id),
    ensures
        routed_to(channels, frames, id) == sent_on(frames, id),
    decreases frames.len(),
{
    if frames.len() > 0 {
        lemma_channel_order(channels, frames.drop_last(), id);
    }
}

/// A change that a router call makes to the map of live channels.
pub enum ChannelChange {
    Opened(Id, Index),
    Closed(Id),
}

/// The channel map after the changes `cs`, in order.
pub open spec fn apply_changes(channels: Map<Id, Index>, cs: Seq<ChannelChange>) -> Map<Id, Index>
    decreases cs.len(),
{
    if cs.len() == 0 {
        channels
    } else {
        let next = match cs[0] {
            ChannelChange::Opened(id, index) => channels.insert(id, index),
            ChannelChange::Closed(id) => channels.remove(id),
        };
        apply_changes(next, cs.drop_first())
    }
}

/// After `insert_channel(id)` has succeeded, `id` stays live through any
/// changes that do not close it; so a second `insert_channel(id)`, which
/// succeeds only for an id that is not live, is refused.
pub proof fn lemma_id_stays_in_use(
    channels: Map<Id, Index>,
    id: Id,
    index: Index,
    cs: Seq<ChannelChange>,
)
    requires
        forall|i: int| 0 <= i < cs.len() ==> cs[i] != ChannelChange::Closed(id),
    ensures
        apply_changes(channels.insert(id, index), cs).contains_key(id),
    decreases cs.len(),
{
    if cs.len() > 0 {
        let m = channels.insert(id, index);
        assert(cs[0] != ChannelChange::Closed(id));
        let rest = cs.drop_first();
        assert forall|i: int| 0 <= i < rest.len() implies rest[i] != ChannelChange::Closed(id) by {
            assert(rest[i] == cs[i + 1]);
        }
        match cs[0] {
            ChannelChange::Opened(other, j) => {
                if other == id {
                    assert(m.insert(other, j) =~= channels.insert(id, j));
                    lemma_id_stays_in_use(channels, id, j, rest);
                } else {
                    assert(m.insert(other, j) =~= channels.insert(other, j).insert(id, index));
                    lemma_id_stays_in_use(channels.insert(other, j), id, index, rest);
                }
            },
            ChannelChange::Closed(other) => {
                assert(m.remove(other) =~= channels.remove(other).insert(id, index));
                lemma_id_stays_in_use(channels.remove(other), id, index, rest);
            },
        }
    }
}

} // verus!
