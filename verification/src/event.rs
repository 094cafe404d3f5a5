//! Change events and the hub that hands them to the subscribers of one
//! collection.

use crate::error::{KvError, KvResult};
use std::sync::Arc;
use vstd::prelude::*;

verus! {

/// One change that was made to a collection.
#[derive(Clone, Debug, PartialEq)]
pub enum Event<K, V> {
    /// `value` was stored under `key`.
    Upsert { key: K, value: V },
    /// `key` was taken out.
    Remove { key: K },
    /// Every key was taken out.
    RemoveAll,
}

/// One change that was made to a collection, in the model: the key and
/// the value as their views.
pub enum EventView<K, V> {
    Upsert { key: K, value: V },
    Remove { key: K },
    RemoveAll,
}

impl<K: View, V: View> View for Event<K, V> {
    type V = EventView<K::V, V::V>;

    open spec fn view(&self) -> EventView<K::V, V::V> {
        match self {
            Event::Upsert { key, value } => EventView::Upsert { key: key@, value: value@ },
            Event::Remove { key } => EventView::Remove { key: key@ },
            Event::RemoveAll => EventView::RemoveAll,
        }
    }
}

/// The views of a run of events.
pub open spec fn event_views<K: View, V: View>(events: Seq<Event<K, V>>) -> Seq<
    EventView<K::V, V::V>,
> {
    events.map_values(|e: Event<K, V>| e@)
}

/// The events of one write, in the order in which the changes were made.
pub type Events<K, V> = Vec<Event<K, V>>;

/// What one subscriber has been sent and has not taken yet.
pub struct Mailbox<K, V> {
    queue: Vec<Arc<Vec<Event<K, V>>>>,
    limit: Option<usize>,
    connected: bool,
}

/// The subscribers of one collection.
pub struct EventHub<K, V> {
    boxes: Vec<Mailbox<K, V>>,
    open: bool,
}

/// A mailbox in the model.
pub struct MailboxView<K, V> {
    /// The deliveries that wait, oldest first; each is the events of one
    /// write.
    pub queue: Seq<Seq<Event<K, V>>>,
    /// How many deliveries may wait; `None` for any number.
    pub limit: Option<usize>,
    /// The subscriber still listens.
    pub connected: bool,
}

/// A hub in the model.
pub struct HubView<K, V> {
    /// The mailboxes, in the order in which the subscribers came.
    pub boxes: Seq<MailboxView<K, V>>,
    /// The hub still takes subscribers.
    pub open: bool,
}

impl<K, V> MailboxView<K, V> {
    /// The mailbox takes one more delivery: its subscriber listens and its
    /// queue is not full.
    pub open spec fn accepts(self) -> bool {
        self.connected && match self.limit {
            Some(n) => self.queue.len() < n,
            None => true,
        }
    }

    /// The mailbox after `events` were sent to it: they wait at the end of
    /// the queue, or are dropped where the mailbox does not accept them.
    pub open spec fn sent(self, events: Seq<Event<K, V>>) -> MailboxView<K, V> {
        if self.accepts() {
            MailboxView { queue: self.queue.push(events), ..self }
        } else {
            self
        }
    }
}

impl<K, V> HubView<K, V> {
    /// The hub after `events` were published: sent to every mailbox. An
    /// empty write publishes nothing.
    pub open spec fn published(self, events: Seq<Event<K, V>>) -> HubView<K, V> {
        if events.len() == 0 {
            self
        } else {
            HubView {
                boxes: Seq::new(self.boxes.len(), |i: int| self.boxes[i].sent(events)),
                ..self
            }
        }
    }

    /// The hub with one more mailbox, empty and connected.
    pub open spec fn joined(self, limit: Option<usize>) -> HubView<K, V> {
        HubView {
            boxes: self.boxes.push(
                MailboxView { queue: Seq::empty(), limit, connected: true },
            ),
            ..self
        }
    }

    /// The hub after subscriber `id` took its oldest delivery.
    pub open spec fn taken(self, id: int) -> HubView<K, V> {
        HubView {
            boxes: self.boxes.update(
                id,
                MailboxView { queue: self.boxes[id].queue.drop_first(), ..self.boxes[id] },
            ),
            ..self
        }
    }

    /// The hub after subscriber `id` stopped listening.
    pub open spec fn left(self, id: int) -> HubView<K, V> {
        HubView {
            boxes: self.boxes.update(id, MailboxView { connected: false, ..self.boxes[id] }),
            ..self
        }
    }

    /// Subscriber `id` has something to take.
    pub open spec fn has_mail(self, id: int) -> bool {
        0 <= id < self.boxes.len() && self.boxes[id].queue.len() > 0
    }
}

/// `Arc::clone`: one more handle to the same events.
#[verifier::external_body]
fn share<K, V>(events: &Arc<Vec<Event<K, V>>>) -> (same: Arc<Vec<Event<K, V>>>)
    ensures
        same == *events,
{
    Arc::clone(events)
}

impl<K, V> View for Mailbox<K, V> {
    type V = MailboxView<K, V>;

    closed spec fn view(&self) -> MailboxView<K, V> {
        MailboxView {
            queue: self.queue@.map_values(|d: Arc<Vec<Event<K, V>>>| d@),
            limit: self.limit,
            connected: self.connected,
        }
    }
}

impl<K, V> Mailbox<K, V> {
    /// Sends one delivery, or drops it where the mailbox does not accept
    /// it.
    fn send(&mut self, events: &Arc<Vec<Event<K, V>>>)
        ensures
            final(self)@ == old(self)@.sent(events@),
    {
        let room = match self.limit {
            Some(n) => self.queue.len() < n,
            None => true,
        };
        if self.connected && room {
            self.queue.push(share(events));
            assert(self@.queue =~= old(self)@.queue.push(events@));
        }
    }
}

impl<K, V> View for EventHub<K, V> {
    type V = HubView<K, V>;

    closed spec fn view(&self) -> HubView<K, V> {
        HubView { boxes: self.boxes@.map_values(|b: Mailbox<K, V>| b@), open: self.open }
    }
}

impl<K, V> EventHub<K, V> {
    /// A hub without subscribers.
    pub fn new() -> (hub: Self)
        ensures
            hub@.boxes.len() == 0,
            hub@.open,
    {
        EventHub { boxes: Vec::new(), open: true }
    }

    /// Registers a subscriber, whose mailbox holds at most `limit`
    /// deliveries (`None`: any number), and gives its number. Fails only on
    /// a hub that was shut.
    pub fn subscribe(&mut self, limit: Option<usize>) -> (r: KvResult<usize>)
        ensures
            match r {
                Ok(id) => {
                    &&& old(self)@.open
                    &&& id == old(self)@.boxes.len()
                    &&& final(self)@ == old(self)@.joined(limit)
                },
                Err(KvError::FailToSubscribe) => !old(self)@.open && final(self)@ == old(self)@,
                Err(_) => false,
            },
    {
        if !self.open {
            return Err(KvError::FailToSubscribe);
        }
        let id = self.boxes.len();
        let mailbox = Mailbox { queue: Vec::new(), limit, connected: true };
        assert(mailbox@.queue =~= Seq::<Seq<Event<K, V>>>::empty());
        self.boxes.push(mailbox);
        assert(self@.boxes =~= old(self)@.joined(limit).boxes);
        Ok(id)
    }

    /// Sends the events of one write to every subscriber. A subscriber that
    /// does not accept them misses them; nobody else is held up by that.
    pub fn publish(&mut self, events: Vec<Event<K, V>>)
        ensures
            final(self)@ == old(self)@.published(events@),
    {
        if events.len() == 0 {
            return ;
        }
        let shared = Arc::new(events);
        let n = self.boxes.len();
        let mut i: usize = 0;
        while i < n
            invariant
                i <= n,
                n == old(self)@.boxes.len(),
                self@.open == old(self)@.open,
                self@.boxes.len() == n,
                shared@ == events@,
                forall|j: int| 0 <= j < i ==> self@.boxes[j] == old(self)@.boxes[j].sent(events@),
                forall|j: int| i <= j < n ==> self@.boxes[j] == old(self)@.boxes[j],
            decreases n - i,
        {
            let ghost before = self@;
            self.boxes[i].send(&shared);
            assert(self@.boxes[i as int] == before.boxes[i as int].sent(events@));
            assert(forall|j: int| 0 <= j < n && j != i ==> self@.boxes[j] == before.boxes[j]);
            assert forall|j: int| 0 <= j < i + 1 implies self@.boxes[j] == old(self)@.boxes[j].sent(
                events@,
            ) by {
                if j < i {
                    assert(before.boxes[j] == old(self)@.boxes[j].sent(events@));
                } else {
                    assert(before.boxes[j] == old(self)@.boxes[j]);
                }
            }
            assert forall|j: int| i + 1 <= j < n implies self@.boxes[j] == old(self)@.boxes[j] by {
                assert(before.boxes[j] == old(self)@.boxes[j]);
            }
            i = i + 1;
        }
        assert(self@.boxes =~= old(self)@.published(events@).boxes);
    }

    /// The oldest delivery that waits for subscriber `id`, which is taken
    /// out of its mailbox.
    pub fn try_recv(&mut self, id: usize) -> (r: Option<Arc<Vec<Event<K, V>>>>)
        ensures
            match r {
                Some(events) => {
                    &&& old(self)@.has_mail(id as int)
                    &&& events@ == old(self)@.boxes[id as int].queue[0]
                    &&& final(self)@ == old(self)@.taken(id as int)
                },
                None => !old(self)@.has_mail(id as int) && final(self)@ == old(self)@,
            },
    {
        if id >= self.boxes.len() {
            return None;
        }
        if self.boxes[id].queue.len() == 0 {
            return None;
        }
        let first = self.boxes[id].queue.remove(0);
        assert(self@.boxes[id as int].queue =~= old(self)@.boxes[id as int].queue.drop_first());
        assert(self@.boxes =~= old(self)@.taken(id as int).boxes);
        Some(first)
    }

    /// Subscriber `id` stops listening: nothing more is put into its
    /// mailbox. What waits there stays.
    pub fn unsubscribe(&mut self, id: usize)
        ensures
            (id as int) < old(self)@.boxes.len() ==> final(self)@ == old(self)@.left(id as int),
            (id as int) >= old(self)@.boxes.len() ==> final(self)@ == old(self)@,
    {
        if id < self.boxes.len() {
            self.boxes[id].connected = false;
            assert(self@.boxes =~= old(self)@.left(id as int).boxes);
        }
    }

    /// Shuts the hub: it takes no more subscribers.
    pub fn shut(&mut self)
        ensures
            final(self)@ == (HubView { open: false, ..old(self)@ }),
    {
        self.open = false;
    }
}

} // verus!
