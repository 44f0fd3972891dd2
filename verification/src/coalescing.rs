//! Coalescing of equal requests: the first one in flight leads, the others listen to it.
use dashmap::DashMap;
use tokio::sync::broadcast;
use vstd::prelude::*;

verus! {

/// The number of chunks that the channel of a leader holds for slow listeners.
pub const CHANNEL_CAPACITY: usize = 128;

/// The sending halves of the channels of the requests in flight, by the key of the request.
pub type InFlightRequests = DashMap<String, broadcast::Sender<String>>;

/// `tokio::sync::broadcast::Sender`, carried as an opaque value: which channel it sends on.
#[verifier::external_type_specification]
#[verifier::external_body]
#[verifier::reject_recursive_types(T)]
pub struct ExSender<T>(broadcast::Sender<T>);

/// `tokio::sync::broadcast::Receiver`, carried as an opaque value.
#[verifier::external_type_specification]
#[verifier::external_body]
#[verifier::reject_recursive_types(T)]
pub struct ExReceiver<T>(broadcast::Receiver<T>);

/// `dashmap::DashMap`, carried as an opaque value.
#[verifier::external_type_specification]
#[verifier::external_body]
#[verifier::reject_recursive_types(K)]
#[verifier::reject_recursive_types(V)]
#[verifier::reject_recursive_types(S)]
pub struct ExDashMap<K, V, S>(DashMap<K, V, S>);

/// The channels that a map holds under its keys.
pub uninterp spec fn channels(map: InFlightRequests) -> Map<Seq<char>, broadcast::Sender<String>>;

/// The number of chunks for which a channel was made.
pub uninterp spec fn capacity(sender: broadcast::Sender<String>) -> nat;

/// The channel on which a receiver listens.
pub uninterp spec fn listens_to(receiver: broadcast::Receiver<String>) -> broadcast::Sender<String>;

/// Calls `tokio::sync::broadcast::channel`, and keeps the sending half: a channel made for
/// that number of chunks, and a new one, so none of those that a map holds already. The call
/// panics on a capacity of zero and on one above half of the largest `usize`.
#[verifier::external_body]
fn open_channel(size: usize, others: &InFlightRequests) -> (r: broadcast::Sender<String>)
    requires
        0 < size <= usize::MAX / 2,
    ensures
        capacity(r) == size,
        !channels(*others).contains_value(r),
{
    let _ = others;
    let (sender, _) = broadcast::channel(size);
    sender
}

/// Calls `tokio::sync::broadcast::Sender::clone`: another handle to the same channel.
#[verifier::external_body]
fn same_channel(sender: &broadcast::Sender<String>) -> (r: broadcast::Sender<String>)
    ensures
        r == *sender,
{
    sender.clone()
}

/// Calls `tokio::sync::broadcast::Sender::subscribe`: a receiver that listens on the channel.
/// The call panics only at a quarter of the largest `usize` receivers, more than memory holds.
#[verifier::external_body]
fn listen(sender: &broadcast::Sender<String>) -> (r: broadcast::Receiver<String>)
    ensures
        listens_to(r) == *sender,
{
    sender.subscribe()
}

/// Calls `dashmap::DashMap::get`, and makes another handle to the channel that stands under
/// the key, where there is one.
#[verifier::external_body]
fn lookup(map: &InFlightRequests, key: &str) -> (r: Option<broadcast::Sender<String>>)
    ensures
        match r {
            Some(sender) => channels(*map).contains_key(key@) && channels(*map)[key@] == sender,
            None => !channels(*map).contains_key(key@),
        },
{
    map.get(key).map(|entry| entry.value().clone())
}

/// Calls `dashmap::DashMap::insert` on a map that nobody else uses: the entry under the key
/// is set and the others stay; the channel that stood there before comes back.
#[verifier::external_body]
fn store(map: &mut InFlightRequests, key: String, sender: broadcast::Sender<String>) -> (r: Option<
    broadcast::Sender<String>,
>)
    ensures
        channels(*final(map)) == channels(*old(map)).insert(key@, sender),
        r is Some == channels(*old(map)).contains_key(key@),
        r is Some ==> r->Some_0 == channels(*old(map))[key@],
{
    map.insert(key, sender)
}

/// Calls `dashmap::DashMap::remove` on a map that nobody else uses: the entry under the key
/// is gone and the others stay; whether there was one comes back.
#[verifier::external_body]
fn forget(map: &mut InFlightRequests, key: &str) -> (r: bool)
    ensures
        channels(*final(map)) == channels(*old(map)).remove(key@),
        r == channels(*old(map)).contains_key(key@),
{
    map.remove(key).is_some()
}

/// The part that a request takes.
pub enum CoalescingSlot {
    /// The request asks upstream and sends what comes on the channel.
    Leader { sender: broadcast::Sender<String>, key: String },
    /// The request listens to the one that leads.
    Subscriber { receiver: broadcast::Receiver<String>, key: String },
}

impl CoalescingSlot {
    /// The key of the request.
    pub open spec fn key(self) -> Seq<char> {
        match self {
            CoalescingSlot::Leader { sender, key } => key@,
            CoalescingSlot::Subscriber { receiver, key } => key@,
        }
    }

    /// The channel on which the request sends or listens.
    pub open spec fn channel(self) -> broadcast::Sender<String> {
        match self {
            CoalescingSlot::Leader { sender, key } => sender,
            CoalescingSlot::Subscriber { receiver, key } => listens_to(receiver),
        }
    }
}

/// Whether a request with that key takes that part and leaves those channels in flight: it
/// listens to the channel of the key where there is one, and else leads on a channel of its
/// own, which then stands under the key.
pub open spec fn acquires(
    before: Map<Seq<char>, broadcast::Sender<String>>,
    key: Seq<char>,
    slot: CoalescingSlot,
    after: Map<Seq<char>, broadcast::Sender<String>>,
) -> bool {
    &&& slot.key() == key
    &&& if before.contains_key(key) {
        slot is Subscriber && slot.channel() == before[key] && after == before
    } else {
        &&& slot is Leader
        &&& capacity(slot.channel()) == CHANNEL_CAPACITY
        &&& !before.contains_value(slot.channel())
        &&& after == before.insert(key, slot.channel())
    }
}

/// The requests in flight.
pub struct CoalescingEngine {
    in_flight: InFlightRequests,
}

impl View for CoalescingEngine {
    type V = Map<Seq<char>, broadcast::Sender<String>>;

    closed spec fn view(&self) -> Map<Seq<char>, broadcast::Sender<String>> {
        channels(self.in_flight)
    }
}

impl CoalescingEngine {
    /// An engine that goes on from some requests in flight.
    pub fn new(in_flight: InFlightRequests) -> (r: Self)
        ensures
            r@ == channels(in_flight),
    {
        CoalescingEngine { in_flight }
    }

    /// Takes the part of a request: to listen where an equal one is in flight, else to lead.
    pub fn acquire(&mut self, key: String) -> (r: CoalescingSlot)
        ensures
            acquires(old(self)@, key@, r, final(self)@),
    {
        match lookup(&self.in_flight, key.as_str()) {
            Some(sender) => {
                let receiver = listen(&sender);
                CoalescingSlot::Subscriber { receiver, key }
            },
            None => {
                let sender = open_channel(CHANNEL_CAPACITY, &self.in_flight);
                let _ = store(&mut self.in_flight, key.clone(), same_channel(&sender));
                CoalescingSlot::Leader { sender, key }
            },
        }
    }

    /// Gives up the key of a leader that is done.
    pub fn release(&mut self, key: &str)
        ensures
            final(self)@ == old(self)@.remove(key@),
    {
        let _ = forget(&mut self.in_flight, key);
    }
}

/// What a leader owes the engine: the key that it has to give up when it is done, unless it
/// has been disarmed.
pub struct CoalescingGuard {
    key: Option<String>,
}

impl View for CoalescingGuard {
    type V = Option<Seq<char>>;

    closed spec fn view(&self) -> Option<Seq<char>> {
        match self.key {
            Some(key) => Some(key@),
            None => None,
        }
    }
}

impl CoalescingGuard {
    /// A guard for a key.
    pub fn new(key: String) -> (r: Self)
        ensures
            r@ == Some(key@),
    {
        CoalescingGuard { key: Some(key) }
    }

    /// Frees the guard of its duty.
    pub fn disarm(&mut self)
        ensures
            final(self)@ is None,
    {
        self.key = None;
    }

    /// Ends the guard: its key, if it still has one, is given up. The guard has no duty
    /// afterwards.
    pub fn finish(&mut self, engine: &mut CoalescingEngine)
        ensures
            final(self)@ is None,
            final(engine)@ == match old(self)@ {
                Some(key) => old(engine)@.remove(key),
                None => old(engine)@,
            },
    {
        match &self.key {
            Some(key) => engine.release(key.as_str()),
            None => {},
        }
        self.key = None;
    }
}

/// Whether no two keys share a channel.
pub open spec fn separate(in_flight: Map<Seq<char>, broadcast::Sender<String>>) -> bool {
    forall|a: Seq<char>, b: Seq<char>|
        in_flight.contains_key(a) && in_flight.contains_key(b) && a != b
            ==> #[trigger] in_flight[a] != #[trigger] in_flight[b]
}

/// Whether two states of the requests in flight say the same of a key.
pub open spec fn agree_on(
    a: Map<Seq<char>, broadcast::Sender<String>>,
    b: Map<Seq<char>, broadcast::Sender<String>>,
    key: Seq<char>,
) -> bool {
    &&& a.contains_key(key) == b.contains_key(key)
    &&& a.contains_key(key) ==> a[key] == b[key]
}

/// Whether requests with those keys, one after another, take those parts, from and to those
/// channels in flight, where nobody gives up one key in between. What happens to all other
/// keys in between is open.
pub open spec fn all_acquire(
    key: Seq<char>,
    before: Seq<Map<Seq<char>, broadcast::Sender<String>>>,
    keys: Seq<Seq<char>>,
    slots: Seq<CoalescingSlot>,
    after: Seq<Map<Seq<char>, broadcast::Sender<String>>>,
) -> bool {
    &&& before.len() == keys.len()
    &&& slots.len() == keys.len()
    &&& after.len() == keys.len()
    &&& forall|i: int|
        0 <= i < keys.len() ==> #[trigger] acquires(before[i], keys[i], slots[i], after[i])
    &&& forall|i: int|
        0 <= i < keys.len() - 1 ==> agree_on(#[trigger] after[i], before[i + 1], key)
}

/// A key that is in flight after one request is so before every later one, with its channel.
proof fn lemma_stays_in_flight(
    key: Seq<char>,
    before: Seq<Map<Seq<char>, broadcast::Sender<String>>>,
    keys: Seq<Seq<char>>,
    slots: Seq<CoalescingSlot>,
    after: Seq<Map<Seq<char>, broadcast::Sender<String>>>,
    from: int,
    to: int,
)
    requires
        all_acquire(key, before, keys, slots, after),
        0 <= from < to < keys.len(),
        after[from].contains_key(key),
    ensures
        before[to].contains_key(key),
        before[to][key] == after[from][key],
    decreases to - from,
{
    assert(agree_on(after[from], before[from + 1], key));
    if from + 1 < to {
        assert(acquires(before[from + 1], keys[from + 1], slots[from + 1], after[from + 1]));
        lemma_stays_in_flight(key, before, keys, slots, after, from + 1, to);
    }
}

/// Of any number of requests with one key that come in while none of them is done, exactly
/// one leads: the first, where the key was not in flight before. All others listen to its
/// channel, whatever requests with other keys come in or are done in between.
pub proof fn law_one_leader(
    before: Seq<Map<Seq<char>, broadcast::Sender<String>>>,
    keys: Seq<Seq<char>>,
    slots: Seq<CoalescingSlot>,
    after: Seq<Map<Seq<char>, broadcast::Sender<String>>>,
    first: int,
    other: int,
)
    requires
        0 <= first < other < keys.len(),
        all_acquire(keys[first], before, keys, slots, after),
        keys[first] == keys[other],
        !before[first].contains_key(keys[first]),
    ensures
        slots[first] is Leader,
        slots[other] is Subscriber,
        slots[other].channel() == slots[first].channel(),
{
    assert(acquires(before[first], keys[first], slots[first], after[first]));
    lemma_stays_in_flight(keys[first], before, keys, slots, after, first, other);
    assert(acquires(before[other], keys[other], slots[other], after[other]));
}

/// After the key of a leader is given up, the next request with that key leads, on a channel
/// that no request in flight uses.
pub proof fn law_next_leader(
    before: Map<Seq<char>, broadcast::Sender<String>>,
    key: Seq<char>,
    slot: CoalescingSlot,
    after: Map<Seq<char>, broadcast::Sender<String>>,
)
    requires
        acquires(before.remove(key), key, slot, after),
    ensures
        slot is Leader,
        after[key] == slot.channel(),
        !before.remove(key).contains_value(slot.channel()),
{
}

/// Requests with different keys never share a channel.
pub proof fn law_channels_stay_separate(
    before: Map<Seq<char>, broadcast::Sender<String>>,
    key: Seq<char>,
    slot: CoalescingSlot,
    after: Map<Seq<char>, broadcast::Sender<String>>,
)
    requires
        separate(before),
        acquires(before, key, slot, after),
    ensures
        separate(after),
        separate(before.remove(key)),
{
    assert forall|a: Seq<char>, b: Seq<char>|
        after.contains_key(a) && after.contains_key(b) && a != b implies #[trigger] after[a]
        != #[trigger] after[b] by {
        if !before.contains_key(key) {
            if a == key {
                assert(before.contains_key(b));
            } else if b == key {
                assert(before.contains_key(a));
            }
        }
    }
    assert forall|a: Seq<char>, b: Seq<char>|
        before.remove(key).contains_key(a) && before.remove(key).contains_key(b) && a
            != b implies #[trigger] before.remove(key)[a] != #[trigger] before.remove(key)[b] by {
        assert(before[a] != before[b]);
    }
}

/// A request leaves the requests with other keys as they are.
pub proof fn law_other_keys_untouched(
    before: Map<Seq<char>, broadcast::Sender<String>>,
    key: Seq<char>,
    slot: CoalescingSlot,
    after: Map<Seq<char>, broadcast::Sender<String>>,
    other: Seq<char>,
)
    requires
        acquires(before, key, slot, after),
        other != key,
    ensures
        after.contains_key(other) == before.contains_key(other),
        before.contains_key(other) ==> after[other] == before[other],
{
}

/// When a leader gives up its key, the requests in flight are as before it came.
pub proof fn law_release_undoes_lead(
    before: Map<Seq<char>, broadcast::Sender<String>>,
    key: Seq<char>,
    slot: CoalescingSlot,
    after: Map<Seq<char>, broadcast::Sender<String>>,
)
    requires
        acquires(before, key, slot, after),
        slot is Leader,
    ensures
        after.remove(key) == before,
{
    assert(after.remove(key) =~= before);
}

/// What a request gets: the part of a listener on the channel that stands under its key,
/// where one does, with nothing changed; and else the part of a leader, on a channel for 128
/// chunks that no request in flight uses, which then stands under its key beside all others.
/// Either way it is told its own key.
pub proof fn law_what_a_request_gets(
    before: Map<Seq<char>, broadcast::Sender<String>>,
    key: Seq<char>,
    slot: CoalescingSlot,
    after: Map<Seq<char>, broadcast::Sender<String>>,
)
    requires
        acquires(before, key, slot, after),
    ensures
        before.contains_key(key) ==> after == before && match slot {
            CoalescingSlot::Subscriber { receiver, key: told } => told@ == key && listens_to(
                receiver,
            ) == before[key],
            CoalescingSlot::Leader { sender, key: told } => false,
        },
        !before.contains_key(key) ==> match slot {
            CoalescingSlot::Subscriber { receiver, key: told } => false,
            CoalescingSlot::Leader { sender, key: told } => {
                &&& told@ == key
                &&& capacity(sender) == 128
                &&& forall|other: Seq<char>| #[trigger]
                    before.contains_key(other) ==> before[other] != sender
                &&& after == before.insert(key, sender)
            },
        },
{
    if !before.contains_key(key) {
        assert forall|other: Seq<char>| #[trigger] before.contains_key(other) implies before[other]
            != slot.channel() by {
            if before[other] == slot.channel() {
                assert(before.contains_value(slot.channel()));
            }
        }
    }
}

}
