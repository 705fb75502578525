use vstd::prelude::*;

verus! {

/// The integer that identifies an event type.
pub type EventTypeId = usize;

/// A payload together with the type of event it was sent as; it can be read
/// back only as that type.
pub struct Event<E> {
    event_type: EventTypeId,
    data: E,
}

impl<E> Event<E> {
    pub closed spec fn spec_type(&self) -> EventTypeId {
        self.event_type
    }

    pub closed spec fn spec_data(&self) -> E {
        self.data
    }

    pub fn new(event_type: EventTypeId, data: E) -> (r: Event<E>)
        ensures
            r.spec_type() == event_type,
            r.spec_data() == data,
    {
        Event { event_type, data }
    }

    /// The type the event was sent as.
    pub fn event_type(&self) -> (r: EventTypeId)
        ensures
            r == self.spec_type(),
    {
        self.event_type
    }

    /// The payload, when asked for as the type it was sent as.
    pub fn get_data(&self, event_type: EventTypeId) -> (r: Option<&E>)
        ensures
            event_type == self.spec_type() ==> r == Some(&self.spec_data()),
            event_type != self.spec_type() ==> r is None,
    {
        if event_type == self.event_type {
            Some(&self.data)
        } else {
            None
        }
    }
}

/// The listeners of `event_type` among `subscriptions`, in order.
pub open spec fn listeners_of(subscriptions: Seq<(EventTypeId, usize)>, event_type: EventTypeId) -> Seq<usize>
    decreases subscriptions.len(),
{
    if subscriptions.len() == 0 {
        Seq::empty()
    } else {
        let rest = listeners_of(subscriptions.drop_last(), event_type);
        if subscriptions.last().0 == event_type {
            rest.push(subscriptions.last().1)
        } else {
            rest
        }
    }
}

/// Typed publish and subscribe. A subscription pairs an event type with a
/// listener, the index of a system; an event goes to the listeners of its
/// type in the order in which they subscribed.
pub struct EventBus {
    listeners: Vec<(EventTypeId, usize)>,
}

impl View for EventBus {
    /// The subscriptions, in order.
    type V = Seq<(EventTypeId, usize)>;

    closed spec fn view(&self) -> Seq<(EventTypeId, usize)> {
        self.listeners@
    }
}

impl EventBus {
    pub fn new() -> (r: EventBus)
        ensures
            r@ == Seq::<(EventTypeId, usize)>::empty(),
    {
        EventBus { listeners: Vec::new() }
    }

    /// Adds a subscription of `listener` to `event_type`; subscribing twice
    /// delivers twice.
    pub fn subscribe_type(&mut self, event_type: EventTypeId, listener: usize)
        ensures
            final(self)@ == old(self)@.push((event_type, listener)),
    {
        self.listeners.push((event_type, listener));
    }

    /// The listeners to which an event of type `event_type` is delivered, in
    /// order; the bus itself does not change.
    pub fn emit(&self, event_type: EventTypeId) -> (r: Vec<usize>)
        ensures
            r@ == listeners_of(self@, event_type),
    {
        let mut r: Vec<usize> = Vec::new();
        let mut i: usize = 0;
        while i < self.listeners.len()
            invariant
                0 <= i <= self.listeners.len(),
                r@ == listeners_of(self@.subrange(0, i as int), event_type),
            decreases self.listeners.len() - i,
        {
            let (t, listener) = self.listeners[i];
            assert(self@.subrange(0, i as int + 1).drop_last() == self@.subrange(0, i as int));
            if t == event_type {
                r.push(listener);
            }
            i = i + 1;
        }
        assert(self@.subrange(0, self@.len() as int) == self@);
        r
    }

    /// Drops every subscription.
    pub fn clear(&mut self)
        ensures
            final(self)@ == Seq::<(EventTypeId, usize)>::empty(),
    {
        self.listeners.clear();
    }
}

/// An event type that nobody subscribed to reaches nobody.
pub proof fn lemma_emit_without_listeners(subscriptions: Seq<(EventTypeId, usize)>, event_type: EventTypeId)
    requires
        forall|i: int| 0 <= i < subscriptions.len() ==> #[trigger] subscriptions[i].0 != event_type,
    ensures
        listeners_of(subscriptions, event_type) == Seq::<usize>::empty(),
    decreases subscriptions.len(),
{
    if subscriptions.len() > 0 {
        let rest = subscriptions.drop_last();
        assert forall|i: int| 0 <= i < rest.len() implies #[trigger] rest[i].0 != event_type by {
            assert(rest[i] == subscriptions[i]);
        }
        lemma_emit_without_listeners(rest, event_type);
    }
}

} // verus!
