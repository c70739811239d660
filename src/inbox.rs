use std::collections::VecDeque;
use vstd::prelude::*;

use crate::event::{is_public, public_form, DecodeError, Event, InternalEvent, RawEvent};

verus! {

/// The answer to one pull on the inbox.
#[derive(Clone, Copy, Debug, PartialEq, Eq)]
pub enum Pulled {
    /// The next consumer-visible item: an event or a decode error.
    Ready(Result<Event, DecodeError>),
    /// Nothing to hand out now; the registered task is woken on new data.
    Pending,
}

/// What a pull on a queue holding `items` hands out, and the queue it leaves:
/// cursor-position responses at the front are dropped, the first other entry
/// is handed out and removed.
pub open spec fn drain(items: Seq<RawEvent>) -> (Option<Result<Event, DecodeError>>, Seq<RawEvent>)
    decreases items.len(),
{
    if items.len() == 0 {
        (None, items)
    } else if is_public(items[0]) {
        (Some(public_form(items[0])), items.drop_first())
    } else {
        drain(items.drop_first())
    }
}

/// The entries of `items` that a consumer can ever observe, in queue order.
pub open spec fn public_view(items: Seq<RawEvent>) -> Seq<Result<Event, DecodeError>>
    decreases items.len(),
{
    if items.len() == 0 {
        Seq::empty()
    } else if is_public(items[0]) {
        seq![public_form(items[0])] + public_view(items.drop_first())
    } else {
        public_view(items.drop_first())
    }
}

/// A pull on a queue where no consumer-visible entry is left hands out
/// nothing and leaves the queue empty, so pulling again without new data
/// again hands out nothing and changes nothing.
pub proof fn lemma_empty_pull_idempotent(items: Seq<RawEvent>)
    requires
        public_view(items).len() == 0,
    ensures
        drain(items).0 is None,
        drain(items).1.len() == 0,
        drain(drain(items).1) == drain(items),
    decreases items.len(),
{
    if items.len() > 0 {
        if is_public(items[0]) {
            assert(public_view(items).len() > 0);
        } else {
            lemma_empty_pull_idempotent(items.drop_first());
        }
    }
}

/// A pull hands out exactly the first entry of the consumer-visible view, and
/// what it leaves has that view without its first entry: cursor-position
/// responses are never handed out, wherever they stand, and the other entries
/// come out in queue order.
pub proof fn lemma_pull_follows_public_view(items: Seq<RawEvent>)
    ensures
        public_view(items).len() == 0 ==> drain(items).0 is None
            && public_view(drain(items).1).len() == 0,
        public_view(items).len() > 0 ==> drain(items).0 == Some(public_view(items)[0])
            && public_view(drain(items).1) == public_view(items).drop_first(),
    decreases items.len(),
{
    if items.len() > 0 {
        if is_public(items[0]) {
            let v = public_view(items);
            assert(v == seq![public_form(items[0])] + public_view(items.drop_first()));
            assert(v.drop_first() =~= public_view(items.drop_first()));
        } else {
            lemma_pull_follows_public_view(items.drop_first());
        }
    }
}

/// Appending an entry appends its consumer-visible form at the end of the
/// view (or nothing, for a cursor-position response): entries from both
/// producer paths are seen in the order they were queued.
pub proof fn lemma_push_keeps_order(items: Seq<RawEvent>, x: RawEvent)
    ensures
        public_view(items.push(x)) == (if is_public(x) {
            public_view(items).push(public_form(x))
        } else {
            public_view(items)
        }),
    decreases items.len(),
{
    let ix = items.push(x);
    if items.len() == 0 {
        assert(ix.drop_first() =~= Seq::<RawEvent>::empty());
        assert(public_view(ix.drop_first()) == Seq::<Result<Event, DecodeError>>::empty());
        if is_public(x) {
            assert(public_view(ix) =~= public_view(items).push(public_form(x)));
        }
    } else {
        assert(ix.drop_first() =~= items.drop_first().push(x));
        lemma_push_keeps_order(items.drop_first(), x);
        if is_public(items[0]) && is_public(x) {
            assert(public_view(ix) =~= public_view(items).push(public_form(x)));
        }
    }
}

/// The answer of a pull, as a spec value.
pub open spec fn pulled_of(o: Option<Result<Event, DecodeError>>) -> Pulled {
    match o {
        Some(x) => Pulled::Ready(x),
        None => Pulled::Pending,
    }
}

/// The state shared by the producers and the consumer of a bridge: the FIFO
/// of decoded results, the handle of the task to wake on new data, and
/// whether the bridge has been released (after which nothing is queued).
pub struct Inbox<W> {
    events: VecDeque<RawEvent>,
    waiter: Option<W>,
    released: bool,
}

impl<W> Inbox<W> {
    /// The queued entries, front first.
    pub closed spec fn items(&self) -> Seq<RawEvent> {
        self.events@
    }

    /// The registered task handle, if any.
    pub closed spec fn slot(&self) -> Option<W> {
        self.waiter
    }

    /// Whether the bridge has been released.
    pub closed spec fn released(&self) -> bool {
        self.released
    }

    /// An empty inbox with no registered task, not released.
    pub fn new() -> (r: Self)
        ensures
            r.items() == Seq::<RawEvent>::empty(),
            r.slot() is None,
            !r.released(),
    {
        Inbox { events: VecDeque::new(), waiter: None, released: false }
    }

    /// Number of queued entries, cursor-position responses included.
    pub fn len(&self) -> (r: usize)
        ensures
            r == self.items().len(),
    {
        self.events.len()
    }

    /// Whether nothing is queued.
    pub fn is_empty(&self) -> (r: bool)
        ensures
            r == (self.items().len() == 0),
    {
        self.events.len() == 0
    }

    /// Whether the bridge has been released.
    pub fn is_released(&self) -> (r: bool)
        ensures
            r == self.released(),
    {
        self.released
    }

    /// The registered task handle, if any.
    pub fn waiter(&self) -> (r: Option<&W>)
        ensures
            r matches Some(w) ==> self.slot() == Some(*w),
            r is None <==> self.slot() is None,
    {
        match &self.waiter {
            Some(w) => Some(w),
            None => None,
        }
    }

    /// Appends `item` at the back of the queue, unless the bridge has been
    /// released, in which case nothing changes. Returns whether a registered
    /// task is to be woken.
    pub fn push(&mut self, item: RawEvent) -> (wake: bool)
        ensures
            final(self).slot() == old(self).slot(),
            final(self).released() == old(self).released(),
            old(self).released() ==> final(self).items() == old(self).items() && !wake,
            !old(self).released() ==> final(self).items() == old(self).items().push(item)
                && wake == old(self).slot() is Some,
    {
        if self.released {
            return false;
        }
        self.events.push_back(item);
        self.waiter.is_some()
    }

    /// Queues a resize to `(cols, rows)`, unless the bridge has been released.
    /// Returns whether a registered task is to be woken.
    pub fn push_resize(&mut self, cols: u16, rows: u16) -> (wake: bool)
        ensures
            final(self).slot() == old(self).slot(),
            final(self).released() == old(self).released(),
            old(self).released() ==> final(self).items() == old(self).items() && !wake,
            !old(self).released() ==> final(self).items() == old(self).items().push(
                Ok(InternalEvent::Event(Event::Resize(cols, rows))),
            ) && wake == old(self).slot() is Some,
    {
        self.push(Ok(InternalEvent::Event(Event::Resize(cols, rows))))
    }

    /// Registers `w` as the task to wake, unless a task is registered already:
    /// the first registration is kept.
    pub fn register(&mut self, w: W)
        ensures
            final(self).items() == old(self).items(),
            final(self).released() == old(self).released(),
            final(self).slot() == (if old(self).slot() is Some {
                old(self).slot()
            } else {
                Some(w)
            }),
    {
        if self.waiter.is_none() {
            self.waiter = Some(w);
        }
    }

    /// One pull of the consumer: registers `w` if no task is registered yet,
    /// then pops entries from the front, dropping cursor-position responses,
    /// until an event or an error is found (handed out) or the queue is empty
    /// (`Pending`).
    pub fn poll_next(&mut self, w: W) -> (r: Pulled)
        ensures
            r == pulled_of(drain(old(self).items()).0),
            final(self).items() == drain(old(self).items()).1,
            final(self).released() == old(self).released(),
            final(self).slot() == (if old(self).slot() is Some {
                old(self).slot()
            } else {
                Some(w)
            }),
    {
        self.register(w);
        loop
            invariant
                drain(self.items()) == drain(old(self).items()),
                self.released() == old(self).released(),
                self.slot() == (if old(self).slot() is Some {
                    old(self).slot()
                } else {
                    Some(w)
                }),
            decreases self.items().len(),
        {
            match self.events.pop_front() {
                None => {
                    return Pulled::Pending;
                },
                Some(Ok(InternalEvent::Event(e))) => {
                    return Pulled::Ready(Ok(e));
                },
                Some(Err(e)) => {
                    return Pulled::Ready(Err(e));
                },
                Some(Ok(InternalEvent::CursorPosition(_, _))) => {},
            }
        }
    }

    /// Releases the bridge: entries already queued stay available to pulls,
    /// and nothing is queued any more.
    pub fn release(&mut self)
        ensures
            final(self).items() == old(self).items(),
            final(self).slot() == old(self).slot(),
            final(self).released(),
    {
        self.released = true;
    }
}

} // verus!
