//! In-process fan-out of what happens in a play session to whoever watches it live. Nothing here
//! is kept: a watcher that drops out misses events until it subscribes again. What a channel is
//! and how it delivers is up to the caller.

use vstd::prelude::*;

use crate::text::{own, same};

verus! {

/// How many events a channel holds back for a slow watcher.
pub const CHANNEL_CAPACITY: usize = 32;

/// What a watcher is told.
#[derive(Clone, Debug, PartialEq, Eq)]
pub enum StreamEvent {
    /// A check-in of the session was created or updated; its JSON body.
    CheckinUpdated(String),
    /// The session has ended; nothing follows.
    SessionEnded,
}

/// The channels of the sessions that are watched. A channel is opened by the first subscription,
/// and dropped by the first event that finds nobody there.
#[derive(Debug)]
pub struct PlaySessionStreams<C> {
    channels: Vec<(String, C)>,
}

/// The first of some entries that belongs to a session.
spec fn entry_of<C>(entries: Seq<(String, C)>, session_id: Seq<char>) -> Option<C>
    decreases entries.len(),
{
    if entries.len() == 0 {
        None
    } else if entries[0].0@ == session_id {
        Some(entries[0].1)
    } else {
        entry_of(entries.drop_first(), session_id)
    }
}

/// An entry at the first index that belongs to the session.
proof fn lemma_entry_at<C>(entries: Seq<(String, C)>, session_id: Seq<char>, k: int)
    requires
        0 <= k < entries.len(),
        entries[k].0@ == session_id,
        forall|j: int| 0 <= j < k ==> (#[trigger] entries[j]).0@ != session_id,
    ensures
        entry_of(entries, session_id) == Some(entries[k].1),
    decreases entries.len(),
{
    if k > 0 {
        assert(entries[0].0@ != session_id);
        let rest = entries.drop_first();
        assert forall|j: int| 0 <= j < k - 1 implies (#[trigger] rest[j]).0@ != session_id by {
            assert(rest[j] == entries[j + 1]);
        }
        lemma_entry_at(rest, session_id, k - 1);
    }
}

/// No entry belongs to the session.
proof fn lemma_entry_none<C>(entries: Seq<(String, C)>, session_id: Seq<char>)
    requires
        forall|j: int| 0 <= j < entries.len() ==> (#[trigger] entries[j]).0@ != session_id,
    ensures
        entry_of(entries, session_id) is None,
    decreases entries.len(),
{
    if entries.len() > 0 {
        let rest = entries.drop_first();
        assert forall|j: int| 0 <= j < rest.len() implies (#[trigger] rest[j]).0@ != session_id by {
            assert(rest[j] == entries[j + 1]);
        }
        lemma_entry_none(rest, session_id);
    }
}

/// One entry more at the end counts for its session where none came before it.
proof fn lemma_entry_push<C>(entries: Seq<(String, C)>, e: (String, C), session_id: Seq<char>)
    ensures
        entry_of(entries.push(e), session_id) == (match entry_of(entries, session_id) {
            Some(c) => Some(c),
            None => if e.0@ == session_id {
                Some(e.1)
            } else {
                None
            },
        }),
    decreases entries.len(),
{
    if entries.len() > 0 {
        assert(entries.push(e).drop_first() =~= entries.drop_first().push(e));
        lemma_entry_push(entries.drop_first(), e, session_id);
    } else {
        assert(entries.push(e).drop_first() =~= entries);
    }
}

/// Removing an entry of another session changes nothing for this one.
proof fn lemma_entry_remove<C>(entries: Seq<(String, C)>, k: int, session_id: Seq<char>)
    requires
        0 <= k < entries.len(),
        entries[k].0@ != session_id,
    ensures
        entry_of(entries.remove(k), session_id) == entry_of(entries, session_id),
    decreases entries.len(),
{
    if k == 0 {
        assert(entries.remove(k) =~= entries.drop_first());
    } else {
        assert(entries.remove(k).drop_first() =~= entries.drop_first().remove(k - 1));
        assert(entries.remove(k)[0] == entries[0]);
        lemma_entry_remove(entries.drop_first(), k - 1, session_id);
    }
}

impl<C> PlaySessionStreams<C> {
    /// The channel of a session, where it is watched.
    pub closed spec fn channel(&self, session_id: Seq<char>) -> Option<C> {
        entry_of(self.channels@, session_id)
    }

    /// No session is watched.
    pub fn new() -> (r: Self)
        ensures
            forall|s: Seq<char>| #[trigger] r.channel(s) is None,
    {
        PlaySessionStreams { channels: Vec::new() }
    }

    /// Where the channel of a session stands.
    fn position(&self, session_id: &str) -> (r: Option<usize>)
        ensures
            match r {
                Some(k) => k < self.channels@.len() && self.channels@[k as int].0@ == session_id@
                    && self.channel(session_id@) == Some(self.channels@[k as int].1),
                None => self.channel(session_id@) is None && forall|j: int|
                    0 <= j < self.channels@.len() ==> (#[trigger] self.channels@[j]).0@
                        != session_id@,
            },
    {
        let mut i: usize = 0;
        while i < self.channels.len()
            invariant
                i <= self.channels@.len(),
                forall|j: int| 0 <= j < i ==> (#[trigger] self.channels@[j]).0@ != session_id@,
            decreases self.channels@.len() - i,
        {
            if same(self.channels[i].0.as_str(), session_id) {
                proof {
                    lemma_entry_at(self.channels@, session_id@, i as int);
                }
                return Some(i);
            }
            i = i + 1;
        }
        proof {
            lemma_entry_none(self.channels@, session_id@);
        }
        None
    }

    /// Watches a session: over the channel that it has, or else over one that `open` makes.
    pub fn subscribe<F: FnOnce() -> C>(&mut self, session_id: &str, open: F) -> (r: &C)
        requires
            old(self).channel(session_id@) is None ==> open.requires(()),
        ensures
            match old(self).channel(session_id@) {
                Some(c) => *r == c,
                None => open.ensures((), *r),
            },
            forall|s: Seq<char>| #[trigger]
                final(self).channel(s) == (if s == session_id@ {
                    Some(*r)
                } else {
                    old(self).channel(s)
                }),
    {
        if let Some(k) = self.position(session_id) {
            return &self.channels[k].1;
        }
        let c = open();
        let ghost before = self.channels@;
        let e = (own(session_id), c);
        self.channels.push(e);
        proof {
            assert forall|s: Seq<char>| #[trigger]
                self.channel(s) == (if s == session_id@ {
                    Some(c)
                } else {
                    old(self).channel(s)
                }) by {
                lemma_entry_push(before, e, s);
            }
        }
        &self.channels[self.channels.len() - 1].1
    }

    /// Drops a session's channel.
    fn drop_channel(&mut self, session_id: &str)
        ensures
            forall|s: Seq<char>| #[trigger]
                final(self).channel(s) == (if s == session_id@ {
                    None
                } else {
                    old(self).channel(s)
                }),
    {
        loop
            invariant_except_break
                forall|s: Seq<char>|
                    s != session_id@ ==> #[trigger] self.channel(s) == old(self).channel(s),
            ensures
                forall|s: Seq<char>| #[trigger]
                    self.channel(s) == (if s == session_id@ {
                        None
                    } else {
                        old(self).channel(s)
                    }),
            decreases self.channels@.len(),
        {
            match self.position(session_id) {
                None => {
                    break;
                },
                Some(k) => {
                    let ghost prior = *self;
                    self.channels.remove(k);
                    proof {
                        assert forall|s: Seq<char>| s != session_id@ implies #[trigger] self.channel(
                            s,
                        ) == old(self).channel(s) by {
                            lemma_entry_remove(prior.channels@, k as int, s);
                            assert(prior.channel(s) == old(self).channel(s));
                        }
                    }
                },
            }
        }
    }

    /// Tells a session's watchers, where there are any: `send` hands the event to the channel and
    /// says whether anybody was there. A channel without watchers is dropped.
    fn publish<F: FnOnce(&C, StreamEvent) -> bool>(
        &mut self,
        session_id: &str,
        event: StreamEvent,
        send: F,
    )
        requires
            old(self).channel(session_id@) matches Some(c) ==> send.requires((&c, event)),
        ensures
            told(*old(self), *final(self), session_id@, event, send),
    {
        let k = match self.position(session_id) {
            Some(k) => k,
            None => {
                return ;
            },
        };
        let ghost c = self.channels@[k as int].1;
        let delivered = send(&self.channels[k].1, event);
        assert(send.ensures((&c, event), delivered));
        if !delivered {
            self.drop_channel(session_id);
        }
    }

    /// Tells a session's watchers of a check-in.
    pub fn publish_checkin<F: FnOnce(&C, StreamEvent) -> bool>(
        &mut self,
        session_id: &str,
        checkin_json: String,
        send: F,
    )
        requires
            old(self).channel(session_id@) matches Some(c) ==> send.requires(
                (&c, StreamEvent::CheckinUpdated(checkin_json)),
            ),
        ensures
            told(
                *old(self),
                *final(self),
                session_id@,
                StreamEvent::CheckinUpdated(checkin_json),
                send,
            ),
    {
        self.publish(session_id, StreamEvent::CheckinUpdated(checkin_json), send)
    }

    /// Tells a session's watchers that it has ended.
    pub fn publish_session_ended<F: FnOnce(&C, StreamEvent) -> bool>(
        &mut self,
        session_id: &str,
        send: F,
    )
        requires
            old(self).channel(session_id@) matches Some(c) ==> send.requires(
                (&c, StreamEvent::SessionEnded),
            ),
        ensures
            told(*old(self), *final(self), session_id@, StreamEvent::SessionEnded, send),
    {
        self.publish(session_id, StreamEvent::SessionEnded, send)
    }
}

impl<C> Default for PlaySessionStreams<C> {
    fn default() -> (r: Self)
        ensures
            forall|s: Seq<char>| #[trigger] r.channel(s) is None,
    {
        PlaySessionStreams::new()
    }
}

/// An event was published for a session. Without a channel nothing happens. With one, the event
/// went to that channel, and the channel is dropped exactly where nobody was there. No other
/// session's channel is touched.
pub open spec fn told<C, F: FnOnce(&C, StreamEvent) -> bool>(
    before: PlaySessionStreams<C>,
    after: PlaySessionStreams<C>,
    session_id: Seq<char>,
    event: StreamEvent,
    send: F,
) -> bool {
    match before.channel(session_id) {
        None => forall|s: Seq<char>| #[trigger] after.channel(s) == before.channel(s),
        Some(c) => exists|delivered: bool| #[trigger]
            send.ensures((&c, event), delivered) && forall|s: Seq<char>| #[trigger]
                after.channel(s) == (if s == session_id && !delivered {
                    None
                } else {
                    before.channel(s)
                }),
    }
}

/// Publishing touches no other session's channel, opens none, and keeps the session's own exactly
/// where the event was delivered.
pub proof fn law_publishing_touches_one_channel<C, F: FnOnce(&C, StreamEvent) -> bool>(
    before: PlaySessionStreams<C>,
    after: PlaySessionStreams<C>,
    session_id: Seq<char>,
    event: StreamEvent,
    send: F,
    s: Seq<char>,
)
    requires
        told(before, after, session_id, event, send),
    ensures
        s != session_id || before.channel(session_id) is None ==> after.channel(s)
            == before.channel(s),
        before.channel(session_id) is Some ==> {
            let c = before.channel(session_id)->0;
            &&& after.channel(session_id) is Some ==> after.channel(session_id) == Some(c)
                && send.ensures((&c, event), true)
            &&& after.channel(session_id) is None ==> send.ensures((&c, event), false)
        },
{
}

} // verus!
