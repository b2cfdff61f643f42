//! The pub/sub channel registry.  A subscribe is a one-shot long poll: it
//! registers on the channel (creating it lazily) and waits for exactly one
//! message.  A publish reaches every subscriber waiting at that moment and
//! reports how many there were; with no channel or no waiting subscriber it
//! fails — nothing is created and nothing is buffered.
use vstd::prelude::*;
use crate::smap::SMap;

verus! {

/// How many one-shot subscribers wait on a channel; zero for an unknown
/// channel.
pub open spec fn waiting_on(m: Map<Seq<char>, u64>, ch: Seq<char>) -> u64 {
    if m.contains_key(ch) {
        m[ch]
    } else {
        0
    }
}

/// What a subscribe leaves: one more subscriber waits on the channel, which
/// is created lazily on its first subscribe.
pub open spec fn subscribe_spec(m: Map<Seq<char>, u64>, ch: Seq<char>) -> Map<Seq<char>, u64> {
    m.insert(
        ch,
        if waiting_on(m, ch) < u64::MAX {
            (waiting_on(m, ch) + 1) as u64
        } else {
            waiting_on(m, ch)
        },
    )
}

/// How many subscribers a publish reaches: the channel's waiting count, or
/// nothing when the channel is unknown or nobody waits.
pub open spec fn publish_count(m: Map<Seq<char>, u64>, ch: Seq<char>) -> Option<u64> {
    if m.contains_key(ch) && m[ch] > 0 {
        Option::Some(m[ch])
    } else {
        Option::None
    }
}

/// What a publish leaves: every waiting one-shot subscriber receives the
/// message and is done, so a delivered channel has nobody waiting.
pub open spec fn publish_spec(m: Map<Seq<char>, u64>, ch: Seq<char>) -> Map<Seq<char>, u64> {
    if publish_count(m, ch) is Some {
        m.insert(ch, 0)
    } else {
        m
    }
}

/// The registry: channel name → waiting one-shot subscribers.
pub struct PubSub {
    channels: SMap<u64>,
}

impl PubSub {
    /// The underlying association is well formed.
    pub closed spec fn wf(&self) -> bool {
        self.channels.wf()
    }

    /// Channel name → waiting subscribers.
    pub closed spec fn view(&self) -> Map<Seq<char>, u64> {
        self.channels@
    }

    /// An empty registry.
    pub fn new() -> (p: Self)
        ensures
            p.wf(),
            p@ == Map::<Seq<char>, u64>::empty(),
    {
        PubSub { channels: SMap::new() }
    }

    /// Register one more one-shot subscriber on the channel, creating the
    /// channel if it is new.  The caller then waits for one message.
    pub fn subscribe(&mut self, channel: &String)
        requires
            old(self).wf(),
        ensures
            final(self).wf(),
            final(self)@ == subscribe_spec(old(self)@, channel@),
    {
        let cur: u64 = match self.channels.take(channel) {
            Option::Some(c) => c,
            Option::None => 0,
        };
        let next: u64 = if cur < u64::MAX {
            cur + 1
        } else {
            cur
        };
        self.channels.insert(channel.clone(), next);
        proof {
            assert(old(self)@.remove(channel@).insert(channel@, next) =~= old(self)@.insert(
                channel@,
                next,
            ));
        }
    }

    /// Deliver to every waiting subscriber and report how many there were;
    /// fail without effect when the channel is unknown or nobody waits.
    pub fn publish(&mut self, channel: &String) -> (r: Option<u64>)
        requires
            old(self).wf(),
        ensures
            final(self).wf(),
            r == publish_count(old(self)@, channel@),
            final(self)@ == publish_spec(old(self)@, channel@),
    {
        match self.channels.take(channel) {
            Option::None => {
                proof {
                    assert(old(self)@.remove(channel@) =~= old(self)@);
                }
                None
            },
            Option::Some(c) => {
                if c > 0 {
                    self.channels.insert(channel.clone(), 0);
                    proof {
                        assert(old(self)@.remove(channel@).insert(channel@, 0u64) =~= old(
                            self,
                        )@.insert(channel@, 0u64));
                    }
                    Some(c)
                } else {
                    self.channels.insert(channel.clone(), c);
                    proof {
                        assert(old(self)@.remove(channel@).insert(channel@, c) =~= old(self)@);
                    }
                    None
                }
            },
        }
    }
}

/// Pub/sub is one-shot: a publish on a channel nobody has subscribed to
/// fails; after one subscribe on a fresh registry, a publish reaches exactly
/// one subscriber, and afterwards nobody waits any more.
pub proof fn lemma_pubsub_one_shot(ch: Seq<char>)
    ensures
        publish_count(Map::<Seq<char>, u64>::empty(), ch) is None,
        publish_count(subscribe_spec(Map::<Seq<char>, u64>::empty(), ch), ch) == Option::Some(
            1u64,
        ),
        waiting_on(publish_spec(subscribe_spec(Map::<Seq<char>, u64>::empty(), ch), ch), ch)
            == 0,
{
}

} // verus!
