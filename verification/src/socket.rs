//! The socket: the multiplexer that owns the channel set, hands out
//! channel handles, and demultiplexes each inbound frame to the listeners
//! it matches.  The transport connection itself lives outside the library;
//! the socket sees its outbound sender handle and each inbound text frame.

use vstd::pervasive::unreached;
use vstd::prelude::*;

use crate::channel::{
    str_eq, Channel, ChannelView, EventCallback, event_matches, matching_indices,
    lemma_matching_indices_exact,
};
use crate::codec::{decoded_event, decoded_topic, frame_decodes, Frame};
use crate::error::Error;

verus! {

#[verifier::external_type_specification]
#[verifier::external_body]
pub struct ExUrl(url::Url);

/// Whether the URL collaborator accepts the text; the outcome depends on
/// the text alone.
pub uninterp spec fn url_parses(s: Seq<char>) -> bool;

/// Relies on url::Url::parse: `Some` exactly when the text is a
/// well-formed absolute URL.
#[verifier::external_body]
fn parse_url(text: &str) -> (r: Option<url::Url>)
    ensures
        r is Some <==> url_parses(text@),
{
    match url::Url::parse(text) {
        Ok(u) => Some(u),
        Err(_) => None,
    }
}

/// The hit list as index pairs over the mathematical model.
pub open spec fn pair_views(hits: Seq<(usize, usize)>) -> Seq<(int, int)> {
    hits.map_values(|p: (usize, usize)| (p.0 as int, p.1 as int))
}

/// The (channel, listener) pairs of one channel that a frame with `topic`
/// and `event` reaches, the channel standing at index `i`.
pub open spec fn channel_pairs(i: int, c: ChannelView, topic: Seq<char>, event: Seq<char>) -> Seq<
    (int, int),
> {
    if c.topic == topic {
        matching_indices(c.events, event).map_values(|j: int| (i, j))
    } else {
        Seq::empty()
    }
}

/// Every (channel index, listener index) pair that a frame with `topic`
/// and `event` reaches: channels in registration order, listeners in
/// registration order within each channel.
pub open spec fn frame_targets(
    channels: Seq<ChannelView>,
    topic: Seq<char>,
    event: Seq<char>,
) -> Seq<(int, int)>
    decreases channels.len(),
{
    if channels.len() == 0 {
        Seq::empty()
    } else {
        frame_targets(channels.drop_last(), topic, event) + channel_pairs(
            channels.len() - 1,
            channels.last(),
            topic,
            event,
        )
    }
}

/// The socket: URL, connection state, the outbound sender handle once the
/// transport reports in, and the owned channels.
pub struct Socket<C> {
    pub url: url::Url,
    pub socket_tx: Option<futures::channel::mpsc::UnboundedSender<String>>,
    pub connected: bool,
    pub channels: Vec<Channel<C>>,
}

impl<C> Socket<C> {
    /// The mathematical state of the owned channels, in registration
    /// order.
    pub open spec fn channel_views(&self) -> Seq<ChannelView> {
        self.channels@.map_values(|c: Channel<C>| c@)
    }

    /// Builds an unconnected socket.  Fails with `ParseError` exactly when
    /// the URL collaborator rejects the text.
    pub fn new(url: &str) -> (r: Result<Self, Error>)
        ensures
            r is Ok <==> url_parses(url@),
            r matches Ok(s) ==> !s.connected && s.socket_tx is None && s.channel_views()
                =~= Seq::<ChannelView>::empty(),
            r matches Err(e) ==> e == Error::ParseError,
    {
        match parse_url(url) {
            Some(parsed) => Ok(
                Socket { url: parsed, socket_tx: None, connected: false, channels: Vec::new() },
            ),
            None => Err(Error::ParseError),
        }
    }

    /// Installs the transport's outbound sender and marks the socket
    /// connected.  The handshake that produced the sender happens outside
    /// the library; this records its result.
    pub fn connect(&mut self, socket_tx: futures::channel::mpsc::UnboundedSender<String>)
        requires
            !old(self).connected,
        ensures
            final(self).connected,
            final(self).socket_tx == Some(socket_tx),
            final(self).channels == old(self).channels,
            final(self).url == old(self).url,
    {
        self.socket_tx = Some(socket_tx);
        self.connected = true;
    }

    /// Records the end of the connection's life: the receive loop has
    /// ended (transport closure or an unrecoverable read error), and the
    /// socket is no longer connected.  There is no automatic reconnect.
    pub fn close(&mut self)
        ensures
            !final(self).connected,
            final(self).channels == old(self).channels,
            final(self).url == old(self).url,
            final(self).socket_tx == old(self).socket_tx,
    {
        self.connected = false;
    }

    /// Creates the channel for `topic`, registers it on this socket, and
    /// hands back its handle so listeners can be attached before or after
    /// joining.  The transport sender must already be installed.
    pub fn set_channel(&mut self, topic: String) -> (r: &mut Channel<C>)
        requires
            old(self).socket_tx is Some,
        ensures
            (*r)@.topic == topic@,
            (*r)@.events == Seq::<Seq<char>>::empty(),
            final(self).channel_views() =~= old(self).channel_views().push((*final(r))@),
            final(self).channels@ == old(self).channels@.push(*final(r)),
            final(self).connected == old(self).connected,
            final(self).url == old(self).url,
            final(self).socket_tx is Some,
    {
        let tx = match &self.socket_tx {
            Some(t) => t.clone(),
            None => unreached(),
        };
        let channel = Channel::new(topic, tx);
        self.channels.push(channel);
        let n = self.channels.len() - 1;
        let r = &mut self.channels[n];
        proof {
            assert(old(self).channels@.push(*final(r)) =~= old(self).channels@.push(*r).update(
                n as int,
                *final(r),
            ));
        }
        r
    }

    /// Demultiplexes one decoded frame: dispatches, in registration order,
    /// on every channel whose topic equals the frame's; a skipped
    /// malformed frame (`None`) dispatches nothing.  Returns the (channel,
    /// listener) index pairs invoked: exactly the frame's targets.
    pub fn handle_frame(&self, frame: Option<&Frame>) -> (hits: Vec<(usize, usize)>) where
        C: EventCallback

        ensures
            match frame {
                Some(f) => pair_views(hits@) == frame_targets(
                    self.channel_views(),
                    f.topic@,
                    f.event@,
                ),
                None => hits@ == Seq::<(usize, usize)>::empty(),
            },
    {
        let f = match frame {
            Some(f) => f,
            None => {
                return Vec::new();
            },
        };
        let ghost views = self.channel_views();
        let ghost topic = f.topic@;
        let ghost event = f.event@;
        let mut hits: Vec<(usize, usize)> = Vec::new();
        let mut i: usize = 0;
        while i < self.channels.len()
            invariant
                i <= self.channels.len(),
                views == self.channel_views(),
                topic == f.topic@,
                event == f.event@,
                views.len() == self.channels@.len(),
                pair_views(hits@) == frame_targets(views.take(i as int), topic, event),
            decreases self.channels.len() - i,
        {
            let ghost iv = i as int;
            let ghost base = frame_targets(views.take(iv), topic, event);
            proof {
                assert(views[iv] == self.channels@[iv]@);
                assert(views.take(iv + 1).drop_last() =~= views.take(iv));
                assert(views.take(iv + 1).last() == views[iv]);
            }
            let channel = &self.channels[i];
            if str_eq(channel.topic.as_str(), f.topic.as_str()) {
                let listener_hits = channel.dispatch(f.event.as_str(), &f.payload);
                let ghost mi = matching_indices(views[iv].events, event);
                let mut k: usize = 0;
                while k < listener_hits.len()
                    invariant
                        k <= listener_hits.len(),
                        iv == i as int,
                        listener_hits@.map_values(|j: usize| j as int) == mi,
                        pair_views(hits@) == base + mi.take(k as int).map_values(
                            |j: int| (iv, j),
                        ),
                    decreases listener_hits.len() - k,
                {
                    let ghost hits_pre = hits@;
                    let hit = listener_hits[k];
                    hits.push((i, hit));
                    proof {
                        assert(listener_hits@.map_values(|j: usize| j as int)[k as int]
                            == listener_hits@[k as int] as int);
                        assert(mi[k as int] == hit as int);
                        assert(hits@ == hits_pre.push((i, hit)));
                        assert(hits_pre.push((i, hit))[hits_pre.len() as int] == (i, hit));
                        assert(forall|idx: int|
                            0 <= idx < hits_pre.len() ==> #[trigger] hits_pre.push((i, hit))[idx]
                                == hits_pre[idx]);
                        assert(pair_views(hits@) =~= pair_views(hits_pre).push((iv, mi[k as int])));
                        assert(mi.take(k + 1) =~= mi.take(k as int).push(mi[k as int]));
                        assert(mi.take(k + 1).map_values(|j: int| (iv, j)) =~= mi.take(
                            k as int,
                        ).map_values(|j: int| (iv, j)).push((iv, mi[k as int])));
                        assert(base + mi.take(k + 1).map_values(|j: int| (iv, j)) =~= (base
                            + mi.take(k as int).map_values(|j: int| (iv, j))).push(
                            (iv, mi[k as int]),
                        ));
                    }
                    k += 1;
                }
                proof {
                    assert(mi.take(mi.len() as int) =~= mi);
                    assert(channel_pairs(iv, views[iv], topic, event) == mi.map_values(
                        |j: int| (iv, j),
                    ));
                }
            } else {
                proof {
                    assert(channel_pairs(iv, views[iv], topic, event) =~= Seq::<(int, int)>::empty());
                    assert(base + Seq::<(int, int)>::empty() =~= base);
                }
            }
            i += 1;
        }
        proof {
            assert(views.take(views.len() as int) =~= views);
        }
        hits
    }

    /// One step of the receive loop: decodes one inbound text frame and
    /// dispatches it to exactly the targets of the decoded topic and
    /// event.  Text that does not decode to a complete envelope — not
    /// JSON, or missing a string `topic`, a string `event` or an object
    /// `payload` — is skipped: nothing is invoked and no error surfaces,
    /// so one malformed frame cannot end the loop.
    pub fn handle_text(&self, text: &str) -> (hits: Vec<(usize, usize)>) where C: EventCallback
        ensures
            frame_decodes(text@) ==> pair_views(hits@) == frame_targets(
                self.channel_views(),
                decoded_topic(text@),
                decoded_event(text@),
            ),
            !frame_decodes(text@) ==> hits@ == Seq::<(usize, usize)>::empty(),
    {
        match crate::codec::decode_frame(text) {
            Ok(f) => self.handle_frame(Some(&f)),
            Err(_) => self.handle_frame(None),
        }
    }
}

/// Exactness of demultiplexing: a frame with topic `T` and event `E`
/// reaches a (channel, listener) pair exactly when that channel's topic is
/// `T` and that listener's event is `E` or the wildcard — and it reaches
/// each such pair exactly once.  In particular no listener on a channel
/// with a different topic is reached.
pub proof fn lemma_frame_targets_exact(
    channels: Seq<ChannelView>,
    topic: Seq<char>,
    event: Seq<char>,
)
    ensures
        forall|p: (int, int)| #[trigger] frame_targets(channels, topic, event).contains(p) <==> (0
            <= p.0 < channels.len() && channels[p.0].topic == topic && 0 <= p.1
            < channels[p.0].events.len() && event_matches(channels[p.0].events[p.1], event)),
        frame_targets(channels, topic, event).no_duplicates(),
    decreases channels.len(),
{
    if channels.len() > 0 {
        let n = channels.len() - 1;
        let prefix = channels.drop_last();
        lemma_frame_targets_exact(prefix, topic, event);
        let fp = frame_targets(prefix, topic, event);
        let cp = channel_pairs(n, channels.last(), topic, event);
        let mi = matching_indices(channels.last().events, event);
        lemma_matching_indices_exact(channels.last().events, event);
        assert(forall|k: int| 0 <= k < prefix.len() ==> #[trigger] channels[k] == prefix[k]);
        assert(channels[n as int] == channels.last());

        assert forall|p: (int, int)| #[trigger] cp.contains(p) implies p.0 == n
            && channels.last().topic == topic && mi.contains(p.1) by {
            let idx = choose|idx: int| 0 <= idx < cp.len() && cp[idx] == p;
            assert(mi.map_values(|j: int| (n as int, j))[idx] == (n as int, mi[idx]));
            assert(mi.contains(mi[idx])) by {
                assert(mi[idx] == mi[idx]);
            }
        }
        assert forall|p: (int, int)| p.0 == n && channels.last().topic == topic && mi.contains(
            p.1,
        ) implies #[trigger] cp.contains(p) by {
            let idx = choose|idx: int| 0 <= idx < mi.len() && mi[idx] == p.1;
            assert(cp[idx] == p);
        }
        assert forall|p: (int, int)| #[trigger] (fp + cp).contains(p) implies fp.contains(p)
            || cp.contains(p) by {
            let idx = choose|idx: int| 0 <= idx < (fp + cp).len() && (fp + cp)[idx] == p;
            if idx < fp.len() {
                assert(fp[idx] == p);
            } else {
                assert(cp[idx - fp.len()] == p);
            }
        }
        assert forall|p: (int, int)| fp.contains(p) || cp.contains(p) implies #[trigger] (fp
            + cp).contains(p) by {
            if fp.contains(p) {
                let idx = choose|idx: int| 0 <= idx < fp.len() && fp[idx] == p;
                assert((fp + cp)[idx] == p);
            } else {
                let idx = choose|idx: int| 0 <= idx < cp.len() && cp[idx] == p;
                assert((fp + cp)[fp.len() + idx] == p);
            }
        }

        if channels.last().topic == topic {
            assert(cp.no_duplicates()) by {
                mi.lemma_no_duplicates_injective(|j: int| (n as int, j));
            }
        }
        assert forall|a: int, b: int| 0 <= a < fp.len() && 0 <= b < cp.len() implies fp[a]
            != cp[b] by {
            assert(fp.contains(fp[a]));
            assert(cp.contains(cp[b]));
            assert(fp[a].0 < n && cp[b].0 == n);
        }
        vstd::seq_lib::lemma_no_dup_in_concat(fp, cp);
    }
}

} // verus!
