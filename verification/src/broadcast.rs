//! The broadcast registry: the connected client handles in connection
//! order and the most recently published event. The asynchronous writes
//! live in the application, which reports back which clients accepted
//! their frame; every decision about the registry is made here.

use vstd::prelude::*;
use crate::codec::json_event;
use crate::status::Event;

verus! {

/// The framing of one event on a streaming connection: a `data:` line
/// carrying the JSON form, closed by a blank line.
pub open spec fn sse_frame(e: Event) -> Seq<char> {
    "data:"@ + json_event(e) + "\n\n"@
}

/// Frame `e` for delivery on a streaming connection, per `sse_frame`.
pub fn frame_event(e: &Event) -> (r: String)
    ensures
        r@ == sse_frame(*e),
{
    let mut out = String::from_str("data:");
    let json = e.to_string();
    out.append(json.as_str());
    out.append("\n\n");
    proof {
        assert(out@ =~= sse_frame(*e));
    }
    out
}

/// The clients of `s` whose flag in `sent` is true, in their original
/// order.
pub open spec fn kept<C>(s: Seq<C>, sent: Seq<bool>) -> Seq<C>
    decreases s.len(),
{
    if s.len() == 0 {
        Seq::<C>::empty()
    } else {
        let prefix = kept(s.drop_last(), sent.drop_last());
        if sent.len() == s.len() && sent.last() {
            prefix.push(s.last())
        } else {
            prefix
        }
    }
}

/// Every client kept a flag for stays exactly when its flag is true, and
/// nothing else gets in: the registry after a publish round holds the
/// clients whose write succeeded, in their original order.
pub proof fn lemma_kept_properties<C>(s: Seq<C>, sent: Seq<bool>)
    requires
        s.len() == sent.len(),
    ensures
        kept(s, sent).len() <= s.len(),
        forall|x: C|
            kept(s, sent).contains(x) ==> exists|j: int| 0 <= j < s.len() && s[j] == x && sent[j],
        forall|j: int| 0 <= j < s.len() && sent[j] ==> kept(s, sent).contains(s[j]),
    decreases s.len(),
{
    if s.len() > 0 {
        lemma_kept_properties(s.drop_last(), sent.drop_last());
        let p = kept(s.drop_last(), sent.drop_last());
        let k = kept(s, sent);
        assert forall|x: C| k.contains(x) implies exists|j: int|
            0 <= j < s.len() && s[j] == x && sent[j] by {
            if p.contains(x) {
                let j = choose|j: int| 0 <= j < s.drop_last().len() && s.drop_last()[j] == x
                    && sent.drop_last()[j];
                assert(s[j] == x && sent[j]);
            } else {
                assert(sent.last() && x == s.last());
                assert(s[s.len() - 1] == x && sent[s.len() - 1]);
            }
        }
        assert forall|j: int| 0 <= j < s.len() && sent[j] implies kept(s, sent).contains(s[j]) by {
            if j < s.len() - 1 {
                assert(s.drop_last()[j] == s[j] && sent.drop_last()[j]);
                assert(p.contains(s[j]));
                let w = choose|w: int| 0 <= w < p.len() && p[w] == s[j];
                assert(k[w] == s[j]);
            } else {
                assert(k.last() == s[j]);
            }
        }
    }
}

/// A client whose write failed, and which holds no other slot with a
/// successful write, is gone from the registry after the round.
pub proof fn lemma_kept_drops_failed<C>(s: Seq<C>, sent: Seq<bool>, i: int)
    requires
        s.len() == sent.len(),
        0 <= i < s.len(),
        !sent[i],
        forall|j: int| 0 <= j < s.len() && s[j] == s[i] ==> j == i,
    ensures
        !kept(s, sent).contains(s[i]),
{
    lemma_kept_properties(s, sent);
    if kept(s, sent).contains(s[i]) {
        let j = choose|j: int| 0 <= j < s.len() && s[j] == s[i] && sent[j];
        assert(j == i);
        assert(false);
    }
}

/// The registry of one broadcaster over client handles of type `C`.
pub struct Broadcaster<C> {
    pub clients: Vec<C>,
    pub last_event: Option<Event>,
}

impl<C> Broadcaster<C> {
    /// An empty registry that has published nothing yet.
    pub fn new() -> (r: Broadcaster<C>)
        ensures
            r.clients@ == Seq::<C>::empty(),
            r.last_event is None,
    {
        Broadcaster { clients: Vec::new(), last_event: None }
    }

    /// Register a new client at the end of the list. It receives no
    /// history; its first frame is whatever is published next.
    pub fn add_client(&mut self, client: C)
        ensures
            final(self).clients@ == old(self).clients@.push(client),
            final(self).last_event == old(self).last_event,
    {
        self.clients.push(client);
    }

    pub fn client_count(&self) -> (r: usize)
        ensures
            r == self.clients@.len(),
    {
        self.clients.len()
    }

    /// Begin publishing `event`: remember it as the last event and hand
    /// back the frame to write to every registered client.
    pub fn begin_publish(&mut self, event: Event) -> (r: String)
        ensures
            final(self).clients == old(self).clients,
            final(self).last_event == Some(event),
            r@ == sse_frame(event),
    {
        let frame = frame_event(&event);
        self.last_event = Some(event);
        frame
    }

    /// Finish a publish round: keep exactly the clients whose write
    /// succeeded, in their original order.
    pub fn prune(&mut self, sent: &Vec<bool>)
        requires
            sent@.len() == old(self).clients@.len(),
        ensures
            final(self).clients@ == kept(old(self).clients@, sent@),
            final(self).last_event == old(self).last_event,
    {
        let ghost orig = self.clients@;
        let mut kept_vec: Vec<C> = Vec::new();
        let mut i: usize = 0;
        while i < sent.len()
            invariant
                sent@.len() == orig.len(),
                i <= sent@.len(),
                self.clients@ == orig.subrange(i as int, orig.len() as int),
                kept_vec@ == kept(orig.take(i as int), sent@.take(i as int)),
                self.last_event == old(self).last_event,
            decreases sent@.len() - i,
        {
            let c = self.clients.remove(0);
            proof {
                assert(orig.subrange(i as int, orig.len() as int).remove(0) =~= orig.subrange(
                    i as int + 1,
                    orig.len() as int,
                ));
                assert(c == orig[i as int]);
            }
            if sent[i] {
                kept_vec.push(c);
            }
            proof {
                assert(orig.take(i as int + 1).drop_last() =~= orig.take(i as int));
                assert(sent@.take(i as int + 1).drop_last() =~= sent@.take(i as int));
                assert(orig.take(i as int + 1).last() == orig[i as int]);
                assert(sent@.take(i as int + 1).last() == sent@[i as int]);
            }
            i += 1;
        }
        self.clients = kept_vec;
        proof {
            assert(orig.take(orig.len() as int) =~= orig);
            assert(sent@.take(sent@.len() as int) =~= sent@);
        }
    }

    /// The most recently published event, if any.
    pub fn last_event(&self) -> (r: &Option<Event>)
        ensures
            *r == self.last_event,
    {
        &self.last_event
    }

    /// Drop every client after an orderly shutdown broadcast.
    pub fn clear_clients(&mut self)
        ensures
            final(self).clients@ == Seq::<C>::empty(),
            final(self).last_event == old(self).last_event,
    {
        self.clients.clear();
    }
}

} // verus!
