//! The decoded input data model: envelopes, messages, events, and the
//! attribute lists carried by relay-protocol events.

use vstd::prelude::*;

verus! {

/// The attributes of one relay-protocol event: a mapping from attribute
/// key to the ordered list of string values observed under that key.
///
/// Stored as a list of pairs; lookup takes the first pair with a matching
/// key (a decoded JSON object carries each key at most once). Absence of
/// a key is an ordinary condition, not an error.
pub struct InnerEvent {
    /// The attribute pairs, in decoded order.
    pub data: Vec<(String, Vec<String>)>,
}

impl InnerEvent {
    /// The values under `key` in an attribute list, first match first.
    pub open spec fn lookup_in(
        pairs: Seq<(String, Vec<String>)>,
        key: Seq<char>,
    ) -> Option<Seq<Seq<char>>>
        decreases pairs.len(),
    {
        if pairs.len() == 0 {
            None
        } else if pairs[0].0@ == key {
            Some(pairs[0].1.deep_view())
        } else {
            Self::lookup_in(pairs.drop_first(), key)
        }
    }

    /// The values stored under `key`, if the key is present.
    pub open spec fn lookup(&self, key: Seq<char>) -> Option<Seq<Seq<char>>> {
        Self::lookup_in(self.data@, key)
    }

    /// Looks the values under `key` up, returning them by reference.
    pub fn get(&self, key: &String) -> (r: Option<&Vec<String>>)
        ensures
            match r {
                Some(vs) => self.lookup(key@) == Some(vs.deep_view()),
                None => self.lookup(key@) is None,
            },
    {
        let n = self.data.len();
        let mut i: usize = 0;
        proof {
            assert(self.data@.skip(0) =~= self.data@);
        }
        while i < n
            invariant
                0 <= i <= n,
                n == self.data@.len(),
                Self::lookup_in(self.data@, key@) == Self::lookup_in(
                    self.data@.skip(i as int),
                    key@,
                ),
            decreases n - i,
        {
            proof {
                assert(self.data@.skip(i as int)[0] == self.data@[i as int]);
                assert(self.data@.skip(i as int).drop_first() =~= self.data@.skip(i as int + 1));
            }
            if self.data[i].0 == *key {
                return Some(&self.data[i].1);
            }
            i += 1;
        }
        proof {
            assert(self.data@.skip(n as int) =~= Seq::<(String, Vec<String>)>::empty());
        }
        None
    }
}

/// A relay-protocol event. The engine reacts to packet relay attempts
/// and to packet sends observed on a channel; every other event kind is
/// consumed without effect.
pub enum Event {
    /// A packet relay attempt whose origin must be inferred.
    OpaquePacket(InnerEvent),
    /// A packet send observed on a channel.
    PacketTransfer(InnerEvent),
    /// Any other event kind; ignored.
    Other,
}

/// One message of an envelope. Only relay-protocol event messages are
/// acted on; every other message kind is consumed without effect.
pub enum Message {
    /// A relay-protocol event.
    EventIBC(Event),
    /// Any other message kind; ignored.
    Other,
}

/// One decoded input record: the reporting chain identifier and the
/// ordered messages it carries. An envelope exists only for the duration
/// of one observation.
pub struct Envelope {
    /// The chain identifier the record was reported from.
    pub network: String,
    /// The messages of the record, in input order.
    pub msg: Vec<Message>,
}

} // verus!
